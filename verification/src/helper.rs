//! The helper object through which a host reaches the image operations.

use vstd::prelude::*;
use crate::bounds::PyColorBounds;
use crate::matrix::{Matrix, ProcessError};
use crate::reducer::{frames_agree, is_difference, is_difference_reduce};
use crate::vibration::is_vibration_map;

verus! {

/// A stateless handle on the image operations.
#[derive(Clone, Copy, Debug)]
pub struct PyCvlHelper {}

impl Default for PyCvlHelper {
    fn default() -> (helper: Self) {
        Self::new()
    }
}

impl PyCvlHelper {
    pub fn new() -> (helper: Self) {
        PyCvlHelper {  }
    }

    /// The difference image of consecutive frames: a copy of a lone frame,
    /// else at every position the largest absolute difference between two
    /// consecutive frames. Fails with `ShapeMismatch` where the frames
    /// disagree in shape or element type.
    pub fn difference(&self, frames: &Vec<Matrix>) -> (out: Result<Matrix, ProcessError>)
        requires
            frames@.len() >= 1,
        ensures
            out.is_ok() <==> frames_agree(frames@),
            out.is_err() ==> out == Err::<Matrix, ProcessError>(ProcessError::ShapeMismatch),
            out.is_ok() ==> is_difference(out.unwrap()@, frames@),
    {
        crate::reducer::difference(frames)
    }

    /// The reduced difference image of consecutive frames: the absolute
    /// difference folded from the first frame over each later one. Fails
    /// with `ShapeMismatch` where the frames disagree in shape or element
    /// type.
    pub fn difference_reduce(&self, frames: &Vec<Matrix>) -> (out: Result<Matrix, ProcessError>)
        requires
            frames@.len() >= 1,
        ensures
            out.is_ok() <==> frames_agree(frames@),
            out.is_err() ==> out == Err::<Matrix, ProcessError>(ProcessError::ShapeMismatch),
            out.is_ok() ==> is_difference_reduce(out.unwrap()@, frames@),
    {
        crate::reducer::difference_reduce(frames)
    }

    /// The vibration map of a single-channel frame, coloured by the tiers of
    /// `color_bounds`. Fails with `InvalidParameter` where `neighbours` or
    /// `window_size` is negative, else with `ChannelMismatch` where the frame
    /// is not single-channel.
    pub fn vibration(
        &self,
        frame: &Matrix,
        color_bounds: &PyColorBounds,
        neighbours: i32,
        window_size: i32,
    ) -> (out: Result<Matrix, ProcessError>)
        requires
            neighbours >= 0 && window_size >= 0 && frame@.channels == 1 ==> frame@.rows
                * frame@.columns * 3 <= usize::MAX,
        ensures
            neighbours < 0 || window_size < 0 ==> out == Err::<Matrix, ProcessError>(
                ProcessError::InvalidParameter,
            ),
            neighbours >= 0 && window_size >= 0 && frame@.channels != 1 ==> out == Err::<
                Matrix,
                ProcessError,
            >(ProcessError::ChannelMismatch),
            neighbours >= 0 && window_size >= 0 && frame@.channels == 1 ==> out.is_ok()
                && is_vibration_map(
                out.unwrap()@,
                frame@,
                neighbours as int,
                window_size as int,
                *color_bounds,
            ),
    {
        let bounds = PyColorBounds::new(
            color_bounds.ch1,
            color_bounds.ch2,
            color_bounds.ch3,
            color_bounds.ch4,
        );
        crate::vibration::compute_vibration(frame, neighbours, window_size, &bounds)
    }
}

} // verus!
