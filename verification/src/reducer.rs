//! Multi-frame differencing: the largest change between consecutive frames,
//! and the running difference folded over a frame sequence.

use vstd::prelude::*;
use crate::matrix::{Matrix, MatrixView, ProcessError};

verus! {

/// The absolute difference of two samples.
pub open spec fn abs_diff(x: u8, y: u8) -> u8 {
    if x >= y {
        (x - y) as u8
    } else {
        (y - x) as u8
    }
}

/// Every frame has the dimensions and element type of the first.
pub open spec fn frames_agree(frames: Seq<Matrix>) -> bool {
    forall|i: int| 0 <= i < frames.len() ==> (#[trigger] frames[i])@.same_shape(frames[0]@)
}

/// The largest absolute difference between two consecutive frames among the
/// first `n` frames, at buffer position `p`.
pub open spec fn largest_step(frames: Seq<Matrix>, p: int, n: int) -> u8
    decreases n,
{
    if n <= 1 {
        0
    } else {
        let before = largest_step(frames, p, n - 1);
        let step = abs_diff(frames[n - 2]@.data[p], frames[n - 1]@.data[p]);
        if step > before {
            step
        } else {
            before
        }
    }
}

/// The running difference over the first `n` frames at buffer position `p`:
/// the first frame's sample, then the absolute difference of the running
/// value and each later frame's sample in turn.
pub open spec fn running_difference(frames: Seq<Matrix>, p: int, n: int) -> u8
    decreases n,
{
    if n <= 1 {
        frames[0]@.data[p]
    } else {
        abs_diff(running_difference(frames, p, n - 1), frames[n - 1]@.data[p])
    }
}

/// `out` is the difference image of `frames`: a copy of a lone frame, else
/// at each position the largest step between consecutive frames.
pub open spec fn is_difference(out: MatrixView, frames: Seq<Matrix>) -> bool {
    &&& out.same_shape(frames[0]@)
    &&& out.data.len() == frames[0]@.data.len()
    &&& forall|p: int|
        0 <= p < out.data.len() ==> #[trigger] out.data[p] == (if frames.len() == 1 {
            frames[0]@.data[p]
        } else {
            largest_step(frames, p, frames.len() as int)
        })
}

/// `out` is the reduced difference image of `frames`: at each position the
/// running difference over all frames.
pub open spec fn is_difference_reduce(out: MatrixView, frames: Seq<Matrix>) -> bool {
    &&& out.same_shape(frames[0]@)
    &&& out.data.len() == frames[0]@.data.len()
    &&& forall|p: int|
        0 <= p < out.data.len() ==> #[trigger] out.data[p] == running_difference(
            frames,
            p,
            frames.len() as int,
        )
}

/// The absolute difference of two samples.
pub fn absolute_difference(x: u8, y: u8) -> (d: u8)
    ensures
        d == abs_diff(x, y),
{
    if x >= y {
        x - y
    } else {
        y - x
    }
}

/// Whether every frame has the shape and element type of the first.
fn shapes_agree(frames: &Vec<Matrix>) -> (agree: bool)
    requires
        frames@.len() >= 1,
    ensures
        agree == frames_agree(frames@),
{
    let mut i: usize = 1;
    while i < frames.len()
        invariant
            1 <= i <= frames@.len(),
            forall|j: int| 0 <= j < i ==> (#[trigger] frames@[j])@.same_shape(frames@[0]@),
        decreases frames@.len() - i,
    {
        if !frames[i].same_shape(&frames[0]) {
            return false;
        }
        i += 1;
    }
    true
}

/// A buffer of `length` copies of `value`.
fn filled_buffer(length: usize, value: u8) -> (buffer: Vec<u8>)
    ensures
        buffer@.len() == length,
        forall|p: int| 0 <= p < length ==> buffer@[p] == value,
{
    let mut buffer: Vec<u8> = Vec::new();
    let mut p: usize = 0;
    while p < length
        invariant
            p <= length,
            buffer@.len() == p,
            forall|q: int| 0 <= q < p ==> buffer@[q] == value,
        decreases length - p,
    {
        buffer.push(value);
        p += 1;
    }
    buffer
}

fn copied_buffer(source: &Vec<u8>) -> (buffer: Vec<u8>)
    ensures
        buffer@ == source@,
{
    let mut buffer: Vec<u8> = Vec::new();
    let mut p: usize = 0;
    while p < source.len()
        invariant
            p <= source@.len(),
            buffer@.len() == p,
            forall|q: int| 0 <= q < p ==> buffer@[q] == source@[q],
        decreases source@.len() - p,
    {
        buffer.push(source[p]);
        p += 1;
    }
    assert(buffer@ =~= source@);
    buffer
}

/// Raises every sample of `largest` to the step from `earlier` to `later`
/// where that step is larger.
fn raise_to_step(largest: Vec<u8>, earlier: &Vec<u8>, later: &Vec<u8>) -> (raised: Vec<u8>)
    requires
        earlier@.len() == largest@.len(),
        later@.len() == largest@.len(),
    ensures
        raised@.len() == largest@.len(),
        forall|p: int|
            0 <= p < largest@.len() ==> #[trigger] raised@[p] == (if abs_diff(
                earlier@[p],
                later@[p],
            ) > largest@[p] {
                abs_diff(earlier@[p], later@[p])
            } else {
                largest@[p]
            }),
{
    let ghost start = largest@;
    let mut largest = largest;
    let mut p: usize = 0;
    while p < largest.len()
        invariant
            p <= largest@.len(),
            largest@.len() == start.len(),
            earlier@.len() == start.len(),
            later@.len() == start.len(),
            forall|q: int| p <= q < start.len() ==> largest@[q] == start[q],
            forall|q: int|
                0 <= q < p ==> #[trigger] largest@[q] == (if abs_diff(earlier@[q], later@[q])
                    > start[q] {
                    abs_diff(earlier@[q], later@[q])
                } else {
                    start[q]
                }),
        decreases largest@.len() - p,
    {
        let step = absolute_difference(earlier[p], later[p]);
        if step > largest[p] {
            largest.set(p, step);
        }
        p += 1;
    }
    largest
}

/// Replaces every sample of `running` by its absolute difference to `next`.
fn step_from(running: Vec<u8>, next: &Vec<u8>) -> (stepped: Vec<u8>)
    requires
        next@.len() == running@.len(),
    ensures
        stepped@.len() == running@.len(),
        forall|p: int|
            0 <= p < running@.len() ==> #[trigger] stepped@[p] == abs_diff(running@[p], next@[p]),
{
    let ghost start = running@;
    let mut running = running;
    let mut p: usize = 0;
    while p < running.len()
        invariant
            p <= running@.len(),
            running@.len() == start.len(),
            next@.len() == start.len(),
            forall|q: int| p <= q < start.len() ==> running@[q] == start[q],
            forall|q: int|
                0 <= q < p ==> #[trigger] running@[q] == abs_diff(start[q], next@[q]),
        decreases running@.len() - p,
    {
        let step = absolute_difference(running[p], next[p]);
        running.set(p, step);
        p += 1;
    }
    running
}

/// The difference image of a frame sequence.
///
/// A lone frame is copied. For two or more frames every sample of the result
/// is the largest absolute difference between that sample in two consecutive
/// frames: it is zero exactly where the sample never changed from one frame
/// to the next. The result has the shape and element type of the frames.
///
/// Fails with `ShapeMismatch` where a frame differs from the first in
/// dimensions or element type.
pub fn difference(frames: &Vec<Matrix>) -> (out: Result<Matrix, ProcessError>)
    requires
        frames@.len() >= 1,
    ensures
        out.is_ok() <==> frames_agree(frames@),
        out.is_err() ==> out == Err::<Matrix, ProcessError>(ProcessError::ShapeMismatch),
        out.is_ok() ==> is_difference(out.unwrap()@, frames@),
{
    if !shapes_agree(frames) {
        return Err(ProcessError::ShapeMismatch);
    }
    let first = &frames[0];
    let count = frames.len();
    let length = first.to_buffer().len();
    let mut largest = if count == 1 {
        copied_buffer(first.to_buffer())
    } else {
        filled_buffer(length, 0)
    };
    let mut i: usize = 1;
    while i < count
        invariant
            1 <= i <= count,
            count == frames@.len(),
            frames_agree(frames@),
            frames@[0]@.well_formed(),
            length == frames@[0]@.data.len(),
            largest@.len() == length,
            count == 1 ==> largest@ == frames@[0]@.data,
            count > 1 ==> forall|p: int|
                0 <= p < length ==> #[trigger] largest@[p] == largest_step(frames@, p, i as int),
        decreases count - i,
    {
        let earlier = frames[i - 1].to_buffer();
        let later = frames[i].to_buffer();
        assert(frames@[i - 1]@.same_shape(frames@[0]@));
        assert(frames@[i as int]@.same_shape(frames@[0]@));
        largest = raise_to_step(largest, earlier, later);
        i += 1;
    }
    let made = Matrix::assemble(
        first.rows(),
        first.columns(),
        first.channels(),
        first.element_type(),
        largest,
    );
    Ok(made)
}

/// The reduced difference image of a frame sequence.
///
/// The first frame is the running value; each later frame in turn replaces
/// it by the absolute difference of the running value and that frame. A lone
/// frame is copied. The result has the shape and element type of the frames.
///
/// Fails with `ShapeMismatch` where a frame differs from the first in
/// dimensions or element type.
pub fn difference_reduce(frames: &Vec<Matrix>) -> (out: Result<Matrix, ProcessError>)
    requires
        frames@.len() >= 1,
    ensures
        out.is_ok() <==> frames_agree(frames@),
        out.is_err() ==> out == Err::<Matrix, ProcessError>(ProcessError::ShapeMismatch),
        out.is_ok() ==> is_difference_reduce(out.unwrap()@, frames@),
{
    if !shapes_agree(frames) {
        return Err(ProcessError::ShapeMismatch);
    }
    let first = &frames[0];
    let count = frames.len();
    let mut running = copied_buffer(first.to_buffer());
    let mut i: usize = 1;
    while i < count
        invariant
            1 <= i <= count,
            count == frames@.len(),
            frames_agree(frames@),
            frames@[0]@.well_formed(),
            running@.len() == frames@[0]@.data.len(),
            forall|p: int|
                0 <= p < running@.len() ==> #[trigger] running@[p] == running_difference(
                    frames@,
                    p,
                    i as int,
                ),
        decreases count - i,
    {
        let next = frames[i].to_buffer();
        assert(frames@[i as int]@.same_shape(frames@[0]@));
        running = step_from(running, next);
        i += 1;
    }
    let made = Matrix::assemble(
        first.rows(),
        first.columns(),
        first.channels(),
        first.element_type(),
        running,
    );
    Ok(made)
}

/// The difference image of two identical frames is zero everywhere and has
/// their shape.
pub proof fn lemma_difference_of_identical_pair(out: MatrixView, a: Matrix, b: Matrix)
    requires
        a@ == b@,
        is_difference(out, seq![a, b]),
    ensures
        out.same_shape(a@),
        out.data.len() == a@.data.len(),
        forall|p: int| 0 <= p < out.data.len() ==> out.data[p] == 0,
{
    let frames = seq![a, b];
    assert forall|p: int| 0 <= p < out.data.len() implies out.data[p] == 0 by {
        reveal_with_fuel(largest_step, 3);
        assert(out.data[p] == largest_step(frames, p, 2));
    }
}

/// The difference image of a pair of frames does not depend on their order:
/// both orders agree in shape or neither does, and both give the same image.
pub proof fn lemma_difference_of_pair_is_symmetric(
    forward: MatrixView,
    backward: MatrixView,
    a: Matrix,
    b: Matrix,
)
    requires
        is_difference(forward, seq![a, b]),
        is_difference(backward, seq![b, a]),
        a@.same_shape(b@),
        a@.well_formed(),
        b@.well_formed(),
    ensures
        frames_agree(seq![a, b]),
        frames_agree(seq![b, a]),
        forward == backward,
{
    let ab = seq![a, b];
    let ba = seq![b, a];
    assert forall|p: int| 0 <= p < forward.data.len() implies forward.data[p]
        == backward.data[p] by {
        reveal_with_fuel(largest_step, 3);
        assert(forward.data[p] == largest_step(ab, p, 2));
        assert(backward.data[p] == largest_step(ba, p, 2));
    }
    assert(forward.data =~= backward.data);
}

/// A pair of frames that disagree in shape or element type disagrees in
/// either order.
pub proof fn lemma_pair_agreement_is_symmetric(a: Matrix, b: Matrix)
    ensures
        frames_agree(seq![a, b]) <==> a@.same_shape(b@),
        frames_agree(seq![a, b]) <==> frames_agree(seq![b, a]),
{
    let ab = seq![a, b];
    let ba = seq![b, a];
    if frames_agree(ab) {
        assert(ab[1]@.same_shape(ab[0]@));
    }
    if frames_agree(ba) {
        assert(ba[1]@.same_shape(ba[0]@));
    }
}

/// The largest step over the first `n` frames is zero at a position exactly
/// where all of them hold the same sample there: a sample that changed at
/// least once between consecutive frames keeps a nonzero difference.
pub proof fn lemma_largest_step_is_zero_where_still(frames: Seq<Matrix>, p: int, n: int)
    requires
        1 <= n <= frames.len(),
    ensures
        largest_step(frames, p, n) == 0 <==> (forall|i: int|
            0 <= i < n ==> (#[trigger] frames[i])@.data[p] == frames[0]@.data[p]),
    decreases n,
{
    if n > 1 {
        lemma_largest_step_is_zero_where_still(frames, p, n - 1);
        let still_before = forall|i: int|
            0 <= i < n - 1 ==> (#[trigger] frames[i])@.data[p] == frames[0]@.data[p];
        let still = forall|i: int|
            0 <= i < n ==> (#[trigger] frames[i])@.data[p] == frames[0]@.data[p];
        if still {
            assert(frames[n - 1]@.data[p] == frames[0]@.data[p]);
            assert(frames[n - 2]@.data[p] == frames[0]@.data[p]);
            assert(still_before);
        }
        if largest_step(frames, p, n) == 0 {
            assert(still_before);
            assert(frames[n - 2]@.data[p] == frames[0]@.data[p]);
            assert(still);
        }
    }
}

/// On a pair of frames both operations give the absolute difference of the
/// two; the running difference of a lone frame is the frame itself.
pub proof fn lemma_pair_operations_agree(frames: Seq<Matrix>, p: int)
    requires
        frames.len() >= 2,
    ensures
        running_difference(frames, p, 1) == frames[0]@.data[p],
        running_difference(frames, p, 2) == abs_diff(frames[0]@.data[p], frames[1]@.data[p]),
        largest_step(frames, p, 2) == running_difference(frames, p, 2),
{
    reveal_with_fuel(running_difference, 3);
    reveal_with_fuel(largest_step, 3);
}

} // verus!
