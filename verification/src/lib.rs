//! Analytic image operations on video frames: activity-tier classification,
//! multi-frame differencing and the vibration map.

pub mod bounds;
pub mod helper;
pub mod matrix;
pub mod reducer;
pub mod vibration;
