//! Foundation types: rational time, frame rates, time ranges and frames.

pub mod color;
pub mod error;
pub mod frame;
pub mod keyframe;
pub mod rational;
pub mod time;
pub mod time_order;
pub mod time_laws;
pub mod timecode;
pub mod timecode_laws;
