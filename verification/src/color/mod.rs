//! The color subsystem: grading color spaces, the pipeline plan, LUT files,
//! tone-mapping operators and color errors.

pub mod color_space;
pub mod error;
pub mod lut;
pub mod pipeline;
pub mod tonemapping;
