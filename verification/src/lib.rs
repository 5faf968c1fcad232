//! ProEdit — verified core logic of a video editor: rational time and
//! timecode, frame buffers, keyframes, edit history and shortcuts, the
//! compositor's layer order and render plan, colour pipeline plans and LUT
//! files, the audio ring buffer and mixer rule, and the exact integer side of
//! the AI analyses.

pub mod ai;
pub mod audio;
pub mod color;
pub mod compositor;
pub mod editor;
pub mod effects;
pub mod foundation;
