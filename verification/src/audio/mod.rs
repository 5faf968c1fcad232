//! Audio engine pieces: the solo rule of the mixer and the sample ring
//! buffer between mixer and output.

pub mod mixer;
pub mod ring_buffer;
