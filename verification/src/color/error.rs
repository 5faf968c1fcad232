//! Errors of the color subsystem.

use vstd::prelude::*;
use crate::foundation::timecode::{decimal, push_decimal};

verus! {

/// Color subsystem errors.
#[derive(Debug)]
pub enum ColorError {
    /// A LUT file could not be read as a LUT.
    InvalidLut(String),
    /// The named color space is not supported.
    UnsupportedSpace(String),
    /// Two sizes that must agree do not.
    DimensionMismatch { expected: usize, got: usize },
    /// A value could not be parsed.
    Parse(String),
}

/// The message of a color error.
pub open spec fn color_error_text(e: ColorError) -> Seq<char> {
    match e {
        ColorError::InvalidLut(s) => "invalid LUT format: "@ + s@,
        ColorError::UnsupportedSpace(s) => "unsupported color space: "@ + s@,
        ColorError::DimensionMismatch { expected, got } => "dimension mismatch: expected "@
            + decimal(expected as nat) + ", got "@ + decimal(got as nat),
        ColorError::Parse(s) => "parse error: "@ + s@,
    }
}

impl ColorError {
    /// The human-readable message of this error.
    pub fn message(&self) -> (m: String)
        ensures
            m@ == color_error_text(*self),
    {
        match self {
            ColorError::InvalidLut(s) => {
                let mut out = String::from_str("invalid LUT format: ");
                out.append(s.as_str());
                out
            },
            ColorError::UnsupportedSpace(s) => {
                let mut out = String::from_str("unsupported color space: ");
                out.append(s.as_str());
                out
            },
            ColorError::DimensionMismatch { expected, got } => {
                let mut out = String::from_str("dimension mismatch: expected ");
                push_decimal(&mut out, *expected as u64);
                out.append(", got ");
                push_decimal(&mut out, *got as u64);
                out
            },
            ColorError::Parse(s) => {
                let mut out = String::from_str("parse error: ");
                out.append(s.as_str());
                out
            },
        }
    }
}

} // verus!
