//! Color spaces that the grading pipeline converts between.

use vstd::prelude::*;

verus! {

/// Supported color spaces.
#[derive(Debug, Clone, Copy, PartialEq, Eq, Structural, Hash)]
pub enum ColorSpace {
    SRGB,
    Rec709,
    Rec2020,
    ACEScg,
    ACEScct,
    DciP3,
    LinearSRGB,
}

/// The color spaces whose values are proportional to light.
pub open spec fn linear_light(c: ColorSpace) -> bool {
    c == ColorSpace::LinearSRGB || c == ColorSpace::ACEScg
}

/// The display name of a color space.
pub open spec fn space_label(c: ColorSpace) -> Seq<char> {
    match c {
        ColorSpace::SRGB => "sRGB"@,
        ColorSpace::Rec709 => "Rec. 709"@,
        ColorSpace::Rec2020 => "Rec. 2020"@,
        ColorSpace::ACEScg => "ACEScg"@,
        ColorSpace::ACEScct => "ACEScct"@,
        ColorSpace::DciP3 => "DCI-P3"@,
        ColorSpace::LinearSRGB => "Linear sRGB"@,
    }
}

impl ColorSpace {
    /// Whether this space uses linear light.
    pub fn is_linear(&self) -> (b: bool)
        ensures
            b == linear_light(*self),
    {
        match self {
            ColorSpace::LinearSRGB => true,
            ColorSpace::ACEScg => true,
            _ => false,
        }
    }

    /// Display name.
    pub fn name(&self) -> (s: &'static str)
        ensures
            s@ == space_label(*self),
    {
        match self {
            ColorSpace::SRGB => "sRGB",
            ColorSpace::Rec709 => "Rec. 709",
            ColorSpace::Rec2020 => "Rec. 2020",
            ColorSpace::ACEScg => "ACEScg",
            ColorSpace::ACEScct => "ACEScct",
            ColorSpace::DciP3 => "DCI-P3",
            ColorSpace::LinearSRGB => "Linear sRGB",
        }
    }
}

} // verus!
