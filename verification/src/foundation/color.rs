//! Color spaces and transfer functions of frames.

use vstd::prelude::*;

verus! {

/// Color space enumeration.
#[derive(Debug, Clone, Copy, PartialEq, Eq, Structural, Hash)]
pub enum ColorSpace {
    /// sRGB (standard display).
    Srgb,
    /// Linear sRGB (for compositing).
    LinearSrgb,
    /// Rec. 709 (HD video).
    Rec709,
    /// Rec. 2020 (HDR video).
    Rec2020,
    /// DCI-P3 (cinema).
    DciP3,
    /// Display P3 (Apple displays).
    DisplayP3,
    /// ACEScg (VFX working space).
    AcesCg,
    /// ACES 2065-1 (interchange).
    Aces2065,
}

impl Default for ColorSpace {
    fn default() -> (c: Self)
        ensures
            c == ColorSpace::Srgb,
    {
        ColorSpace::Srgb
    }
}

/// Transfer function (gamma, OETF or EOTF).
#[derive(Debug, Clone, Copy, PartialEq, Eq, Structural, Hash)]
pub enum TransferFunction {
    /// Linear (gamma 1.0).
    Linear,
    /// sRGB transfer function.
    Srgb,
    /// Rec. 709 transfer function.
    Rec709,
    /// PQ (Perceptual Quantizer) for HDR.
    Pq,
    /// HLG (Hybrid Log-Gamma) for HDR.
    Hlg,
}

impl Default for TransferFunction {
    fn default() -> (t: Self)
        ensures
            t == TransferFunction::Srgb,
    {
        TransferFunction::Srgb
    }
}

/// Combined color space and transfer function.
#[derive(Debug, Clone, Copy, PartialEq, Eq, Structural, Hash)]
pub struct ColorConfig {
    pub space: ColorSpace,
    pub transfer: TransferFunction,
}

impl Default for ColorConfig {
    fn default() -> (c: Self)
        ensures
            c.space == ColorSpace::Srgb,
            c.transfer == TransferFunction::Srgb,
    {
        ColorConfig { space: ColorSpace::Srgb, transfer: TransferFunction::Srgb }
    }
}

impl ColorConfig {
    /// Create a new color configuration.
    pub fn new(space: ColorSpace, transfer: TransferFunction) -> (c: Self)
        ensures
            c.space == space,
            c.transfer == transfer,
    {
        ColorConfig { space, transfer }
    }

    /// Standard sRGB configuration.
    pub fn srgb() -> (c: Self)
        ensures
            c.space == ColorSpace::Srgb,
            c.transfer == TransferFunction::Srgb,
    {
        Self::new(ColorSpace::Srgb, TransferFunction::Srgb)
    }

    /// Linear sRGB (for compositing).
    pub fn linear_srgb() -> (c: Self)
        ensures
            c.space == ColorSpace::LinearSrgb,
            c.transfer == TransferFunction::Linear,
    {
        Self::new(ColorSpace::LinearSrgb, TransferFunction::Linear)
    }

    /// Rec. 709 HD video.
    pub fn rec709() -> (c: Self)
        ensures
            c.space == ColorSpace::Rec709,
            c.transfer == TransferFunction::Rec709,
    {
        Self::new(ColorSpace::Rec709, TransferFunction::Rec709)
    }
}

} // verus!
