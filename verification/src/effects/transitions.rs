//! The built-in transitions between two clips, their settings and names.

use vstd::prelude::*;

verus! {

/// Blend A into B.
#[derive(Debug, Clone, Copy)]
pub struct CrossDissolve;

/// Fade A to black, then black to B.
#[derive(Debug, Clone, Copy)]
pub struct DipToBlack;

/// Fade A to white, then white to B.
#[derive(Debug, Clone, Copy)]
pub struct DipToWhite;

/// Shape of the opening in an iris transition.
#[derive(Debug, Clone, Copy, PartialEq, Eq, Structural)]
pub enum IrisShape {
    Circle,
    Rectangle,
    Diamond,
}

impl Default for IrisShape {
    fn default() -> (s: Self)
        ensures
            s == IrisShape::Circle,
    {
        IrisShape::Circle
    }
}

/// B shows through an opening that grows from the centre.
#[derive(Debug, Clone, Copy)]
pub struct Iris {
    pub shape: IrisShape,
}

impl Default for Iris {
    fn default() -> (i: Self)
        ensures
            i.shape == IrisShape::Circle,
    {
        Iris { shape: IrisShape::Circle }
    }
}

/// Direction in which B pushes A out of the frame.
#[derive(Debug, Clone, Copy, PartialEq, Eq, Structural)]
pub enum PushDirection {
    Left,
    Right,
    Up,
    Down,
}

impl Default for PushDirection {
    fn default() -> (d: Self)
        ensures
            d == PushDirection::Left,
    {
        PushDirection::Left
    }
}

/// B slides in and pushes A out.
#[derive(Debug, Clone, Copy)]
pub struct Push {
    pub direction: PushDirection,
}

impl Default for Push {
    fn default() -> (p: Self)
        ensures
            p.direction == PushDirection::Left,
    {
        Push { direction: PushDirection::Left }
    }
}

/// Direction in which the wipe edge travels.
#[derive(Debug, Clone, Copy, PartialEq, Eq, Structural)]
pub enum WipeDirection {
    Left,
    Right,
    Up,
    Down,
}

impl Default for WipeDirection {
    fn default() -> (d: Self)
        ensures
            d == WipeDirection::Left,
    {
        WipeDirection::Left
    }
}

/// An edge sweeps across the frame, revealing B.
#[derive(Debug, Clone, Copy)]
pub struct Wipe {
    pub direction: WipeDirection,
}

impl Default for Wipe {
    fn default() -> (w: Self)
        ensures
            w.direction == WipeDirection::Left,
    {
        Wipe { direction: WipeDirection::Left }
    }
}

impl CrossDissolve {
    /// The transition's name.
    pub fn name(&self) -> (s: &'static str)
        ensures
            s@ == "Cross Dissolve"@,
    {
        "Cross Dissolve"
    }
}

impl DipToBlack {
    /// The transition's name.
    pub fn name(&self) -> (s: &'static str)
        ensures
            s@ == "Dip to Black"@,
    {
        "Dip to Black"
    }
}

impl DipToWhite {
    /// The transition's name.
    pub fn name(&self) -> (s: &'static str)
        ensures
            s@ == "Dip to White"@,
    {
        "Dip to White"
    }
}

impl Iris {
    /// The transition's name, whatever the shape.
    pub fn name(&self) -> (s: &'static str)
        ensures
            s@ == "Iris"@,
    {
        "Iris"
    }
}

impl Push {
    /// The transition's name, whatever the direction.
    pub fn name(&self) -> (s: &'static str)
        ensures
            s@ == "Push"@,
    {
        "Push"
    }
}

impl Wipe {
    /// The transition's name, whatever the direction.
    pub fn name(&self) -> (s: &'static str)
        ensures
            s@ == "Wipe"@,
    {
        "Wipe"
    }
}

} // verus!
