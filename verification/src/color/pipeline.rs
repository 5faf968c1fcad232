//! The color transform pipeline's plan: which conversions lead from the
//! input space through the working space to the output space.

use vstd::prelude::*;
use crate::color::color_space::{linear_light, ColorSpace};

verus! {

/// One step of a color pipeline; each names the space whose transfer curve
/// or primaries it uses.
#[derive(Debug, Clone, Copy, PartialEq, Eq, Structural)]
pub enum ColorStep {
    /// Decode the space's transfer curve to linear light.
    ToLinear(ColorSpace),
    /// Convert the space's RGB to CIE XYZ.
    ToXyz(ColorSpace),
    /// Convert CIE XYZ to the space's RGB.
    FromXyz(ColorSpace),
    /// Encode linear light with the space's transfer curve.
    FromLinear(ColorSpace),
}

/// The steps from `input` to `working`: nothing when they are the same
/// space, else decode the input (unless it is linear) and go through XYZ.
pub open spec fn input_steps(input: ColorSpace, working: ColorSpace) -> Seq<ColorStep> {
    if input == working {
        Seq::empty()
    } else if linear_light(input) {
        seq![ColorStep::ToXyz(input), ColorStep::FromXyz(working)]
    } else {
        seq![ColorStep::ToLinear(input), ColorStep::ToXyz(input), ColorStep::FromXyz(working)]
    }
}

/// The steps from `working` to `output`: nothing when they are the same
/// space, else go through XYZ and encode the output (unless it is linear).
pub open spec fn output_steps(working: ColorSpace, output: ColorSpace) -> Seq<ColorStep> {
    if working == output {
        Seq::empty()
    } else if linear_light(output) {
        seq![ColorStep::ToXyz(working), ColorStep::FromXyz(output)]
    } else {
        seq![ColorStep::ToXyz(working), ColorStep::FromXyz(output), ColorStep::FromLinear(output)]
    }
}

/// The operation chain of a pipeline from `input` through `working` to
/// `output`. A pipeline whose three spaces agree does nothing.
pub fn build_steps(input: ColorSpace, working: ColorSpace, output: ColorSpace) -> (steps: Vec<ColorStep>)
    ensures
        steps@ == input_steps(input, working) + output_steps(working, output),
        input == working && working == output ==> steps.len() == 0,
{
    let mut steps: Vec<ColorStep> = Vec::new();
    if input != working {
        if !input.is_linear() {
            steps.push(ColorStep::ToLinear(input));
        }
        steps.push(ColorStep::ToXyz(input));
        steps.push(ColorStep::FromXyz(working));
    }
    let ghost first = steps@;
    if working != output {
        steps.push(ColorStep::ToXyz(working));
        steps.push(ColorStep::FromXyz(output));
        if !output.is_linear() {
            steps.push(ColorStep::FromLinear(output));
        }
    }
    assert(first =~= input_steps(input, working));
    assert(steps@ =~= input_steps(input, working) + output_steps(working, output));
    steps
}

/// The shape of every plan. Going from `input` to a different `working`
/// space always passes through XYZ with the input's primaries and then the
/// working space's (`ToXyz(input)`, `FromXyz(working)`), preceded by
/// decoding the input exactly when it is not linear light, whether or not
/// the input is linear; going from `working` on to a different `output`
/// passes through XYZ the other way and then encodes the output exactly when
/// it is not linear light. A leg between equal spaces adds no step.
pub proof fn lemma_plan_shape(input: ColorSpace, working: ColorSpace, output: ColorSpace)
    ensures
        ({
            let s = input_steps(input, working) + output_steps(working, output);
            let a: int = if input == working { 0 } else if linear_light(input) { 2 } else { 3 };
            let b: int = if working == output { 0 } else if linear_light(output) { 2 } else { 3 };
            &&& s.len() == a + b
            &&& input != working ==> s[a - 2] == ColorStep::ToXyz(input) && s[a - 1]
                == ColorStep::FromXyz(working) && (!linear_light(input) <==> s[0] == ColorStep::ToLinear(
                input,
            ))
            &&& working != output ==> s[a] == ColorStep::ToXyz(working) && s[a + 1]
                == ColorStep::FromXyz(output) && (!linear_light(output) <==> s.len() == a + 3 && s[a + 2]
                == ColorStep::FromLinear(output))
        }),
{
}

} // verus!
