//! Tone-mapping operators that bring HDR values into display range.

use vstd::prelude::*;

verus! {

/// Available tone mapping operators.
#[derive(Debug, Clone, Copy, PartialEq, Eq, Structural)]
pub enum ToneMapOperator {
    Reinhard,
    AcesFilmic,
    Hable,
    AgX,
}

/// The display name of a tone-mapping operator.
pub open spec fn operator_label(op: ToneMapOperator) -> Seq<char> {
    match op {
        ToneMapOperator::Reinhard => "Reinhard"@,
        ToneMapOperator::AcesFilmic => "ACES Filmic"@,
        ToneMapOperator::Hable => "Hable (Uncharted 2)"@,
        ToneMapOperator::AgX => "AgX"@,
    }
}

impl ToneMapOperator {
    /// Display name.
    pub fn name(&self) -> (s: &'static str)
        ensures
            s@ == operator_label(*self),
    {
        match self {
            ToneMapOperator::Reinhard => "Reinhard",
            ToneMapOperator::AcesFilmic => "ACES Filmic",
            ToneMapOperator::Hable => "Hable (Uncharted 2)",
            ToneMapOperator::AgX => "AgX",
        }
    }
}

} // verus!
