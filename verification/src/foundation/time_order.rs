//! Ordering of times by the number of seconds they denote.

use vstd::prelude::*;
use core::cmp::Ordering;
use vstd::std_specs::cmp::PartialOrdSpecImpl;
use crate::foundation::time::RationalTime;

verus! {

impl PartialOrd for RationalTime {
    fn partial_cmp(&self, other: &RationalTime) -> (r: Option<Ordering>) {
        if self.lt_value(*other) {
            Some(Ordering::Less)
        } else if other.lt_value(*self) {
            Some(Ordering::Greater)
        } else {
            Some(Ordering::Equal)
        }
    }
}

impl PartialOrdSpecImpl for RationalTime {
    open spec fn obeys_partial_cmp_spec() -> bool {
        true
    }

    open spec fn partial_cmp_spec(&self, other: &RationalTime) -> Option<Ordering> {
        if self.before(*other) {
            Some(Ordering::Less)
        } else if other.before(*self) {
            Some(Ordering::Greater)
        } else {
            Some(Ordering::Equal)
        }
    }
}

} // verus!
