//! The order of times: that of their counts of milliseconds.

use crate::time::Time;
use std::cmp::Ordering;
use vstd::prelude::*;

verus! {

impl PartialOrd for Time {
    fn partial_cmp(&self, other: &Time) -> (order: Option<Ordering>) {
        if self.milliseconds < other.milliseconds {
            Some(Ordering::Less)
        } else if self.milliseconds > other.milliseconds {
            Some(Ordering::Greater)
        } else {
            Some(Ordering::Equal)
        }
    }
}

impl vstd::std_specs::cmp::PartialOrdSpecImpl for Time {
    open spec fn obeys_partial_cmp_spec() -> bool {
        true
    }

    open spec fn partial_cmp_spec(&self, other: &Time) -> Option<Ordering> {
        if self.milliseconds < other.milliseconds {
            Some(Ordering::Less)
        } else if self.milliseconds > other.milliseconds {
            Some(Ordering::Greater)
        } else {
            Some(Ordering::Equal)
        }
    }
}

} // verus!
