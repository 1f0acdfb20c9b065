//! Equality and order of containers, both decided by the engine's
//! three-way comparison of the set bits. The lengths play no part.

use vstd::prelude::*;
use vstd::std_specs::cmp::{PartialEqSpecImpl, PartialOrdSpecImpl};
use core::cmp::Ordering;
use crate::bvector::BVector;
use crate::engine::{precedes, same_bits};

verus! {

impl PartialEq for BVector {
    fn eq(&self, other: &Self) -> (equal: bool) {
        let pres = self.engine().compare(other.engine());
        pres == 0
    }
}

impl PartialEqSpecImpl for BVector {
    open spec fn obeys_eq_spec() -> bool {
        true
    }

    /// Two containers are equal where they hold the same set bits.
    open spec fn eq_spec(&self, other: &BVector) -> bool {
        same_bits(self@, other@)
    }
}

impl PartialOrd for BVector {
    fn partial_cmp(&self, other: &Self) -> (order: Option<Ordering>) {
        let pres = self.engine().compare(other.engine());
        match pres {
            0 => Some(Ordering::Equal),
            -1 => Some(Ordering::Less),
            1 => Some(Ordering::Greater),
            _ => None,
        }
    }
}

impl PartialOrdSpecImpl for BVector {
    open spec fn obeys_partial_cmp_spec() -> bool {
        true
    }

    /// At the first position where two containers differ, the one whose bit
    /// is set is the greater.
    open spec fn partial_cmp_spec(&self, other: &BVector) -> Option<Ordering> {
        if same_bits(self@, other@) {
            Some(Ordering::Equal)
        } else if precedes(self@, other@) {
            Some(Ordering::Less)
        } else {
            Some(Ordering::Greater)
        }
    }
}

} // verus!
