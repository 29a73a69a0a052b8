//! The order of axial coordinates: by `q`, then by `r`.

use vstd::prelude::*;
use core::cmp::Ordering;
use vstd::std_specs::cmp::PartialOrdSpecImpl;
use crate::coords::axial::AxialCoords;

verus! {

impl PartialOrd for AxialCoords {
    fn partial_cmp(&self, other: &Self) -> (out: Option<Ordering>) {
        if self.q < other.q {
            Some(Ordering::Less)
        } else if self.q > other.q {
            Some(Ordering::Greater)
        } else if self.r < other.r {
            Some(Ordering::Less)
        } else if self.r > other.r {
            Some(Ordering::Greater)
        } else {
            Some(Ordering::Equal)
        }
    }
}

impl PartialOrdSpecImpl for AxialCoords {
    open spec fn obeys_partial_cmp_spec() -> bool {
        true
    }

    open spec fn partial_cmp_spec(&self, other: &Self) -> Option<Ordering> {
        if self.q < other.q {
            Some(Ordering::Less)
        } else if self.q > other.q {
            Some(Ordering::Greater)
        } else if self.r < other.r {
            Some(Ordering::Less)
        } else if self.r > other.r {
            Some(Ordering::Greater)
        } else {
            Some(Ordering::Equal)
        }
    }
}

} // verus!
