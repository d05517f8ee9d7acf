//! The order of field elements, which is that of their residues.

use crate::finite_fields::Felt;
use crate::uint::u256_lt;
use std::cmp::Ordering;
use vstd::prelude::*;
use vstd::std_specs::cmp::PartialOrdSpecImpl;

verus! {

impl PartialOrd for Felt {
    /// Compares the residues.
    fn partial_cmp(&self, other: &Self) -> (r: Option<Ordering>) {
        if u256_lt(&self.inner, &other.inner) {
            Some(Ordering::Less)
        } else if u256_lt(&other.inner, &self.inner) {
            Some(Ordering::Greater)
        } else {
            Some(Ordering::Equal)
        }
    }
}

impl PartialOrdSpecImpl for Felt {
    open spec fn obeys_partial_cmp_spec() -> bool {
        true
    }

    open spec fn partial_cmp_spec(&self, other: &Self) -> Option<Ordering> {
        if self@.inner < other@.inner {
            Some(Ordering::Less)
        } else if self@.inner > other@.inner {
            Some(Ordering::Greater)
        } else {
            Some(Ordering::Equal)
        }
    }
}

} // verus!
