//! The order of block indices: by the block hash, and by the coordinates
//! where two hashes agree.

use vstd::prelude::*;
use vstd::std_specs::cmp::PartialOrdSpecImpl;
use core::cmp::Ordering;
use crate::block_set::{comes_before, precedes};
use crate::index::BlockIndex;

verus! {

impl<const VPS: usize> PartialOrd for BlockIndex<VPS> {
    fn partial_cmp(&self, other: &Self) -> (r: Option<Ordering>) {
        if comes_before(self, other) {
            Some(Ordering::Less)
        } else if comes_before(other, self) {
            Some(Ordering::Greater)
        } else {
            proof {
                crate::block_set::lemma_precedes_total_order::<VPS>();
            }
            Some(Ordering::Equal)
        }
    }
}

impl<const VPS: usize> PartialOrdSpecImpl for BlockIndex<VPS> {
    open spec fn obeys_partial_cmp_spec() -> bool {
        true
    }

    open spec fn partial_cmp_spec(&self, other: &Self) -> Option<Ordering> {
        if precedes(*self, *other) {
            Some(Ordering::Less)
        } else if precedes(*other, *self) {
            Some(Ordering::Greater)
        } else {
            Some(Ordering::Equal)
        }
    }
}

} // verus!
