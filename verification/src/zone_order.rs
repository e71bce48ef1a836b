//! Zones order by their offset, so `-08:00 < UTC < +08:00`.

use vstd::prelude::*;
use vstd::std_specs::cmp::PartialOrdSpecImpl;
use core::cmp::Ordering;

use crate::zone::{zone_secs, Zone};

verus! {

/// The three-way comparison of two offsets in seconds.
pub open spec fn offset_order(a: int, b: int) -> Ordering {
    if a < b {
        Ordering::Less
    } else if a == b {
        Ordering::Equal
    } else {
        Ordering::Greater
    }
}

impl PartialOrd for Zone {
    fn partial_cmp(&self, other: &Zone) -> (r: Option<Ordering>) {
        let a = self.offset().as_seconds();
        let b = other.offset().as_seconds();
        if a < b {
            Some(Ordering::Less)
        } else if a == b {
            Some(Ordering::Equal)
        } else {
            Some(Ordering::Greater)
        }
    }
}

impl PartialOrdSpecImpl for Zone {
    open spec fn obeys_partial_cmp_spec() -> bool {
        true
    }

    open spec fn partial_cmp_spec(&self, other: &Zone) -> Option<Ordering> {
        Some(offset_order(zone_secs(*self), zone_secs(*other)))
    }
}

} // verus!
