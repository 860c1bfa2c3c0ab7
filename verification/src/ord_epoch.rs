use vstd::prelude::*;

use core::cmp::Ordering;
use vstd::std_specs::cmp::{PartialEqSpecImpl, PartialOrdSpecImpl};
use vstd::std_specs::convert::FromSpecImpl;

verus! {

/// An epoch number of the database together with the value by which it is ranked.
/// Two of them are equal when their epochs are; they are ordered by their values.
#[derive(Clone, Copy, Debug)]
pub struct OrderableEpoch {
    pub epoch: i64,
    pub ordering: u64,
}

impl PartialEq for OrderableEpoch {
    fn eq(&self, other: &Self) -> (r: bool) {
        self.epoch == other.epoch
    }
}

impl PartialEqSpecImpl for OrderableEpoch {
    open spec fn obeys_eq_spec() -> bool {
        true
    }

    open spec fn eq_spec(&self, other: &Self) -> bool {
        self.epoch == other.epoch
    }
}

impl Eq for OrderableEpoch {
}

impl PartialOrd for OrderableEpoch {
    fn partial_cmp(&self, other: &Self) -> (r: Option<Ordering>) {
        if self.ordering < other.ordering {
            Some(Ordering::Less)
        } else if self.ordering > other.ordering {
            Some(Ordering::Greater)
        } else {
            Some(Ordering::Equal)
        }
    }
}

impl PartialOrdSpecImpl for OrderableEpoch {
    open spec fn obeys_partial_cmp_spec() -> bool {
        true
    }

    open spec fn partial_cmp_spec(&self, other: &Self) -> Option<Ordering> {
        if self.ordering < other.ordering {
            Some(Ordering::Less)
        } else if self.ordering > other.ordering {
            Some(Ordering::Greater)
        } else {
            Some(Ordering::Equal)
        }
    }
}

impl From<(i64, u64)> for OrderableEpoch {
    fn from(from: (i64, u64)) -> (r: Self) {
        OrderableEpoch { epoch: from.0, ordering: from.1 }
    }
}

impl FromSpecImpl<(i64, u64)> for OrderableEpoch {
    open spec fn obeys_from_spec() -> bool {
        true
    }

    open spec fn from_spec(from: (i64, u64)) -> Self {
        OrderableEpoch { epoch: from.0, ordering: from.1 }
    }
}

} // verus!
