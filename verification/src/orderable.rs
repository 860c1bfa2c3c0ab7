use vstd::prelude::*;

use core::cmp::Ordering;
use vstd::std_specs::cmp::{PartialEqSpecImpl, PartialOrdSpecImpl};
use vstd::std_specs::convert::FromSpecImpl;
use vstd::multiset::Multiset;

verus! {

/// An epoch (or other id) together with the value by which it is ranked.
/// Two of them are equal when their ids are; they are ordered by their values.
#[derive(Clone, Copy, Debug)]
pub struct Orderable {
    pub epoch: u64,
    pub ordering: u64,
}

impl PartialEq for Orderable {
    fn eq(&self, other: &Self) -> (r: bool) {
        self.epoch == other.epoch
    }
}

impl PartialEqSpecImpl for Orderable {
    open spec fn obeys_eq_spec() -> bool {
        true
    }

    open spec fn eq_spec(&self, other: &Self) -> bool {
        self.epoch == other.epoch
    }
}

impl Eq for Orderable {
}

impl PartialOrd for Orderable {
    fn partial_cmp(&self, other: &Self) -> (r: Option<Ordering>) {
        if self.ordering < other.ordering {
            Some(Ordering::Less)
        } else if self.ordering > other.ordering {
            Some(Ordering::Greater)
        } else {
            Some(Ordering::Equal)
        }
    }
}

impl PartialOrdSpecImpl for Orderable {
    open spec fn obeys_partial_cmp_spec() -> bool {
        true
    }

    open spec fn partial_cmp_spec(&self, other: &Self) -> Option<Ordering> {
        if self.ordering < other.ordering {
            Some(Ordering::Less)
        } else if self.ordering > other.ordering {
            Some(Ordering::Greater)
        } else {
            Some(Ordering::Equal)
        }
    }
}

impl From<(u64, u64)> for Orderable {
    fn from(from: (u64, u64)) -> (r: Self) {
        Orderable { epoch: from.0, ordering: from.1 }
    }
}

impl FromSpecImpl<(u64, u64)> for Orderable {
    open spec fn obeys_from_spec() -> bool {
        true
    }

    open spec fn from_spec(from: (u64, u64)) -> Self {
        Orderable { epoch: from.0, ordering: from.1 }
    }
}

/// Values in non-decreasing order of their ranking values.
pub open spec fn sorted_by_ordering(s: Seq<Orderable>) -> bool {
    forall|a: int, b: int| 0 <= a < b < s.len() ==> s[a].ordering <= s[b].ordering
}

/// The same values, in non-decreasing order of their ranking values.
pub fn sort_by_ordering(v: Vec<Orderable>) -> (r: Vec<Orderable>)
    ensures
        r@.to_multiset() == v@.to_multiset(),
        sorted_by_ordering(r@),
{
    broadcast use vstd::seq_lib::group_to_multiset_ensures;
    broadcast use vstd::multiset::group_multiset_axioms;

    let mut rem = v;
    let mut out: Vec<Orderable> = Vec::new();
    let ghost orig = rem@;
    while rem.len() > 0
        invariant
            out@.to_multiset().add(rem@.to_multiset()) == orig.to_multiset(),
            sorted_by_ordering(out@),
            forall|a: int, b: int|
                0 <= a < out@.len() && 0 <= b < rem@.len() ==> out@[a].ordering <= rem@[b].ordering,
        decreases rem@.len(),
    {
        let mut m: usize = 0;
        let mut j: usize = 1;
        while j < rem.len()
            invariant
                0 <= m < rem@.len(),
                1 <= j <= rem@.len(),
                forall|b: int| 0 <= b < j ==> rem@[m as int].ordering <= #[trigger] rem@[b].ordering,
            decreases rem@.len() - j,
        {
            if rem[j].ordering < rem[m].ordering {
                m = j;
            }
            j = j + 1;
        }
        let ghost rem0 = rem@;
        let ghost out0 = out@;
        let e = rem.remove(m);
        out.push(e);
        proof {
            vstd::seq_lib::to_multiset_remove(rem0, m as int);
            assert(out@ == out0.push(e));
            vstd::seq_lib::to_multiset_build(out0, e);
            assert(rem@ == rem0.remove(m as int));
            assert(e == rem0[m as int]);
            assert(rem0.contains(e));
            vstd::seq_lib::to_multiset_contains(rem0, e);
            assert(rem0.to_multiset().count(e) > 0);
            assert(out@.to_multiset().add(rem@.to_multiset()) =~= out0.to_multiset().add(
                rem0.to_multiset(),
            ));
            assert forall|a: int, b: int|
                0 <= a < out@.len() && 0 <= b < rem@.len() implies out@[a].ordering
                <= rem@[b].ordering by {
                let bb = if b < m { b } else { b + 1 };
                assert(rem@[b] == rem0[bb]);
                if a < out0.len() {
                    assert(out@[a] == out0[a]);
                } else {
                    assert(out@[a] == rem0[m as int]);
                }
            }
            assert forall|a: int, b: int|
                0 <= a < b < out@.len() implies out@[a].ordering <= out@[b].ordering by {
                if b < out0.len() {
                    assert(out@[a] == out0[a]);
                    assert(out@[b] == out0[b]);
                } else {
                    assert(out@[a] == out0[a]);
                    assert(out@[b] == rem0[m as int]);
                }
            }
        }
    }
    proof {
        assert(rem@.to_multiset() =~= Multiset::empty());
        assert(out@.to_multiset().add(rem@.to_multiset()) =~= out@.to_multiset());
    }
    out
}

} // verus!
