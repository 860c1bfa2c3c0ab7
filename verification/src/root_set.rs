use vstd::prelude::*;

use crate::primitives::Hash256;

verus! {

/// A set of block roots.
pub struct RootSet {
    pub roots: Vec<Hash256>,
}

impl View for RootSet {
    type V = Set<Hash256>;

    open spec fn view(&self) -> Set<Hash256> {
        self.roots@.to_set()
    }
}

impl RootSet {
    pub open spec fn wf(&self) -> bool {
        self.roots@.no_duplicates()
    }

    pub fn new() -> (s: Self)
        ensures
            s.wf(),
            s.roots@.len() == 0,
            s@ == Set::<Hash256>::empty(),
    {
        let s = RootSet { roots: Vec::new() };
        assert(s@ =~= Set::<Hash256>::empty());
        s
    }

    pub fn contains(&self, root: &Hash256) -> (b: bool)
        ensures
            b == self@.contains(*root),
    {
        let mut i: usize = 0;
        while i < self.roots.len()
            invariant
                i <= self.roots@.len(),
                forall|j: int| 0 <= j < i ==> self.roots@[j] != *root,
            decreases self.roots@.len() - i,
        {
            if self.roots[i] == *root {
                assert(self.roots@.contains(*root));
                return true;
            }
            i = i + 1;
        }
        false
    }

    /// Adds a root; tells whether it was not there.
    pub fn insert(&mut self, root: Hash256) -> (added: bool)
        requires
            old(self).wf(),
        ensures
            final(self).wf(),
            final(self)@ == old(self)@.insert(root),
            added == !old(self)@.contains(root),
    {
        if self.contains(&root) {
            assert(old(self)@.insert(root) =~= old(self)@);
            false
        } else {
            self.roots.push(root);
            assert(self@ =~= old(self)@.insert(root)) by {
                assert forall|x: Hash256| self@.contains(x) <==> old(self)@.insert(root).contains(x) by {
                    if x == root {
                        assert(self.roots@[self.roots@.len() - 1] == x);
                    } else if old(self)@.contains(x) {
                        let k = choose|k: int| 0 <= k < old(self).roots@.len() && old(self).roots@[k] == x;
                        assert(self.roots@[k] == x);
                    }
                }
            }
            true
        }
    }
}

/// The votes whose root is not in `known`, in order.
pub open spec fn unknown_votes(votes: Seq<(u64, Hash256)>, known: Set<Hash256>) -> Seq<(u64, Hash256)>
    decreases votes.len(),
{
    if votes.len() == 0 {
        Seq::empty()
    } else {
        let prev = unknown_votes(votes.drop_last(), known);
        if known.contains(votes.last().1) {
            prev
        } else {
            prev.push(votes.last())
        }
    }
}

/// Keeps the votes whose root is not in `known`.
pub fn filter_unknown(votes: &Vec<(u64, Hash256)>, known: &RootSet) -> (r: Vec<(u64, Hash256)>)
    ensures
        r@ == unknown_votes(votes@, known@),
{
    let mut r: Vec<(u64, Hash256)> = Vec::new();
    let mut i: usize = 0;
    while i < votes.len()
        invariant
            i <= votes@.len(),
            r@ == unknown_votes(votes@.take(i as int), known@),
        decreases votes@.len() - i,
    {
        assert(votes@.take(i as int + 1).drop_last() =~= votes@.take(i as int));
        if !known.contains(&votes[i].1) {
            r.push(votes[i]);
        }
        i = i + 1;
    }
    assert(votes@.take(i as int) =~= votes@);
    r
}

} // verus!
