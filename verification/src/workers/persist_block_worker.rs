use vstd::prelude::*;

use crate::assoc::{assoc_map, distinct_keys, find_key, lemma_assoc_dom, lemma_assoc_get};
use crate::block_state::{Attestation, BlockState};
use crate::primitives::{Hash256, Slot};
use crate::text::{decimal, hash_hex};
use crate::types::clock::Clock;
use crate::types::consolidated_block::{
    attestation_models_of, block_extended_row_of, AttestationModelsWithId,
    BlockExtendedModelWithId, BlockModelWithId, BlockRootModelWithId, CommitteeModel,
    CommitteeModelsWithId, ConsolidatedBlock,
};
use crate::types::meta::BlocksMeta;

verus! {

/// The members of a committee whose bit is set, in committee order.
pub open spec fn set_members(committee: Seq<u64>, bits: Seq<bool>) -> Seq<u64>
    decreases committee.len(),
{
    if committee.len() == 0 || bits.len() < committee.len() {
        Seq::empty()
    } else {
        let k = committee.len() - 1;
        let rest = set_members(committee.drop_last(), bits.take(k));
        if bits[k] {
            rest.push(committee.last())
        } else {
            rest
        }
    }
}

/// Integers in non-decreasing order.
pub open spec fn sorted_u64(s: Seq<u64>) -> bool {
    forall|a: int, b: int| 0 <= a < b < s.len() ==> s[a] <= s[b]
}

/// Whether `r` lists the attesting validators of a committee: those whose bit is set,
/// in increasing order.
pub open spec fn is_attesting_indices(committee: Seq<u64>, bits: Seq<bool>, r: Seq<u64>) -> bool {
    &&& sorted_u64(r)
    &&& r.to_multiset() == set_members(committee, bits).to_multiset()
}

/// The same integers, in non-decreasing order.
pub fn sort_u64s(v: Vec<u64>) -> (r: Vec<u64>)
    ensures
        r@.to_multiset() == v@.to_multiset(),
        sorted_u64(r@),
{
    broadcast use vstd::multiset::group_multiset_axioms;
    broadcast use vstd::seq_lib::group_to_multiset_ensures;

    let mut rem = v;
    let mut out: Vec<u64> = Vec::new();
    let ghost orig = rem@;
    while rem.len() > 0
        invariant
            out@.to_multiset().add(rem@.to_multiset()) == orig.to_multiset(),
            sorted_u64(out@),
            forall|a: int, b: int| 0 <= a < out@.len() && 0 <= b < rem@.len() ==> out@[a] <= rem@[b],
        decreases rem@.len(),
    {
        let mut m: usize = 0;
        let mut j: usize = 1;
        while j < rem.len()
            invariant
                0 <= m < rem@.len(),
                1 <= j <= rem@.len(),
                forall|b: int| 0 <= b < j ==> rem@[m as int] <= #[trigger] rem@[b],
            decreases rem@.len() - j,
        {
            if rem[j] < rem[m] {
                m = j;
            }
            j = j + 1;
        }
        let ghost rem0 = rem@;
        let ghost out0 = out@;
        let e = rem.remove(m);
        out.push(e);
        proof {
            vstd::seq_lib::to_multiset_remove(rem0, m as int);
            vstd::seq_lib::to_multiset_build(out0, e);
            assert(rem0.contains(e));
            vstd::seq_lib::to_multiset_contains(rem0, e);
            assert(out@.to_multiset().add(rem@.to_multiset()) =~= out0.to_multiset().add(
                rem0.to_multiset(),
            ));
            assert forall|a: int, b: int|
                0 <= a < out@.len() && 0 <= b < rem@.len() implies out@[a] <= rem@[b] by {
                let bb = if b < m { b } else { b + 1 };
                assert(rem@[b] == rem0[bb]);
                if a < out0.len() {
                    assert(out@[a] == out0[a]);
                }
            }
            assert forall|a: int, b: int| 0 <= a < b < out@.len() implies out@[a] <= out@[b] by {
                assert(out@[a] == out0[a]);
                if b < out0.len() {
                    assert(out@[b] == out0[b]);
                }
            }
        }
    }
    proof {
        assert forall|x: u64| rem@.to_multiset().count(x) == 0 by {
            vstd::seq_lib::to_multiset_contains(rem@, x);
        }
        assert(out@.to_multiset().add(rem@.to_multiset()) =~= out@.to_multiset());
    }
    out
}

/// The validators of a committee that an attestation's bits designate, in increasing
/// order; none when the bits do not match the committee in number.
pub fn get_attesting_indices(committee: &Vec<u64>, bits: &Vec<bool>) -> (r: Option<Vec<u64>>)
    ensures
        committee@.len() != bits@.len() <==> r is None,
        r matches Some(v) ==> is_attesting_indices(committee@, bits@, v@),
{
    if committee.len() != bits.len() {
        return None;
    }
    let mut members: Vec<u64> = Vec::new();
    let mut i: usize = 0;
    while i < committee.len()
        invariant
            i <= committee@.len() == bits@.len(),
            members@ == set_members(committee@.take(i as int), bits@.take(i as int)),
        decreases committee@.len() - i,
    {
        if bits[i] {
            members.push(committee[i]);
        }
        proof {
            let c = committee@.take(i + 1);
            let b = bits@.take(i + 1);
            assert(c.drop_last() =~= committee@.take(i as int));
            assert(b.take(i as int) =~= bits@.take(i as int));
        }
        i = i + 1;
    }
    assert(committee@.take(i as int) =~= committee@);
    assert(bits@.take(i as int) =~= bits@);
    Some(sort_u64s(members))
}

/// An attestation, counted for the block it votes for.
pub struct VoteModel {
    pub slot: u64,
    pub included_in: u64,
    pub committee_index: u64,
    pub validators: Vec<u64>,
}

/// Why the votes of a block could not all be counted.
#[derive(Clone, Copy, Debug, PartialEq, Eq, Structural)]
pub enum VoteError {
    /// The committees of the attested slot are not known.
    MissingCommittees { slot: u64 },
    /// The attested committee index is beyond the committees of its slot.
    CommitteeOutOfBound { index: u64, slot: u64 },
}

/// The message of a vote error: the slot, and for a committee out of bound its index.
pub open spec fn vote_error_message(e: VoteError) -> Seq<char> {
    match e {
        VoteError::MissingCommittees { slot } => "No committees are known at slot "@ + decimal(slot as nat),
        VoteError::CommitteeOutOfBound { index, slot } => "The attestation '"@ + decimal(index as nat)
            + "' is out of bound of committees at slot "@ + decimal(slot as nat),
    }
}

impl VoteError {
    /// The message of the error.
    pub fn message(&self) -> (s: String)
        ensures
            s@ == vote_error_message(*self),
    {
        let mut s = String::new();
        match self {
            VoteError::MissingCommittees { slot } => {
                s.append("No committees are known at slot ");
                crate::text::push_decimal(&mut s, *slot);
            },
            VoteError::CommitteeOutOfBound { index, slot } => {
                s.append("The attestation '");
                crate::text::push_decimal(&mut s, *index);
                s.append("' is out of bound of committees at slot ");
                crate::text::push_decimal(&mut s, *slot);
            },
        }
        s
    }
}

/// The slot of the block that an attestation votes for, when that block is known.
pub open spec fn vote_target(a: Attestation, roots: Seq<(Hash256, u64)>) -> Option<u64> {
    let m = assoc_map(roots);
    if m.dom().contains(a.beacon_block_root) {
        Some(m[a.beacon_block_root])
    } else {
        None
    }
}

/// The error that counting an attestation of a known block meets, if any.
pub open spec fn vote_error(a: Attestation, committees: Seq<(u64, Vec<CommitteeModel>)>) -> Option<VoteError> {
    let m = assoc_map(committees);
    if !m.dom().contains(a.slot) {
        Some(VoteError::MissingCommittees { slot: a.slot })
    } else if a.index >= m[a.slot]@.len() {
        Some(VoteError::CommitteeOutOfBound { index: a.index, slot: a.slot })
    } else {
        None
    }
}

/// The validators of the committee that an attestation names (given that it exists).
pub open spec fn attested_committee(a: Attestation, committees: Seq<(u64, Vec<CommitteeModel>)>) -> Seq<u64> {
    assoc_map(committees)[a.slot]@[a.index as int].validators@
}

/// Whether `v` is the vote that a block at `included_in` casts through attestation `a`:
/// the attesting validators, or none where the bits do not match the committee.
pub open spec fn is_vote_of(
    v: VoteModel,
    a: Attestation,
    included_in: u64,
    committees: Seq<(u64, Vec<CommitteeModel>)>,
) -> bool {
    let committee = attested_committee(a, committees);
    &&& v.slot == a.slot
    &&& v.included_in == included_in
    &&& v.committee_index == a.index
    &&& if committee.len() == a.aggregation_bits@.len() {
        is_attesting_indices(committee, a.aggregation_bits@, v.validators@)
    } else {
        v.validators@.len() == 0
    }
}

/// How many of the attestations are counted before the first error: attestations of
/// unknown blocks are passed over, the first one of a known block that meets an error stops.
pub open spec fn counted_prefix(
    atts: Seq<Attestation>,
    roots: Seq<(Hash256, u64)>,
    committees: Seq<(u64, Vec<CommitteeModel>)>,
) -> int
    decreases atts.len(),
{
    if atts.len() == 0 {
        0
    } else {
        let k = counted_prefix(atts.drop_last(), roots, committees);
        let a = atts.last();
        if k < atts.len() - 1 {
            k
        } else if vote_target(a, roots) is Some && vote_error(a, committees) is Some {
            k
        } else {
            atts.len() as int
        }
    }
}

/// The attestations of known blocks, in order.
pub open spec fn known_target(atts: Seq<Attestation>, roots: Seq<(Hash256, u64)>) -> Seq<Attestation>
    decreases atts.len(),
{
    if atts.len() == 0 {
        Seq::empty()
    } else {
        let rest = known_target(atts.drop_last(), roots);
        if vote_target(atts.last(), roots) is Some {
            rest.push(atts.last())
        } else {
            rest
        }
    }
}

/// The first error met counting the attestations, if any.
pub open spec fn first_vote_error(
    atts: Seq<Attestation>,
    roots: Seq<(Hash256, u64)>,
    committees: Seq<(u64, Vec<CommitteeModel>)>,
) -> Option<VoteError> {
    let k = counted_prefix(atts, roots, committees);
    if k < atts.len() {
        vote_error(atts[k], committees)
    } else {
        None
    }
}

/// Whether `votes` are the votes cast through `atts` by a block at `included_in`: one per
/// attestation of a known block, in order, each with the slot of the block it votes for.
pub open spec fn votes_of(
    votes: Seq<(u64, VoteModel)>,
    atts: Seq<Attestation>,
    included_in: u64,
    roots: Seq<(Hash256, u64)>,
    committees: Seq<(u64, Vec<CommitteeModel>)>,
) -> bool {
    let known = known_target(atts, roots);
    &&& votes.len() == known.len()
    &&& forall|i: int|
        0 <= i < votes.len() ==> {
            &&& vote_target(known[i], roots) == Some((#[trigger] votes[i]).0)
            &&& is_vote_of(votes[i].1, known[i], included_in, committees)
        }
}

} // verus!

verus! {

/// The attestations of a block on the canonical chain; none otherwise.
pub open spec fn canonical_attestations(block: BlockState) -> Seq<Attestation> {
    match block {
        BlockState::Proposed(b) => b.attestations@,
        _ => Seq::empty(),
    }
}

/// The position of a root in a list keyed by roots.
pub fn find_root(v: &Vec<(Hash256, u64)>, k: &Hash256) -> (r: Option<usize>)
    ensures
        match r {
            Some(i) => i < v@.len() && v@[i as int].0 == *k,
            None => forall|i: int| 0 <= i < v@.len() ==> #[trigger] v@[i].0 != *k,
        },
{
    let mut i: usize = 0;
    while i < v.len()
        invariant
            i <= v@.len(),
            forall|j: int| 0 <= j < i ==> #[trigger] v@[j].0 != *k,
        decreases v@.len() - i,
    {
        if v[i].0 == *k {
            return Some(i);
        }
        i = i + 1;
    }
    None
}

/// Once counting stops at `i`, longer lists stop there too.
proof fn lemma_counted_prefix_stops(
    atts: Seq<Attestation>,
    i: int,
    roots: Seq<(Hash256, u64)>,
    committees: Seq<(u64, Vec<CommitteeModel>)>,
)
    requires
        0 <= i < atts.len(),
        counted_prefix(atts.take(i + 1), roots, committees) == i,
    ensures
        counted_prefix(atts, roots, committees) == i,
    decreases atts.len(),
{
    if atts.len() == i + 1 {
        assert(atts.take(i + 1) =~= atts);
    } else {
        assert(atts.drop_last().take(i + 1) =~= atts.take(i + 1));
        lemma_counted_prefix_stops(atts.drop_last(), i, roots, committees);
    }
}

/// The votes that a block casts through its attestations, counted in order until the
/// first error, and that error.
pub fn block_votes(
    block: &ConsolidatedBlock,
    roots: &Vec<(Hash256, u64)>,
    committees: &Vec<(u64, Vec<CommitteeModel>)>,
) -> (r: (Vec<(u64, VoteModel)>, Option<VoteError>))
    requires
        distinct_keys(roots@),
        distinct_keys(committees@),
    ensures
        votes_of(
            r.0@,
            canonical_attestations(block.block).take(
                counted_prefix(canonical_attestations(block.block), roots@, committees@),
            ),
            block.slot,
            roots@,
            committees@,
        ),
        r.1 == first_vote_error(canonical_attestations(block.block), roots@, committees@),
{
    let atts = block.attestations();
    let ghost all = canonical_attestations(block.block);
    assert(atts@ == all);
    let mut votes: Vec<(u64, VoteModel)> = Vec::new();
    let mut i: usize = 0;
    while i < atts.len()
        invariant
            i <= atts@.len(),
            atts@ == all,
            all == canonical_attestations(block.block),
            distinct_keys(roots@),
            distinct_keys(committees@),
            counted_prefix(all.take(i as int), roots@, committees@) == i,
            votes_of(votes@, all.take(i as int), block.slot, roots@, committees@),
        decreases atts@.len() - i,
    {
        let a = &atts[i];
        let ghost prefix = all.take(i as int);
        let ghost next = all.take(i + 1);
        proof {
            assert(next.drop_last() =~= prefix);
            assert(next.last() == *a);
            lemma_assoc_dom(roots@, a.beacon_block_root);
            lemma_assoc_dom(committees@, a.slot);
        }
        match find_root(roots, &a.beacon_block_root) {
            None => {
                proof {
                    assert(vote_target(*a, roots@) is None);
                    assert(known_target(next, roots@) =~= known_target(prefix, roots@));
                }
            },
            Some(ri) => {
                let target = roots[ri].1;
                proof {
                    lemma_assoc_get(roots@, ri as int);
                    assert(vote_target(*a, roots@) == Some(target));
                }
                let ci = match find_key(committees, a.slot) {
                    None => {
                        proof {
                            assert(counted_prefix(next, roots@, committees@) == i);
                            lemma_counted_prefix_stops(all, i as int, roots@, committees@);
                            assert(all[i as int] == *a);
                            assert(vote_error(*a, committees@) == Some(VoteError::MissingCommittees { slot: a.slot }));
                            assert(first_vote_error(all, roots@, committees@) == Some(VoteError::MissingCommittees { slot: a.slot }));
                        }
                        let r = (votes, Some(VoteError::MissingCommittees { slot: a.slot }));
                        return r;
                    },
                    Some(ci) => ci,
                };
                proof {
                    lemma_assoc_get(committees@, ci as int);
                }
                let slot_committees = &committees[ci].1;
                if a.index >= slot_committees.len() as u64 {
                    proof {
                        assert(counted_prefix(next, roots@, committees@) == i);
                        lemma_counted_prefix_stops(all, i as int, roots@, committees@);
                    }
                    return (
                        votes,
                        Some(VoteError::CommitteeOutOfBound { index: a.index, slot: a.slot }),
                    );
                }
                let committee = &slot_committees[a.index as usize].validators;
                let validators = match get_attesting_indices(committee, &a.aggregation_bits) {
                    Some(v) => v,
                    None => Vec::new(),
                };
                let vote = VoteModel {
                    slot: a.slot,
                    included_in: block.slot,
                    committee_index: a.index,
                    validators,
                };
                let ghost before = votes@;
                votes.push((target, vote));
                proof {
                    assert(known_target(next, roots@) =~= known_target(prefix, roots@).push(*a));
                    assert forall|j: int| 0 <= j < votes@.len() implies {
                        &&& vote_target(known_target(next, roots@)[j], roots@) == Some(
                            (#[trigger] votes@[j]).0,
                        )
                        &&& is_vote_of(votes@[j].1, known_target(next, roots@)[j], block.slot, committees@)
                    } by {
                        if j < before.len() {
                            assert(votes@[j] == before[j]);
                        }
                    }
                }
            },
        }
        i = i + 1;
    }
    proof {
        assert(all.take(i as int) =~= all);
    }
    (votes, None)
}

} // verus!

verus! {

/// The number of validators over a list of votes.
pub open spec fn votes_count(s: Seq<VoteModel>) -> nat
    decreases s.len(),
{
    if s.len() == 0 {
        0
    } else {
        votes_count(s.drop_last()) + s.last().validators@.len()
    }
}

/// The number of validators over a list of votes, or `usize::MAX` where it is larger.
pub open spec fn capped_votes_count(s: Seq<VoteModel>) -> usize {
    if votes_count(s) < usize::MAX {
        votes_count(s) as usize
    } else {
        usize::MAX
    }
}

/// The votes recorded for a slot, none where the slot has none.
pub open spec fn votes_at(m: Map<u64, Seq<VoteModel>>, slot: u64) -> Seq<VoteModel> {
    if m.dom().contains(slot) {
        m[slot]
    } else {
        Seq::empty()
    }
}

/// The recorded votes after adding a list of (slot voted for, vote), in order.
pub open spec fn votes_after(m: Map<u64, Seq<VoteModel>>, v: Seq<(u64, VoteModel)>) -> Map<u64, Seq<VoteModel>>
    decreases v.len(),
{
    if v.len() == 0 {
        m
    } else {
        let p = votes_after(m, v.drop_last());
        p.insert(v.last().0, votes_at(p, v.last().0).push(v.last().1))
    }
}

/// The slots whose votes changed, in the order they first changed.
pub open spec fn dirty_after(d: Seq<u64>, v: Seq<(u64, VoteModel)>) -> Seq<u64>
    decreases v.len(),
{
    if v.len() == 0 {
        d
    } else {
        let p = dirty_after(d, v.drop_last());
        if p.contains(v.last().0) {
            p
        } else {
            p.push(v.last().0)
        }
    }
}

/// The votes recorded for each slot, and the slots whose votes changed since they were
/// last stored.
pub struct VotesCache {
    entries: Vec<(u64, Vec<VoteModel>)>,
    dirty: Vec<u64>,
}

impl VotesCache {
    /// The votes of each slot that has some.
    pub closed spec fn votes(&self) -> Map<u64, Seq<VoteModel>> {
        Map::new(
            |k: u64| assoc_map(self.entries@).dom().contains(k),
            |k: u64| assoc_map(self.entries@)[k]@,
        )
    }

    /// The slots whose votes changed since they were last stored.
    pub closed spec fn dirty_slots(&self) -> Seq<u64> {
        self.dirty@
    }

    pub closed spec fn wf(&self) -> bool {
        &&& distinct_keys(self.entries@)
        &&& self.dirty@.no_duplicates()
    }

    pub fn new() -> (c: Self)
        ensures
            c.wf(),
            c.votes() == Map::<u64, Seq<VoteModel>>::empty(),
            c.dirty_slots() == Seq::<u64>::empty(),
    {
        let c = VotesCache { entries: Vec::new(), dirty: Vec::new() };
        assert(c.votes() =~= Map::<u64, Seq<VoteModel>>::empty());
        c
    }

    /// Records one vote for a slot.
    pub fn add(&mut self, slot: u64, vote: VoteModel)
        requires
            old(self).wf(),
        ensures
            final(self).wf(),
            final(self).votes() == old(self).votes().insert(
                slot,
                votes_at(old(self).votes(), slot).push(vote),
            ),
            final(self).dirty_slots() == (if old(self).dirty_slots().contains(slot) {
                old(self).dirty_slots()
            } else {
                old(self).dirty_slots().push(slot)
            }),
    {
        let ghost before = self.entries@;
        proof {
            lemma_assoc_dom(before, slot);
        }
        match find_key(&self.entries, slot) {
            Some(i) => {
                let mut list = Vec::new();
                std::mem::swap(&mut list, &mut self.entries[i].1);
                proof {
                    lemma_assoc_get(before, i as int);
                }
                list.push(vote);
                self.entries.set(i, (slot, list));
                proof {
                    crate::assoc::lemma_assoc_update(before, i as int, self.entries@[i as int].1);
                    assert(self.entries@ == before.update(i as int, (before[i as int].0, self.entries@[i as int].1)));
                    assert(self.votes() =~= old(self).votes().insert(
                        slot,
                        votes_at(old(self).votes(), slot).push(vote),
                    ));
                }
            },
            None => {
                let mut list = Vec::new();
                list.push(vote);
                self.entries.push((slot, list));
                proof {
                    crate::assoc::lemma_assoc_push(before, slot, self.entries@.last().1);
                    assert(self.votes() =~= old(self).votes().insert(
                        slot,
                        votes_at(old(self).votes(), slot).push(vote),
                    ));
                }
            },
        }
        let mut k: usize = 0;
        let mut found = false;
        while k < self.dirty.len()
            invariant
                k <= self.dirty@.len(),
                found <==> exists|j: int| 0 <= j < k && self.dirty@[j] == slot,
            decreases self.dirty@.len() - k,
        {
            if self.dirty[k] == slot {
                found = true;
            }
            k = k + 1;
        }
        if !found {
            self.dirty.push(slot);
            proof {
                assert forall|a: int, b: int| 0 <= a < b < self.dirty@.len() implies self.dirty@[a] != self.dirty@[b] by {
                    if b == self.dirty@.len() - 1 {
                        assert(self.dirty@[a] == old(self).dirty@[a]);
                    }
                }
            }
        }
    }

    /// Records each vote of the list, in order.
    pub fn add_all(&mut self, votes: Vec<(u64, VoteModel)>)
        requires
            old(self).wf(),
        ensures
            final(self).wf(),
            final(self).votes() == votes_after(old(self).votes(), votes@),
            final(self).dirty_slots() == dirty_after(old(self).dirty_slots(), votes@),
    {
        let ghost all = votes@;
        let mut rest = votes;
        let ghost mut done: Seq<(u64, VoteModel)> = Seq::empty();
        while rest.len() > 0
            invariant
                self.wf(),
                done + rest@ == all,
                self.votes() == votes_after(old(self).votes(), done),
                self.dirty_slots() == dirty_after(old(self).dirty_slots(), done),
            decreases rest@.len(),
        {
            let ghost r0 = rest@;
            let ghost d0 = done;
            let e = rest.remove(0);
            proof {
                done = done.push(e);
                assert(done.drop_last() =~= d0);
                assert(d0 + r0 =~= done + rest@);
            }
            let (slot, vote) = e;
            self.add(slot, vote);
        }
        proof {
            assert(done =~= all);
        }
    }

    /// The votes of a slot, if it has any.
    pub fn get(&self, slot: u64) -> (r: Option<&Vec<VoteModel>>)
        requires
            self.wf(),
        ensures
            match r {
                Some(v) => self.votes().dom().contains(slot) && v@ == self.votes()[slot],
                None => !self.votes().dom().contains(slot),
            },
    {
        proof {
            lemma_assoc_dom(self.entries@, slot);
        }
        match find_key(&self.entries, slot) {
            Some(i) => {
                proof {
                    lemma_assoc_get(self.entries@, i as int);
                }
                Some(&self.entries[i].1)
            },
            None => None,
        }
    }

    /// For each slot whose votes changed, in that order, the slot and how many validators
    /// voted for its block; afterwards no slot counts as changed.
    pub fn take_dirty_counts(&mut self) -> (r: Vec<(u64, usize)>)
        requires
            old(self).wf(),
        ensures
            final(self).wf(),
            final(self).votes() == old(self).votes(),
            final(self).dirty_slots() == Seq::<u64>::empty(),
            r@.len() == old(self).dirty_slots().len(),
            forall|i: int|
                0 <= i < r@.len() ==> #[trigger] r@[i] == (
                    old(self).dirty_slots()[i],
                    capped_votes_count(votes_at(old(self).votes(), old(self).dirty_slots()[i])),
                ),
    {
        let mut counts: Vec<(u64, usize)> = Vec::new();
        let mut k: usize = 0;
        while k < self.dirty.len()
            invariant
                self.wf(),
                *self == *old(self),
                k <= self.dirty@.len(),
                counts@.len() == k,
                forall|i: int|
                    0 <= i < k ==> #[trigger] counts@[i] == (
                        self.dirty@[i],
                        capped_votes_count(votes_at(self.votes(), self.dirty@[i])),
                    ),
            decreases self.dirty@.len() - k,
        {
            let slot = self.dirty[k];
            let n = match self.get(slot) {
                Some(list) => count_votes(list),
                None => 0,
            };
            proof {
                if !self.votes().dom().contains(slot) {
                    assert(votes_at(self.votes(), slot) =~= Seq::<VoteModel>::empty());
                }
            }
            counts.push((slot, n));
            k = k + 1;
        }
        self.dirty = Vec::new();
        counts
    }
}

/// How many validators voted over a list of votes, at most `usize::MAX`.
pub fn count_votes(list: &Vec<VoteModel>) -> (n: usize)
    ensures
        n == capped_votes_count(list@),
{
    let mut n: usize = 0;
    let mut j: usize = 0;
    while j < list.len()
        invariant
            j <= list@.len(),
            n == capped_votes_count(list@.take(j as int)),
        decreases list@.len() - j,
    {
        proof {
            assert(list@.take(j + 1).drop_last() =~= list@.take(j as int));
        }
        n = n.saturating_add(list[j].validators.len());
        j = j + 1;
    }
    assert(list@.take(j as int) =~= list@);
    n
}

/// The rows that store a block: the block, its details, its attestations, the committees
/// of its slot and, where it has one, its root.
pub struct BlockRows {
    pub block: BlockModelWithId,
    pub extended: BlockExtendedModelWithId,
    pub attestations: AttestationModelsWithId,
    pub committees: CommitteeModelsWithId,
    pub root: Option<BlockRootModelWithId>,
}

/// Whether `rows` are the rows that store `block`.
pub open spec fn block_rows_of(block: ConsolidatedBlock, clock: Clock, rows: BlockRows) -> bool {
    &&& block.is_block_model(rows.block, clock)
    &&& block_extended_row_of(block.block, block.slot, rows.extended)
    &&& rows.attestations.id == block.slot
    &&& match block.block {
        BlockState::Missed(_) => rows.attestations.model@.len() == 0,
        BlockState::Proposed(b) => attestation_models_of(rows.attestations.model@, b.attestations@),
        BlockState::Orphaned(b) => attestation_models_of(rows.attestations.model@, b.attestations@),
    }
    &&& rows.committees.id == block.slot
    &&& rows.committees.model@.len() == block.committees@.len()
    &&& forall|i: int|
        0 <= i < rows.committees.model@.len() ==> #[trigger] rows.committees.model@[i].index
            == block.committees@[i].index && rows.committees.model@[i].validators@
            == block.committees@[i].validators@
    &&& match block.block {
        BlockState::Proposed(b) => rows.root matches Some(x) && x.id@ == hash_hex(b.root)
            && x.model.slot == block.slot,
        BlockState::Orphaned(b) => rows.root matches Some(x) && x.id@ == hash_hex(b.root)
            && x.model.slot == block.slot,
        BlockState::Missed(_) => rows.root is None,
    }
}

/// What the votes of a stored block change: the slots whose vote counts are to be
/// rewritten with their counts, and the new number of stored slots.
pub struct VotesUpdate {
    pub counts: Vec<(u64, usize)>,
    pub blocks_meta: BlocksMeta,
}

/// Stores a block: its rows, always; then its votes, each recorded for the block it votes
/// for, until one cannot be counted. When all are counted, the vote counts of the slots
/// whose votes changed are to be rewritten and the slots are stored up to this block's.
pub fn persist_block(
    block: &ConsolidatedBlock,
    clock: &Clock,
    roots: &Vec<(Hash256, u64)>,
    committees: &Vec<(u64, Vec<CommitteeModel>)>,
    votes: &mut VotesCache,
) -> (r: (BlockRows, Result<VotesUpdate, VoteError>))
    requires
        old(votes).wf(),
        distinct_keys(roots@),
        distinct_keys(committees@),
        block.slot < u64::MAX,
    ensures
        final(votes).wf(),
        block_rows_of(*block, *clock, r.0),
        ({
            let atts = canonical_attestations(block.block);
            let k = counted_prefix(atts, roots@, committees@);
            exists|cast: Seq<(u64, VoteModel)>|
                {
                    &&& #[trigger] votes_of(cast, atts.take(k), block.slot, roots@, committees@)
                    &&& final(votes).votes() == votes_after(old(votes).votes(), cast)
                    &&& match r.1 {
                        Ok(update) => {
                            let dirty = dirty_after(old(votes).dirty_slots(), cast);
                            &&& first_vote_error(atts, roots@, committees@) is None
                            &&& final(votes).dirty_slots() == Seq::<u64>::empty()
                            &&& update.blocks_meta.count == block.slot + 1
                            &&& update.counts@.len() == dirty.len()
                            &&& forall|i: int|
                                0 <= i < update.counts@.len() ==> #[trigger] update.counts@[i] == (
                                    dirty[i],
                                    capped_votes_count(votes_at(final(votes).votes(), dirty[i])),
                                )
                        },
                        Err(e) => {
                            &&& first_vote_error(atts, roots@, committees@) == Some(e)
                            &&& final(votes).dirty_slots() == dirty_after(old(votes).dirty_slots(), cast)
                        },
                    }
                }
        }),
{
    let rows = BlockRows {
        block: block.to_block_model(clock),
        extended: block.to_block_extended_model(),
        attestations: block.to_attestation_models(),
        committees: block.to_committee_models(),
        root: block.to_block_root_model(),
    };
    let (cast, error) = block_votes(block, roots, committees);
    let ghost cast_view = cast@;
    votes.add_all(cast);
    match error {
        Some(e) => {
            assert(votes_of(cast_view, canonical_attestations(block.block).take(counted_prefix(canonical_attestations(block.block), roots@, committees@)), block.slot, roots@, committees@));
            (rows, Err(e))
        },
        None => {
            let counts = votes.take_dirty_counts();
            assert(votes_of(cast_view, canonical_attestations(block.block).take(counted_prefix(canonical_attestations(block.block), roots@, committees@)), block.slot, roots@, committees@));
            (rows, Ok(VotesUpdate { counts, blocks_meta: BlocksMeta::new(block.slot + 1) }))
        },
    }
}

} // verus!
