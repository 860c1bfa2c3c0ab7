use vstd::prelude::*;

use crate::assoc::{assoc_map, distinct_keys, find_key, lemma_assoc_dom, lemma_assoc_get, lemma_assoc_push, lemma_assoc_update};
use crate::block_state::{Attestation, BlockState};
use vstd::multiset::Multiset;

use crate::orderable::{sorted_by_ordering, Orderable};
use crate::persistable::{PersistError, PersistedFile, Persistable};
use crate::persistable_binary_heap::{field_values, index_files, PersistableBinaryHeap};
use crate::persistable_collection::PersistableCollection;
use crate::persistable_fields::{
    EpochAttestationsCount, EpochAttesterSlashingsCount, EpochDepositsCount, EpochEligibleEther,
    EpochProposerSlashingsCount, EpochVotedEther, PersistableField,
};
use crate::primitives::Hash256;
use crate::primitives::Epoch;
use crate::types::clock::Clock;
use crate::types::consolidated_block::{
    attestation_models_of, block_extended_row_of, AttestationModel, AttestationModelsWithId, BlockExtendedModelWithId, BlockModelWithId,
    CommitteeModelsWithId, ConsolidatedBlock,
};
use crate::types::consolidated_epoch::{
    epoch_extended_row_of, epoch_row_of, sum_u64, ConsolidatedEpoch, EpochExtendedModelWithId,
    EpochModelWithId,
};
use crate::types::consolidated_validator::{validator_model_of, ConsolidatedValidator, ValidatorModel};
use crate::types::meta::{BlocksMeta, EpochsMeta, ValidatorsMeta};

verus! {

/// A key's value in a list of (key, value) where a later entry overrides an earlier one.
pub proof fn lemma_assoc_last<K, V>(s: Seq<(K, V)>, j: int)
    requires
        0 <= j < s.len(),
        forall|i: int| j < i < s.len() ==> #[trigger] s[i].0 != s[j].0,
    ensures
        assoc_map(s).dom().contains(s[j].0),
        assoc_map(s)[s[j].0] == s[j].1,
    decreases s.len(),
{
    if j < s.len() - 1 {
        lemma_assoc_last(s.drop_last(), j);
        assert(s.last().0 != s[j].0);
    }
}

/// The slot of the block that an attestation votes for, where that root is known.
pub open spec fn vote_slot(m: AttestationModel, roots: Seq<(Hash256, u64)>) -> Option<u64> {
    let map = assoc_map(roots);
    if map.dom().contains(m.beacon_block_root) {
        Some(map[m.beacon_block_root])
    } else {
        None
    }
}

/// The attestations that vote for the block at `slot`, in order.
pub open spec fn votes_for(atts: Seq<AttestationModel>, roots: Seq<(Hash256, u64)>, slot: u64) -> Seq<AttestationModel>
    decreases atts.len(),
{
    if atts.len() == 0 {
        Seq::empty()
    } else {
        let rest = votes_for(atts.drop_last(), roots, slot);
        if vote_slot(atts.last(), roots) == Some(slot) {
            rest.push(atts.last())
        } else {
            rest
        }
    }
}

/// Whether `groups` gathers the votes of `atts` by the slot of the block they vote for:
/// one group per such slot, each with its votes in order; votes for unknown roots are
/// left out.
pub open spec fn grouped_votes(
    groups: Seq<(u64, Vec<AttestationModel>)>,
    atts: Seq<AttestationModel>,
    roots: Seq<(Hash256, u64)>,
) -> bool {
    &&& distinct_keys(groups)
    &&& forall|g: int| 0 <= g < groups.len() ==> (#[trigger] groups[g]).1@ == votes_for(atts, roots, groups[g].0)
        && groups[g].1@.len() > 0
    &&& forall|i: int|
        0 <= i < atts.len() && (#[trigger] vote_slot(atts[i], roots)) is Some ==> exists|g: int|
            0 <= g < groups.len() && groups[g].0 == vote_slot(atts[i], roots)->0
}

/// The slot of a root in a list of (root, slot) where a later entry overrides an
/// earlier one.
pub fn lookup_root(roots: &Vec<(Hash256, u64)>, root: &Hash256) -> (r: Option<u64>)
    ensures
        r == (if assoc_map(roots@).dom().contains(*root) {
            Some(assoc_map(roots@)[*root])
        } else {
            None::<u64>
        }),
{
    let mut found: Option<usize> = None;
    let mut i: usize = 0;
    while i < roots.len()
        invariant
            i <= roots@.len(),
            match found {
                Some(j) => j < i && roots@[j as int].0 == *root && forall|k: int|
                    j < k < i ==> #[trigger] roots@[k].0 != *root,
                None => forall|k: int| 0 <= k < i ==> #[trigger] roots@[k].0 != *root,
            },
        decreases roots@.len() - i,
    {
        if roots[i].0 == *root {
            found = Some(i);
        }
        i = i + 1;
    }
    proof {
        lemma_assoc_dom(roots@, *root);
    }
    match found {
        Some(j) => {
            proof {
                lemma_assoc_last(roots@, j as int);
            }
            Some(roots[j].1)
        },
        None => None,
    }
}

/// The votes of the attestations grouped by the slot of the block they vote for, groups in
/// the order their first vote appears.
pub fn group_votes(atts: &Vec<AttestationModel>, roots: &Vec<(Hash256, u64)>) -> (groups: Vec<(u64, Vec<AttestationModel>)>)
    ensures
        grouped_votes(groups@, atts@, roots@),
{
    let mut groups: Vec<(u64, Vec<AttestationModel>)> = Vec::new();
    let mut i: usize = 0;
    while i < atts.len()
        invariant
            i <= atts@.len(),
            grouped_votes(groups@, atts@.take(i as int), roots@),
        decreases atts@.len() - i,
    {
        let a = atts[i];
        let ghost prefix = atts@.take(i as int);
        let ghost next = atts@.take(i + 1);
        let ghost before = groups@;
        proof {
            assert(next.drop_last() =~= prefix);
            assert(next.last() == a);
        }
        match lookup_root(roots, &a.beacon_block_root) {
            None => {
                proof {
                    assert(vote_slot(a, roots@) is None);
                    assert forall|s: u64| votes_for(next, roots@, s) =~= votes_for(prefix, roots@, s) by {}
                    assert forall|k: int|
                        0 <= k < next.len() && (#[trigger] vote_slot(next[k], roots@)) is Some implies exists|g: int|
                            0 <= g < groups@.len() && groups@[g].0 == vote_slot(next[k], roots@)->0 by {
                        assert(next[k] == prefix[k]);
                    }
                }
            },
            Some(slot) => {
                proof {
                    assert(vote_slot(a, roots@) == Some(slot));
                    lemma_assoc_dom(before, slot);
                }
                match find_key(&groups, slot) {
                    Some(g) => {
                        let mut list = Vec::new();
                        std::mem::swap(&mut list, &mut groups[g].1);
                        list.push(a);
                        groups.set(g, (slot, list));
                        proof {
                            assert forall|h: int| 0 <= h < groups@.len() implies (#[trigger] groups@[h]).1@ == votes_for(next, roots@, groups@[h].0)
                                && groups@[h].1@.len() > 0 by {
                                if h != g {
                                    assert(groups@[h] == before[h]);
                                    assert(before[h].0 != slot);
                                }
                            }
                            assert forall|k: int|
                                0 <= k < next.len() && (#[trigger] vote_slot(next[k], roots@)) is Some implies exists|h: int|
                                    0 <= h < groups@.len() && groups@[h].0 == vote_slot(next[k], roots@)->0 by {
                                if k < prefix.len() {
                                    assert(next[k] == prefix[k]);
                                    let h = choose|h: int| 0 <= h < before.len() && before[h].0 == vote_slot(prefix[k], roots@)->0;
                                    assert(groups@[h].0 == before[h].0);
                                } else {
                                    assert(groups@[g as int].0 == slot);
                                }
                            }
                        }
                    },
                    None => {
                        let mut list = Vec::new();
                        list.push(a);
                        groups.push((slot, list));
                        proof {
                            assert forall|k: int| 0 <= k < prefix.len() implies #[trigger] vote_slot(prefix[k], roots@) != Some(slot) by {
                                if vote_slot(prefix[k], roots@) == Some(slot) {
                                    let h = choose|h: int| 0 <= h < before.len() && before[h].0 == vote_slot(prefix[k], roots@)->0;
                                    assert(before[h].0 != slot);
                                }
                            }
                            lemma_votes_for_empty(prefix, roots@, slot);
                            assert forall|h: int| 0 <= h < groups@.len() implies (#[trigger] groups@[h]).1@ == votes_for(next, roots@, groups@[h].0)
                                && groups@[h].1@.len() > 0 by {
                                if h < before.len() {
                                    assert(groups@[h] == before[h]);
                                    assert(before[h].0 != slot);
                                }
                            }
                            assert forall|p: int, q: int| 0 <= p < groups@.len() && 0 <= q < groups@.len() && p != q implies groups@[p].0 != groups@[q].0 by {
                                if p < before.len() && q < before.len() {
                                    assert(groups@[p] == before[p]);
                                    assert(groups@[q] == before[q]);
                                } else if p < before.len() {
                                    assert(groups@[p] == before[p]);
                                } else {
                                    assert(groups@[q] == before[q]);
                                }
                            }
                            assert forall|k: int|
                                0 <= k < next.len() && (#[trigger] vote_slot(next[k], roots@)) is Some implies exists|h: int|
                                    0 <= h < groups@.len() && groups@[h].0 == vote_slot(next[k], roots@)->0 by {
                                if k < prefix.len() {
                                    assert(next[k] == prefix[k]);
                                    let h = choose|h: int| 0 <= h < before.len() && before[h].0 == vote_slot(prefix[k], roots@)->0;
                                    assert(groups@[h].0 == before[h].0);
                                } else {
                                    assert(groups@[before.len() as int].0 == slot);
                                }
                            }
                        }
                    },
                }
            },
        }
        i = i + 1;
    }
    assert(atts@.take(i as int) =~= atts@);
    groups
}

/// The votes gathered for a slot are votes for that slot, and every vote for the slot is
/// among them.
proof fn lemma_votes_for_members(atts: Seq<AttestationModel>, roots: Seq<(Hash256, u64)>, slot: u64)
    ensures
        forall|x: AttestationModel| #[trigger] votes_for(atts, roots, slot).contains(x) ==> vote_slot(x, roots) == Some(slot),
        forall|i: int| 0 <= i < atts.len() && vote_slot(#[trigger] atts[i], roots) == Some(slot) ==> votes_for(atts, roots, slot).contains(atts[i]),
    decreases atts.len(),
{
    if atts.len() > 0 {
        let t = atts.drop_last();
        lemma_votes_for_members(t, roots, slot);
        let v = votes_for(atts, roots, slot);
        let w = votes_for(t, roots, slot);
        assert forall|x: AttestationModel| #[trigger] v.contains(x) implies vote_slot(x, roots) == Some(slot) by {
            if vote_slot(atts.last(), roots) == Some(slot) {
                let j = choose|j: int| 0 <= j < v.len() && v[j] == x;
                if j < w.len() {
                    assert(w[j] == x);
                    assert(w.contains(x));
                }
            }
        }
        assert forall|i: int| 0 <= i < atts.len() && vote_slot(#[trigger] atts[i], roots) == Some(slot) implies v.contains(atts[i]) by {
            if i < t.len() {
                assert(t[i] == atts[i]);
                assert(w.contains(atts[i]));
                let j = choose|j: int| 0 <= j < w.len() && w[j] == atts[i];
                if vote_slot(atts.last(), roots) == Some(slot) {
                    assert(v[j] == w[j]);
                }
            } else {
                assert(v[v.len() - 1] == atts[i]);
            }
        }
    }
}

/// Every vote for a known block is in one group, the group of the slot it votes for, and
/// in no other.
pub proof fn lemma_vote_in_its_group(
    groups: Seq<(u64, Vec<AttestationModel>)>,
    atts: Seq<AttestationModel>,
    roots: Seq<(Hash256, u64)>,
    i: int,
)
    requires
        grouped_votes(groups, atts, roots),
        0 <= i < atts.len(),
        vote_slot(atts[i], roots) is Some,
    ensures
        exists|g: int| 0 <= g < groups.len() && groups[g].0 == vote_slot(atts[i], roots)->0 && groups[g].1@.contains(atts[i]),
        forall|g: int| 0 <= g < groups.len() && (#[trigger] groups[g]).1@.contains(atts[i]) ==> groups[g].0 == vote_slot(atts[i], roots)->0,
{
    let t = vote_slot(atts[i], roots)->0;
    let g = choose|g: int| 0 <= g < groups.len() && groups[g].0 == vote_slot(atts[i], roots)->0;
    lemma_votes_for_members(atts, roots, t);
    assert(groups[g].1@ == votes_for(atts, roots, t));
    assert(groups[g].1@.contains(atts[i]));
    assert forall|h: int| 0 <= h < groups.len() && (#[trigger] groups[h]).1@.contains(atts[i]) implies groups[h].0 == t by {
        lemma_votes_for_members(atts, roots, groups[h].0);
        assert(groups[h].1@ == votes_for(atts, roots, groups[h].0));
    }
}

/// A slot with no group has no votes.
proof fn lemma_votes_for_empty(atts: Seq<AttestationModel>, roots: Seq<(Hash256, u64)>, slot: u64)
    requires
        forall|i: int| 0 <= i < atts.len() ==> #[trigger] vote_slot(atts[i], roots) != Some(slot),
    ensures
        votes_for(atts, roots, slot) == Seq::<AttestationModel>::empty(),
    decreases atts.len(),
{
    if atts.len() > 0 {
        assert(vote_slot(atts[atts.len() - 1], roots) != Some(slot));
        lemma_votes_for_empty(atts.drop_last(), roots, slot);
    }
}

/// An epoch with its blocks, as retrieved.
pub struct IndexedEpoch {
    pub epoch: ConsolidatedEpoch,
    pub blocks: Vec<ConsolidatedBlock>,
}

/// What was retrieved of the chain: epochs with their blocks, and validators.
pub struct Indexer {
    pub epochs: Vec<IndexedEpoch>,
    pub validators: Vec<ConsolidatedValidator>,
}

/// Everything that indexing stores: the rows of the epochs, blocks and validators, the
/// votes grouped by the block they vote for, the ranked indexes of the epochs (one list of
/// files per field, in the order of `EPOCH_INDEX_FIELDS`) and the three counts.
pub struct IndexOutput {
    pub epochs: Vec<EpochModelWithId>,
    pub epochs_extended: Vec<EpochExtendedModelWithId>,
    pub blocks: Vec<BlockModelWithId>,
    pub extended_blocks: Vec<BlockExtendedModelWithId>,
    pub committees: Vec<CommitteeModelsWithId>,
    pub attestations: Vec<AttestationModelsWithId>,
    pub votes: Vec<(u64, Vec<AttestationModel>)>,
    pub validators: Vec<ValidatorModel>,
    pub epoch_indexes: Vec<Vec<PersistedFile>>,
    pub epochs_meta: EpochsMeta,
    pub blocks_meta: BlocksMeta,
    pub validators_meta: ValidatorsMeta,
}

/// The blocks of the epochs, epoch after epoch.
pub open spec fn all_blocks(epochs: Seq<IndexedEpoch>) -> Seq<ConsolidatedBlock>
    decreases epochs.len(),
{
    if epochs.len() == 0 {
        Seq::empty()
    } else {
        all_blocks(epochs.drop_last()) + epochs.last().blocks@
    }
}

/// The (root, slot) of each block that has a root, in order.
pub open spec fn block_roots(blocks: Seq<ConsolidatedBlock>) -> Seq<(Hash256, u64)>
    decreases blocks.len(),
{
    if blocks.len() == 0 {
        Seq::empty()
    } else {
        let rest = block_roots(blocks.drop_last());
        match blocks.last().block {
            BlockState::Proposed(b) => rest.push((b.root, blocks.last().slot)),
            BlockState::Orphaned(b) => rest.push((b.root, blocks.last().slot)),
            BlockState::Missed(_) => rest,
        }
    }
}

/// The attestations of the canonical blocks, as they are stored, in order.
pub open spec fn canonical_attestation_models(blocks: Seq<ConsolidatedBlock>) -> Seq<AttestationModel>
    decreases blocks.len(),
{
    if blocks.len() == 0 {
        Seq::empty()
    } else {
        canonical_attestation_models(blocks.drop_last()) + match blocks.last().block {
            BlockState::Proposed(b) => attestation_models(b.attestations@),
            _ => Seq::empty(),
        }
    }
}

/// The stored form of each attestation.
pub open spec fn attestation_models(a: Seq<Attestation>) -> Seq<AttestationModel> {
    a.map_values(|x: Attestation| AttestationModel { slot: x.slot, committee_index: x.index, beacon_block_root: x.beacon_block_root })
}

/// Whether `m` holds the committees of a block's slot as they are stored.
pub open spec fn committee_rows_of(block: ConsolidatedBlock, m: CommitteeModelsWithId) -> bool {
    &&& m.id == block.slot
    &&& m.model@.len() == block.committees@.len()
    &&& forall|i: int|
        0 <= i < m.model@.len() ==> #[trigger] m.model@[i].index == block.committees@[i].index
            && m.model@[i].validators@ == block.committees@[i].validators@
}

/// Whether `files` are the ranked index of field `F` over the epoch rows, under `dir`.
pub open spec fn field_index_files<F: PersistableField<EpochModelWithId>>(
    files: Seq<PersistedFile>,
    dir: Seq<char>,
    epochs: Seq<EpochModelWithId>,
) -> bool {
    exists|s: Seq<Orderable>|
        {
            &&& s.to_multiset() == field_values::<EpochModelWithId, F>(epochs).to_multiset()
            &&& sorted_by_ordering(s)
            &&& #[trigger] index_files(files, dir, F::spec_field_name(), s)
        }
}

/// The ranked index of one field over the epoch rows, under `dir`; no epoch gives no file
/// and no error, and an error can come only where there are epochs to encode.
pub fn epoch_index<F: PersistableField<EpochModelWithId>>(
    field: F,
    epochs: &Vec<EpochModelWithId>,
    dir: &str,
) -> (r: Result<Vec<PersistedFile>, PersistError>)
    ensures
        r matches Ok(files) ==> field_index_files::<F>(files@, dir@, epochs@),
        epochs@.len() == 0 ==> (r matches Ok(files) && files@.len() == 0),
        r is Err ==> epochs@.len() > 0,
        r matches Err(e) ==> e == PersistError::Encoding,
{
    let mut heap = PersistableBinaryHeap::new(F::field_name(), field);
    heap.append(epochs);
    proof {
        vstd::seq_lib::to_multiset_len(field_values::<EpochModelWithId, F>(epochs@));
        assert(Multiset::<Orderable>::empty().add(field_values::<EpochModelWithId, F>(epochs@).to_multiset())
            =~= field_values::<EpochModelWithId, F>(epochs@).to_multiset());
    }
    let ghost h = heap;
    let r = heap.persist(dir);
    proof {
        if r is Ok {
            let files = r->Ok_0;
            assert(h.persisted_as(dir@, files@));
            let s = choose|s: Seq<Orderable>|
                {
                    &&& s.to_multiset() == h@
                    &&& sorted_by_ordering(s)
                    &&& #[trigger] index_files(files@, dir@, h.name(), s)
                };
            assert(index_files(files@, dir@, F::spec_field_name(), s));
        }
    }
    r
}

/// Where the retrieval of the chain stands: the next epoch to retrieve, and whether
/// retrieving goes on.
pub struct EpochRetrieval {
    pub next_epoch: u64,
    pub running: bool,
}

impl EpochRetrieval {
    /// Retrieval starts at epoch 0.
    pub fn new() -> (r: Self)
        ensures
            r.next_epoch == 0,
            r.running,
    {
        EpochRetrieval { next_epoch: 0, running: true }
    }

    /// Takes in whether the epoch under way was retrieved: a success moves on to the next
    /// epoch, a failure stops the retrieval at that epoch.
    pub fn on_result(&mut self, retrieved: bool)
        requires
            old(self).next_epoch < u64::MAX,
        ensures
            final(self).next_epoch == (if retrieved { (old(self).next_epoch + 1) as u64 } else { old(self).next_epoch }),
            final(self).running == (old(self).running && retrieved),
    {
        if retrieved {
            self.next_epoch = self.next_epoch + 1;
        } else {
            self.running = false;
        }
    }
}

/// Whether `indexes` are the ranked indexes of the six epoch fields, in their order, under `dir`.
pub open spec fn epoch_indexes_of(indexes: Seq<Vec<PersistedFile>>, dir: Seq<char>, epochs: Seq<EpochModelWithId>) -> bool {
    &&& indexes.len() == 6
    &&& field_index_files::<EpochAttestationsCount>(indexes[0]@, dir, epochs)
    &&& field_index_files::<EpochDepositsCount>(indexes[1]@, dir, epochs)
    &&& field_index_files::<EpochAttesterSlashingsCount>(indexes[2]@, dir, epochs)
    &&& field_index_files::<EpochProposerSlashingsCount>(indexes[3]@, dir, epochs)
    &&& field_index_files::<EpochEligibleEther>(indexes[4]@, dir, epochs)
    &&& field_index_files::<EpochVotedEther>(indexes[5]@, dir, epochs)
}

/// The ranked indexes of the six epoch fields, in their order, under `dir`; no epoch
/// gives them all empty and no error.
fn epoch_indexes(epochs: &Vec<EpochModelWithId>, dir: &str) -> (r: Result<Vec<Vec<PersistedFile>>, PersistError>)
    ensures
        r matches Ok(x) ==> epoch_indexes_of(x@, dir@, epochs@),
        epochs@.len() == 0 ==> r is Ok,
        r is Err ==> epochs@.len() > 0,
        r matches Err(e) ==> e == PersistError::Encoding,
{
    let mut x: Vec<Vec<PersistedFile>> = Vec::new();
    match epoch_index(EpochAttestationsCount, epochs, dir) {
        Ok(f) => x.push(f),
        Err(e) => { return Err(e); },
    }
    match epoch_index(EpochDepositsCount, epochs, dir) {
        Ok(f) => x.push(f),
        Err(e) => { return Err(e); },
    }
    match epoch_index(EpochAttesterSlashingsCount, epochs, dir) {
        Ok(f) => x.push(f),
        Err(e) => { return Err(e); },
    }
    match epoch_index(EpochProposerSlashingsCount, epochs, dir) {
        Ok(f) => x.push(f),
        Err(e) => { return Err(e); },
    }
    match epoch_index(EpochEligibleEther, epochs, dir) {
        Ok(f) => x.push(f),
        Err(e) => { return Err(e); },
    }
    match epoch_index(EpochVotedEther, epochs, dir) {
        Ok(f) => x.push(f),
        Err(e) => { return Err(e); },
    }
    Ok(x)
}

/// Whether `m` holds the attestations of a block (proposed or orphaned) as they are stored.
pub open spec fn block_attestation_rows_of(block: ConsolidatedBlock, m: AttestationModelsWithId) -> bool {
    &&& m.id == block.slot
    &&& match block.block {
        BlockState::Missed(_) => m.model@.len() == 0,
        BlockState::Proposed(b) => attestation_models_of(m.model@, b.attestations@),
        BlockState::Orphaned(b) => attestation_models_of(m.model@, b.attestations@),
    }
}

/// Whether each epoch can be turned into its rows: its first slot is a `u64` and its
/// validators' balances are not empty and sum to a `u64`.
pub open spec fn epochs_fit(epochs: Seq<IndexedEpoch>, slots_per_epoch: u64) -> bool {
    forall|i: int|
        0 <= i < epochs.len() ==> {
            let e = (#[trigger] epochs[i]).epoch;
            &&& e.epoch * slots_per_epoch <= u64::MAX
            &&& e.validator_balances@.len() > 0
            &&& sum_u64(e.validator_balances@) <= u64::MAX
        }
}

impl Indexer {
    /// Everything to store of what was retrieved, the ranked indexes of the epochs under
    /// `{base_dir}/epochs`. Without epochs the output always comes; an error can come only
    /// where there are epochs to encode.
    pub fn index(
        self,
        base_dir: &str,
        slots_per_epoch: u64,
        far_future_epoch: Epoch,
        clock: &Clock,
    ) -> (r: Result<IndexOutput, PersistError>)
        requires
            epochs_fit(self.epochs@, slots_per_epoch),
        ensures
            self.epochs@.len() == 0 ==> r is Ok,
            r is Err ==> self.epochs@.len() > 0,
            r matches Err(e) ==> e == PersistError::Encoding,
            r matches Ok(out) ==> {
                let blocks = all_blocks(self.epochs@);
                let dir = base_dir@ + "/epochs"@;
                &&& out.epochs@.len() == self.epochs@.len()
                &&& out.epochs_extended@.len() == self.epochs@.len()
                &&& forall|i: int|
                    0 <= i < self.epochs@.len() ==> {
                        let e = self.epochs@[i].epoch;
                        &&& epoch_row_of(
                            e.epoch,
                            e.aggregated_data,
                            e.validator_inclusion,
                            slots_per_epoch,
                            *clock,
                            #[trigger] out.epochs@[i],
                        )
                        &&& epoch_extended_row_of(
                            e.epoch,
                            e.aggregated_data,
                            e.validator_balances@,
                            out.epochs_extended@[i],
                        )
                    }
                &&& out.blocks@.len() == blocks.len()
                &&& out.extended_blocks@.len() == blocks.len()
                &&& out.committees@.len() == blocks.len()
                &&& out.attestations@.len() == blocks.len()
                &&& forall|j: int|
                    0 <= j < blocks.len() ==> {
                        &&& blocks[j].is_block_model(#[trigger] out.blocks@[j], *clock)
                        &&& block_extended_row_of(blocks[j].block, blocks[j].slot, out.extended_blocks@[j])
                        &&& committee_rows_of(blocks[j], out.committees@[j])
                        &&& block_attestation_rows_of(blocks[j], out.attestations@[j])
                    }
                &&& grouped_votes(out.votes@, canonical_attestation_models(blocks), block_roots(blocks))
                &&& out.validators@.len() == self.validators@.len()
                &&& forall|k: int|
                    0 <= k < self.validators@.len() ==> {
                        let v = self.validators@[k];
                        validator_model_of(
                            v.validator,
                            v.current_epoch,
                            v.balance,
                            far_future_epoch,
                            #[trigger] out.validators@[k],
                        )
                    }
                &&& epoch_indexes_of(out.epoch_indexes@, dir, out.epochs@)
                &&& out.epochs_meta.count == self.epochs@.len()
                &&& out.blocks_meta.count == blocks.len()
                &&& out.validators_meta.count == self.validators@.len()
            },
    {
        let mut epochs_dir = base_dir.to_owned();
        epochs_dir.append("/epochs");

        let mut epochs: Vec<EpochModelWithId> = Vec::new();
        let mut epochs_extended: Vec<EpochExtendedModelWithId> = Vec::new();
        let mut i: usize = 0;
        while i < self.epochs.len()
            invariant
                i <= self.epochs@.len(),
                epochs_fit(self.epochs@, slots_per_epoch),
                epochs@.len() == i,
                epochs_extended@.len() == i,
                forall|k: int|
                    0 <= k < i ==> {
                        let e = self.epochs@[k].epoch;
                        &&& epoch_row_of(
                            e.epoch,
                            e.aggregated_data,
                            e.validator_inclusion,
                            slots_per_epoch,
                            *clock,
                            #[trigger] epochs@[k],
                        )
                        &&& epoch_extended_row_of(
                            e.epoch,
                            e.aggregated_data,
                            e.validator_balances@,
                            epochs_extended@[k],
                        )
                    },
            decreases self.epochs@.len() - i,
        {
            let e = &self.epochs[i].epoch;
            proof {
                assert(epochs_fit(self.epochs@, slots_per_epoch));
                let x = self.epochs@[i as int];
            }
            epochs.push(e.to_epoch_model(slots_per_epoch, clock));
            epochs_extended.push(e.to_epoch_extended_model());
            i = i + 1;
        }

        let ghost orig = self.epochs@;
        let mut all: Vec<ConsolidatedBlock> = Vec::new();
        let mut rest = self.epochs;
        let ghost mut taken: int = 0;
        while rest.len() > 0
            invariant
                0 <= taken <= orig.len(),
                rest@ == orig.subrange(taken, orig.len() as int),
                all@ == all_blocks(orig.take(taken)),
            decreases rest@.len(),
        {
            let IndexedEpoch { epoch: _, blocks: mut more } = rest.remove(0);
            proof {
                assert(orig.take(taken + 1).drop_last() =~= orig.take(taken));
                assert(orig.take(taken + 1).last() == orig[taken]);
            }
            all.append(&mut more);
            proof {
                taken = taken + 1;
                assert(rest@ =~= orig.subrange(taken, orig.len() as int));
            }
        }
        proof {
            assert(orig.take(taken) =~= orig);
        }

        let mut blocks: Vec<BlockModelWithId> = Vec::new();
        let mut extended_blocks: Vec<BlockExtendedModelWithId> = Vec::new();
        let mut committees: Vec<CommitteeModelsWithId> = Vec::new();
        let mut attestations: Vec<AttestationModelsWithId> = Vec::new();
        let mut roots: Vec<(Hash256, u64)> = Vec::new();
        let mut canonical: Vec<AttestationModel> = Vec::new();
        let mut j: usize = 0;
        while j < all.len()
            invariant
                j <= all@.len(),
                blocks@.len() == j,
                extended_blocks@.len() == j,
                committees@.len() == j,
                attestations@.len() == j,
                roots@ == block_roots(all@.take(j as int)),
                canonical@ == canonical_attestation_models(all@.take(j as int)),
                forall|k: int|
                    0 <= k < j ==> {
                        &&& all@[k].is_block_model(#[trigger] blocks@[k], *clock)
                        &&& block_extended_row_of(all@[k].block, all@[k].slot, extended_blocks@[k])
                        &&& committee_rows_of(all@[k], committees@[k])
                        &&& block_attestation_rows_of(all@[k], attestations@[k])
                    },
            decreases all@.len() - j,
        {
            let b = &all[j];
            let ghost prefix = all@.take(j as int);
            let ghost next = all@.take(j + 1);
            proof {
                assert(next.drop_last() =~= prefix);
                assert(next.last() == *b);
            }
            blocks.push(b.to_block_model(clock));
            extended_blocks.push(b.to_block_extended_model());
            committees.push(b.to_committee_models());
            attestations.push(b.to_attestation_models());
            match b.block.root() {
                Some(root) => roots.push((root, b.slot)),
                None => {},
            }
            if let BlockState::Proposed(_) = &b.block {
                let mut more = b.to_attestation_models().model;
                proof {
                    let bb = b.block->Proposed_0;
                    assert(more@ =~= attestation_models(bb.attestations@));
                }
                canonical.append(&mut more);
            } else {
                proof {
                    assert(canonical@ =~= canonical_attestation_models(next));
                }
            }
            j = j + 1;
        }
        proof {
            assert(all@.take(j as int) =~= all@);
        }
        let votes = group_votes(&canonical, &roots);

        let mut validators: Vec<ValidatorModel> = Vec::new();
        let mut k: usize = 0;
        while k < self.validators.len()
            invariant
                k <= self.validators@.len(),
                validators@.len() == k,
                forall|m: int|
                    0 <= m < k ==> {
                        let v = self.validators@[m];
                        validator_model_of(
                            v.validator,
                            v.current_epoch,
                            v.balance,
                            far_future_epoch,
                            #[trigger] validators@[m],
                        )
                    },
            decreases self.validators@.len() - k,
        {
            validators.push(self.validators[k].to_model(far_future_epoch));
            k = k + 1;
        }

        let epoch_indexes = match epoch_indexes(&epochs, epochs_dir.as_str()) {
            Ok(x) => x,
            Err(e) => {
                return Err(e);
            },
        };

        let epochs_meta = EpochsMeta::new(epochs.len() as u64);
        let blocks_meta = BlocksMeta::new(blocks.len() as u64);
        let validators_meta = ValidatorsMeta::new(validators.len() as u64);
        Ok(
            IndexOutput {
                epochs,
                epochs_extended,
                blocks,
                extended_blocks,
                committees,
                attestations,
                votes,
                validators,
                epoch_indexes,
                epochs_meta,
                blocks_meta,
                validators_meta,
            },
        )
    }
}

} // verus!
