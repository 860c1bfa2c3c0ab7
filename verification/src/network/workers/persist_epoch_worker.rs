use vstd::prelude::*;

use crate::assoc::{distinct_keys, sort_by_key, sorted_by_key};
use crate::block_state::BlockState;
use crate::primitives::{Epoch, Slot};
use crate::types::clock::Clock;
use crate::types::consolidated_block::{
    attestation_models_of, block_extended_row_of, block_row_of, AttestationModelsWithId,
    BlockExtendedModelWithId, BlockModelWithId, ConsolidatedBlock,
};
use crate::types::consolidated_epoch::{
    consolidate_fits, epoch_extended_row_of, epoch_row_of, spec_consolidated, spec_inclusion,
    sum_u64, zero_aggregate, AggregatedEpochData, ConsolidatedEpoch, EpochExtendedModelWithId,
    EpochModelWithId, EpochProcessingSummary,
};
use crate::types::meta::{BlocksMeta, EpochsMeta};

verus! {

/// The last slot of an epoch, `(epoch + 1) * slots_per_epoch - 1`, each step saturating.
pub open spec fn spec_end_slot(epoch: Epoch, slots_per_epoch: u64) -> Slot {
    let next = if epoch < u64::MAX { epoch + 1 } else { u64::MAX as int };
    let start = if next * slots_per_epoch <= u64::MAX { next * slots_per_epoch } else { u64::MAX as int };
    if start > 0 { (start - 1) as Slot } else { 0 }
}

/// The last slot of an epoch, computed with saturating arithmetic.
pub fn end_slot(epoch: Epoch, slots_per_epoch: u64) -> (s: Slot)
    ensures
        s == spec_end_slot(epoch, slots_per_epoch),
{
    let next = epoch.saturating_add(1);
    let start = match next.checked_mul(slots_per_epoch) {
        Some(v) => v,
        None => u64::MAX,
    };
    start.saturating_sub(1)
}

/// One step of replaying blocks on a state: process empty slots until the state is at the
/// given slot, or process the block at the given position of the list.
#[derive(Clone, Copy, Debug, PartialEq, Eq, Structural)]
pub enum ReplayStep {
    AdvanceTo(Slot),
    Apply(usize),
}

/// The steps that apply the blocks from position `start` on: each block is preceded by
/// advancing to its slot.
pub open spec fn replay_steps(slots: Seq<Slot>, start: int) -> Seq<ReplayStep>
    decreases slots.len() - start,
{
    if start < 0 || start >= slots.len() {
        Seq::empty()
    } else {
        seq![ReplayStep::AdvanceTo(slots[start]), ReplayStep::Apply(start as usize)]
            + replay_steps(slots, start + 1)
    }
}

/// The replay of an epoch's proposed blocks on a state at `state_slot`, up to `target`:
/// a first block that the state has already reached is only there for its state root and
/// is passed over; the others are applied in order; then the state advances to `target`.
pub open spec fn spec_replay_plan(state_slot: Slot, slots: Seq<Slot>, target: Slot) -> Seq<ReplayStep> {
    let start = if slots.len() > 0 && slots[0] <= state_slot { 1int } else { 0int };
    replay_steps(slots, start).push(ReplayStep::AdvanceTo(target))
}

/// The steps that replay blocks at `slots` on a state at `state_slot`, up to `target`.
pub fn apply_blocks(state_slot: Slot, slots: &Vec<Slot>, target: Slot) -> (plan: Vec<ReplayStep>)
    ensures
        plan@ == spec_replay_plan(state_slot, slots@, target),
{
    let mut plan: Vec<ReplayStep> = Vec::new();
    let start: usize = if slots.len() > 0 && slots[0] <= state_slot { 1 } else { 0 };
    let mut i: usize = start;
    while i < slots.len()
        invariant
            start <= i <= slots@.len() || (i == start && start > slots@.len()),
            start <= 1,
            plan@ + replay_steps(slots@, i as int) == replay_steps(slots@, start as int),
        decreases slots@.len() - i,
    {
        let ghost before = plan@;
        plan.push(ReplayStep::AdvanceTo(slots[i]));
        plan.push(ReplayStep::Apply(i));
        proof {
            assert(replay_steps(slots@, i as int) == seq![
                ReplayStep::AdvanceTo(slots@[i as int]),
                ReplayStep::Apply(i),
            ] + replay_steps(slots@, i + 1));
            assert(plan@ + replay_steps(slots@, i + 1) =~= before + replay_steps(slots@, i as int));
        }
        i = i + 1;
    }
    proof {
        assert(replay_steps(slots@, i as int) =~= Seq::<ReplayStep>::empty());
        assert(plan@ =~= replay_steps(slots@, start as int));
    }
    plan.push(ReplayStep::AdvanceTo(target));
    plan
}

/// The blocks of an epoch ordered by slot, the slots of the proposed ones in that order,
/// the last slot of the epoch and the replay that brings a state at `state_slot` to it.
pub struct EpochWork {
    pub blocks: Vec<(Slot, BlockState)>,
    pub proposed_slots: Vec<Slot>,
    pub last_slot: Slot,
    pub replay: Vec<ReplayStep>,
}

/// The slots of the proposed blocks, in order.
pub open spec fn proposed_slots(s: Seq<(Slot, BlockState)>) -> Seq<Slot>
    decreases s.len(),
{
    if s.len() == 0 {
        Seq::empty()
    } else {
        let rest = proposed_slots(s.drop_last());
        if s.last().1 is Proposed {
            rest.push(s.last().0)
        } else {
            rest
        }
    }
}

/// The work for an epoch's blocks: sorts them by slot and plans the replay of the proposed
/// ones, from a state at `state_slot`, up to the last slot of the epoch.
pub fn handle_work(
    epoch: Epoch,
    blocks: Vec<(Slot, BlockState)>,
    state_slot: Slot,
    slots_per_epoch: u64,
) -> (w: EpochWork)
    requires
        distinct_keys(blocks@),
    ensures
        sorted_by_key(w.blocks@),
        w.blocks@.len() == blocks@.len(),
        forall|x: (Slot, BlockState)| w.blocks@.contains(x) <==> blocks@.contains(x),
        w.proposed_slots@ == proposed_slots(w.blocks@),
        w.last_slot == spec_end_slot(epoch, slots_per_epoch),
        w.replay@ == spec_replay_plan(state_slot, w.proposed_slots@, w.last_slot),
{
    let sorted = sort_by_key(blocks);
    let mut slots: Vec<Slot> = Vec::new();
    let mut i: usize = 0;
    while i < sorted.len()
        invariant
            i <= sorted@.len(),
            slots@ == proposed_slots(sorted@.take(i as int)),
        decreases sorted@.len() - i,
    {
        proof {
            assert(sorted@.take(i + 1).drop_last() =~= sorted@.take(i as int));
        }
        if let BlockState::Proposed(_) = &sorted[i].1 {
            slots.push(sorted[i].0);
        }
        i = i + 1;
    }
    assert(sorted@.take(i as int) =~= sorted@);
    let last_slot = end_slot(epoch, slots_per_epoch);
    let replay = apply_blocks(state_slot, &slots, last_slot);
    EpochWork { blocks: sorted, proposed_slots: slots, last_slot, replay }
}

/// The block states of a list of consolidated blocks.
pub open spec fn states_of(s: Seq<ConsolidatedBlock>) -> Seq<BlockState> {
    s.map_values(|b: ConsolidatedBlock| b.block)
}

/// The counts over a list of blocks, consolidated in order; none where a count would
/// leave `usize`.
pub open spec fn aggregate_of(s: Seq<BlockState>) -> Option<AggregatedEpochData>
    decreases s.len(),
{
    if s.len() == 0 {
        Some(zero_aggregate())
    } else {
        match aggregate_of(s.drop_last()) {
            Some(d) => if consolidate_fits(d, s.last()) {
                Some(spec_consolidated(d, s.last()))
            } else {
                None
            },
            None => None,
        }
    }
}

/// The counts over the blocks, consolidated one after the other from zero, or none where
/// a count would leave `usize`: each count is the total of its weight over the blocks,
/// the three block counters add up to the number of blocks, and where every total fits
/// the counts come.
pub fn aggregate_blocks(blocks: &Vec<ConsolidatedBlock>) -> (r: Option<AggregatedEpochData>)
    ensures
        r == aggregate_of(states_of(blocks@)),
        r matches Some(d) ==> {
            &&& forall|k: int| 0 <= k < 8 ==> #[trigger] aggregate_count(d, k) == total(states_of(blocks@), k)
            &&& d.proposed_blocks_count + d.missed_blocks_count + d.orphaned_blocks_count == blocks@.len()
        },
        (forall|k: int| 0 <= k < 8 ==> #[trigger] total(states_of(blocks@), k) <= usize::MAX) ==> r is Some,
{
    proof {
        lemma_aggregate_totals(states_of(blocks@));
    }
    let mut data = AggregatedEpochData::default();
    let mut i: usize = 0;
    while i < blocks.len()
        invariant
            i <= blocks@.len(),
            aggregate_of(states_of(blocks@.take(i as int))) == Some(data),
        decreases blocks@.len() - i,
    {
        let b = &blocks[i].block;
        proof {
            assert(states_of(blocks@.take(i + 1)).drop_last() =~= states_of(blocks@.take(i as int)));
            assert(states_of(blocks@.take(i + 1)).last() == *b);
        }
        if !fits(&data, b) {
            proof {
                assert(states_of(blocks@).take(i + 1) =~= states_of(blocks@.take(i + 1)));
                assert(aggregate_of(states_of(blocks@.take(i + 1))) is None);
                lemma_aggregate_none_stays(states_of(blocks@), i as int + 1);
                lemma_aggregate_totals(states_of(blocks@));
            }
            return None;
        }
        data.consolidate(b);
        i = i + 1;
    }
    assert(blocks@.take(i as int) =~= blocks@);
    Some(data)
}

/// Whether consolidating the block keeps every count within `usize`.
fn fits(d: &AggregatedEpochData, block: &BlockState) -> (r: bool)
    ensures
        r == consolidate_fits(*d, *block),
{
    match block {
        BlockState::Missed(_) => d.missed_blocks_count < usize::MAX,
        BlockState::Orphaned(_) => d.orphaned_blocks_count < usize::MAX,
        BlockState::Proposed(b) => {
            d.proposed_blocks_count < usize::MAX
                && d.attestations_count <= usize::MAX - b.attestations.len()
                && d.deposits_count <= usize::MAX - b.deposits_count
                && d.voluntary_exits_count <= usize::MAX - b.voluntary_exits_count
                && d.proposer_slashings_count <= usize::MAX - b.proposer_slashings_count
                && d.attester_slashings_count <= usize::MAX - b.attester_slashings_count
        },
    }
}

/// Once the counts overflow, they stay overflowed.
proof fn lemma_aggregate_none_stays(s: Seq<BlockState>, k: int)
    requires
        0 <= k <= s.len(),
        aggregate_of(s.take(k)) is None,
    ensures
        aggregate_of(s) is None,
    decreases s.len(),
{
    if k == s.len() {
        assert(s.take(k) =~= s);
    } else {
        assert(s.drop_last().take(k) =~= s.take(k));
        lemma_aggregate_none_stays(s.drop_last(), k);
    }
}

/// What one block adds to the `k`-th count of an aggregate: in order the proposed, missed
/// and orphaned blocks, then the attestations, deposits, voluntary exits, proposer
/// slashings and attester slashings of a proposed block.
pub open spec fn block_weight(b: BlockState, k: int) -> nat {
    match b {
        BlockState::Proposed(x) => if k == 0 {
            1
        } else if k == 3 {
            x.attestations@.len()
        } else if k == 4 {
            x.deposits_count as nat
        } else if k == 5 {
            x.voluntary_exits_count as nat
        } else if k == 6 {
            x.proposer_slashings_count as nat
        } else if k == 7 {
            x.attester_slashings_count as nat
        } else {
            0
        },
        BlockState::Missed(_) => if k == 1 { 1 } else { 0 },
        BlockState::Orphaned(_) => if k == 2 { 1 } else { 0 },
    }
}

/// The `k`-th count of an aggregate, in the order of `block_weight`.
pub open spec fn aggregate_count(d: AggregatedEpochData, k: int) -> nat {
    if k == 0 {
        d.proposed_blocks_count as nat
    } else if k == 1 {
        d.missed_blocks_count as nat
    } else if k == 2 {
        d.orphaned_blocks_count as nat
    } else if k == 3 {
        d.attestations_count as nat
    } else if k == 4 {
        d.deposits_count as nat
    } else if k == 5 {
        d.voluntary_exits_count as nat
    } else if k == 6 {
        d.proposer_slashings_count as nat
    } else {
        d.attester_slashings_count as nat
    }
}

/// The sum of the `k`-th weights of the blocks.
pub open spec fn total(s: Seq<BlockState>, k: int) -> nat
    decreases s.len(),
{
    if s.len() == 0 {
        0
    } else {
        total(s.drop_last(), k) + block_weight(s.last(), k)
    }
}

proof fn lemma_total_grows(s: Seq<BlockState>, k: int)
    ensures
        s.len() > 0 ==> total(s.drop_last(), k) <= total(s, k),
{
}

proof fn lemma_consolidated_count(d: AggregatedEpochData, b: BlockState, k: int)
    requires
        consolidate_fits(d, b),
        0 <= k < 8,
    ensures
        aggregate_count(spec_consolidated(d, b), k) == aggregate_count(d, k) + block_weight(b, k),
{
}

/// Consolidating blocks one after the other from zero counts each kind of block and adds up
/// each kind of operation of the proposed ones: every count is the total of its weight over
/// the blocks, the three block counters add up to the number of blocks, and where every
/// total fits in `usize` no count overflows on the way.
pub proof fn lemma_aggregate_totals(s: Seq<BlockState>)
    ensures
        aggregate_of(s) matches Some(d) ==> {
            &&& forall|k: int| 0 <= k < 8 ==> #[trigger] aggregate_count(d, k) == total(s, k)
            &&& d.proposed_blocks_count + d.missed_blocks_count + d.orphaned_blocks_count == s.len()
        },
        (forall|k: int| 0 <= k < 8 ==> #[trigger] total(s, k) <= usize::MAX) ==> aggregate_of(s) is Some,
    decreases s.len(),
{
    if s.len() > 0 {
        let p = s.drop_last();
        let b = s.last();
        lemma_aggregate_totals(p);
        assert forall|k: int| 0 <= k < 8 implies #[trigger] total(p, k) <= total(s, k) by {
            lemma_total_grows(s, k);
        }
        if let Some(d) = aggregate_of(p) {
            if consolidate_fits(d, b) {
                assert forall|k: int| 0 <= k < 8 implies #[trigger] aggregate_count(spec_consolidated(d, b), k)
                    == total(s, k) by {
                    lemma_consolidated_count(d, b, k);
                }
                assert(aggregate_count(spec_consolidated(d, b), 0) == total(s, 0));
                assert(aggregate_count(spec_consolidated(d, b), 1) == total(s, 1));
                assert(aggregate_count(spec_consolidated(d, b), 2) == total(s, 2));
            } else {
                if forall|k: int| 0 <= k < 8 ==> #[trigger] total(s, k) <= usize::MAX {
                    assert(aggregate_count(d, 0) == total(p, 0));
                    assert(aggregate_count(d, 1) == total(p, 1));
                    assert(aggregate_count(d, 2) == total(p, 2));
                    assert(aggregate_count(d, 3) == total(p, 3));
                    assert(aggregate_count(d, 4) == total(p, 4));
                    assert(aggregate_count(d, 5) == total(p, 5));
                    assert(aggregate_count(d, 6) == total(p, 6));
                    assert(aggregate_count(d, 7) == total(p, 7));
                    assert(total(s, 0) <= usize::MAX);
                    assert(total(s, 1) <= usize::MAX);
                    assert(total(s, 2) <= usize::MAX);
                    assert(total(s, 3) <= usize::MAX);
                    assert(total(s, 4) <= usize::MAX);
                    assert(total(s, 5) <= usize::MAX);
                    assert(total(s, 6) <= usize::MAX);
                    assert(total(s, 7) <= usize::MAX);
                    assert(false);
                }
            }
        }
    }
}

/// The block states of a list of (slot, block state).
pub open spec fn pair_states(s: Seq<(Slot, BlockState)>) -> Seq<BlockState> {
    s.map_values(|p: (Slot, BlockState)| p.1)
}

/// Whether `m` holds, for the slot of a block, the block's attestations as they are stored.
pub open spec fn attestation_rows_of(block: BlockState, m: AttestationModelsWithId) -> bool {
    &&& m.id == block.spec_slot()
    &&& match block {
        BlockState::Missed(_) => m.model@.len() == 0,
        BlockState::Proposed(b) => attestation_models_of(m.model@, b.attestations@),
        BlockState::Orphaned(b) => attestation_models_of(m.model@, b.attestations@),
    }
}

/// The rows that store an epoch: its row and extended row, the rows of each of its blocks
/// and the new numbers of stored epochs and slots.
pub struct EpochRows {
    pub epoch_model: EpochModelWithId,
    pub extended_epoch_model: EpochExtendedModelWithId,
    pub block_models: Vec<BlockModelWithId>,
    pub extended_block_models: Vec<BlockExtendedModelWithId>,
    pub attestation_models: Vec<AttestationModelsWithId>,
    pub epochs_meta: EpochsMeta,
    pub blocks_meta: BlocksMeta,
}

/// The rows of an epoch once its blocks have been replayed: each block with the proposer
/// that the state gives for its slot, the epoch's counts over its blocks, the summary of
/// the epoch's processing and the validators' balances. None where a count would leave
/// `usize`.
pub fn epoch_rows(
    epoch: Epoch,
    blocks: Vec<(Slot, BlockState)>,
    proposers: &Vec<u64>,
    summary: &EpochProcessingSummary,
    balances: Vec<u64>,
    clock: &Clock,
    last_slot: Slot,
    slots_per_epoch: u64,
) -> (r: Option<EpochRows>)
    requires
        proposers@.len() == blocks@.len(),
        slots_per_epoch > 0,
        epoch * slots_per_epoch <= u64::MAX,
        epoch < u64::MAX,
        last_slot < u64::MAX,
        balances@.len() > 0,
        sum_u64(balances@) <= u64::MAX,
    ensures
        r is None <==> aggregate_of(pair_states(blocks@)) is None,
        r matches Some(rows) ==> {
            let d = aggregate_of(pair_states(blocks@))->0;
            &&& epoch_row_of(epoch, d, spec_inclusion(*summary), slots_per_epoch, *clock, rows.epoch_model)
            &&& epoch_extended_row_of(epoch, d, balances@, rows.extended_epoch_model)
            &&& rows.block_models@.len() == blocks@.len()
            &&& rows.extended_block_models@.len() == blocks@.len()
            &&& rows.attestation_models@.len() == blocks@.len()
            &&& forall|i: int|
                0 <= i < blocks@.len() ==> {
                    let b = blocks@[i].1;
                    let slot = b.spec_slot();
                    &&& block_row_of(
                        b,
                        slot,
                        crate::primitives::spec_epoch_of(slot, slots_per_epoch),
                        proposers@[i],
                        *clock,
                        #[trigger] rows.block_models@[i],
                    )
                    &&& block_extended_row_of(b, slot, rows.extended_block_models@[i])
                    &&& attestation_rows_of(b, rows.attestation_models@[i])
                }
            &&& rows.epochs_meta.count == epoch + 1
            &&& rows.blocks_meta.count == last_slot + 1
        },
{
    let mut consolidated: Vec<ConsolidatedBlock> = Vec::new();
    let mut rest = blocks;
    let ghost all = rest@;
    assert(all.len() == proposers.len());
    let mut i: usize = 0;
    while rest.len() > 0
        invariant
            slots_per_epoch > 0,
            i == consolidated@.len(),
            consolidated@.len() + rest@.len() == all.len(),
            proposers@.len() == all.len(),
            all.len() <= usize::MAX,
            rest@ == all.subrange(i as int, all.len() as int),
            forall|j: int|
                0 <= j < i ==> {
                    &&& (#[trigger] consolidated@[j]).block == all[j].1
                    &&& consolidated@[j].proposer_index == proposers@[j]
                    &&& consolidated@[j].wf(slots_per_epoch)
                },
        decreases rest@.len(),
    {
        let (_, state) = rest.remove(0);
        let c = ConsolidatedBlock::new(state, proposers[i], Vec::new(), Vec::new(), slots_per_epoch);
        consolidated.push(c);
        i = i + 1;
    }
    proof {
        assert(states_of(consolidated@) =~= pair_states(all));
    }
    let data = match aggregate_blocks(&consolidated) {
        Some(d) => d,
        None => {
            return None;
        },
    };
    let mut block_models: Vec<BlockModelWithId> = Vec::new();
    let mut extended_block_models: Vec<BlockExtendedModelWithId> = Vec::new();
    let mut attestation_models: Vec<AttestationModelsWithId> = Vec::new();
    let mut k: usize = 0;
    while k < consolidated.len()
        invariant
            k <= consolidated@.len() == all.len() == proposers@.len(),
            block_models@.len() == k,
            extended_block_models@.len() == k,
            attestation_models@.len() == k,
            forall|j: int|
                0 <= j < consolidated@.len() ==> {
                    &&& (#[trigger] consolidated@[j]).block == all[j].1
                    &&& consolidated@[j].proposer_index == proposers@[j]
                    &&& consolidated@[j].wf(slots_per_epoch)
                },
            forall|j: int|
                0 <= j < k ==> {
                    let b = all[j].1;
                    let slot = b.spec_slot();
                    &&& block_row_of(
                        b,
                        slot,
                        crate::primitives::spec_epoch_of(slot, slots_per_epoch),
                        proposers@[j],
                        *clock,
                        #[trigger] block_models@[j],
                    )
                    &&& block_extended_row_of(b, slot, extended_block_models@[j])
                    &&& attestation_rows_of(b, attestation_models@[j])
                },
        decreases consolidated@.len() - k,
    {
        let c = &consolidated[k];
        block_models.push(c.to_block_model(clock));
        extended_block_models.push(c.to_block_extended_model());
        attestation_models.push(c.to_attestation_models());
        k = k + 1;
    }
    let consolidated_epoch = ConsolidatedEpoch::new(epoch, data, summary, balances);
    Some(
        EpochRows {
            epoch_model: consolidated_epoch.to_epoch_model(slots_per_epoch, clock),
            extended_epoch_model: consolidated_epoch.to_epoch_extended_model(),
            block_models,
            extended_block_models,
            attestation_models,
            epochs_meta: EpochsMeta::new(epoch + 1),
            blocks_meta: BlocksMeta::new(last_slot + 1),
        },
    )
}

} // verus!

verus! {

/// The rows of an epoch already consolidated, and the new number of stored epochs.
pub fn persist_epoch(
    epoch: &ConsolidatedEpoch,
    slots_per_epoch: u64,
    clock: &Clock,
) -> (r: (EpochModelWithId, EpochExtendedModelWithId, EpochsMeta))
    requires
        epoch.epoch * slots_per_epoch <= u64::MAX,
        epoch.epoch < u64::MAX,
        epoch.validator_balances@.len() > 0,
        sum_u64(epoch.validator_balances@) <= u64::MAX,
    ensures
        epoch_row_of(epoch.epoch, epoch.aggregated_data, epoch.validator_inclusion, slots_per_epoch, *clock, r.0),
        epoch_extended_row_of(epoch.epoch, epoch.aggregated_data, epoch.validator_balances@, r.1),
        r.2.count == epoch.epoch + 1,
{
    (
        epoch.to_epoch_model(slots_per_epoch, clock),
        epoch.to_epoch_extended_model(),
        EpochsMeta::new(epoch.number() + 1),
    )
}

} // verus!
