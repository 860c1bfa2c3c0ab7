use vstd::prelude::*;

use crate::block_state::{BeaconBlock, BlockState};
use crate::primitives::{Epoch, Slot};
use crate::types::clock::Clock;

verus! {

/// Counts gathered over the blocks of one epoch.
#[derive(Clone, Copy, Debug, PartialEq, Eq, Structural)]
pub struct AggregatedEpochData {
    pub proposed_blocks_count: usize,
    pub missed_blocks_count: usize,
    pub orphaned_blocks_count: usize,
    pub attestations_count: usize,
    pub deposits_count: usize,
    pub voluntary_exits_count: usize,
    pub proposer_slashings_count: usize,
    pub attester_slashings_count: usize,
}

/// Every count at zero.
pub open spec fn zero_aggregate() -> AggregatedEpochData {
    AggregatedEpochData {
        proposed_blocks_count: 0,
        missed_blocks_count: 0,
        orphaned_blocks_count: 0,
        attestations_count: 0,
        deposits_count: 0,
        voluntary_exits_count: 0,
        proposer_slashings_count: 0,
        attester_slashings_count: 0,
    }
}

/// What consolidating one block adds to the counts: one to the counter of its
/// state and, for a canonical block, the number of each kind of operation in it.
pub open spec fn spec_consolidated(d: AggregatedEpochData, block: BlockState) -> AggregatedEpochData {
    let d1 = match block {
        BlockState::Proposed(_) => AggregatedEpochData {
            proposed_blocks_count: (d.proposed_blocks_count + 1) as usize,
            ..d
        },
        BlockState::Missed(_) => AggregatedEpochData {
            missed_blocks_count: (d.missed_blocks_count + 1) as usize,
            ..d
        },
        BlockState::Orphaned(_) => AggregatedEpochData {
            orphaned_blocks_count: (d.orphaned_blocks_count + 1) as usize,
            ..d
        },
    };
    match block {
        BlockState::Proposed(b) => AggregatedEpochData {
            attestations_count: (d1.attestations_count + b.attestations@.len()) as usize,
            deposits_count: (d1.deposits_count + b.deposits_count) as usize,
            voluntary_exits_count: (d1.voluntary_exits_count + b.voluntary_exits_count) as usize,
            proposer_slashings_count: (d1.proposer_slashings_count
                + b.proposer_slashings_count) as usize,
            attester_slashings_count: (d1.attester_slashings_count
                + b.attester_slashings_count) as usize,
            ..d1
        },
        _ => d1,
    }
}

/// Whether consolidating the block keeps every count within `usize`.
pub open spec fn consolidate_fits(d: AggregatedEpochData, block: BlockState) -> bool {
    &&& (block is Proposed ==> d.proposed_blocks_count < usize::MAX)
    &&& (block is Missed ==> d.missed_blocks_count < usize::MAX)
    &&& (block is Orphaned ==> d.orphaned_blocks_count < usize::MAX)
    &&& (block matches BlockState::Proposed(b) ==> {
        &&& d.attestations_count + b.attestations@.len() <= usize::MAX
        &&& d.deposits_count + b.deposits_count <= usize::MAX
        &&& d.voluntary_exits_count + b.voluntary_exits_count <= usize::MAX
        &&& d.proposer_slashings_count + b.proposer_slashings_count <= usize::MAX
        &&& d.attester_slashings_count + b.attester_slashings_count <= usize::MAX
    })
}

impl Default for AggregatedEpochData {
    fn default() -> (d: Self)
        ensures
            d == zero_aggregate(),
    {
        AggregatedEpochData {
            proposed_blocks_count: 0,
            missed_blocks_count: 0,
            orphaned_blocks_count: 0,
            attestations_count: 0,
            deposits_count: 0,
            voluntary_exits_count: 0,
            proposer_slashings_count: 0,
            attester_slashings_count: 0,
        }
    }
}

impl AggregatedEpochData {
    /// Adds one block to the counts.
    pub fn consolidate(&mut self, block: &BlockState)
        requires
            consolidate_fits(*old(self), *block),
        ensures
            *final(self) == spec_consolidated(*old(self), *block),
    {
        match block {
            BlockState::Proposed(_) => self.proposed_blocks_count += 1,
            BlockState::Missed(_) => self.missed_blocks_count += 1,
            BlockState::Orphaned(_) => self.orphaned_blocks_count += 1,
        }

        if let Some(b) = block.canonical_block() {
            self.attestations_count += b.attestations.len();
            self.deposits_count += b.deposits_count;
            self.voluntary_exits_count += b.voluntary_exits_count;
            self.proposer_slashings_count += b.proposer_slashings_count;
            self.attester_slashings_count += b.attester_slashings_count;
        }
    }

    /// Hands back the counts gathered so far and starts again from zero.
    pub fn aggregate(&mut self) -> (aggregated: Self)
        ensures
            aggregated == *old(self),
            *final(self) == zero_aggregate(),
    {
        let aggregated = *self;

        self.proposed_blocks_count = 0;
        self.missed_blocks_count = 0;
        self.orphaned_blocks_count = 0;
        self.attestations_count = 0;
        self.deposits_count = 0;
        self.voluntary_exits_count = 0;
        self.proposer_slashings_count = 0;
        self.attester_slashings_count = 0;

        aggregated
    }
}

/// The totals of an epoch's processing that the indexer keeps: the active
/// balances and, where the fork tracks them, the attesting balances.
#[derive(Clone, Copy, Debug, PartialEq, Eq, Structural)]
pub struct EpochProcessingSummary {
    pub current_epoch_total_active_balance: u64,
    pub previous_epoch_total_active_balance: u64,
    pub current_epoch_target_attesting_balance: Option<u64>,
    pub previous_epoch_target_attesting_balance: Option<u64>,
    pub previous_epoch_head_attesting_balance: Option<u64>,
}

/// Balances that took part in the epoch, in gwei.
#[derive(Clone, Copy, Debug, PartialEq, Eq, Structural)]
pub struct GlobalValidatorInclusionData {
    pub current_epoch_active_gwei: u64,
    pub previous_epoch_active_gwei: u64,
    pub current_epoch_target_attesting_gwei: u64,
    pub previous_epoch_target_attesting_gwei: u64,
    pub previous_epoch_head_attesting_gwei: u64,
}

pub open spec fn or_zero(v: Option<u64>) -> u64 {
    match v {
        Some(x) => x,
        None => 0,
    }
}

/// The inclusion data of a summary: a balance that the summary lacks counts as zero.
pub open spec fn spec_inclusion(s: EpochProcessingSummary) -> GlobalValidatorInclusionData {
    GlobalValidatorInclusionData {
        current_epoch_active_gwei: s.current_epoch_total_active_balance,
        previous_epoch_active_gwei: s.previous_epoch_total_active_balance,
        current_epoch_target_attesting_gwei: or_zero(s.current_epoch_target_attesting_balance),
        previous_epoch_target_attesting_gwei: or_zero(s.previous_epoch_target_attesting_balance),
        previous_epoch_head_attesting_gwei: or_zero(s.previous_epoch_head_attesting_balance),
    }
}

/// Everything the indexer gathered about one epoch.
pub struct ConsolidatedEpoch {
    pub epoch: Epoch,
    pub aggregated_data: AggregatedEpochData,
    pub validator_balances: Vec<u64>,
    pub validator_inclusion: GlobalValidatorInclusionData,
}

/// The sum of a sequence of balances.
pub open spec fn sum_u64(s: Seq<u64>) -> nat
    decreases s.len(),
{
    if s.len() == 0 {
        0
    } else {
        sum_u64(s.drop_last()) + s.last() as nat
    }
}

/// A row of the epochs table.
#[derive(Clone, Copy, Debug, PartialEq, Eq, Structural)]
pub struct EpochModel {
    pub timestamp: u64,
    pub proposed_blocks_count: usize,
    pub missed_blocks_count: usize,
    pub orphaned_blocks_count: usize,
    pub proposer_slashings_count: usize,
    pub attester_slashings_count: usize,
    pub attestations_count: usize,
    pub deposits_count: usize,
    pub eligible_ether: u64,
    pub voted_ether: u64,
}

#[derive(Clone, Copy, Debug, PartialEq, Eq, Structural)]
pub struct EpochModelWithId {
    pub id: u64,
    pub model: EpochModel,
}

/// A row of the extended epochs table.
#[derive(Clone, Copy, Debug, PartialEq, Eq, Structural)]
pub struct EpochExtendedModel {
    pub voluntary_exits_count: usize,
    pub validators_count: usize,
    pub average_validator_balance: u64,
    pub total_validator_balance: u64,
}

#[derive(Clone, Copy, Debug, PartialEq, Eq, Structural)]
pub struct EpochExtendedModelWithId {
    pub id: u64,
    pub model: EpochExtendedModel,
}

/// Whether `m` is the row of the epochs table for an epoch with these counts and inclusion
/// data: its counts, the time its first slot starts, and the active (eligible) and
/// target-attesting (voted) balances of the previous epoch.
pub open spec fn epoch_row_of(
    epoch: Epoch,
    data: AggregatedEpochData,
    inclusion: GlobalValidatorInclusionData,
    slots_per_epoch: u64,
    clock: Clock,
    m: EpochModelWithId,
) -> bool {
    &&& m.id == epoch
    &&& m.model.timestamp == clock.spec_timestamp_or_zero((epoch * slots_per_epoch) as Slot)
    &&& m.model.proposed_blocks_count == data.proposed_blocks_count
    &&& m.model.missed_blocks_count == data.missed_blocks_count
    &&& m.model.orphaned_blocks_count == data.orphaned_blocks_count
    &&& m.model.proposer_slashings_count == data.proposer_slashings_count
    &&& m.model.attester_slashings_count == data.attester_slashings_count
    &&& m.model.attestations_count == data.attestations_count
    &&& m.model.deposits_count == data.deposits_count
    &&& m.model.eligible_ether == inclusion.previous_epoch_active_gwei
    &&& m.model.voted_ether == inclusion.previous_epoch_target_attesting_gwei
}

/// Whether `m` is the row of the extended epochs table for an epoch with these counts and
/// validator balances: the number of validators, their total balance and its average
/// (rounded down).
pub open spec fn epoch_extended_row_of(
    epoch: Epoch,
    data: AggregatedEpochData,
    balances: Seq<u64>,
    m: EpochExtendedModelWithId,
) -> bool {
    &&& m.id == epoch
    &&& m.model.voluntary_exits_count == data.voluntary_exits_count
    &&& m.model.validators_count == balances.len()
    &&& m.model.total_validator_balance == sum_u64(balances)
    &&& m.model.average_validator_balance == sum_u64(balances) / balances.len()
}

impl ConsolidatedEpoch {
    pub fn new(
        epoch: Epoch,
        aggregated_data: AggregatedEpochData,
        summary: &EpochProcessingSummary,
        validator_balances: Vec<u64>,
    ) -> (e: Self)
        ensures
            e.epoch == epoch,
            e.aggregated_data == aggregated_data,
            e.validator_balances@ == validator_balances@,
            e.validator_inclusion == spec_inclusion(*summary),
    {
        ConsolidatedEpoch {
            epoch,
            aggregated_data,
            validator_balances,
            validator_inclusion: GlobalValidatorInclusionData {
                current_epoch_active_gwei: summary.current_epoch_total_active_balance,
                previous_epoch_active_gwei: summary.previous_epoch_total_active_balance,
                current_epoch_target_attesting_gwei: summary.current_epoch_target_attesting_balance.unwrap_or(0),
                previous_epoch_target_attesting_gwei: summary.previous_epoch_target_attesting_balance.unwrap_or(0),
                previous_epoch_head_attesting_gwei: summary.previous_epoch_head_attesting_balance.unwrap_or(0),
            },
        }
    }

    /// The epoch number.
    pub fn number(&self) -> (n: u64)
        ensures
            n == self.epoch,
    {
        self.epoch
    }

    /// The sum of every validator's balance.
    pub fn get_total_validators_balance(&self) -> (total: u64)
        requires
            sum_u64(self.validator_balances@) <= u64::MAX,
        ensures
            total == sum_u64(self.validator_balances@),
    {
        let mut total: u64 = 0;
        let mut i: usize = 0;
        while i < self.validator_balances.len()
            invariant
                i <= self.validator_balances@.len(),
                total == sum_u64(self.validator_balances@.take(i as int)),
                sum_u64(self.validator_balances@) <= u64::MAX,
            decreases self.validator_balances@.len() - i,
        {
            proof {
                lemma_sum_prefix_le(self.validator_balances@, i as int + 1);
                assert(self.validator_balances@.take(i as int + 1).drop_last()
                    =~= self.validator_balances@.take(i as int));
            }
            total = total + self.validator_balances[i];
            i = i + 1;
        }
        proof {
            assert(self.validator_balances@.take(i as int) =~= self.validator_balances@);
        }
        total
    }

    /// The row of the epochs table for this epoch: its counts, the time its first
    /// slot starts, and the active (eligible) and target-attesting (voted)
    /// balances of the previous epoch.
    pub fn to_epoch_model(&self, slots_per_epoch: u64, clock: &Clock) -> (m: EpochModelWithId)
        requires
            self.epoch * slots_per_epoch <= u64::MAX,
        ensures
            epoch_row_of(self.epoch, self.aggregated_data, self.validator_inclusion, slots_per_epoch, *clock, m),
    {
        let start_slot = self.epoch * slots_per_epoch;
        let model = EpochModel {
            timestamp: clock.timestamp_or_zero(start_slot),
            proposed_blocks_count: self.aggregated_data.proposed_blocks_count,
            missed_blocks_count: self.aggregated_data.missed_blocks_count,
            orphaned_blocks_count: self.aggregated_data.orphaned_blocks_count,
            proposer_slashings_count: self.aggregated_data.proposer_slashings_count,
            attester_slashings_count: self.aggregated_data.attester_slashings_count,
            attestations_count: self.aggregated_data.attestations_count,
            deposits_count: self.aggregated_data.deposits_count,
            eligible_ether: self.validator_inclusion.previous_epoch_active_gwei,
            voted_ether: self.validator_inclusion.previous_epoch_target_attesting_gwei,
        };
        EpochModelWithId { id: self.epoch, model }
    }

    /// The row of the extended epochs table: the number of validators, their
    /// total balance and its average (rounded down).
    pub fn to_epoch_extended_model(&self) -> (m: EpochExtendedModelWithId)
        requires
            self.validator_balances@.len() > 0,
            sum_u64(self.validator_balances@) <= u64::MAX,
        ensures
            epoch_extended_row_of(self.epoch, self.aggregated_data, self.validator_balances@, m),
    {
        let total = self.get_total_validators_balance();
        let count = self.validator_balances.len();
        let model = EpochExtendedModel {
            voluntary_exits_count: self.aggregated_data.voluntary_exits_count,
            validators_count: count,
            average_validator_balance: total / (count as u64),
            total_validator_balance: total,
        };
        EpochExtendedModelWithId { id: self.epoch, model }
    }
}

/// The sum of a prefix is at most the sum of the whole.
pub proof fn lemma_sum_prefix_le(s: Seq<u64>, k: int)
    requires
        0 <= k <= s.len(),
    ensures
        sum_u64(s.take(k)) <= sum_u64(s),
    decreases s.len(),
{
    if k < s.len() {
        assert(s.drop_last().take(k) =~= s.take(k));
        lemma_sum_prefix_le(s.drop_last(), k);
    } else {
        assert(s.take(k) =~= s);
    }
}

} // verus!
