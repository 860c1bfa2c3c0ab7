use vstd::prelude::*;

use crate::block_state::BlockState;
use crate::primitives::{epoch_of, spec_epoch_of, Epoch, Slot};
use crate::types::clock::Clock;
use crate::types::consolidated_block::{
    block_extended_row_of, block_row_of, BlockExtendedModelWithId, BlockModelWithId,
    ConsolidatedBlock,
};

verus! {

/// Stores orphaned blocks over slots that were first stored as missed.
pub struct PersistExistingBlockWorker {
    base_dir: String,
}

/// The work for one orphaned block: where to store it, the block, its slot and epoch.
pub struct ExistingBlockJob {
    pub base_dir: String,
    pub block_state: BlockState,
    pub slot: Slot,
    pub epoch: Epoch,
}

impl PersistExistingBlockWorker {
    /// The data directory.
    pub closed spec fn base(&self) -> Seq<char> {
        self.base_dir@
    }

    pub fn new(base_dir: String) -> (w: Self)
        ensures
            w.base() == base_dir@,
    {
        Self { base_dir }
    }

    /// The job for an orphaned block; other blocks give none.
    pub fn spawn(&self, block_state: BlockState, slots_per_epoch: u64) -> (job: Option<ExistingBlockJob>)
        requires
            slots_per_epoch > 0,
        ensures
            match block_state {
                BlockState::Orphaned(b) => job matches Some(j) && {
                    &&& j.base_dir@ == self.base()
                    &&& j.block_state == block_state
                    &&& j.slot == b.slot
                    &&& j.epoch == spec_epoch_of(b.slot, slots_per_epoch)
                },
                _ => job is None,
            },
    {
        let slot = match &block_state {
            BlockState::Orphaned(block) => block.slot,
            _ => {
                return None;
            },
        };
        let base_dir = self.base_dir.clone();
        Some(ExistingBlockJob { base_dir, block_state, slot, epoch: epoch_of(slot, slots_per_epoch) })
    }
}

/// The rows to store for the job's block, given the row already stored for its slot:
/// only a slot stored as missed is overwritten, with the stored proposer.
pub fn persist_existing_block(
    job: ExistingBlockJob,
    stored: &BlockModelWithId,
    clock: &Clock,
    slots_per_epoch: u64,
) -> (rows: Option<(BlockModelWithId, BlockExtendedModelWithId)>)
    requires
        slots_per_epoch > 0,
    ensures
        stored.model.status@ == "Missed"@ <==> rows is Some,
        rows matches Some((m, e)) ==> {
            let slot = job.block_state.spec_slot();
            &&& block_row_of(
                job.block_state,
                slot,
                spec_epoch_of(slot, slots_per_epoch),
                stored.model.proposer,
                *clock,
                m,
            )
            &&& block_extended_row_of(job.block_state, slot, e)
        },
{
    if stored.model.status != String::from_str("Missed") {
        return None;
    }
    let block = ConsolidatedBlock::new(
        job.block_state,
        stored.model.proposer,
        Vec::new(),
        Vec::new(),
        slots_per_epoch,
    );
    Some((block.to_block_model(clock), block.to_block_extended_model()))
}

} // verus!
