use vstd::prelude::*;

use crate::block_state::BlockState;
use crate::primitives::Slot;

verus! {

/// One step of bringing the state to a block and storing it.
#[derive(Clone, Copy, Debug, PartialEq, Eq, Structural)]
pub enum PersistStep {
    /// Process the state to the next slot.
    ProcessSlot,
    /// Apply the block to the state.
    ProcessBlock,
    /// Store the block with the state reached.
    Persist,
}

/// The steps for a block: a proposed block advances the state a slot and is applied (but
/// at slot 0), a missed slot only advances it, an orphaned block changes nothing; each is
/// then stored.
pub open spec fn spec_block_steps(block: BlockState) -> Seq<PersistStep> {
    match block {
        BlockState::Proposed(b) => if b.slot > 0 {
            seq![PersistStep::ProcessSlot, PersistStep::ProcessBlock, PersistStep::Persist]
        } else {
            seq![PersistStep::ProcessSlot, PersistStep::Persist]
        },
        BlockState::Missed(_) => seq![PersistStep::ProcessSlot, PersistStep::Persist],
        BlockState::Orphaned(_) => seq![PersistStep::Persist],
    }
}

/// The steps for a block given the slot of the state: none where the state is past
/// genesis and not behind the block.
pub fn handle(block: &BlockState, state_slot: Slot) -> (steps: Vec<PersistStep>)
    ensures
        steps@ == if state_slot == 0 || block.spec_slot() > state_slot {
            spec_block_steps(*block)
        } else {
            Seq::empty()
        },
{
    let mut steps: Vec<PersistStep> = Vec::new();
    if state_slot == 0 || block.slot() > state_slot {
        match block {
            BlockState::Proposed(b) => {
                steps.push(PersistStep::ProcessSlot);
                if b.slot > 0 {
                    steps.push(PersistStep::ProcessBlock);
                }
                steps.push(PersistStep::Persist);
            },
            BlockState::Missed(_) => {
                steps.push(PersistStep::ProcessSlot);
                steps.push(PersistStep::Persist);
            },
            BlockState::Orphaned(_) => {
                steps.push(PersistStep::Persist);
            },
        }
    }
    assert(steps@ =~= if state_slot == 0 || block.spec_slot() > state_slot {
        spec_block_steps(*block)
    } else {
        Seq::empty()
    });
    steps
}

} // verus!
