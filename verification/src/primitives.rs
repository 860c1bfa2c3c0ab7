use vstd::prelude::*;

verus! {

/// A beacon-chain slot number.
pub type Slot = u64;

/// A beacon-chain epoch number.
pub type Epoch = u64;

/// A 256-bit hash (block root, state root, ...), held as four big-endian words.
#[derive(Clone, Copy, Debug, PartialEq, Eq, Structural, Hash)]
pub struct Hash256 {
    pub w0: u64,
    pub w1: u64,
    pub w2: u64,
    pub w3: u64,
}

/// A peer of the consensus network, identified by a number that the
/// network layer assigns to it.
#[derive(Clone, Copy, Debug, PartialEq, Eq, Structural, Hash)]
pub struct PeerId {
    pub id: u64,
}

/// The epoch that a slot belongs to.
pub open spec fn spec_epoch_of(slot: Slot, slots_per_epoch: u64) -> Epoch {
    (slot / slots_per_epoch) as Epoch
}

pub fn epoch_of(slot: Slot, slots_per_epoch: u64) -> (e: Epoch)
    requires
        slots_per_epoch > 0,
    ensures
        e == spec_epoch_of(slot, slots_per_epoch),
{
    slot / slots_per_epoch
}

} // verus!
