use vstd::prelude::*;

use crate::primitives::{epoch_of, spec_epoch_of, Epoch, Hash256, Slot};

verus! {

/// An attestation included in a block, as the indexer reads it.
pub struct Attestation {
    /// The slot that the attestation votes for.
    pub slot: Slot,
    /// The root of the block that the attestation votes for.
    pub beacon_block_root: Hash256,
    /// The index of the committee within the slot.
    pub index: u64,
    /// One bit per member of the committee: whether that member attested.
    pub aggregation_bits: Vec<bool>,
}

/// A signed beacon block, reduced to what the indexer reads of it.
pub struct BeaconBlock {
    pub slot: Slot,
    /// The canonical (tree-hash) root of the block.
    pub root: Hash256,
    pub parent_root: Hash256,
    pub state_root: Hash256,
    pub attestations: Vec<Attestation>,
    pub deposits_count: usize,
    pub voluntary_exits_count: usize,
    pub proposer_slashings_count: usize,
    pub attester_slashings_count: usize,
    /// The textual form of the randao reveal signature.
    pub randao_reveal: String,
    /// The textual form of the block signature.
    pub signature: String,
    /// The textual form of the graffiti.
    pub graffiti: String,
    pub eth1_deposit_root: Hash256,
    pub eth1_deposit_count: u64,
    pub eth1_block_hash: Hash256,
}

/// What became of a slot: a block was proposed on the canonical chain,
/// no block was proposed, or a block was proposed but is not canonical.
pub enum BlockState {
    Proposed(BeaconBlock),
    Missed(Slot),
    Orphaned(BeaconBlock),
}

/// The three outcomes of a slot, without the block.
#[derive(Clone, Copy, Debug, PartialEq, Eq, Structural)]
pub enum BlockStatus {
    Proposed,
    Missed,
    Orphaned,
}

impl BlockState {
    pub open spec fn spec_slot(&self) -> Slot {
        match self {
            BlockState::Proposed(b) => b.slot,
            BlockState::Missed(s) => *s,
            BlockState::Orphaned(b) => b.slot,
        }
    }

    pub open spec fn spec_status(&self) -> BlockStatus {
        match self {
            BlockState::Proposed(_) => BlockStatus::Proposed,
            BlockState::Missed(_) => BlockStatus::Missed,
            BlockState::Orphaned(_) => BlockStatus::Orphaned,
        }
    }

    /// The slot of the block, or the missed slot.
    pub fn slot(&self) -> (s: Slot)
        ensures
            s == self.spec_slot(),
    {
        match self {
            BlockState::Proposed(block) | BlockState::Orphaned(block) => block.slot,
            BlockState::Missed(s) => *s,
        }
    }

    /// The epoch of the slot.
    pub fn epoch(&self, slots_per_epoch: u64) -> (e: Epoch)
        requires
            slots_per_epoch > 0,
        ensures
            e == spec_epoch_of(self.spec_slot(), slots_per_epoch),
    {
        epoch_of(self.slot(), slots_per_epoch)
    }

    /// The block, when it is on the canonical chain.
    pub fn canonical_block(&self) -> (b: Option<&BeaconBlock>)
        ensures
            match self {
                BlockState::Proposed(block) => b == Some(block),
                _ => b is None,
            },
    {
        match self {
            BlockState::Proposed(block) => Some(block),
            _ => None,
        }
    }

    /// The block, proposed or orphaned.
    pub fn block(&self) -> (b: Option<&BeaconBlock>)
        ensures
            match self {
                BlockState::Proposed(block) => b == Some(block),
                BlockState::Orphaned(block) => b == Some(block),
                BlockState::Missed(_) => b is None,
            },
    {
        match self {
            BlockState::Proposed(block) | BlockState::Orphaned(block) => Some(block),
            BlockState::Missed(_) => None,
        }
    }

    /// The root of the block, when there is one.
    pub fn root(&self) -> (r: Option<Hash256>)
        ensures
            match self {
                BlockState::Proposed(block) => r == Some(block.root),
                BlockState::Orphaned(block) => r == Some(block.root),
                BlockState::Missed(_) => r is None,
            },
    {
        match self {
            BlockState::Proposed(block) | BlockState::Orphaned(block) => Some(block.root),
            _ => None,
        }
    }

    /// Which of the three states this is.
    pub fn status(&self) -> (s: BlockStatus)
        ensures
            s == self.spec_status(),
    {
        match self {
            BlockState::Proposed(_) => BlockStatus::Proposed,
            BlockState::Missed(_) => BlockStatus::Missed,
            BlockState::Orphaned(_) => BlockStatus::Orphaned,
        }
    }

    /// The name of the state: `Proposed`, `Missed` or `Orphaned`.
    pub fn to_string(&self) -> (s: String)
        ensures
            s@ == status_name(self.spec_status()),
    {
        self.status().name()
    }
}

/// The name of a status, as it is shown and persisted.
pub open spec fn status_name(s: BlockStatus) -> Seq<char> {
    match s {
        BlockStatus::Proposed => seq!['P', 'r', 'o', 'p', 'o', 's', 'e', 'd'],
        BlockStatus::Missed => seq!['M', 'i', 's', 's', 'e', 'd'],
        BlockStatus::Orphaned => seq!['O', 'r', 'p', 'h', 'a', 'n', 'e', 'd'],
    }
}

impl BlockStatus {
    pub fn name(&self) -> (s: String)
        ensures
            s@ == status_name(*self),
    {
        match self {
            BlockStatus::Proposed => {
                let s = String::from_str("Proposed");
                proof {
                    reveal_strlit("Proposed");
                }
                s
            },
            BlockStatus::Missed => {
                let s = String::from_str("Missed");
                proof {
                    reveal_strlit("Missed");
                }
                s
            },
            BlockStatus::Orphaned => {
                let s = String::from_str("Orphaned");
                proof {
                    reveal_strlit("Orphaned");
                }
                s
            },
        }
    }
}

/// A sequence with each run of equal consecutive items kept once.
pub open spec fn dedup<A>(s: Seq<A>) -> Seq<A>
    decreases s.len(),
{
    if s.len() == 0 {
        Seq::empty()
    } else if s.len() >= 2 && s[s.len() - 2] == s.last() {
        dedup(s.drop_last())
    } else {
        dedup(s.drop_last()).push(s.last())
    }
}

/// The (slot, block root) vote of each attestation, in order.
pub open spec fn attestation_votes(a: Seq<Attestation>) -> Seq<(Slot, Hash256)> {
    a.map_values(|x: Attestation| (x.slot, x.beacon_block_root))
}

/// The votes of a block with consecutive repeats kept once.
pub open spec fn attested_roots(b: BeaconBlock) -> Seq<(Slot, Hash256)> {
    dedup(attestation_votes(b.attestations@))
}

impl BeaconBlock {
    /// The (slot, root) that each attestation of the block votes for, with
    /// consecutive repeats kept once.
    pub fn attested_roots(&self) -> (r: Vec<(Slot, Hash256)>)
        ensures
            r@ == attested_roots(*self),
    {
        let mut r: Vec<(Slot, Hash256)> = Vec::new();
        let mut i: usize = 0;
        let ghost votes = attestation_votes(self.attestations@);
        while i < self.attestations.len()
            invariant
                i <= self.attestations@.len(),
                votes == attestation_votes(self.attestations@),
                r@ == dedup(votes.take(i as int)),
            decreases self.attestations@.len() - i,
        {
            let a = &self.attestations[i];
            let pair = (a.slot, a.beacon_block_root);
            assert(votes.take(i as int + 1).drop_last() =~= votes.take(i as int));
            assert(votes.take(i as int + 1).last() == pair);
            if i == 0 {
                r.push(pair);
                assert(r@ =~= dedup(votes.take(1)));
            } else {
                let p = &self.attestations[i - 1];
                assert(votes.take(i as int + 1)[i - 1] == (p.slot, p.beacon_block_root));
                if p.slot == a.slot && p.beacon_block_root == a.beacon_block_root {
                } else {
                    r.push(pair);
                }
            }
            i = i + 1;
        }
        assert(votes.take(i as int) =~= votes);
        r
    }
}

} // verus!
