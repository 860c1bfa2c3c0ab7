use vstd::prelude::*;

use crate::block_state::BeaconBlock;
use crate::network::augmented_network_service::{is_range_request, range_command, NetworkCommand};
use crate::network::persist_service::BlockMessage;
use crate::primitives::{PeerId, Slot};

verus! {

/// Where the range request stands.
#[derive(Clone, Copy, Debug, PartialEq, Eq, Structural)]
pub enum BlockRangeRequestState {
    Idle,
    AwaitingPeer,
    Requesting(PeerId),
}

/// The range request that walks the chain from its first slot on.
pub struct BlockRangeRequest {
    pub state: BlockRangeRequestState,
    /// The slot of the latest block received.
    pub latest_slot: Option<Slot>,
}

/// The slot the next range request starts at: the one after the latest block, or 0.
pub open spec fn spec_next_start_slot(latest_slot: Option<Slot>) -> u64 {
    match latest_slot {
        Some(s) => (s + 1) as u64,
        None => 0,
    }
}

/// What receiving a block reports: every slot from the previous latest slot
/// (or 0) up to the block's slot as missed, then the block as proposed.
pub open spec fn spec_block_found_messages(previous: Slot, block: BeaconBlock, messages: Seq<BlockMessage>) -> bool {
    let n = if block.slot >= previous { (block.slot - previous) as nat } else { 0nat };
    &&& messages.len() == n + 1
    &&& forall|i: int| 0 <= i < n ==> #[trigger] messages[i] == BlockMessage::Missed((previous + i) as Slot)
    &&& messages[n as int] == BlockMessage::Proposed(block)
}

impl BlockRangeRequest {
    pub open spec fn can_advance(&self) -> bool {
        self.latest_slot matches Some(s) ==> s < u64::MAX
    }

    pub fn new() -> (r: Self)
        ensures
            r.state == BlockRangeRequestState::Idle,
            r.latest_slot is None,
    {
        BlockRangeRequest { state: BlockRangeRequestState::Idle, latest_slot: None }
    }

    /// Whether the range request in flight was sent to this peer.
    pub fn matches(&self, peer_id: &PeerId) -> (b: bool)
        ensures
            b == (self.state == BlockRangeRequestState::Requesting(*peer_id)),
    {
        match self.state {
            BlockRangeRequestState::Requesting(requesting_peer_id) => requesting_peer_id == *peer_id,
            _ => false,
        }
    }

    fn next_start_slot(&self) -> (s: u64)
        requires
            self.can_advance(),
        ensures
            s == spec_next_start_slot(self.latest_slot),
    {
        match self.latest_slot {
            Some(s) => s + 1,
            None => 0,
        }
    }

    /// A newly connected peer is asked for the next range when no request is in flight.
    pub fn peer_connected(&self, peer_id: &PeerId) -> (cmd: Option<NetworkCommand>)
        requires
            self.can_advance(),
        ensures
            match self.state {
                BlockRangeRequestState::Requesting(_) => cmd is None,
                _ => cmd matches Some(c) && is_range_request(c, *peer_id, spec_next_start_slot(self.latest_slot)),
            },
    {
        match self.state {
            BlockRangeRequestState::Idle | BlockRangeRequestState::AwaitingPeer => {
                Some(range_command(*peer_id, self.next_start_slot()))
            },
            _ => None,
        }
    }

    /// A block of the range arrived: it becomes the latest block, and the
    /// messages to persist come back.
    pub fn block_found(&mut self, block: BeaconBlock) -> (messages: Vec<BlockMessage>)
        ensures
            final(self).state == old(self).state,
            final(self).latest_slot == Some(block.slot),
            spec_block_found_messages(
                match old(self).latest_slot {
                    Some(s) => s,
                    None => 0,
                },
                block,
                messages@,
            ),
    {
        let previous_latest_slot = match self.latest_slot {
            Some(s) => s,
            None => 0,
        };
        let slot = block.slot;
        self.latest_slot = Some(slot);
        let mut messages: Vec<BlockMessage> = Vec::new();
        let mut s = previous_latest_slot;
        while s < slot
            invariant
                previous_latest_slot <= s <= slot || (s == previous_latest_slot && slot < s),
                s <= slot ==> messages@.len() == s - previous_latest_slot,
                slot < previous_latest_slot ==> messages@.len() == 0,
                forall|i: int| 0 <= i < messages@.len() ==> #[trigger] messages@[i] == BlockMessage::Missed(
                    (previous_latest_slot + i) as Slot,
                ),
            decreases slot - s,
        {
            messages.push(BlockMessage::Missed(s));
            s = s + 1;
        }
        let ghost before = messages@;
        messages.push(BlockMessage::Proposed(block));
        assert forall|i: int| 0 <= i < messages@.len() - 1 implies #[trigger] messages@[i] == BlockMessage::Missed(
            (previous_latest_slot + i) as Slot,
        ) by {
            assert(messages@[i] == before[i]);
        }
        messages
    }

    /// Sends the next range request to the best connected peer, or waits for
    /// a peer when there is none; the new state comes back.
    pub fn request_block_range(&mut self, best_peer: Option<PeerId>) -> (r: (
        BlockRangeRequestState,
        Option<NetworkCommand>,
    ))
        requires
            old(self).can_advance(),
        ensures
            final(self).latest_slot == old(self).latest_slot,
            r.0 == final(self).state,
            match best_peer {
                Some(p) => {
                    &&& final(self).state == BlockRangeRequestState::Requesting(p)
                    &&& r.1 matches Some(c) && is_range_request(c, p, spec_next_start_slot(old(self).latest_slot))
                },
                None => final(self).state == BlockRangeRequestState::AwaitingPeer && r.1 is None,
            },
    {
        match best_peer {
            Some(peer_id) => {
                let start_slot = self.next_start_slot();
                self.state = BlockRangeRequestState::Requesting(peer_id);
                (self.state, Some(range_command(peer_id, start_slot)))
            },
            None => {
                self.state = BlockRangeRequestState::AwaitingPeer;
                (self.state, None)
            },
        }
    }
}

} // verus!
