use vstd::prelude::*;

use crate::block_state::{BeaconBlock, BlockState};
use crate::primitives::{Epoch, Hash256, PeerId, Slot};
use crate::text::{decimal, push_decimal};

verus! {

/// The status message that peers exchange when they connect.
pub struct StatusMessage {
    pub fork_digest: [u8; 4],
    pub finalized_root: Hash256,
    pub finalized_epoch: Epoch,
    pub head_root: Hash256,
    pub head_slot: Slot,
}

/// A request received from a peer.
pub enum InboundRequest {
    Status,
    Other,
}

/// A response chunk received from a peer. A range or by-root response is a
/// stream of blocks ended by `None`.
pub enum Response {
    BlocksByRange(Option<BeaconBlock>),
    BlocksByRoot(Option<BeaconBlock>),
    Other,
}

/// An event of the peer-to-peer layer, for requests identified by `R`.
pub enum LighthouseNetworkEvent<R> {
    PeerConnectedOutgoing(PeerId),
    PeerDisconnected(PeerId),
    RpcFailed { id: R, peer_id: PeerId },
    ResponseReceived { peer_id: PeerId, id: R, response: Response },
    RequestReceived { peer_id: PeerId, substream_id: u64, request: InboundRequest },
    Other,
}

/// An event that the indexer's network layer reports.
pub enum NetworkEvent {
    PeerConnected(PeerId),
    PeerDisconnected(PeerId),
    RangeRequestSuccedeed,
    RangeRequestFailed(PeerId),
    BlockRequestFailed(Hash256, PeerId),
    NewBlock(BlockState, PeerId),
    UnknownBlockRoot(Slot, Hash256),
    BlockRootFound(Hash256, Slot, PeerId),
    BlockRootNotFound(Hash256),
}

} // verus!

verus! {

/// The text of an event, as it is logged.
pub open spec fn event_text(e: NetworkEvent) -> Seq<char> {
    match e {
        NetworkEvent::PeerConnected(_) => "Peer connected"@,
        NetworkEvent::PeerDisconnected(_) => "Peer disconnected"@,
        NetworkEvent::RangeRequestSuccedeed => "Range request succedeed"@,
        NetworkEvent::RangeRequestFailed(_) => "Range request failed"@,
        NetworkEvent::BlockRequestFailed(_, _) => "Block request failed"@,
        NetworkEvent::NewBlock(block, _) => match block {
            BlockState::Proposed(b) => "New proposed block at "@ + decimal(b.slot as nat),
            BlockState::Missed(slot) => "New missed block at "@ + decimal(slot as nat),
            BlockState::Orphaned(b) => "New orphaned block at "@ + decimal(b.slot as nat),
        },
        NetworkEvent::UnknownBlockRoot(_, _) => "Unknown block root"@,
        NetworkEvent::BlockRootFound(_, _, _) => "Block root found"@,
        NetworkEvent::BlockRootNotFound(_) => "Block root not found"@,
    }
}

impl NetworkEvent {
    /// The text of the event, as its display gives it.
    pub fn to_string(&self) -> (s: String)
        ensures
            s@ == event_text(*self),
    {
        match self {
            NetworkEvent::PeerConnected(_) => String::from_str("Peer connected"),
            NetworkEvent::PeerDisconnected(_) => String::from_str("Peer disconnected"),
            NetworkEvent::RangeRequestSuccedeed => String::from_str("Range request succedeed"),
            NetworkEvent::RangeRequestFailed(_) => String::from_str("Range request failed"),
            NetworkEvent::BlockRequestFailed(_, _) => String::from_str("Block request failed"),
            NetworkEvent::NewBlock(block, _) => {
                let (mut s, slot) = match block {
                    BlockState::Proposed(b) => (String::from_str("New proposed block at "), b.slot),
                    BlockState::Missed(slot) => (String::from_str("New missed block at "), *slot),
                    BlockState::Orphaned(b) => (String::from_str("New orphaned block at "), b.slot),
                };
                push_decimal(&mut s, slot);
                s
            },
            NetworkEvent::UnknownBlockRoot(_, _) => String::from_str("Unknown block root"),
            NetworkEvent::BlockRootFound(_, _, _) => String::from_str("Block root found"),
            NetworkEvent::BlockRootNotFound(_) => String::from_str("Block root not found"),
        }
    }
}

} // verus!
