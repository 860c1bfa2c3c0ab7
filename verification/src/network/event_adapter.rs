use vstd::prelude::*;

use crate::block_state::{attested_roots, BeaconBlock, BlockState};
use crate::network::augmented_network_service::RequestId;
use crate::network::block_by_root_requests::{has_key, BlockByRootRequests};
use crate::network::block_db::BlockDb;
use crate::network::event::{LighthouseNetworkEvent, NetworkEvent, Response};
use crate::primitives::{Hash256, PeerId, Slot};
use crate::root_set::{filter_unknown, unknown_votes};

verus! {

/// Turns events of the peer-to-peer layer into the indexer's network events.
pub struct EventAdapter {}

/// The events of a block received in a range: a missed block for every slot
/// from `previous` up to the block's slot, then the block as proposed.
pub open spec fn new_block_events(previous: Slot, block: BeaconBlock, peer_id: PeerId) -> Seq<NetworkEvent> {
    let n = if block.slot >= previous { (block.slot - previous) as nat } else { 0nat };
    Seq::new(n, |i: int| NetworkEvent::NewBlock(BlockState::Missed((previous + i) as Slot), peer_id)).push(
        NetworkEvent::NewBlock(BlockState::Proposed(block), peer_id),
    )
}

/// The events reporting each unknown (slot, root) vote.
pub open spec fn unknown_root_events(votes: Seq<(u64, Hash256)>) -> Seq<NetworkEvent> {
    votes.map_values(|v: (u64, Hash256)| NetworkEvent::UnknownBlockRoot(v.0, v.1))
}

/// The indexer's events for an event of the peer-to-peer layer, given the roots
/// of known blocks, the requests by root and the latest slot indexed.
pub open spec fn spec_adapt(
    event: LighthouseNetworkEvent<RequestId>,
    known_roots: Set<Hash256>,
    requested: spec_fn(Hash256) -> bool,
    latest_slot: Option<Slot>,
) -> Seq<NetworkEvent> {
    match event {
        LighthouseNetworkEvent::PeerConnectedOutgoing(p) => seq![NetworkEvent::PeerConnected(p)],
        LighthouseNetworkEvent::PeerDisconnected(p) => seq![NetworkEvent::PeerDisconnected(p)],
        LighthouseNetworkEvent::RpcFailed { id: RequestId::Range(_), peer_id } => seq![
            NetworkEvent::RangeRequestFailed(peer_id),
        ],
        LighthouseNetworkEvent::RpcFailed { id: RequestId::Block(root), peer_id } => seq![
            NetworkEvent::BlockRequestFailed(root, peer_id),
        ],
        LighthouseNetworkEvent::ResponseReceived {
            peer_id,
            id: RequestId::Range(_),
            response: Response::BlocksByRange(block),
        } => match block {
            Some(b) => unknown_root_events(unknown_votes(attested_roots(b), known_roots)) + new_block_events(
                match latest_slot {
                    Some(s) => s,
                    None => 0,
                },
                b,
                peer_id,
            ),
            None => seq![NetworkEvent::RangeRequestSuccedeed],
        },
        LighthouseNetworkEvent::ResponseReceived {
            peer_id,
            id: RequestId::Block(root),
            response: Response::BlocksByRoot(block),
        } => if requested(root) {
            match block {
                Some(b) => seq![
                    NetworkEvent::NewBlock(BlockState::Orphaned(b), peer_id),
                    NetworkEvent::BlockRootFound(root, b.slot, peer_id),
                ],
                None => seq![NetworkEvent::BlockRootNotFound(root)],
            }
        } else {
            Seq::empty()
        },
        _ => Seq::empty(),
    }
}

impl EventAdapter {
    pub fn new() -> (a: Self)
        ensures
            a == (EventAdapter {}),
    {
        EventAdapter {}
    }

    /// The indexer's events for one event of the peer-to-peer layer, in the
    /// order they are to be broadcast.
    pub fn handle(
        &self,
        network_event: LighthouseNetworkEvent<RequestId>,
        block_db: &BlockDb,
        block_by_root_requests: &BlockByRootRequests,
        latest_slot: Option<Slot>,
    ) -> (events: Vec<NetworkEvent>)
        ensures
            events@ == spec_adapt(
                network_event,
                block_db.proposed_block_roots@,
                |r: Hash256| has_key(block_by_root_requests@, r),
                latest_slot,
            ),
    {
        let mut events: Vec<NetworkEvent> = Vec::new();
        match network_event {
            LighthouseNetworkEvent::PeerConnectedOutgoing(peer_id) => {
                events.push(NetworkEvent::PeerConnected(peer_id));
            },
            LighthouseNetworkEvent::PeerDisconnected(peer_id) => {
                events.push(NetworkEvent::PeerDisconnected(peer_id));
            },
            LighthouseNetworkEvent::RpcFailed { id: RequestId::Range(_), peer_id } => {
                events.push(NetworkEvent::RangeRequestFailed(peer_id));
            },
            LighthouseNetworkEvent::RpcFailed { id: RequestId::Block(root), peer_id } => {
                events.push(NetworkEvent::BlockRequestFailed(root, peer_id));
            },
            LighthouseNetworkEvent::ResponseReceived {
                peer_id,
                id: RequestId::Range(_),
                response: Response::BlocksByRange(block),
            } => {
                match block {
                    Some(block) => {
                        let votes = block.attested_roots();
                        let unknown = filter_unknown(&votes, &block_db.proposed_block_roots);
                        let mut i: usize = 0;
                        while i < unknown.len()
                            invariant
                                i <= unknown@.len(),
                                events@ == unknown_root_events(unknown@.take(i as int)),
                            decreases unknown@.len() - i,
                        {
                            events.push(NetworkEvent::UnknownBlockRoot(unknown[i].0, unknown[i].1));
                            assert(unknown_root_events(unknown@.take(i as int + 1)) =~= unknown_root_events(
                                unknown@.take(i as int),
                            ).push(NetworkEvent::UnknownBlockRoot(unknown@[i as int].0, unknown@[i as int].1)));
                            i = i + 1;
                        }
                        assert(unknown@.take(i as int) =~= unknown@);
                        let new_events = new_blocks(block, latest_slot, peer_id);
                        append_events(&mut events, new_events);
                    },
                    None => {
                        events.push(NetworkEvent::RangeRequestSuccedeed);
                    },
                }
            },
            LighthouseNetworkEvent::ResponseReceived {
                peer_id,
                id: RequestId::Block(root),
                response: Response::BlocksByRoot(block),
            } => {
                if block_by_root_requests.request_exists(&root) {
                    match block {
                        Some(block) => {
                            let slot = block.slot;
                            events.push(NetworkEvent::NewBlock(BlockState::Orphaned(block), peer_id));
                            events.push(NetworkEvent::BlockRootFound(root, slot, peer_id));
                        },
                        None => {
                            events.push(NetworkEvent::BlockRootNotFound(root));
                        },
                    }
                }
            },
            _ => {},
        }
        proof {
            assert(events@ =~= spec_adapt(
                network_event,
                block_db.proposed_block_roots@,
                |r: Hash256| has_key(block_by_root_requests@, r),
                latest_slot,
            ));
        }
        events
    }
}

fn append_events(events: &mut Vec<NetworkEvent>, more: Vec<NetworkEvent>)
    ensures
        final(events)@ == old(events)@ + more@,
{
    let mut more = more;
    events.append(&mut more);
}

/// The events of a block received in a range.
fn new_blocks(block: BeaconBlock, latest_slot: Option<Slot>, peer_id: PeerId) -> (events: Vec<NetworkEvent>)
    ensures
        events@ == new_block_events(
            match latest_slot {
                Some(s) => s,
                None => 0,
            },
            block,
            peer_id,
        ),
{
    let previous_latest_slot = match latest_slot {
        Some(s) => s,
        None => 0,
    };
    let latest = block.slot;
    let mut events: Vec<NetworkEvent> = Vec::new();
    let mut s = previous_latest_slot;
    while s < latest
        invariant
            s >= previous_latest_slot,
            s <= latest || s == previous_latest_slot,
            events@ =~= Seq::new(
                (s - previous_latest_slot) as nat,
                |i: int| NetworkEvent::NewBlock(BlockState::Missed((previous_latest_slot + i) as Slot), peer_id),
            ),
        decreases latest - s,
    {
        events.push(NetworkEvent::NewBlock(BlockState::Missed(s), peer_id));
        s = s + 1;
    }
    events.push(NetworkEvent::NewBlock(BlockState::Proposed(block), peer_id));
    proof {
        let n = if latest >= previous_latest_slot { (latest - previous_latest_slot) as nat } else { 0nat };
        assert(events@ =~= new_block_events(previous_latest_slot, block, peer_id));
    }
    events
}

} // verus!
