use vstd::prelude::*;

use crate::network::augmented_network_service::{genesis_status, spec_genesis_status, RANGE_REQUEST_COUNT};
use crate::network::event::{InboundRequest, LighthouseNetworkEvent, StatusMessage};
use crate::primitives::{Hash256, PeerId};

verus! {

/// Identifies a request sent by the consensus network.
#[derive(Clone, Copy, Debug, PartialEq, Eq, Structural)]
pub enum RequestId {
    Range,
    Block(Hash256),
}

/// Why a peer is reported.
#[derive(Clone, Copy, Debug, PartialEq, Eq, Structural)]
pub enum ReportReason {
    RangeRequestFailed,
    BlockByRootRequestFailed,
}

/// What the consensus network is asked to do.
#[derive(Clone, Copy, Debug, PartialEq, Eq, Structural)]
pub enum NetworkCommand {
    /// Ask for the blocks from `start_slot` on; without a peer, of the best connected one.
    SendRangeRequest { peer_id: Option<PeerId>, start_slot: u64 },
    /// Ask for the block with `root`; without a peer, of every connected good peer.
    SendBlockByRootRequest { peer_id: Option<PeerId>, root: Hash256 },
    ReportPeer(PeerId, ReportReason),
}

/// A request that the consensus network sends to a peer.
#[derive(Clone, Copy, Debug, PartialEq, Eq, Structural)]
pub enum OutboundRequest {
    BlocksByRange { start_slot: u64, count: u64 },
    BlocksByRoot { root: Hash256 },
}

/// What the consensus network does.
pub enum NetworkAction {
    SendStatusResponse { peer_id: PeerId, substream_id: u64, status: StatusMessage },
    SendRequest { peer_id: PeerId, request_id: RequestId, request: OutboundRequest },
    ReportPeer(PeerId, ReportReason),
    /// Hand the event on to the indexer.
    Forward(LighthouseNetworkEvent<RequestId>),
    /// A range request found no peer to send it to.
    NoPeerForRangeRequest,
}

/// The text a report gives.
pub open spec fn reason_text(r: ReportReason) -> Seq<char> {
    match r {
        ReportReason::RangeRequestFailed => seq!['R', 'a', 'n', 'g', 'e', ' ', 'r', 'e', 'q', 'u', 'e', 's', 't', ' ', 'f', 'a', 'i', 'l', 'e', 'd'],
        ReportReason::BlockByRootRequestFailed => seq!['B', 'l', 'o', 'c', 'k', ' ', 'b', 'y', ' ', 'r', 'o', 'o', 't', ' ', 'r', 'e', 'q', 'u', 'e', 's', 't'],
    }
}

impl ReportReason {
    pub fn text(&self) -> (s: &'static str)
        ensures
            s@ == reason_text(*self),
    {
        proof {
            reveal_strlit("Range request failed");
            reveal_strlit("Block by root request");
        }
        match self {
            ReportReason::RangeRequestFailed => "Range request failed",
            ReportReason::BlockByRootRequestFailed => "Block by root request",
        }
    }
}

/// The actions for an event of the peer-to-peer layer: a peer whose request
/// failed is reported (with the kind of request as reason); a status request
/// is answered with the indexer's status; every other event is handed on.
pub fn handle_event(event: LighthouseNetworkEvent<RequestId>, fork_digest: [u8; 4]) -> (actions: Vec<NetworkAction>)
    ensures
        match event {
            LighthouseNetworkEvent::RpcFailed { id, peer_id } => {
                &&& actions@.len() == 2
                &&& actions@[0] == NetworkAction::ReportPeer(peer_id, match id {
                    RequestId::Range => ReportReason::RangeRequestFailed,
                    RequestId::Block(_) => ReportReason::BlockByRootRequestFailed,
                })
                &&& actions@[1] == NetworkAction::Forward(event)
            },
            LighthouseNetworkEvent::RequestReceived { peer_id, substream_id, request: InboundRequest::Status } => actions@
                == seq![NetworkAction::SendStatusResponse { peer_id, substream_id, status: spec_genesis_status(fork_digest) }],
            _ => actions@ == seq![NetworkAction::Forward(event)],
        },
{
    let mut actions: Vec<NetworkAction> = Vec::new();
    let ghost ev = event;
    if let LighthouseNetworkEvent::RpcFailed { id, peer_id } = &event {
        let reason = match id {
            RequestId::Range => ReportReason::RangeRequestFailed,
            RequestId::Block(_) => ReportReason::BlockByRootRequestFailed,
        };
        actions.push(NetworkAction::ReportPeer(*peer_id, reason));
    }
    match event {
        LighthouseNetworkEvent::RequestReceived { peer_id, substream_id, request: InboundRequest::Status } => {
            actions.push(NetworkAction::SendStatusResponse { peer_id, substream_id, status: genesis_status(fork_digest) });
        },
        event => {
            actions.push(NetworkAction::Forward(event));
        },
    }
    proof {
        match ev {
            LighthouseNetworkEvent::RequestReceived { peer_id, substream_id, request: InboundRequest::Status } => {
                assert(actions@ =~= seq![NetworkAction::SendStatusResponse { peer_id, substream_id, status: spec_genesis_status(fork_digest) }]);
            },
            LighthouseNetworkEvent::RpcFailed { .. } => {},
            _ => {
                assert(actions@ =~= seq![NetworkAction::Forward(ev)]);
            },
        }
    }
    actions
}

/// A range request goes to the given peer or else to the best connected one.
pub fn send_range_request(to: Option<PeerId>, start_slot: u64, best_connected_peer: Option<PeerId>) -> (a: NetworkAction)
    ensures
        match (if to is Some { to } else { best_connected_peer }) {
            Some(p) => a == (NetworkAction::SendRequest {
                peer_id: p,
                request_id: RequestId::Range,
                request: OutboundRequest::BlocksByRange { start_slot, count: RANGE_REQUEST_COUNT },
            }),
            None => a is NoPeerForRangeRequest,
        },
{
    let target = match to {
        Some(p) => Some(p),
        None => best_connected_peer,
    };
    match target {
        Some(p) => NetworkAction::SendRequest {
            peer_id: p,
            request_id: RequestId::Range,
            request: OutboundRequest::BlocksByRange { start_slot, count: RANGE_REQUEST_COUNT },
        },
        None => NetworkAction::NoPeerForRangeRequest,
    }
}

/// A request for a block by root goes to the given peer, or else to every
/// connected good peer, in order.
pub fn send_block_by_root_request(to: Option<PeerId>, root: Hash256, connected_good_peers: &Vec<PeerId>) -> (actions: Vec<NetworkAction>)
    ensures
        ({
            let peers = match to {
                Some(p) => seq![p],
                None => connected_good_peers@,
            };
            &&& actions@.len() == peers.len()
            &&& forall|i: int| 0 <= i < peers.len() ==> #[trigger] actions@[i] == (NetworkAction::SendRequest {
                peer_id: peers[i],
                request_id: RequestId::Block(root),
                request: OutboundRequest::BlocksByRoot { root },
            })
        }),
{
    let mut actions: Vec<NetworkAction> = Vec::new();
    match to {
        Some(p) => {
            actions.push(NetworkAction::SendRequest {
                peer_id: p,
                request_id: RequestId::Block(root),
                request: OutboundRequest::BlocksByRoot { root },
            });
        },
        None => {
            let mut i: usize = 0;
            while i < connected_good_peers.len()
                invariant
                    i <= connected_good_peers@.len(),
                    actions@.len() == i,
                    forall|j: int| 0 <= j < i ==> #[trigger] actions@[j] == (NetworkAction::SendRequest {
                        peer_id: connected_good_peers@[j],
                        request_id: RequestId::Block(root),
                        request: OutboundRequest::BlocksByRoot { root },
                    }),
                decreases connected_good_peers@.len() - i,
            {
                actions.push(NetworkAction::SendRequest {
                    peer_id: connected_good_peers[i],
                    request_id: RequestId::Block(root),
                    request: OutboundRequest::BlocksByRoot { root },
                });
                i = i + 1;
            }
        },
    }
    actions
}

/// The action for a command of the indexer.
pub fn handle_network_message(message: NetworkCommand, best_connected_peer: Option<PeerId>, connected_good_peers: &Vec<PeerId>) -> (actions: Vec<NetworkAction>)
    ensures
        match message {
            NetworkCommand::SendRangeRequest { peer_id, start_slot } => actions@.len() == 1
                && match (if peer_id is Some { peer_id } else { best_connected_peer }) {
                    Some(p) => actions@[0] == (NetworkAction::SendRequest {
                        peer_id: p,
                        request_id: RequestId::Range,
                        request: OutboundRequest::BlocksByRange { start_slot, count: RANGE_REQUEST_COUNT },
                    }),
                    None => actions@[0] is NoPeerForRangeRequest,
                },
            NetworkCommand::SendBlockByRootRequest { peer_id, root } => {
                let peers = match peer_id {
                    Some(p) => seq![p],
                    None => connected_good_peers@,
                };
                &&& actions@.len() == peers.len()
                &&& forall|i: int| 0 <= i < peers.len() ==> #[trigger] actions@[i] == (NetworkAction::SendRequest {
                    peer_id: peers[i],
                    request_id: RequestId::Block(root),
                    request: OutboundRequest::BlocksByRoot { root },
                })
            },
            NetworkCommand::ReportPeer(p, r) => actions@ == seq![NetworkAction::ReportPeer(p, r)],
        },
{
    match message {
        NetworkCommand::SendRangeRequest { peer_id, start_slot } => {
            let mut actions: Vec<NetworkAction> = Vec::new();
            actions.push(send_range_request(peer_id, start_slot, best_connected_peer));
            actions
        },
        NetworkCommand::SendBlockByRootRequest { peer_id, root } => send_block_by_root_request(peer_id, root, connected_good_peers),
        NetworkCommand::ReportPeer(p, r) => {
            let mut actions: Vec<NetworkAction> = Vec::new();
            actions.push(NetworkAction::ReportPeer(p, r));
            assert(actions@ =~= seq![NetworkAction::ReportPeer(p, r)]);
            actions
        },
    }
}

} // verus!
