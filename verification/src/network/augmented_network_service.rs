use vstd::prelude::*;

use crate::network::event::{InboundRequest, LighthouseNetworkEvent, Response, StatusMessage};
use crate::primitives::{Hash256, PeerId};

verus! {

/// Identifies a request sent to a peer, so that its responses can be told apart.
#[derive(Clone, Copy, Debug, PartialEq, Eq, Structural)]
pub enum RequestId {
    /// A range request starting at the given slot.
    Range(u64),
    /// A request for the block with the given root.
    Block(Hash256),
}

/// A request sent to a peer.
pub enum Request {
    /// Up to `count` consecutive blocks from `start_slot` on.
    BlocksByRange { start_slot: u64, count: u64 },
    /// The blocks with the given roots.
    BlocksByRoot { block_roots: Vec<Hash256> },
}

/// What the network service is asked to do.
pub enum NetworkCommand {
    SendRequest { peer_id: PeerId, request_id: RequestId, request: Request },
    DialPeer(PeerId),
}

/// The number of blocks asked for by one range request.
pub const RANGE_REQUEST_COUNT: u64 = 32;

/// Whether `c` asks `peer` for the block with root `root`.
pub open spec fn is_block_by_root_request(c: NetworkCommand, peer: PeerId, root: Hash256) -> bool {
    match c {
        NetworkCommand::SendRequest { peer_id, request_id, request } => {
            &&& peer_id == peer
            &&& request_id == RequestId::Block(root)
            &&& request matches Request::BlocksByRoot { block_roots } && block_roots@ == seq![root]
        },
        _ => false,
    }
}

/// Whether `c` asks `peer` for a range of blocks from `start_slot` on.
pub open spec fn is_range_request(c: NetworkCommand, peer: PeerId, start_slot: u64) -> bool {
    match c {
        NetworkCommand::SendRequest { peer_id, request_id, request } => {
            &&& peer_id == peer
            &&& request_id == RequestId::Range(start_slot)
            &&& request == (Request::BlocksByRange { start_slot, count: RANGE_REQUEST_COUNT })
        },
        _ => false,
    }
}

/// The command that asks `peer` for the block with root `root`.
pub fn block_by_root_command(peer_id: PeerId, root: Hash256) -> (c: NetworkCommand)
    ensures
        is_block_by_root_request(c, peer_id, root),
{
    let mut block_roots: Vec<Hash256> = Vec::new();
    block_roots.push(root);
    assert(block_roots@ =~= seq![root]);
    NetworkCommand::SendRequest {
        peer_id,
        request_id: RequestId::Block(root),
        request: Request::BlocksByRoot { block_roots },
    }
}

/// The command that asks `peer` for a range of blocks from `start_slot` on.
pub fn range_command(peer_id: PeerId, start_slot: u64) -> (c: NetworkCommand)
    ensures
        is_range_request(c, peer_id, start_slot),
{
    NetworkCommand::SendRequest {
        peer_id,
        request_id: RequestId::Range(start_slot),
        request: Request::BlocksByRange { start_slot, count: RANGE_REQUEST_COUNT },
    }
}

/// What the network service does with an event of the peer-to-peer layer.
pub enum ServiceAction {
    /// Answer a status request of a peer with this message.
    SendStatusResponse { peer_id: PeerId, substream_id: u64, status: StatusMessage },
    /// Hand the event on to the indexer.
    Forward(LighthouseNetworkEvent<RequestId>),
}

/// The status the indexer announces: the fork digest of the chain and
/// nothing finalized, at slot zero.
pub open spec fn spec_genesis_status(fork_digest: [u8; 4]) -> StatusMessage {
    StatusMessage {
        fork_digest,
        finalized_root: Hash256 { w0: 0, w1: 0, w2: 0, w3: 0 },
        finalized_epoch: 0,
        head_root: Hash256 { w0: 0, w1: 0, w2: 0, w3: 0 },
        head_slot: 0,
    }
}

pub fn genesis_status(fork_digest: [u8; 4]) -> (s: StatusMessage)
    ensures
        s == spec_genesis_status(fork_digest),
{
    StatusMessage {
        fork_digest,
        finalized_root: Hash256 { w0: 0, w1: 0, w2: 0, w3: 0 },
        finalized_epoch: 0,
        head_root: Hash256 { w0: 0, w1: 0, w2: 0, w3: 0 },
        head_slot: 0,
    }
}

/// A status request is answered with the indexer's status; every other
/// event is handed on unchanged.
pub fn handle_event(event: LighthouseNetworkEvent<RequestId>, fork_digest: [u8; 4]) -> (a: ServiceAction)
    ensures
        match event {
            LighthouseNetworkEvent::RequestReceived { peer_id, substream_id, request: InboundRequest::Status } =>
                a == (ServiceAction::SendStatusResponse {
                    peer_id,
                    substream_id,
                    status: spec_genesis_status(fork_digest),
                }),
            _ => a == ServiceAction::Forward(event),
        },
{
    match event {
        LighthouseNetworkEvent::RequestReceived { peer_id, substream_id, request: InboundRequest::Status } => {
            ServiceAction::SendStatusResponse { peer_id, substream_id, status: genesis_status(fork_digest) }
        },
        event => ServiceAction::Forward(event),
    }
}

/// What the network service does with a command.
pub enum CommandAction {
    /// Send the request to the peer.
    SendRequest { peer_id: PeerId, request_id: RequestId, request: Request },
    /// Dial the peer.
    Dial(PeerId),
    /// Nothing: the peer to dial is already connected.
    Nothing,
}

/// A request is sent as it is; a peer is dialed only when it is not connected.
pub fn handle_network_message(message: NetworkCommand, peer_is_connected: bool) -> (a: CommandAction)
    ensures
        match message {
            NetworkCommand::SendRequest { peer_id, request_id, request } => a == (CommandAction::SendRequest {
                peer_id,
                request_id,
                request,
            }),
            NetworkCommand::DialPeer(peer_id) => if peer_is_connected {
                a is Nothing
            } else {
                a == CommandAction::Dial(peer_id)
            },
        },
{
    match message {
        NetworkCommand::SendRequest { peer_id, request_id, request } => CommandAction::SendRequest {
            peer_id,
            request_id,
            request,
        },
        NetworkCommand::DialPeer(peer_id) => {
            if !peer_is_connected {
                CommandAction::Dial(peer_id)
            } else {
                CommandAction::Nothing
            }
        },
    }
}

} // verus!
