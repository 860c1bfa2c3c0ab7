use vstd::prelude::*;

use crate::block_state::attested_roots;
use crate::network::augmented_network_service::{is_range_request, NetworkCommand, RequestId};
use crate::network::block_by_root_requests::{
    commands_ask, model_of, request_all, BlockByRootRequests,
};
use crate::network::block_range_request::{
    spec_block_found_messages, spec_next_start_slot, BlockRangeRequest, BlockRangeRequestState,
};
use crate::network::event::{LighthouseNetworkEvent, Response};
use crate::network::peer_db::{connected_only, known_good_peers, NetworkPeers, PeerDb, PeerInfo};
use crate::network::persist_service::{BlockMessage, PersistMessage};
use crate::primitives::{Hash256, PeerId, Slot};
use crate::root_set::{filter_unknown, unknown_votes, RootSet};

verus! {

/// What a worker asks to be done after an event.
pub enum WorkerAction {
    /// Send a command to the network service.
    Command(NetworkCommand),
    /// Send a message to the persist service.
    Persist(PersistMessage),
}

/// Walks the chain with range requests, hands the blocks on to be persisted,
/// and asks for the blocks that attestations vote for but that were not seen.
pub struct BlockRangeRequestWorker {
    pub peer_db: PeerDb,
    pub block_range_request_state: BlockRangeRequest,
    pub proposed_block_roots: RootSet,
}

/// The ids of the connected good peers.
pub open spec fn connected_good_peer_ids(db: PeerDb, network: NetworkPeers) -> Seq<PeerId> {
    connected_only(known_good_peers(db.good_peers@, network.peers@)).map_values(|e: (PeerId, PeerInfo)| e.0)
}

/// Whether `a` is the command to send for a new range request.
pub open spec fn is_range_action(a: WorkerAction, best: Option<PeerId>, latest: Option<Slot>) -> bool {
    match best {
        Some(p) => a matches WorkerAction::Command(c) && is_range_request(c, p, spec_next_start_slot(latest)),
        None => false,
    }
}

/// What a new range request does: with a best connected peer, one range
/// command to it and the range request requesting from it; without, nothing
/// sent and the range request waiting for a peer.
pub open spec fn requested_range(
    old_range: BlockRangeRequest,
    new_range: BlockRangeRequest,
    best: Option<PeerId>,
    actions: Seq<WorkerAction>,
) -> bool {
    &&& new_range.latest_slot == old_range.latest_slot
    &&& match best {
        Some(p) => new_range.state == BlockRangeRequestState::Requesting(p) && actions.len() == 1
            && is_range_action(actions[0], best, old_range.latest_slot),
        None => new_range.state == BlockRangeRequestState::AwaitingPeer && actions.len() == 0,
    }
}

/// Whether `a` sends the request of `ask`: its peer is asked for its root.
pub open spec fn is_command_ask(a: WorkerAction, ask: (PeerId, Hash256)) -> bool {
    match a {
        WorkerAction::Command(c) => crate::network::augmented_network_service::is_block_by_root_request(c, ask.0, ask.1),
        _ => false,
    }
}

/// Whether the actions send, in order, the requests of `asks`.
pub open spec fn command_actions_ask(actions: Seq<WorkerAction>, asks: Seq<(PeerId, Hash256)>) -> bool {
    &&& actions.len() == asks.len()
    &&& forall|i: int| 0 <= i < actions.len() ==> #[trigger] is_command_ask(actions[i], asks[i])
}

/// Whether `a` persists every request by root of `reqs`.
pub open spec fn is_requests_persist(a: WorkerAction, reqs: crate::network::block_by_root_requests::RequestsView) -> bool {
    match a {
        WorkerAction::Persist(PersistMessage::BlockRequests(m)) => {
            &&& m@.len() == reqs.len()
            &&& forall|j: int| 0 <= j < m@.len() ==> #[trigger] model_of(m@[j], reqs[j])
        },
        _ => false,
    }
}

/// Whether every action persists a block message.
pub open spec fn all_block_messages(actions: Seq<WorkerAction>) -> bool {
    forall|i: int| 0 <= i < actions.len() ==> #[trigger] actions[i] is Persist && actions[i]->Persist_0 is Block
}

/// The block messages that the actions persist.
pub open spec fn block_messages_of(actions: Seq<WorkerAction>) -> Seq<BlockMessage> {
    actions.map_values(|a: WorkerAction| match a {
        WorkerAction::Persist(PersistMessage::Block(m)) => m,
        _ => BlockMessage::Missed(0),
    })
}

impl BlockRangeRequestWorker {
    pub open spec fn wf(&self) -> bool {
        &&& self.peer_db.wf()
        &&& self.proposed_block_roots.wf()
    }

    pub fn new(peer_db: PeerDb) -> (w: Self)
        requires
            peer_db.wf(),
        ensures
            w.wf(),
            w.peer_db == peer_db,
            w.block_range_request_state.state == BlockRangeRequestState::Idle,
            w.block_range_request_state.latest_slot is None,
            w.proposed_block_roots@ == Set::<Hash256>::empty(),
    {
        BlockRangeRequestWorker {
            peer_db,
            block_range_request_state: BlockRangeRequest::new(),
            proposed_block_roots: RootSet::new(),
        }
    }

    fn request_block_range(&mut self, network: &NetworkPeers) -> (actions: Vec<WorkerAction>)
        requires
            old(self).block_range_request_state.can_advance(),
        ensures
            final(self).peer_db == old(self).peer_db,
            final(self).proposed_block_roots == old(self).proposed_block_roots,
            requested_range(
                old(self).block_range_request_state,
                final(self).block_range_request_state,
                network.best_connected_peer,
                actions@,
            ),
    {
        let best = self.peer_db.get_best_connected_peer(network);
        let (_state, cmd) = self.block_range_request_state.request_block_range(best);
        let mut actions: Vec<WorkerAction> = Vec::new();
        if let Some(c) = cmd {
            actions.push(WorkerAction::Command(c));
        }
        actions
    }

    /// Reacts to an event of the peer-to-peer layer; the commands and
    /// messages to send come back in order.
    pub fn handle_event(
        &mut self,
        event: LighthouseNetworkEvent<RequestId>,
        block_by_root_requests: &mut BlockByRootRequests,
        network: &NetworkPeers,
    ) -> (actions: Vec<WorkerAction>)
        requires
            old(self).wf(),
            old(block_by_root_requests).wf(),
            old(self).block_range_request_state.can_advance(),
        ensures
            final(self).wf(),
            final(block_by_root_requests).wf(),
            final(self).peer_db == old(self).peer_db,
            match event {
                LighthouseNetworkEvent::PeerConnectedOutgoing(p) => {
                    &&& final(self).block_range_request_state == old(self).block_range_request_state
                    &&& final(self).proposed_block_roots == old(self).proposed_block_roots
                    &&& final(block_by_root_requests)@ == old(block_by_root_requests)@
                    &&& match old(self).block_range_request_state.state {
                        BlockRangeRequestState::Requesting(_) => actions@.len() == 0,
                        _ => actions@.len() == 1 && is_range_action(actions@[0], Some(p), old(self).block_range_request_state.latest_slot),
                    }
                },
                LighthouseNetworkEvent::PeerDisconnected(p) => {
                    &&& final(self).proposed_block_roots == old(self).proposed_block_roots
                    &&& final(block_by_root_requests)@ == old(block_by_root_requests)@
                    &&& if old(self).block_range_request_state.state == BlockRangeRequestState::Requesting(p) {
                        requested_range(old(self).block_range_request_state, final(self).block_range_request_state, network.best_connected_peer, actions@)
                    } else {
                        final(self).block_range_request_state == old(self).block_range_request_state && actions@.len() == 0
                    }
                },
                LighthouseNetworkEvent::RpcFailed { id: RequestId::Range(_), .. } => {
                    &&& final(self).proposed_block_roots == old(self).proposed_block_roots
                    &&& final(block_by_root_requests)@ == old(block_by_root_requests)@
                    &&& requested_range(old(self).block_range_request_state, final(self).block_range_request_state, network.best_connected_peer, actions@)
                },
                LighthouseNetworkEvent::ResponseReceived { id: RequestId::Range(_), response: Response::BlocksByRange(Some(block)), .. } => {
                    let roots = old(self).proposed_block_roots@.insert(block.root);
                    let unknown = unknown_votes(attested_roots(block), roots);
                    let asked = request_all(old(block_by_root_requests)@, unknown, connected_good_peer_ids(old(self).peer_db, *network));
                    let n_cmds = asked.1.len();
                    let n_req = if unknown.len() > 0 { 1int } else { 0int };
                    let previous = match old(self).block_range_request_state.latest_slot {
                        Some(s) => s,
                        None => 0,
                    };
                    &&& final(self).proposed_block_roots@ == roots
                    &&& final(block_by_root_requests)@ == asked.0
                    &&& final(self).block_range_request_state.state == old(self).block_range_request_state.state
                    &&& final(self).block_range_request_state.latest_slot == Some(block.slot)
                    &&& actions@.len() >= n_cmds + n_req
                    &&& command_actions_ask(actions@.take(n_cmds as int), asked.1)
                    &&& (n_req == 1 ==> is_requests_persist(actions@[n_cmds as int], asked.0))
                    &&& all_block_messages(actions@.skip(n_cmds + n_req))
                    &&& spec_block_found_messages(previous, block, block_messages_of(actions@.skip(n_cmds + n_req)))
                },
                LighthouseNetworkEvent::ResponseReceived { id: RequestId::Range(_), response: Response::BlocksByRange(None), .. } => {
                    &&& final(self).proposed_block_roots == old(self).proposed_block_roots
                    &&& final(block_by_root_requests)@ == old(block_by_root_requests)@
                    &&& requested_range(old(self).block_range_request_state, final(self).block_range_request_state, network.best_connected_peer, actions@)
                },
                _ => {
                    &&& final(self).block_range_request_state == old(self).block_range_request_state
                    &&& final(self).proposed_block_roots == old(self).proposed_block_roots
                    &&& final(block_by_root_requests)@ == old(block_by_root_requests)@
                    &&& actions@.len() == 0
                },
            },
    {
        let mut actions: Vec<WorkerAction> = Vec::new();
        match event {
            LighthouseNetworkEvent::PeerConnectedOutgoing(peer_id) => {
                if let Some(c) = self.block_range_request_state.peer_connected(&peer_id) {
                    actions.push(WorkerAction::Command(c));
                }
            },
            LighthouseNetworkEvent::PeerDisconnected(peer_id) => {
                if self.block_range_request_state.matches(&peer_id) {
                    actions = self.request_block_range(network);
                }
            },
            LighthouseNetworkEvent::RpcFailed { id: RequestId::Range(_), .. } => {
                actions = self.request_block_range(network);
            },
            LighthouseNetworkEvent::ResponseReceived {
                id: RequestId::Range(_),
                response: Response::BlocksByRange(block),
                ..
            } => {
                match block {
                    Some(block) => {
                        self.proposed_block_roots.insert(block.root);
                        let votes = block.attested_roots();
                        let unknown_blocks = filter_unknown(&votes, &self.proposed_block_roots);
                        let connected_good_peers = self.peer_db.get_connected_good_peer_ids(network);
                        if unknown_blocks.len() > 0 {
                            let cmds = block_by_root_requests.request_all(&unknown_blocks, &connected_good_peers);
                            push_commands(&mut actions, cmds);
                            let models = block_by_root_requests.to_models();
                            actions.push(WorkerAction::Persist(PersistMessage::BlockRequests(models)));
                        }
                        let ghost n = actions@.len();
                        let messages = self.block_range_request_state.block_found(block);
                        push_messages(&mut actions, messages);
                        proof {
                            assert(actions@.skip(n as int) =~= messages@.map_values(|m: BlockMessage| WorkerAction::Persist(PersistMessage::Block(m))));
                            assert(block_messages_of(actions@.skip(n as int)) =~= messages@);
                        }
                    },
                    None => {
                        actions = self.request_block_range(network);
                    },
                }
            },
            _ => {},
        }
        actions
    }
}

/// The items of a vector in reverse order.
pub fn into_reversed<T>(v: Vec<T>) -> (r: Vec<T>)
    ensures
        r@ == v@.reverse(),
{
    let mut v = v;
    let mut r: Vec<T> = Vec::new();
    let ghost orig = v@;
    while v.len() > 0
        invariant
            v@ + r@.reverse() == orig,
        decreases v@.len(),
    {
        let ghost before_v = v@;
        let ghost before_r = r@;
        let x = v.pop().unwrap();
        r.push(x);
        assert(r@.reverse() =~= seq![x] + before_r.reverse());
        assert(before_v =~= v@.push(x));
        assert(v@ + r@.reverse() =~= before_v + before_r.reverse());
    }
    assert(v@ + r@.reverse() =~= r@.reverse());
    assert(r@ =~= orig.reverse()) by {
        assert(r@.reverse().reverse() =~= r@);
    }
    r
}

/// Appends each command, in order, as an action.
pub fn push_commands(actions: &mut Vec<WorkerAction>, cmds: Vec<NetworkCommand>)
    ensures
        final(actions)@ == old(actions)@ + cmds@.map_values(|c: NetworkCommand| WorkerAction::Command(c)),
{
    let mut r = into_reversed(cmds);
    let ghost orig = cmds@;
    let ghost base = actions@;
    while r.len() > 0
        invariant
            r@.len() <= orig.len(),
            r@ == orig.skip(orig.len() - r@.len()).reverse(),
            actions@ == base + orig.take(orig.len() - r@.len()).map_values(|c: NetworkCommand| WorkerAction::Command(c)),
        decreases r@.len(),
    {
        let ghost k = orig.len() - r@.len();
        let c = r.pop().unwrap();
        assert(c == orig[k]);
        actions.push(WorkerAction::Command(c));
        assert(orig.take(k + 1) =~= orig.take(k).push(orig[k]));
        assert(actions@ =~= base + orig.take(k + 1).map_values(|c: NetworkCommand| WorkerAction::Command(c)));
        assert(r@ =~= orig.skip(k + 1).reverse());
    }
    assert(orig.take(orig.len() as int) =~= orig);
}

/// Appends each block message, in order, as an action.
pub fn push_messages(actions: &mut Vec<WorkerAction>, msgs: Vec<BlockMessage>)
    ensures
        final(actions)@ == old(actions)@ + msgs@.map_values(|m: BlockMessage| WorkerAction::Persist(PersistMessage::Block(m))),
{
    let mut r = into_reversed(msgs);
    let ghost orig = msgs@;
    let ghost base = actions@;
    while r.len() > 0
        invariant
            r@.len() <= orig.len(),
            r@ == orig.skip(orig.len() - r@.len()).reverse(),
            actions@ == base + orig.take(orig.len() - r@.len()).map_values(|m: BlockMessage| WorkerAction::Persist(PersistMessage::Block(m))),
        decreases r@.len(),
    {
        let ghost k = orig.len() - r@.len();
        let m = r.pop().unwrap();
        assert(m == orig[k]);
        actions.push(WorkerAction::Persist(PersistMessage::Block(m)));
        assert(orig.take(k + 1) =~= orig.take(k).push(orig[k]));
        assert(actions@ =~= base + orig.take(k + 1).map_values(|m: BlockMessage| WorkerAction::Persist(PersistMessage::Block(m))));
        assert(r@ =~= orig.skip(k + 1).reverse());
    }
    assert(orig.take(orig.len() as int) =~= orig);
}

} // verus!
