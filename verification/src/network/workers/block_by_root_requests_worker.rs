use vstd::prelude::*;

use crate::network::augmented_network_service::{NetworkCommand, RequestId};
use crate::network::block_by_root_requests::{
    asks_for_roots, spec_peer_connected, spec_peer_disconnected, get, has_key, model_of, pending_count, roots_to_ask,
    spec_found_entry, updated_at, without_key, BlockByRootRequests, BlockNotFoundResult, MAX_NOT_FOUND,
    RequestsView,
};
use crate::network::event::{LighthouseNetworkEvent, Response};
use crate::network::peer_db::{connected_only, known_good_peers, NetworkPeers, PeerDb, PeerInfo};
use crate::network::persist_service::{good_peer_models, BlockMessage, GoodPeerModelWithId, PersistMessage};
use crate::network::request_attempts::{spec_remove_peer, RequestAttemptsView};
use crate::network::workers::block_range_request_worker::{push_commands, WorkerAction, is_requests_persist};
use crate::primitives::{Hash256, PeerId};

verus! {

/// Follows the requests for blocks by root: offers them to connected peers,
/// takes the answers in, and hands found blocks on to be persisted.
pub struct BlockByRootRequestsWorker {
    pub peer_db: PeerDb,
}

/// Whether `actions` dials, in order, each good peer the network knows.
pub open spec fn dials_all(actions: Seq<WorkerAction>, peers: Seq<(PeerId, PeerInfo)>) -> bool {
    &&& actions.len() == peers.len()
    &&& forall|i: int| 0 <= i < actions.len() ==> #[trigger] actions[i] == WorkerAction::Command(NetworkCommand::DialPeer(peers[i].0))
}

/// Whether `a` persists the good peers `peers`.
pub open spec fn is_good_peers_persist(a: WorkerAction, peers: Seq<(PeerId, PeerInfo)>) -> bool {
    match a {
        WorkerAction::Persist(PersistMessage::GoodPeers(m)) => {
            &&& m@.len() == peers.len()
            &&& forall|i: int| 0 <= i < m@.len() ==> #[trigger] m@[i].id == peers[i].0
        },
        _ => false,
    }
}

/// The request map once the answer that `root` is not found is taken in.
pub open spec fn not_found_taken(s: RequestsView, t: RequestsView, root: Hash256) -> bool {
    let a = get(s, root);
    if a.not_found_count + 1 > MAX_NOT_FOUND {
        t == without_key(s, root)
    } else {
        updated_at(s, t, root, RequestAttemptsView { not_found_count: (a.not_found_count + 1) as u64, ..a })
    }
}

impl BlockByRootRequestsWorker {
    pub fn new(peer_db: PeerDb) -> (w: Self)
        ensures
            w.peer_db == peer_db,
    {
        BlockByRootRequestsWorker { peer_db }
    }

    /// Reacts to an event of the peer-to-peer layer; the commands and
    /// messages to send come back in order.
    pub fn handle_event(
        &mut self,
        event: LighthouseNetworkEvent<RequestId>,
        block_by_root_requests: &mut BlockByRootRequests,
        network: &NetworkPeers,
    ) -> (actions: Vec<WorkerAction>)
        requires
            old(self).peer_db.wf(),
            old(block_by_root_requests).wf(),
            event matches LighthouseNetworkEvent::ResponseReceived { id: RequestId::Block(root), .. }
                ==> (has_key(old(block_by_root_requests)@, root) ==> get(old(block_by_root_requests)@, root).not_found_count < u64::MAX),
        ensures
            final(self).peer_db.wf(),
            final(block_by_root_requests).wf(),
            match event {
                LighthouseNetworkEvent::PeerConnectedOutgoing(p) => {
                    &&& final(self).peer_db == old(self).peer_db
                    &&& final(block_by_root_requests)@ == spec_peer_connected(old(block_by_root_requests)@, p)
                    &&& actions@.len() == roots_to_ask(old(block_by_root_requests)@, p).len()
                    &&& forall|i: int| 0 <= i < actions@.len() ==> #[trigger] actions@[i] is Command
                        && crate::network::augmented_network_service::is_block_by_root_request(
                            actions@[i]->Command_0, p, roots_to_ask(old(block_by_root_requests)@, p)[i])
                },
                LighthouseNetworkEvent::PeerDisconnected(p) => {
                    let reqs = spec_peer_disconnected(old(block_by_root_requests)@, p);
                    let good = known_good_peers(old(self).peer_db.good_peers@, network.peers@);
                    &&& final(self).peer_db == old(self).peer_db
                    &&& final(block_by_root_requests)@ == reqs
                    &&& if pending_count(reqs) > 0 && connected_only(good).len() == 0 {
                        dials_all(actions@, good)
                    } else {
                        actions@.len() == 0
                    }
                },
                LighthouseNetworkEvent::RpcFailed { id: RequestId::Block(root), peer_id } => {
                    &&& final(self).peer_db == old(self).peer_db
                    &&& (has_key(old(block_by_root_requests)@, root) ==> updated_at(
                        old(block_by_root_requests)@,
                        final(block_by_root_requests)@,
                        root,
                        spec_remove_peer(get(old(block_by_root_requests)@, root), peer_id),
                    ))
                    &&& (!has_key(old(block_by_root_requests)@, root) ==> final(block_by_root_requests)@ == old(block_by_root_requests)@)
                    &&& actions@.len() == 0
                },
                LighthouseNetworkEvent::ResponseReceived { peer_id, id: RequestId::Block(root), response: Response::BlocksByRoot(block) } => {
                    if !has_key(old(block_by_root_requests)@, root) {
                        &&& final(self).peer_db == old(self).peer_db
                        &&& final(block_by_root_requests)@ == old(block_by_root_requests)@
                        &&& actions@.len() == 0
                    } else {
                        match block {
                            Some(b) => {
                                let newly = get(old(block_by_root_requests)@, root).state
                                    != crate::network::request_attempts::BlockByRootRequestState::Found;
                                &&& spec_found_entry(old(block_by_root_requests)@, final(block_by_root_requests)@, root, peer_id, newly)
                                &&& if newly {
                                    &&& final(self).peer_db.good_peers@.to_set() == old(self).peer_db.good_peers@.to_set().insert(peer_id)
                                    &&& actions@.len() == 2
                                    &&& actions@[0] == WorkerAction::Persist(PersistMessage::Block(BlockMessage::Orphaned(b)))
                                    &&& is_good_peers_persist(actions@[1], known_good_peers(final(self).peer_db.good_peers@, network.peers@))
                                } else {
                                    final(self).peer_db == old(self).peer_db && actions@.len() == 0
                                }
                            },
                            None => {
                                &&& final(self).peer_db == old(self).peer_db
                                &&& not_found_taken(old(block_by_root_requests)@, final(block_by_root_requests)@, root)
                                &&& actions@.len() == 0
                            },
                        }
                    }
                },
                _ => {
                    &&& final(self).peer_db == old(self).peer_db
                    &&& final(block_by_root_requests)@ == old(block_by_root_requests)@
                    &&& actions@.len() == 0
                },
            },
    {
        let mut actions: Vec<WorkerAction> = Vec::new();
        match event {
            LighthouseNetworkEvent::PeerConnectedOutgoing(peer_id) => {
                let cmds = block_by_root_requests.peer_connected(&peer_id);
                let ghost c = cmds@;
                push_commands(&mut actions, cmds);
                assert forall|i: int| 0 <= i < actions@.len() implies #[trigger] actions@[i] is Command
                    && crate::network::augmented_network_service::is_block_by_root_request(
                        actions@[i]->Command_0, peer_id, roots_to_ask(old(block_by_root_requests)@, peer_id)[i]) by {
                    assert(actions@[i] == WorkerAction::Command(c[i]));
                    assert(crate::network::augmented_network_service::is_block_by_root_request(c[i], peer_id, roots_to_ask(old(block_by_root_requests)@, peer_id)[i]));
                }
            },
            LighthouseNetworkEvent::PeerDisconnected(peer_id) => {
                block_by_root_requests.peer_disconnected(&peer_id);
                if block_by_root_requests.count() > 0 && !self.peer_db.has_connected_good_peers(network) {
                    let good = self.peer_db.get_good_peers(network);
                    let mut i: usize = 0;
                    while i < good.len()
                        invariant
                            i <= good@.len(),
                            dials_all(actions@, good@.take(i as int)),
                        decreases good@.len() - i,
                    {
                        actions.push(WorkerAction::Command(NetworkCommand::DialPeer(good[i].0)));
                        i = i + 1;
                    }
                    assert(good@.take(i as int) =~= good@);
                }
            },
            LighthouseNetworkEvent::RpcFailed { id: RequestId::Block(root), peer_id } => {
                block_by_root_requests.failed_request(&root, &peer_id);
            },
            LighthouseNetworkEvent::ResponseReceived {
                peer_id,
                id: RequestId::Block(root),
                response: Response::BlocksByRoot(block),
            } => {
                if block_by_root_requests.request_exists(&root) {
                    match block {
                        Some(block) => {
                            if block_by_root_requests.block_found(&root, peer_id) {
                                actions.push(WorkerAction::Persist(PersistMessage::new_ophan_block(block)));
                                self.peer_db.add_good_peer(peer_id);
                                let good = self.peer_db.get_good_peers(network);
                                let models = good_peer_models(&good);
                                actions.push(WorkerAction::Persist(PersistMessage::GoodPeers(models)));
                            }
                        },
                        None => {
                            block_by_root_requests.block_not_found(&root);
                        },
                    }
                }
            },
            _ => {},
        }
        actions
    }

    /// The message that persists every request by root.
    pub fn persist(&self, block_by_root_requests: &BlockByRootRequests) -> (a: WorkerAction)
        ensures
            is_requests_persist(a, block_by_root_requests@),
    {
        WorkerAction::Persist(PersistMessage::BlockRequests(block_by_root_requests.to_models()))
    }
}

} // verus!
