use vstd::prelude::*;

use crate::block_state::attested_roots;
use crate::network::augmented_network_service::RequestId;
use crate::network::block_by_root_requests::{request_all, BlockByRootRequests};
use crate::network::block_range_request::{spec_block_found_messages, BlockRangeRequest, BlockRangeRequestState};
use crate::network::event::{LighthouseNetworkEvent, Response};
use crate::network::peer_db::{NetworkPeers, PeerDb};
use crate::network::workers::block_range_request_worker::{
    all_block_messages, block_messages_of, command_actions_ask, connected_good_peer_ids,
    is_range_action, push_commands, push_messages, requested_range, WorkerAction,
};
use crate::primitives::Hash256;
use crate::root_set::{filter_unknown, unknown_votes, RootSet};

verus! {

/// Walks the chain with range requests and hands the blocks on, asking for
/// the blocks that attestations vote for but that were not seen.
pub struct Worker {
    pub peer_db: PeerDb,
    pub block_range_request_state: BlockRangeRequest,
    pub proposed_block_roots: RootSet,
}

impl Worker {
    pub open spec fn wf(&self) -> bool {
        &&& self.peer_db.wf()
        &&& self.proposed_block_roots.wf()
    }

    pub fn new(peer_db: PeerDb) -> (w: Self)
        requires
            peer_db.wf(),
        ensures
            w.wf(),
            w.peer_db == peer_db,
            w.block_range_request_state.state == BlockRangeRequestState::Idle,
            w.block_range_request_state.latest_slot is None,
            w.proposed_block_roots@ == Set::<Hash256>::empty(),
    {
        Worker { peer_db, block_range_request_state: BlockRangeRequest::new(), proposed_block_roots: RootSet::new() }
    }

    fn request_block_range(&mut self, network: &NetworkPeers) -> (actions: Vec<WorkerAction>)
        requires
            old(self).block_range_request_state.can_advance(),
        ensures
            final(self).peer_db == old(self).peer_db,
            final(self).proposed_block_roots == old(self).proposed_block_roots,
            requested_range(
                old(self).block_range_request_state,
                final(self).block_range_request_state,
                network.best_connected_peer,
                actions@,
            ),
    {
        let best = self.peer_db.get_best_connected_peer(network);
        let (_state, cmd) = self.block_range_request_state.request_block_range(best);
        let mut actions: Vec<WorkerAction> = Vec::new();
        if let Some(c) = cmd {
            actions.push(WorkerAction::Command(c));
        }
        actions
    }

    /// Reacts to an event of the peer-to-peer layer; the commands to send and
    /// the block messages to hand on come back in order.
    pub fn handle_event(
        &mut self,
        event: LighthouseNetworkEvent<RequestId>,
        block_by_root_requests: &mut BlockByRootRequests,
        network: &NetworkPeers,
    ) -> (actions: Vec<WorkerAction>)
        requires
            old(self).wf(),
            old(block_by_root_requests).wf(),
            old(self).block_range_request_state.can_advance(),
        ensures
            final(self).wf(),
            final(block_by_root_requests).wf(),
            final(self).peer_db == old(self).peer_db,
            match event {
                LighthouseNetworkEvent::PeerConnectedOutgoing(p) => {
                    &&& final(self).block_range_request_state == old(self).block_range_request_state
                    &&& final(self).proposed_block_roots == old(self).proposed_block_roots
                    &&& final(block_by_root_requests)@ == old(block_by_root_requests)@
                    &&& match old(self).block_range_request_state.state {
                        BlockRangeRequestState::Requesting(_) => actions@.len() == 0,
                        _ => actions@.len() == 1 && is_range_action(actions@[0], Some(p), old(self).block_range_request_state.latest_slot),
                    }
                },
                LighthouseNetworkEvent::PeerDisconnected(p) => {
                    &&& final(self).proposed_block_roots == old(self).proposed_block_roots
                    &&& final(block_by_root_requests)@ == old(block_by_root_requests)@
                    &&& if old(self).block_range_request_state.state == BlockRangeRequestState::Requesting(p) {
                        requested_range(old(self).block_range_request_state, final(self).block_range_request_state, network.best_connected_peer, actions@)
                    } else {
                        final(self).block_range_request_state == old(self).block_range_request_state && actions@.len() == 0
                    }
                },
                LighthouseNetworkEvent::RpcFailed { id: RequestId::Range(_), .. } => {
                    &&& final(self).proposed_block_roots == old(self).proposed_block_roots
                    &&& final(block_by_root_requests)@ == old(block_by_root_requests)@
                    &&& requested_range(old(self).block_range_request_state, final(self).block_range_request_state, network.best_connected_peer, actions@)
                },
                LighthouseNetworkEvent::ResponseReceived { id: RequestId::Range(_), response: Response::BlocksByRange(Some(block)), .. } => {
                    let roots = old(self).proposed_block_roots@.insert(block.root);
                    let unknown = unknown_votes(attested_roots(block), roots);
                    let asked = request_all(old(block_by_root_requests)@, unknown, connected_good_peer_ids(old(self).peer_db, *network));
                    let n_cmds = asked.1.len();
                    let previous = match old(self).block_range_request_state.latest_slot {
                        Some(s) => s,
                        None => 0,
                    };
                    &&& final(self).proposed_block_roots@ == roots
                    &&& final(block_by_root_requests)@ == asked.0
                    &&& final(self).block_range_request_state.state == old(self).block_range_request_state.state
                    &&& final(self).block_range_request_state.latest_slot == Some(block.slot)
                    &&& actions@.len() >= n_cmds
                    &&& command_actions_ask(actions@.take(n_cmds as int), asked.1)
                    &&& all_block_messages(actions@.skip(n_cmds as int))
                    &&& spec_block_found_messages(previous, block, block_messages_of(actions@.skip(n_cmds as int)))
                },
                LighthouseNetworkEvent::ResponseReceived { id: RequestId::Range(_), response: Response::BlocksByRange(None), .. } => {
                    &&& final(self).proposed_block_roots == old(self).proposed_block_roots
                    &&& final(block_by_root_requests)@ == old(block_by_root_requests)@
                    &&& requested_range(old(self).block_range_request_state, final(self).block_range_request_state, network.best_connected_peer, actions@)
                },
                _ => {
                    &&& final(self).block_range_request_state == old(self).block_range_request_state
                    &&& final(self).proposed_block_roots == old(self).proposed_block_roots
                    &&& final(block_by_root_requests)@ == old(block_by_root_requests)@
                    &&& actions@.len() == 0
                },
            },
    {
        let mut actions: Vec<WorkerAction> = Vec::new();
        match event {
            LighthouseNetworkEvent::PeerConnectedOutgoing(peer_id) => {
                if let Some(c) = self.block_range_request_state.peer_connected(&peer_id) {
                    actions.push(WorkerAction::Command(c));
                }
            },
            LighthouseNetworkEvent::PeerDisconnected(peer_id) => {
                if self.block_range_request_state.matches(&peer_id) {
                    actions = self.request_block_range(network);
                }
            },
            LighthouseNetworkEvent::RpcFailed { id: RequestId::Range(_), .. } => {
                actions = self.request_block_range(network);
            },
            LighthouseNetworkEvent::ResponseReceived {
                id: RequestId::Range(_),
                response: Response::BlocksByRange(block),
                ..
            } => {
                match block {
                    Some(block) => {
                        self.proposed_block_roots.insert(block.root);
                        let votes = block.attested_roots();
                        let unknown_blocks = filter_unknown(&votes, &self.proposed_block_roots);
                        let connected_good_peers = self.peer_db.get_connected_good_peer_ids(network);
                        let cmds = block_by_root_requests.request_all(&unknown_blocks, &connected_good_peers);
                        push_commands(&mut actions, cmds);
                        let ghost n = actions@.len();
                        let messages = self.block_range_request_state.block_found(block);
                        push_messages(&mut actions, messages);
                        proof {
                            assert(actions@.skip(n as int) =~= messages@.map_values(|m| WorkerAction::Persist(crate::network::persist_service::PersistMessage::Block(m))));
                            assert(block_messages_of(actions@.skip(n as int)) =~= messages@);
                        }
                    },
                    None => {
                        actions = self.request_block_range(network);
                    },
                }
            },
            _ => {},
        }
        actions
    }
}

} // verus!
