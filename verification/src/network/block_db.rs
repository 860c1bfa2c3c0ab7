use vstd::prelude::*;

use crate::network::augmented_network_service::NetworkCommand;
use crate::network::block_by_root_requests::{
    asks_for_roots, spec_peer_connected, get, has_key, roots_to_ask, updated_at,
    BlockByRootRequests, RequestsView,
};
use crate::network::block_range_request::BlockRangeRequestState;
use crate::network::request_attempts::{spec_set_found, RequestAttempts, RequestAttemptsView};
use crate::primitives::{Hash256, PeerId, Slot};
use crate::root_set::RootSet;

verus! {

/// What the network side knows of blocks: the roots of proposed blocks, the
/// range request, and the requests for blocks by root.
pub struct BlockDb {
    pub proposed_block_roots: RootSet,
    pub block_range_request_state: BlockRangeRequestState,
    pub block_by_root_requests: BlockByRootRequests,
}

impl BlockDb {
    pub open spec fn wf(&self) -> bool {
        &&& self.proposed_block_roots.wf()
        &&& self.block_by_root_requests.wf()
    }

    pub fn new() -> (db: Self)
        ensures
            db.wf(),
            db.proposed_block_roots.roots@.len() == 0,
            db.proposed_block_roots@ == Set::<Hash256>::empty(),
            db.block_range_request_state == BlockRangeRequestState::Idle,
            db.block_by_root_requests@ == Seq::<(Hash256, RequestAttemptsView)>::empty(),
    {
        BlockDb {
            proposed_block_roots: RootSet::new(),
            block_range_request_state: BlockRangeRequestState::Idle,
            block_by_root_requests: BlockByRootRequests::new(),
        }
    }

    /// Whether a proposed block has this root.
    pub fn contain_block_root(&self, root: &Hash256) -> (b: bool)
        ensures
            b == self.proposed_block_roots@.contains(*root),
    {
        self.proposed_block_roots.contains(root)
    }

    pub fn is_requesting_block_range(&self) -> (b: bool)
        ensures
            b == (self.block_range_request_state is Requesting),
    {
        match self.block_range_request_state {
            BlockRangeRequestState::Requesting(_) => true,
            _ => false,
        }
    }

    /// Whether the range request in flight was sent to this peer.
    pub fn block_range_matches(&self, peer_id: &PeerId) -> (b: bool)
        ensures
            b == (self.block_range_request_state == BlockRangeRequestState::Requesting(*peer_id)),
    {
        match self.block_range_request_state {
            BlockRangeRequestState::Requesting(requesting_peer_id) => requesting_peer_id == *peer_id,
            _ => false,
        }
    }

    /// Records the root of a proposed block.
    pub fn update(&mut self, slot: Slot, root: Hash256)
        requires
            old(self).wf(),
        ensures
            final(self).wf(),
            final(self).proposed_block_roots@ == old(self).proposed_block_roots@.insert(root),
            final(self).block_range_request_state == old(self).block_range_request_state,
            final(self).block_by_root_requests@ == old(self).block_by_root_requests@,
    {
        self.proposed_block_roots.insert(root);
    }

    pub fn block_range_requesting(&mut self, peer_id: PeerId)
        ensures
            final(self).block_range_request_state == BlockRangeRequestState::Requesting(peer_id),
            final(self).proposed_block_roots == old(self).proposed_block_roots,
            final(self).block_by_root_requests == old(self).block_by_root_requests,
    {
        self.block_range_request_state = BlockRangeRequestState::Requesting(peer_id);
    }

    pub fn block_range_awaiting_peer(&mut self)
        ensures
            final(self).block_range_request_state == BlockRangeRequestState::AwaitingPeer,
            final(self).proposed_block_roots == old(self).proposed_block_roots,
            final(self).block_by_root_requests == old(self).block_by_root_requests,
    {
        self.block_range_request_state = BlockRangeRequestState::AwaitingPeer;
    }

    pub fn block_by_root_request_exists(&self, root: &Hash256) -> (b: bool)
        ensures
            b == has_key(self.block_by_root_requests@, *root),
    {
        self.block_by_root_requests.request_exists(root)
    }

    /// Offers a connected peer to every pending request by root; the
    /// requests to send to it come back.
    pub fn for_each_pending_block_by_root_requests(&mut self, peer_id: &PeerId) -> (cmds: Vec<NetworkCommand>)
        requires
            old(self).wf(),
        ensures
            final(self).wf(),
            final(self).proposed_block_roots == old(self).proposed_block_roots,
            final(self).block_range_request_state == old(self).block_range_request_state,
            final(self).block_by_root_requests@ == spec_peer_connected(old(self).block_by_root_requests@, *peer_id),
            asks_for_roots(cmds@, *peer_id, roots_to_ask(old(self).block_by_root_requests@, *peer_id)),
    {
        self.block_by_root_requests.peer_connected(peer_id)
    }

    /// Marks the request for this root as found (by `found_by`, unless a peer had already
    /// found it) and hands back the request as it now stands, whenever the root is
    /// requested, also where it was found before; `None` where it is not requested.
    pub fn with_found_block_root(&mut self, root: Hash256, found_by: PeerId) -> (entry: Option<RequestAttempts>)
        requires
            old(self).wf(),
        ensures
            final(self).wf(),
            final(self).proposed_block_roots == old(self).proposed_block_roots,
            final(self).block_range_request_state == old(self).block_range_request_state,
            has_key(old(self).block_by_root_requests@, root) ==> updated_at(
                old(self).block_by_root_requests@,
                final(self).block_by_root_requests@,
                root,
                spec_set_found(get(old(self).block_by_root_requests@, root), found_by),
            ),
            !has_key(old(self).block_by_root_requests@, root)
                ==> final(self).block_by_root_requests@ == old(self).block_by_root_requests@,
            match entry {
                Some(a) => has_key(old(self).block_by_root_requests@, root) && a.wf()
                    && a@ == spec_set_found(get(old(self).block_by_root_requests@, root), found_by),
                None => !has_key(old(self).block_by_root_requests@, root),
            },
    {
        let ghost before = self.block_by_root_requests@;
        proof {
            self.block_by_root_requests.lemma_wf_keys();
        }
        let _ = self.block_by_root_requests.block_found(&root, found_by);
        proof {
            if has_key(before, root) {
                crate::network::block_by_root_requests::lemma_updated_at_get(
                    before,
                    self.block_by_root_requests@,
                    root,
                    spec_set_found(get(before, root), found_by),
                );
            }
        }
        match self.block_by_root_requests.get(&root) {
            Some(a) => Some(a.duplicate()),
            None => None,
        }
    }
}

} // verus!
