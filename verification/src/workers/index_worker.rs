use vstd::prelude::*;

use crate::assoc::{
    assoc_map, distinct_keys, find_key, lemma_assoc_dom, lemma_assoc_get, lemma_assoc_push,
    lemma_assoc_remove, lemma_assoc_same_entries, lemma_assoc_update, sorted_by_key,
};
use crate::block_state::{attested_roots, BeaconBlock, BlockState};
use crate::network::block_by_root_requests::{
    get, has_key, roots_to_ask, spec_request_block_by_root, spec_found_entry, spec_peer_connected,
    spec_pending_peer_disconnected, updated_at, BlockByRootRequests,
};
use crate::network::consensus_network::{NetworkCommand, RequestId};
use crate::network::event::{LighthouseNetworkEvent, Response};
use crate::network::request_attempts::{spec_remove_peer, RequestAttemptsView};
use crate::primitives::{Hash256, PeerId, Slot};
use crate::root_set::unknown_votes;
use crate::work::Work;

verus! {

/// The range requests in flight and the blocks received ahead of their turn.
pub struct BlockRangeRequests {
    /// The peers with a range request in flight.
    pub active_requests: Vec<PeerId>,
    /// Blocks waiting for their turn, by slot, in increasing order of slot.
    pub blocks_queue: Vec<(Slot, BeaconBlock)>,
}

impl BlockRangeRequests {
    pub open spec fn wf(&self) -> bool {
        &&& self.active_requests@.no_duplicates()
        &&& distinct_keys(self.blocks_queue@)
        &&& sorted_by_key(self.blocks_queue@)
        &&& forall|i: int| 0 <= i < self.blocks_queue@.len() ==> #[trigger] self.blocks_queue@[i].0 == self.blocks_queue@[i].1.slot
    }

    /// The queued blocks by slot.
    pub open spec fn queue(&self) -> Map<Slot, BeaconBlock> {
        assoc_map(self.blocks_queue@)
    }

    pub fn new() -> (r: Self)
        ensures
            r.wf(),
            r.active_requests@.len() == 0,
            r.blocks_queue@.len() == 0,
            r.queue() == Map::<Slot, BeaconBlock>::empty(),
    {
        let r = BlockRangeRequests { active_requests: Vec::new(), blocks_queue: Vec::new() };
        assert(r.queue() =~= Map::<Slot, BeaconBlock>::empty());
        r
    }

    /// Queues the block and hands back the queued block with the lowest slot.
    pub fn next_or(&mut self, block: BeaconBlock) -> (next: BeaconBlock)
        requires
            old(self).wf(),
        ensures
            final(self).wf(),
            final(self).active_requests == old(self).active_requests,
            ({
                let m = old(self).queue().insert(block.slot, block);
                &&& m.dom().contains(next.slot)
                &&& m[next.slot] == next
                &&& forall|k: Slot| #[trigger] m.dom().contains(k) ==> next.slot <= k
                &&& final(self).queue() == m.remove(next.slot)
            }),
    {
        let slot = block.slot;
        let ghost q0 = self.blocks_queue@;
        let ghost m = old(self).queue().insert(slot, block);
        let mut j: usize = 0;
        while j < self.blocks_queue.len() && self.blocks_queue[j].0 < slot
            invariant
                j <= self.blocks_queue@.len(),
                self.blocks_queue@ == q0,
                forall|a: int| 0 <= a < j ==> #[trigger] q0[a].0 < slot,
            decreases self.blocks_queue@.len() - j,
        {
            j = j + 1;
        }
        if j < self.blocks_queue.len() && self.blocks_queue[j].0 == slot {
            let _ = self.blocks_queue.remove(j);
            self.blocks_queue.insert(j, (slot, block));
            proof {
                assert(self.blocks_queue@ =~= q0.update(j as int, (q0[j as int].0, block)));
                lemma_assoc_update(q0, j as int, block);
            }
        } else {
            self.blocks_queue.insert(j, (slot, block));
            proof {
                let t = self.blocks_queue@;
                assert(t =~= q0.insert(j as int, (slot, block)));
                lemma_assoc_dom(q0, slot);
                if assoc_map(q0).dom().contains(slot) {
                    let k = choose|k: int| 0 <= k < q0.len() && #[trigger] q0[k].0 == slot;
                    if k < j {
                    } else {
                        assert(q0[j as int].0 <= q0[k].0);
                    }
                }
                lemma_assoc_push(q0, slot, block);
                assert(distinct_keys(t)) by {
                    assert forall|a: int, b: int| 0 <= a < t.len() && 0 <= b < t.len() && a != b implies t[a].0 != t[b].0 by {
                        let oa = if a < j { a } else if a == j { -1 } else { a - 1 };
                        let ob = if b < j { b } else if b == j { -1 } else { b - 1 };
                        if oa >= 0 && ob >= 0 {
                            assert(t[a] == q0[oa]);
                            assert(t[b] == q0[ob]);
                        } else if oa >= 0 {
                            assert(t[a] == q0[oa]);
                            assert(q0[oa].0 != slot);
                        } else {
                            assert(t[b] == q0[ob]);
                            assert(q0[ob].0 != slot);
                        }
                    }
                }
                assert forall|x: (Slot, BeaconBlock)| t.contains(x) <==> q0.push((slot, block)).contains(x) by {
                    if t.contains(x) {
                        let k = choose|k: int| 0 <= k < t.len() && t[k] == x;
                        if k < j {
                            assert(q0.push((slot, block))[k] == x);
                        } else if k == j {
                            assert(q0.push((slot, block))[q0.len() as int] == x);
                        } else {
                            assert(q0.push((slot, block))[k - 1] == x);
                        }
                    }
                    if q0.push((slot, block)).contains(x) {
                        let k = choose|k: int| 0 <= k < q0.len() + 1 && q0.push((slot, block))[k] == x;
                        if k == q0.len() {
                            assert(t[j as int] == x);
                        } else if k < j {
                            assert(t[k] == x);
                        } else {
                            assert(t[k + 1] == x);
                        }
                    }
                }
                lemma_assoc_same_entries(t, q0.push((slot, block)));
            }
        }
        proof {
            let t = self.blocks_queue@;
            assert(assoc_map(t) == m);
            assert(sorted_by_key(t)) by {
                assert forall|a: int, b: int| 0 <= a < b < t.len() implies t[a].0 < t[b].0 by {
                    if t.len() == q0.len() {
                        if a != j && b != j {
                            assert(t[a] == q0[a]);
                            assert(t[b] == q0[b]);
                        } else if a == j {
                            assert(t[b] == q0[b]);
                            assert(q0[j as int].0 == slot);
                        } else {
                            assert(t[a] == q0[a]);
                            assert(q0[j as int].0 == slot);
                        }
                    } else {
                        if b < j {
                            assert(t[a] == q0[a]);
                            assert(t[b] == q0[b]);
                        } else if b == j {
                            assert(t[a] == q0[a]);
                        } else if a < j {
                            assert(t[a] == q0[a]);
                            assert(t[b] == q0[b - 1]);
                            assert(q0[b - 1].0 >= slot) by {
                                if j < q0.len() {
                                    assert(q0[j as int].0 >= slot);
                                    if b - 1 > j {
                                        assert(q0[j as int].0 < q0[b - 1].0);
                                    }
                                }
                            }
                            if q0[b - 1].0 == slot {
                                assert(j < q0.len());
                                assert(q0[j as int].0 >= slot);
                                if b - 1 > j {
                                    assert(q0[j as int].0 < q0[b - 1].0);
                                }
                            }
                        } else if a == j {
                            assert(t[b] == q0[b - 1]);
                            if j < q0.len() {
                                assert(q0[j as int].0 >= slot);
                                if b - 1 > j {
                                    assert(q0[j as int].0 < q0[b - 1].0);
                                }
                                assert(q0[j as int].0 != slot);
                            }
                        } else {
                            assert(t[a] == q0[a - 1]);
                            assert(t[b] == q0[b - 1]);
                        }
                    }
                }
            }
            assert forall|i: int| 0 <= i < t.len() implies #[trigger] t[i].0 == t[i].1.slot by {
                if t.len() == q0.len() {
                    if i != j {
                        assert(t[i] == q0[i]);
                    }
                } else {
                    if i < j {
                        assert(t[i] == q0[i]);
                    } else if i > j {
                        assert(t[i] == q0[i - 1]);
                    }
                }
            }
            lemma_assoc_get(t, 0);
            assert forall|k: Slot| #[trigger] m.dom().contains(k) implies t[0].0 <= k by {
                lemma_assoc_dom(t, k);
                let x = choose|x: int| 0 <= x < t.len() && #[trigger] t[x].0 == k;
                if x > 0 {
                    assert(t[0].0 < t[x].0);
                }
            }
        }
        let ghost t1 = self.blocks_queue@;
        let (_, next) = self.blocks_queue.remove(0);
        proof {
            lemma_assoc_remove(t1, 0);
            assert(self.blocks_queue@ =~= t1.remove(0));
            assert forall|a: int, b: int| 0 <= a < b < self.blocks_queue@.len() implies self.blocks_queue@[a].0 < self.blocks_queue@[b].0 by {
                assert(self.blocks_queue@[a] == t1[a + 1]);
                assert(self.blocks_queue@[b] == t1[b + 1]);
            }
            assert forall|i: int| 0 <= i < self.blocks_queue@.len() implies #[trigger] self.blocks_queue@[i].0 == self.blocks_queue@[i].1.slot by {
                assert(self.blocks_queue@[i] == t1[i + 1]);
            }
        }
        next
    }

    /// Ends the range request of a peer; tells whether it had one.
    pub fn request_terminated(&mut self, peer_id: &PeerId) -> (had: bool)
        requires
            old(self).wf(),
        ensures
            final(self).wf(),
            final(self).blocks_queue == old(self).blocks_queue,
            had == old(self).active_requests@.contains(*peer_id),
            final(self).active_requests@.to_set() == old(self).active_requests@.to_set().remove(*peer_id),
    {
        let mut i: usize = 0;
        while i < self.active_requests.len()
            invariant
                i <= self.active_requests@.len(),
                self.active_requests == old(self).active_requests,
                self.blocks_queue == old(self).blocks_queue,
                old(self).wf(),
                forall|j: int| 0 <= j < i ==> self.active_requests@[j] != *peer_id,
            decreases self.active_requests@.len() - i,
        {
            if self.active_requests[i] == *peer_id {
                let ghost before = self.active_requests@;
                self.active_requests.remove(i);
                proof {
                    assert(self.active_requests@ =~= before.remove(i as int));
                    assert(self.active_requests@.no_duplicates()) by {
                        assert forall|a: int, b: int| 0 <= a < b < self.active_requests@.len() implies self.active_requests@[a] != self.active_requests@[b] by {
                            let oa = if a < i { a } else { a + 1 };
                            let ob = if b < i { b } else { b + 1 };
                            assert(self.active_requests@[a] == before[oa]);
                            assert(self.active_requests@[b] == before[ob]);
                        }
                    }
                    assert(self.active_requests@.to_set() =~= before.to_set().remove(*peer_id)) by {
                        assert forall|x: PeerId| self.active_requests@.to_set().contains(x) <==> before.to_set().remove(*peer_id).contains(x) by {
                            if self.active_requests@.contains(x) {
                                let k = choose|k: int| 0 <= k < self.active_requests@.len() && self.active_requests@[k] == x;
                                let ok = if k < i { k } else { k + 1 };
                                assert(before[ok] == x);
                                assert(ok != i);
                            }
                            if x != *peer_id && before.contains(x) {
                                let k = choose|k: int| 0 <= k < before.len() && before[k] == x;
                                if k < i {
                                    assert(self.active_requests@[k] == x);
                                } else {
                                    assert(self.active_requests@[k - 1] == x);
                                }
                            }
                        }
                    }
                }
                return true;
            }
            i = i + 1;
        }
        assert(old(self).active_requests@.to_set().remove(*peer_id) =~= old(self).active_requests@.to_set());
        false
    }

    /// Whether a range request is in flight.
    pub fn is_requesting(&self) -> (b: bool)
        ensures
            b == (self.active_requests@.len() > 0),
    {
        self.active_requests.len() > 0
    }
}

/// The slot of each known block root.
pub struct BlockRootsCache {
    pub entries: Vec<(Hash256, Slot)>,
}

impl BlockRootsCache {
    pub open spec fn wf(&self) -> bool {
        distinct_keys(self.entries@)
    }

    /// The slot of each known root.
    pub open spec fn map(&self) -> Map<Hash256, Slot> {
        assoc_map(self.entries@)
    }

    pub fn new() -> (c: Self)
        ensures
            c.wf(),
            c.entries@.len() == 0,
            c.map() == Map::<Hash256, Slot>::empty(),
    {
        let c = BlockRootsCache { entries: Vec::new() };
        assert(c.map() =~= Map::<Hash256, Slot>::empty());
        c
    }

    fn find(&self, root: &Hash256) -> (r: Option<usize>)
        ensures
            match r {
                Some(i) => i < self.entries@.len() && self.entries@[i as int].0 == *root,
                None => forall|i: int| 0 <= i < self.entries@.len() ==> #[trigger] self.entries@[i].0 != *root,
            },
    {
        let mut i: usize = 0;
        while i < self.entries.len()
            invariant
                i <= self.entries@.len(),
                forall|j: int| 0 <= j < i ==> #[trigger] self.entries@[j].0 != *root,
            decreases self.entries@.len() - i,
        {
            if self.entries[i].0 == *root {
                return Some(i);
            }
            i = i + 1;
        }
        None
    }

    /// Whether the root is known.
    pub fn contains(&self, root: &Hash256) -> (b: bool)
        ensures
            b == self.map().dom().contains(*root),
    {
        proof {
            lemma_assoc_dom(self.entries@, *root);
        }
        self.find(root).is_some()
    }

    /// Records the slot of a root.
    pub fn put(&mut self, root: Hash256, slot: Slot)
        requires
            old(self).wf(),
        ensures
            final(self).wf(),
            final(self).map() == old(self).map().insert(root, slot),
    {
        match self.find(&root) {
            Some(i) => {
                let ghost before = self.entries@;
                self.entries.set(i, (root, slot));
                proof {
                    assert(self.entries@ =~= before.update(i as int, (before[i as int].0, slot)));
                    lemma_assoc_update(before, i as int, slot);
                }
            },
            None => {
                proof {
                    lemma_assoc_dom(self.entries@, root);
                    lemma_assoc_push(self.entries@, root, slot);
                }
                self.entries.push((root, slot));
            },
        }
    }

    /// Keeps the votes whose root is not known.
    pub fn unknown(&self, votes: &Vec<(u64, Hash256)>) -> (r: Vec<(u64, Hash256)>)
        ensures
            r@ == unknown_votes(votes@, self.map().dom()),
    {
        let mut r: Vec<(u64, Hash256)> = Vec::new();
        let mut i: usize = 0;
        while i < votes.len()
            invariant
                i <= votes@.len(),
                r@ == unknown_votes(votes@.take(i as int), self.map().dom()),
            decreases votes@.len() - i,
        {
            assert(votes@.take(i as int + 1).drop_last() =~= votes@.take(i as int));
            if !self.contains(&votes[i].1) {
                r.push(votes[i]);
            }
            i = i + 1;
        }
        assert(votes@.take(i as int) =~= votes@);
        r
    }
}

/// What the index worker asks to be done, in order. A `ProcessBlock` runs the
/// block through the chain state and persists what comes out; when it fails,
/// the actions after it are not done. A `RegisterRootRequest` records that the
/// block of a root seen at a slot is to be asked for, through
/// `IndexWorker::register_root_request`.
pub enum IndexAction {
    Command(NetworkCommand),
    Work(Work),
    ProcessBlock(BlockState),
    RegisterRootRequest(Slot, Hash256),
}

/// The slot a range request starts at: the one after the latest indexed slot, or 0.
pub open spec fn spec_start_slot(latest_slot: Option<Slot>) -> u64 {
    match latest_slot {
        Some(s) => (s + 1) as u64,
        None => 0,
    }
}

/// The command of a range request.
pub open spec fn range_action(to: Option<PeerId>, latest_slot: Option<Slot>) -> IndexAction {
    IndexAction::Command(NetworkCommand::SendRangeRequest { peer_id: to, start_slot: spec_start_slot(latest_slot) })
}

/// The block states a received block stands for: each slot from `previous`
/// up to the block's slot missed, then the block proposed.
pub open spec fn new_block_states(previous: Slot, block: BeaconBlock) -> Seq<BlockState> {
    let n = if block.slot >= previous { (block.slot - previous) as nat } else { 0nat };
    Seq::new(n, |i: int| BlockState::Missed((previous + i) as Slot)).push(BlockState::Proposed(block))
}

/// For each (slot, root) vote in turn: the registration of its request, then the
/// command asking every peer for the root.
pub open spec fn root_requests_to_all(votes: Seq<(u64, Hash256)>) -> Seq<IndexAction>
    decreases votes.len(),
{
    if votes.len() == 0 {
        Seq::empty()
    } else {
        let v = votes.last();
        root_requests_to_all(votes.drop_last()) + seq![
            IndexAction::RegisterRootRequest(v.0, v.1),
            IndexAction::Command(NetworkCommand::SendBlockByRootRequest { peer_id: None, root: v.1 }),
        ]
    }
}

/// The commands asking `p` for each root.
pub open spec fn root_requests_to(p: PeerId, roots: Seq<Hash256>) -> Seq<IndexAction> {
    roots.map_values(|r: Hash256| IndexAction::Command(NetworkCommand::SendBlockByRootRequest { peer_id: Some(p), root: r }))
}

/// Follows the consensus network: walks the chain with range requests, hands
/// the blocks on to be processed and asks for the blocks it learns of.
pub struct IndexWorker {
    pub block_range_requests: BlockRangeRequests,
    pub block_by_root_requests: BlockByRootRequests,
    pub block_roots_cache: BlockRootsCache,
}

impl IndexWorker {
    pub open spec fn wf(&self) -> bool {
        &&& self.block_range_requests.wf()
        &&& self.block_by_root_requests.wf()
        &&& self.block_roots_cache.wf()
    }

    pub fn new() -> (w: Self)
        ensures
            w.wf(),
            w.block_range_requests.active_requests@.len() == 0,
            w.block_range_requests.blocks_queue@.len() == 0,
            w.block_range_requests.queue() == Map::<Slot, BeaconBlock>::empty(),
            w.block_by_root_requests@ == Seq::<(Hash256, RequestAttemptsView)>::empty(),
            w.block_roots_cache.entries@.len() == 0,
            w.block_roots_cache.map() == Map::<Hash256, Slot>::empty(),
    {
        IndexWorker {
            block_range_requests: BlockRangeRequests::new(),
            block_by_root_requests: BlockByRootRequests::new(),
            block_roots_cache: BlockRootsCache::new(),
        }
    }

    /// Records that the block of `root`, seen at `slot`, is to be asked for: a new
    /// request waits for a peer, a known one gains the slot. The registrations of the
    /// actions of a block, done in order, come to `request_all` of its unknown votes.
    pub fn register_root_request(&mut self, slot: Slot, root: Hash256)
        requires
            old(self).wf(),
        ensures
            final(self).wf(),
            final(self).block_range_requests == old(self).block_range_requests,
            final(self).block_roots_cache == old(self).block_roots_cache,
            final(self).block_by_root_requests@ == spec_request_block_by_root(
                old(self).block_by_root_requests@,
                slot,
                root,
                Seq::empty(),
            ),
    {
        let no_peers: Vec<PeerId> = Vec::new();
        let _ = self.block_by_root_requests.request_block_by_root(&slot, &root, &no_peers);
        assert(no_peers@ =~= Seq::<PeerId>::empty());
    }

    fn send_range_request(to: Option<PeerId>, latest_slot: Option<Slot>) -> (a: IndexAction)
        requires
            latest_slot != Some(u64::MAX),
        ensures
            a == range_action(to, latest_slot),
    {
        let start_slot = match latest_slot {
            Some(s) => s + 1,
            None => 0,
        };
        IndexAction::Command(NetworkCommand::SendRangeRequest { peer_id: to, start_slot })
    }

    /// Reacts to an event of the consensus network, given the latest slot
    /// indexed; the actions come back in the order they are to be done.
    pub fn handle_consensus_event(
        &mut self,
        event: LighthouseNetworkEvent<RequestId>,
        latest_slot: Option<Slot>,
    ) -> (actions: Vec<IndexAction>)
        requires
            old(self).wf(),
            latest_slot != Some(u64::MAX),
        ensures
            final(self).wf(),
            match event {
                LighthouseNetworkEvent::PeerConnectedOutgoing(p) => {
                    &&& final(self).block_range_requests == old(self).block_range_requests
                    &&& final(self).block_roots_cache == old(self).block_roots_cache
                    &&& final(self).block_by_root_requests@ == spec_peer_connected(old(self).block_by_root_requests@, p)
                    &&& actions@ == (if old(self).block_range_requests.active_requests@.len() == 0 {
                        seq![range_action(Some(p), latest_slot)]
                    } else {
                        Seq::empty()
                    }) + root_requests_to(p, roots_to_ask(old(self).block_by_root_requests@, p))
                },
                LighthouseNetworkEvent::PeerDisconnected(p) => {
                    let had = old(self).block_range_requests.active_requests@.contains(p);
                    &&& final(self).block_range_requests.blocks_queue == old(self).block_range_requests.blocks_queue
                    &&& final(self).block_range_requests.active_requests@.to_set()
                        == old(self).block_range_requests.active_requests@.to_set().remove(p)
                    &&& final(self).block_roots_cache == old(self).block_roots_cache
                    &&& final(self).block_by_root_requests@ == spec_pending_peer_disconnected(old(self).block_by_root_requests@, p)
                    &&& actions@ == if had && final(self).block_range_requests.active_requests@.len() == 0 {
                        seq![range_action(None, latest_slot)]
                    } else {
                        Seq::empty()
                    }
                },
                LighthouseNetworkEvent::RpcFailed { id: RequestId::Range, .. } => {
                    &&& final(self).block_range_requests == old(self).block_range_requests
                    &&& final(self).block_roots_cache == old(self).block_roots_cache
                    &&& final(self).block_by_root_requests@ == old(self).block_by_root_requests@
                    &&& actions@ == seq![range_action(None, latest_slot)]
                },
                LighthouseNetworkEvent::RpcFailed { id: RequestId::Block(root), peer_id } => {
                    &&& final(self).block_range_requests == old(self).block_range_requests
                    &&& final(self).block_roots_cache == old(self).block_roots_cache
                    &&& (has_key(old(self).block_by_root_requests@, root) ==> updated_at(
                        old(self).block_by_root_requests@,
                        final(self).block_by_root_requests@,
                        root,
                        spec_remove_peer(get(old(self).block_by_root_requests@, root), peer_id),
                    ))
                    &&& (!has_key(old(self).block_by_root_requests@, root)
                        ==> final(self).block_by_root_requests@ == old(self).block_by_root_requests@)
                    &&& actions@.len() == 0
                },
                LighthouseNetworkEvent::ResponseReceived { id: RequestId::Range, response: Response::BlocksByRange(Some(block)), .. } => {
                    let cache = old(self).block_roots_cache.map().insert(block.root, block.slot);
                    let queue = old(self).block_range_requests.queue().insert(block.slot, block);
                    &&& final(self).block_roots_cache.map() == cache
                    &&& final(self).block_range_requests.active_requests == old(self).block_range_requests.active_requests
                    &&& exists|next: BeaconBlock| {
                        &&& #[trigger] queue.dom().contains(next.slot)
                        &&& queue[next.slot] == next
                        &&& (forall|k: Slot| #[trigger] queue.dom().contains(k) ==> next.slot <= k)
                        &&& final(self).block_range_requests.queue() == queue.remove(next.slot)
                        &&& if latest_slot is None || next.slot > latest_slot->0 {
                            let unknown = unknown_votes(attested_roots(next), cache.dom());
                            &&& final(self).block_by_root_requests@ == old(self).block_by_root_requests@
                            &&& actions@ == new_block_states(spec_start_slot(latest_slot), next).map_values(
                                |b: BlockState| IndexAction::ProcessBlock(b)) + root_requests_to_all(unknown)
                        } else {
                            final(self).block_by_root_requests@ == old(self).block_by_root_requests@ && actions@.len() == 0
                        }
                    }
                },
                LighthouseNetworkEvent::ResponseReceived { id: RequestId::Range, response: Response::BlocksByRange(None), peer_id } => {
                    let had = old(self).block_range_requests.active_requests@.contains(peer_id);
                    &&& final(self).block_range_requests.blocks_queue == old(self).block_range_requests.blocks_queue
                    &&& final(self).block_range_requests.active_requests@.to_set()
                        == old(self).block_range_requests.active_requests@.to_set().remove(peer_id)
                    &&& final(self).block_roots_cache == old(self).block_roots_cache
                    &&& final(self).block_by_root_requests@ == old(self).block_by_root_requests@
                    &&& actions@ == if had && final(self).block_range_requests.active_requests@.len() == 0 {
                        seq![range_action(None, latest_slot)]
                    } else {
                        Seq::empty()
                    }
                },
                LighthouseNetworkEvent::ResponseReceived { peer_id, id: RequestId::Block(root), response: Response::BlocksByRoot(block) } => {
                    &&& final(self).block_range_requests == old(self).block_range_requests
                    &&& final(self).block_roots_cache == old(self).block_roots_cache
                    &&& if !has_key(old(self).block_by_root_requests@, root) {
                        final(self).block_by_root_requests@ == old(self).block_by_root_requests@ && actions@.len() == 0
                    } else {
                        let a = get(old(self).block_by_root_requests@, root);
                        match block {
                            Some(_) => {
                                let newly = a.state != crate::network::request_attempts::BlockByRootRequestState::Found;
                                &&& spec_found_entry(old(self).block_by_root_requests@, final(self).block_by_root_requests@, root, peer_id, newly)
                                &&& if newly {
                                    &&& actions@.len() == 2
                                    &&& actions@[0] matches IndexAction::Work(Work::PersistBlockRequest(r, att))
                                        && r == root && att@ == get(final(self).block_by_root_requests@, root)
                                    &&& actions@[1] matches IndexAction::Work(Work::PersistAllGoodPeers)
                                } else {
                                    actions@.len() == 0
                                }
                            },
                            None => {
                                &&& a.not_found_count < u64::MAX ==> updated_at(
                                    old(self).block_by_root_requests@,
                                    final(self).block_by_root_requests@,
                                    root,
                                    RequestAttemptsView { not_found_count: (a.not_found_count + 1) as u64, ..a },
                                )
                                &&& actions@.len() == 0
                            },
                        }
                    }
                },
                _ => {
                    &&& final(self).block_range_requests == old(self).block_range_requests
                    &&& final(self).block_roots_cache == old(self).block_roots_cache
                    &&& final(self).block_by_root_requests@ == old(self).block_by_root_requests@
                    &&& actions@.len() == 0
                },
            },
    {
        let mut actions: Vec<IndexAction> = Vec::new();
        match event {
            LighthouseNetworkEvent::PeerConnectedOutgoing(peer_id) => {
                if !self.block_range_requests.is_requesting() {
                    actions.push(Self::send_range_request(Some(peer_id), latest_slot));
                }
                let ghost a0 = actions@;
                let roots = self.block_by_root_requests.offer_peer(&peer_id);
                let mut i: usize = 0;
                while i < roots.len()
                    invariant
                        i <= roots@.len(),
                        actions@ == a0 + root_requests_to(peer_id, roots@.take(i as int)),
                    decreases roots@.len() - i,
                {
                    actions.push(IndexAction::Command(NetworkCommand::SendBlockByRootRequest { peer_id: Some(peer_id), root: roots[i] }));
                    assert(root_requests_to(peer_id, roots@.take(i as int + 1)) =~= root_requests_to(peer_id, roots@.take(i as int)).push(
                        IndexAction::Command(NetworkCommand::SendBlockByRootRequest { peer_id: Some(peer_id), root: roots@[i as int] })));
                    i = i + 1;
                }
                assert(roots@.take(i as int) =~= roots@);
                proof {
                    if old(self).block_range_requests.active_requests@.len() == 0 {
                        assert(a0 =~= seq![range_action(Some(peer_id), latest_slot)]);
                    } else {
                        assert(a0 =~= Seq::<IndexAction>::empty());
                    }
                }
            },
            LighthouseNetworkEvent::PeerDisconnected(peer_id) => {
                if self.block_range_requests.request_terminated(&peer_id) {
                    if !self.block_range_requests.is_requesting() {
                        actions.push(Self::send_range_request(None, latest_slot));
                    }
                }
                self.block_by_root_requests.pending_peer_disconnected(&peer_id);
                proof {
                    if actions@.len() == 1 {
                        assert(actions@ =~= seq![range_action(None, latest_slot)]);
                    }
                }
            },
            LighthouseNetworkEvent::RpcFailed { id: RequestId::Range, .. } => {
                actions.push(Self::send_range_request(None, latest_slot));
                assert(actions@ =~= seq![range_action(None, latest_slot)]);
            },
            LighthouseNetworkEvent::RpcFailed { id: RequestId::Block(root), peer_id } => {
                self.block_by_root_requests.failed_request(&root, &peer_id);
            },
            LighthouseNetworkEvent::ResponseReceived {
                id: RequestId::Range,
                response: Response::BlocksByRange(block),
                peer_id,
            } => {
                match block {
                    Some(block) => {
                        self.block_roots_cache.put(block.root, block.slot);
                        let block = self.block_range_requests.next_or(block);
                        let newer = match latest_slot {
                            Some(l) => block.slot > l,
                            None => true,
                        };
                        if newer {
                            let votes = block.attested_roots();
                            let unknown = self.block_roots_cache.unknown(&votes);
                            let states = new_blocks(block, latest_slot);
                            let ghost st = states@;
                            push_process(&mut actions, states);
                            let ghost a1 = actions@;
                            let mut i: usize = 0;
                            while i < unknown.len()
                                invariant
                                    i <= unknown@.len(),
                                    actions@ == a1 + root_requests_to_all(unknown@.take(i as int)),
                                decreases unknown@.len() - i,
                            {
                                actions.push(IndexAction::RegisterRootRequest(unknown[i].0, unknown[i].1));
                                actions.push(IndexAction::Command(NetworkCommand::SendBlockByRootRequest { peer_id: None, root: unknown[i].1 }));
                                assert(unknown@.take(i as int + 1).drop_last() =~= unknown@.take(i as int));
                                i = i + 1;
                            }
                            assert(unknown@.take(i as int) =~= unknown@);
                        }
                    },
                    None => {
                        if self.block_range_requests.request_terminated(&peer_id) {
                            if !self.block_range_requests.is_requesting() {
                                actions.push(Self::send_range_request(None, latest_slot));
                            }
                        }
                        proof {
                            if actions@.len() == 1 {
                                assert(actions@ =~= seq![range_action(None, latest_slot)]);
                            }
                        }
                    },
                }
            },
            LighthouseNetworkEvent::ResponseReceived {
                peer_id,
                id: RequestId::Block(root),
                response: Response::BlocksByRoot(block),
            } => {
                if self.block_by_root_requests.request_exists(&root) {
                    match block {
                        Some(_) => {
                            let ghost before = self.block_by_root_requests@;
                            proof {
                                self.block_by_root_requests.lemma_wf_keys();
                            }
                            if self.block_by_root_requests.block_found(&root, peer_id) {
                                proof {
                                    crate::network::block_by_root_requests::lemma_updated_at_get(
                                        before, self.block_by_root_requests@, root,
                                        crate::network::request_attempts::spec_set_found(get(before, root), peer_id));
                                }
                                if let Some(attempt) = self.block_by_root_requests.get(&root) {
                                    actions.push(IndexAction::Work(Work::PersistBlockRequest(root, attempt.duplicate())));
                                }
                                actions.push(IndexAction::Work(Work::PersistAllGoodPeers));
                            }
                        },
                        None => {
                            self.block_by_root_requests.increment_not_found(&root);
                        },
                    }
                }
            },
            _ => {},
        }
        actions
    }
}

/// The block states of a received block: each slot after the latest
/// indexed one up to the block's slot missed, then the block proposed.
pub fn new_blocks(block: BeaconBlock, latest_slot: Option<Slot>) -> (states: Vec<BlockState>)
    requires
        latest_slot != Some(u64::MAX),
    ensures
        states@ == new_block_states(spec_start_slot(latest_slot), block),
{
    let previous = match latest_slot {
        Some(s) => s + 1,
        None => 0,
    };
    let slot = block.slot;
    let mut states: Vec<BlockState> = Vec::new();
    let mut s = previous;
    while s < slot
        invariant
            s >= previous,
            s <= slot || s == previous,
            states@ =~= Seq::new((s - previous) as nat, |i: int| BlockState::Missed((previous + i) as Slot)),
        decreases slot - s,
    {
        states.push(BlockState::Missed(s));
        s = s + 1;
    }
    states.push(BlockState::Proposed(block));
    assert(states@ =~= new_block_states(previous, block));
    states
}

/// Appends a `ProcessBlock` action for each block state, in order.
pub fn push_process(actions: &mut Vec<IndexAction>, states: Vec<BlockState>)
    ensures
        final(actions)@ == old(actions)@ + states@.map_values(|b: BlockState| IndexAction::ProcessBlock(b)),
{
    let mut r = crate::network::workers::block_range_request_worker::into_reversed(states);
    let ghost orig = states@;
    let ghost base = actions@;
    while r.len() > 0
        invariant
            r@.len() <= orig.len(),
            r@ == orig.skip(orig.len() - r@.len()).reverse(),
            actions@ == base + orig.take(orig.len() - r@.len()).map_values(|b: BlockState| IndexAction::ProcessBlock(b)),
        decreases r@.len(),
    {
        let ghost k = orig.len() - r@.len();
        let b = r.pop().unwrap();
        assert(b == orig[k]);
        actions.push(IndexAction::ProcessBlock(b));
        assert(orig.take(k + 1) =~= orig.take(k).push(orig[k]));
        assert(actions@ =~= base + orig.take(k + 1).map_values(|b: BlockState| IndexAction::ProcessBlock(b)));
        assert(r@ =~= orig.skip(k + 1).reverse());
    }
    assert(orig.take(orig.len() as int) =~= orig);
}

} // verus!
