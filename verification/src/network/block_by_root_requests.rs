use vstd::prelude::*;

use crate::network::augmented_network_service::{
    block_by_root_command, is_block_by_root_request, NetworkCommand,
};
use crate::network::request_attempts::{
    spec_insert_peer, spec_remove_peer, spec_set_found, BlockByRootRequestState, RequestAttempts,
    RequestAttemptsView,
};
use crate::assoc::{assoc_map, lemma_assoc_dom, lemma_assoc_push, lemma_assoc_update};
use crate::primitives::{Hash256, PeerId, Slot};

verus! {

/// How a "block not found" answer was taken.
#[derive(Clone, Copy, Debug, PartialEq, Eq, Structural)]
pub enum BlockNotFoundResult {
    /// The block was never asked for.
    NotRequested,
    /// The block is still searched for.
    Searching,
    /// Too many peers lacked the block: the search is given up.
    NotFound,
}

/// The number of "not found" answers after which a search is given up.
pub const MAX_NOT_FOUND: u64 = 9;

/// The requests for blocks by root, one per root, in the order they were made.
pub struct BlockByRootRequests {
    requests: Vec<(Hash256, RequestAttempts)>,
}

pub type RequestsView = Seq<(Hash256, RequestAttemptsView)>;

/// Whether `s` holds a request for `k`.
pub open spec fn has_key(s: RequestsView, k: Hash256) -> bool {
    exists|i: int| 0 <= i < s.len() && #[trigger] s[i].0 == k
}

/// No root is requested twice.
pub open spec fn keys_distinct(s: RequestsView) -> bool {
    forall|i: int, j: int| 0 <= i < s.len() && 0 <= j < s.len() && i != j ==> s[i].0 != s[j].0
}

/// The attempts for `k` (meaningful when `has_key(s, k)`).
pub open spec fn get(s: RequestsView, k: Hash256) -> RequestAttemptsView {
    s[choose|i: int| 0 <= i < s.len() && s[i].0 == k].1
}

/// The number of requests whose block is not found yet.
pub open spec fn pending_count(s: RequestsView) -> nat
    decreases s.len(),
{
    if s.len() == 0 {
        0
    } else {
        pending_count(s.drop_last()) + if s.last().1.state != BlockByRootRequestState::Found {
            1nat
        } else {
            0nat
        }
    }
}

/// A newly connected peer is asked for every pending block it was not asked for yet.
pub open spec fn connect_entry(e: (Hash256, RequestAttemptsView), p: PeerId) -> (Hash256, RequestAttemptsView) {
    if e.1.state != BlockByRootRequestState::Found {
        (e.0, spec_insert_peer(e.1, p))
    } else {
        e
    }
}

/// The roots that a newly connected peer is asked for.
pub open spec fn roots_to_ask(s: RequestsView, p: PeerId) -> Seq<Hash256>
    decreases s.len(),
{
    if s.len() == 0 {
        Seq::empty()
    } else {
        let e = s.last();
        let prev = roots_to_ask(s.drop_last(), p);
        if e.1.state != BlockByRootRequestState::Found && !e.1.peers.contains(p) {
            prev.push(e.0)
        } else {
            prev
        }
    }
}

/// Whether `cmds` asks `p`, in order, for each root of `roots`.
pub open spec fn asks_for_roots(cmds: Seq<NetworkCommand>, p: PeerId, roots: Seq<Hash256>) -> bool {
    &&& cmds.len() == roots.len()
    &&& forall|i: int| 0 <= i < cmds.len() ==> #[trigger] is_block_by_root_request(cmds[i], p, roots[i])
}

/// Whether `cmds` asks, in order, each peer of `peers` for `root`.
pub open spec fn asks_peers(cmds: Seq<NetworkCommand>, peers: Seq<PeerId>, root: Hash256) -> bool {
    &&& cmds.len() == peers.len()
    &&& forall|i: int| 0 <= i < cmds.len() ==> #[trigger] is_block_by_root_request(cmds[i], peers[i], root)
}

/// `t` is `s` with the attempts of key `k` replaced by `f`, the order kept.
pub open spec fn updated_at(s: RequestsView, t: RequestsView, k: Hash256, a: RequestAttemptsView) -> bool {
    &&& t.len() == s.len()
    &&& forall|i: int|
        0 <= i < s.len() ==> #[trigger] t[i] == if s[i].0 == k {
            (k, a)
        } else {
            s[i]
        }
}

/// The peers of a list, each once, in order of first appearance.
pub fn distinct_peers(peers: &Vec<PeerId>) -> (d: Vec<PeerId>)
    ensures
        d@.no_duplicates(),
        d@.to_set() == peers@.to_set(),
{
    let mut d: Vec<PeerId> = Vec::new();
    let mut i: usize = 0;
    while i < peers.len()
        invariant
            i <= peers@.len(),
            d@.no_duplicates(),
            d@.to_set() == peers@.take(i as int).to_set(),
        decreases peers@.len() - i,
    {
        let p = peers[i];
        let mut present = false;
        let mut k: usize = 0;
        while k < d.len()
            invariant
                k <= d@.len(),
                present == (exists|m: int| 0 <= m < k && d@[m] == p),
            decreases d@.len() - k,
        {
            if d[k] == p {
                present = true;
            }
            k = k + 1;
        }
        let ghost d_before = d@;
        if !present {
            d.push(p);
        }
        proof {
            let pre = peers@.take(i as int);
            let pre1 = peers@.take(i as int + 1);
            assert(pre1 =~= pre.push(p));
            assert forall|x: PeerId| #![auto] d@.to_set().contains(x) <==> pre1.to_set().contains(x) by {
                if d@.contains(x) {
                    let m = choose|m: int| 0 <= m < d@.len() && d@[m] == x;
                    if m < d_before.len() {
                        assert(d_before[m] == x);
                        assert(d_before.to_set().contains(x));
                        assert(pre.to_set().contains(x));
                        let n = choose|n: int| 0 <= n < pre.len() && pre[n] == x;
                        assert(pre1[n] == x);
                    } else {
                        assert(x == p);
                        assert(pre1[i as int] == x);
                    }
                }
                if pre1.contains(x) {
                    let n = choose|n: int| 0 <= n < pre1.len() && pre1[n] == x;
                    if n < i {
                        assert(pre[n] == x);
                        assert(pre.to_set().contains(x));
                        assert(d_before.to_set().contains(x));
                        let m = choose|m: int| 0 <= m < d_before.len() && d_before[m] == x;
                        assert(d@[m] == x);
                    } else {
                        assert(x == p);
                        if present {
                            let m = choose|m: int| 0 <= m < d_before.len() && d_before[m] == p;
                            assert(d@[m] == x);
                        } else {
                            assert(d@[d@.len() - 1] == x);
                        }
                    }
                }
            }
            assert(d@.to_set() =~= pre1.to_set());
        }
        i = i + 1;
    }
    assert(peers@.take(i as int) =~= peers@);
    d
}

/// What marking `k` as found by `p` does: the request, when there is one, is
/// marked found (its first finder kept), and the result tells whether it was
/// pending; without a request nothing changes and the result is false.
pub open spec fn spec_found_entry(s: RequestsView, t: RequestsView, k: Hash256, p: PeerId, newly_found: bool) -> bool {
    &&& has_key(s, k) ==> {
        &&& updated_at(s, t, k, spec_set_found(get(s, k), p))
        &&& newly_found == (get(s, k).state != BlockByRootRequestState::Found)
    }
    &&& !has_key(s, k) ==> t == s && !newly_found
}

/// The attempts of a request made at `slot` to `peers`.
pub open spec fn new_request_view(slot: Slot, peers: Seq<PeerId>) -> RequestAttemptsView {
    RequestAttemptsView {
        possible_slots: Set::empty().insert(slot),
        found_by: None,
        state: if peers.len() == 0 {
            BlockByRootRequestState::AwaitingPeer
        } else {
            BlockByRootRequestState::Requesting
        },
        not_found_count: 0,
        peers: peers.to_set(),
    }
}

/// The requests once the block with `root` is asked for at `slot`.
pub open spec fn spec_request_block_by_root(s: RequestsView, slot: Slot, root: Hash256, peers: Seq<PeerId>) -> RequestsView {
    if has_key(s, root) {
        s.map_values(|e: (Hash256, RequestAttemptsView)| if e.0 == root {
            (e.0, RequestAttemptsView { possible_slots: e.1.possible_slots.insert(slot), ..e.1 })
        } else {
            e
        })
    } else {
        s.push((root, new_request_view(slot, peers)))
    }
}

/// The (peer, root) pairs that asking for `root` sends requests for.
pub open spec fn new_asks(s: RequestsView, root: Hash256, peers: Seq<PeerId>) -> Seq<(PeerId, Hash256)> {
    if has_key(s, root) {
        Seq::empty()
    } else {
        peers.map_values(|p: PeerId| (p, root))
    }
}

/// Whether the commands ask, in order, each peer of `asks` for its root.
pub open spec fn commands_ask(cmds: Seq<NetworkCommand>, asks: Seq<(PeerId, Hash256)>) -> bool {
    &&& cmds.len() == asks.len()
    &&& forall|i: int| 0 <= i < cmds.len() ==> #[trigger] is_block_by_root_request(cmds[i], asks[i].0, asks[i].1)
}

/// The requests and the asked (peer, root) pairs after asking for each vote in turn.
pub open spec fn request_all(s: RequestsView, votes: Seq<(Slot, Hash256)>, peers: Seq<PeerId>) -> (RequestsView, Seq<(PeerId, Hash256)>)
    decreases votes.len(),
{
    if votes.len() == 0 {
        (s, Seq::empty())
    } else {
        let prev = request_all(s, votes.drop_last(), peers);
        let v = votes.last();
        (spec_request_block_by_root(prev.0, v.0, v.1, peers), prev.1 + new_asks(prev.0, v.1, peers))
    }
}

/// A request for a block by root, as it is persisted.
pub struct BlockRequestModel {
    pub possible_slots: Vec<Slot>,
    pub state: BlockByRootRequestState,
    pub not_found_count: u64,
    pub found_by: Option<PeerId>,
}

pub struct BlockRequestModelWithId {
    pub id: Hash256,
    pub model: BlockRequestModel,
}

/// Whether a persisted request holds the root and the attempts of an entry.
pub open spec fn model_of(m: BlockRequestModelWithId, e: (Hash256, RequestAttemptsView)) -> bool {
    &&& m.id == e.0
    &&& m.model.possible_slots@.to_set() == e.1.possible_slots
    &&& m.model.state == e.1.state
    &&& m.model.not_found_count == e.1.not_found_count
    &&& m.model.found_by == e.1.found_by
}

/// The attempts that a stored request stands for: its slots, finder, state and count,
/// with no peer asked yet.
pub open spec fn attempts_of_model(m: BlockRequestModel) -> RequestAttemptsView {
    RequestAttemptsView {
        possible_slots: m.possible_slots@.to_set(),
        found_by: m.found_by,
        state: m.state,
        not_found_count: m.not_found_count,
        peers: Set::empty(),
    }
}

/// The (root, attempts) of each stored request, in order.
pub open spec fn restored(ms: Seq<BlockRequestModelWithId>) -> RequestsView
    decreases ms.len(),
{
    if ms.len() == 0 {
        Seq::empty()
    } else {
        restored(ms.drop_last()).push((ms.last().id, attempts_of_model(ms.last().model)))
    }
}

/// The requests with no peer asked.
pub open spec fn without_peers(s: RequestsView) -> RequestsView
    decreases s.len(),
{
    if s.len() == 0 {
        Seq::empty()
    } else {
        without_peers(s.drop_last()).push((s.last().0, RequestAttemptsView { peers: Set::empty(), ..s.last().1 }))
    }
}

/// The requests once a peer connects: it is offered every pending request.
pub open spec fn spec_peer_connected(s: RequestsView, p: PeerId) -> RequestsView {
    s.map_values(|e: (Hash256, RequestAttemptsView)| connect_entry(e, p))
}

/// The requests once a peer disconnects: it is no longer counted as asked.
pub open spec fn spec_peer_disconnected(s: RequestsView, p: PeerId) -> RequestsView {
    s.map_values(|e: (Hash256, RequestAttemptsView)| (e.0, spec_remove_peer(e.1, p)))
}

/// The requests without the one for `k`.
pub open spec fn without_key(s: RequestsView, k: Hash256) -> RequestsView {
    s.filter(|e: (Hash256, RequestAttemptsView)| e.0 != k)
}

/// What a not-found answer for `root` does: without a request nothing changes; otherwise
/// the answer is counted, and once more than `MAX_NOT_FOUND` answers came the request is
/// dropped.
pub open spec fn spec_not_found_step(s: RequestsView, t: RequestsView, root: Hash256, r: BlockNotFoundResult) -> bool {
    &&& !has_key(s, root) ==> t == s && r == BlockNotFoundResult::NotRequested
    &&& has_key(s, root) ==> {
        let a = get(s, root);
        if a.not_found_count + 1 > MAX_NOT_FOUND {
            &&& r == BlockNotFoundResult::NotFound
            &&& t == without_key(s, root)
        } else {
            &&& r == BlockNotFoundResult::Searching
            &&& updated_at(s, t, root, RequestAttemptsView {
                not_found_count: (a.not_found_count + 1) as u64,
                ..a
            })
        }
    }
}

/// The requests once a peer disconnects, for the pending requests only.
pub open spec fn spec_pending_peer_disconnected(s: RequestsView, p: PeerId) -> RequestsView {
    s.map_values(|e: (Hash256, RequestAttemptsView)| if e.1.state != BlockByRootRequestState::Found {
        (e.0, spec_remove_peer(e.1, p))
    } else {
        e
    })
}

impl View for BlockByRootRequests {
    type V = RequestsView;

    closed spec fn view(&self) -> RequestsView {
        self.requests@.map_values(|e: (Hash256, RequestAttempts)| (e.0, e.1@))
    }
}

impl BlockByRootRequests {
    /// Every root is requested once and every attempts record is well formed.
    pub closed spec fn wf(&self) -> bool {
        &&& keys_distinct(self@)
        &&& forall|i: int| 0 <= i < self.requests@.len() ==> #[trigger] self.requests@[i].1.wf()
    }

    pub fn new() -> (r: Self)
        ensures
            r.wf(),
            r@ == Seq::<(Hash256, RequestAttemptsView)>::empty(),
    {
        let r = BlockByRootRequests { requests: Vec::new() };
        assert(r@ =~= Seq::<(Hash256, RequestAttemptsView)>::empty());
        r
    }

    /// The requests as they were stored: one per root, a later record of a root replacing
    /// an earlier one, with no peer asked yet.
    pub fn from_block_requests(block_requests: Vec<BlockRequestModelWithId>) -> (r: Self)
        ensures
            r.wf(),
            assoc_map(r@) == assoc_map(restored(block_requests@)),
    {
        let mut r = BlockByRootRequests::new();
        let ghost all = block_requests@;
        let mut rest = block_requests;
        let ghost mut done: int = 0;
        while rest.len() > 0
            invariant
                0 <= done <= all.len(),
                rest@ == all.subrange(done, all.len() as int),
                r.wf(),
                assoc_map(r@) == assoc_map(restored(all.take(done))),
            decreases rest@.len(),
        {
            let m = rest.remove(0);
            let a = RequestAttempts::restore(
                &m.model.possible_slots,
                m.model.found_by,
                m.model.state,
                m.model.not_found_count,
            );
            let ghost before = r@;
            proof {
                assert(all.take(done + 1).drop_last() =~= all.take(done));
                assert(all.take(done + 1).last() == m);
                assert(restored(all.take(done + 1)) == restored(all.take(done)).push((m.id, a@)));
                lemma_assoc_dom(before, m.id);
            }
            match r.find(&m.id) {
                Some(i) => {
                    proof {
                        r.lemma_get_at(m.id, i as int);
                    }
                    r.swap_attempts(i, a);
                    proof {
                        assert(r@ == before.update(i as int, (before[i as int].0, a@)));
                        lemma_assoc_update(before, i as int, a@);
                        assert(assoc_map(r@) == assoc_map(before).insert(m.id, a@));
                    }
                },
                None => {
                    let ghost reqs = r.requests@;
                    r.requests.push((m.id, a));
                    proof {
                        assert(r@ =~= before.push((m.id, a@)));
                        assert(!assoc_map(before).dom().contains(m.id)) by {
                            if assoc_map(before).dom().contains(m.id) {
                                let k = choose|k: int| 0 <= k < before.len() && #[trigger] before[k].0 == m.id;
                            }
                        }
                        lemma_assoc_push(before, m.id, a@);
                        assert forall|j: int| 0 <= j < r.requests@.len() implies #[trigger] r.requests@[j].1.wf() by {
                            if j < reqs.len() {
                                assert(r.requests@[j] == reqs[j]);
                            }
                        }
                    }
                },
            }
            proof {
                assert(assoc_map(r@) == assoc_map(before).insert(m.id, a@));
                assert(restored(all.take(done + 1)).drop_last() =~= restored(all.take(done)));
                assert(assoc_map(restored(all.take(done + 1))) == assoc_map(restored(all.take(done))).insert(m.id, a@));
                done = done + 1;
                assert(rest@ =~= all.subrange(done, all.len() as int));
            }
        }
        proof {
            assert(all.take(done) =~= all);
        }
        r
    }

    fn find(&self, root: &Hash256) -> (r: Option<usize>)
        ensures
            match r {
                Some(i) => i < self@.len() && self@[i as int].0 == *root,
                None => !has_key(self@, *root),
            },
    {
        let mut i: usize = 0;
        while i < self.requests.len()
            invariant
                i <= self.requests@.len(),
                self@.len() == self.requests@.len(),
                forall|j: int| 0 <= j < i ==> #[trigger] self@[j].0 != *root,
            decreases self.requests@.len() - i,
        {
            assert(self@[i as int].0 == self.requests@[i as int].0);
            if self.requests[i].0 == *root {
                return Some(i);
            }
            i = i + 1;
        }
        None
    }

    /// The number of requests whose block is not found yet.
    pub fn count(&self) -> (n: usize)
        ensures
            n == pending_count(self@),
            n == self@.filter(not_found_yet()).len(),
    {
        proof {
            lemma_count_is_pending(self@);
        }
        let mut n: usize = 0;
        let mut i: usize = 0;
        while i < self.requests.len()
            invariant
                i <= self.requests@.len(),
                self@.len() == self.requests@.len(),
                n == pending_count(self@.take(i as int)),
                n <= i,
            decreases self.requests@.len() - i,
        {
            assert(self@.take(i as int + 1).drop_last() =~= self@.take(i as int));
            if self.requests[i].1.state != BlockByRootRequestState::Found {
                n = n + 1;
            }
            i = i + 1;
        }
        assert(self@.take(i as int) =~= self@);
        n
    }

    /// Whether the block with this root is requested.
    pub fn request_exists(&self, root: &Hash256) -> (b: bool)
        ensures
            b == has_key(self@, *root),
    {
        self.find(root).is_some()
    }

    /// The attempts for a root, if it is requested.
    pub fn get(&self, root: &Hash256) -> (a: Option<&RequestAttempts>)
        requires
            self.wf(),
        ensures
            match a {
                Some(x) => has_key(self@, *root) && x@ == get(self@, *root) && x.wf(),
                None => !has_key(self@, *root),
            },
    {
        match self.find(root) {
            Some(i) => {
                proof {
                    self.lemma_get_at(*root, i as int);
                }
                Some(&self.requests[i].1)
            },
            None => None,
        }
    }

    proof fn lemma_get_at(&self, k: Hash256, i: int)
        requires
            self.wf(),
            0 <= i < self@.len(),
            self@[i].0 == k,
        ensures
            has_key(self@, k),
            get(self@, k) == self@[i].1,
            self@[i].1 == self.requests@[i].1@,
            self.requests@[i].1.wf(),
    {
        let j = choose|j: int| 0 <= j < self@.len() && self@[j].0 == k;
        assert(j == i);
    }

    /// A connected peer is asked for every block not found yet that it was not
    /// asked for; the commands to send come back in the order of the requests.
    pub fn peer_connected(&mut self, peer_id: &PeerId) -> (cmds: Vec<NetworkCommand>)
        requires
            old(self).wf(),
        ensures
            final(self).wf(),
            final(self)@ == spec_peer_connected(old(self)@, *peer_id),
            asks_for_roots(cmds@, *peer_id, roots_to_ask(old(self)@, *peer_id)),
            forall|i: int|
                0 <= i < old(self)@.len() && old(self)@[i].1.state != BlockByRootRequestState::Found ==> {
                    &&& (#[trigger] final(self)@[i]).1.peers.contains(*peer_id)
                    &&& final(self)@[i].1.state == BlockByRootRequestState::Requesting
                },
            forall|r: Hash256|
                #[trigger] roots_to_ask(old(self)@, *peer_id).contains(r) <==> exists|i: int|
                    unasked_pending_at(old(self)@, i, r, *peer_id),
    {
        proof {
            lemma_peer_connected_asks_every_pending(old(self)@, *peer_id);
        }
        let roots = self.offer_peer(peer_id);
        let mut cmds: Vec<NetworkCommand> = Vec::new();
        let mut i: usize = 0;
        while i < roots.len()
            invariant
                i <= roots@.len(),
                asks_for_roots(cmds@, *peer_id, roots@.take(i as int)),
            decreases roots@.len() - i,
        {
            cmds.push(block_by_root_command(*peer_id, roots[i]));
            i = i + 1;
        }
        assert(roots@.take(i as int) =~= roots@);
        cmds
    }

    /// Offers a connected peer every pending request it was not asked for;
    /// the roots it is to be asked for come back in order.
    pub fn offer_peer(&mut self, peer_id: &PeerId) -> (roots: Vec<Hash256>)
        requires
            old(self).wf(),
        ensures
            final(self).wf(),
            final(self)@ == spec_peer_connected(old(self)@, *peer_id),
            roots@ == roots_to_ask(old(self)@, *peer_id),
    {
        let mut roots: Vec<Hash256> = Vec::new();
        let mut i: usize = 0;
        let ghost old_view = self@;
        while i < self.requests.len()
            invariant
                i <= self.requests@.len(),
                self@.len() == old_view.len(),
                keys_distinct(old_view),
                forall|j: int| 0 <= j < self.requests@.len() ==> #[trigger] self.requests@[j].1.wf(),
                forall|j: int| 0 <= j < i ==> #[trigger] self@[j] == connect_entry(old_view[j], *peer_id),
                forall|j: int| i <= j < self@.len() ==> #[trigger] self@[j] == old_view[j],
                roots@ == roots_to_ask(old_view.take(i as int), *peer_id),
            decreases self.requests@.len() - i,
        {
            let ghost before = self.requests@;
            let ghost before_view = self@;
            assert(old_view.take(i as int + 1).drop_last() =~= old_view.take(i as int));
            assert(self@[i as int] == old_view[i as int]);
            assert(old_view[i as int] == (before[i as int].0, before[i as int].1@));
            let root = self.requests[i].0;
            if self.requests[i].1.state != BlockByRootRequestState::Found {
                let mut entry = self.requests.remove(i);
                let inserted = entry.1.insert_peer(peer_id);
                self.requests.insert(i, entry);
                if inserted {
                    roots.push(root);
                }
                assert(self.requests@ =~= before.update(i as int, self.requests@[i as int]));
            }
            assert forall|j: int| 0 <= j < self.requests@.len() implies #[trigger] self.requests@[j].1.wf() by {
                if j != i {
                    assert(self.requests@[j] == before[j]);
                }
            }
            assert forall|j: int| 0 <= j < i + 1 implies #[trigger] self@[j] == connect_entry(old_view[j], *peer_id) by {
                assert(self@[j] == (self.requests@[j].0, self.requests@[j].1@));
                if j < i {
                    assert(self.requests@[j] == before[j]);
                    assert(before_view[j] == (before[j].0, before[j].1@));
                    assert(before_view[j] == connect_entry(old_view[j], *peer_id));
                }
            }
            assert forall|j: int| i + 1 <= j < self@.len() implies #[trigger] self@[j] == old_view[j] by {
                assert(self.requests@[j] == before[j]);
                assert(before_view[j] == old_view[j]);
                assert(self@[j] == (self.requests@[j].0, self.requests@[j].1@));
                assert(before_view[j] == (before[j].0, before[j].1@));
            }
            i = i + 1;
        }
        assert(old_view.take(i as int) =~= old_view);
        assert(self@ =~= spec_peer_connected(old_view, *peer_id));
        proof {
            assert(keys_distinct(self@)) by {
                assert forall|a: int, b: int| 0 <= a < self@.len() && 0 <= b < self@.len() && a != b implies self@[a].0 != self@[b].0 by {
                    assert(self@[a].0 == old_view[a].0);
                    assert(self@[b].0 == old_view[b].0);
                }
            }
        }
        roots
    }

    /// Replaces the attempts at position `i`, handing back the former ones.
    fn swap_attempts(&mut self, i: usize, a: RequestAttempts) -> (prev: RequestAttempts)
        requires
            old(self).wf(),
            i < old(self)@.len(),
            a.wf(),
        ensures
            final(self).wf(),
            final(self)@ == old(self)@.update(i as int, (old(self)@[i as int].0, a@)),
            prev@ == old(self)@[i as int].1,
            prev.wf(),
    {
        let ghost before = self.requests@;
        let (root, prev) = self.requests.remove(i);
        self.requests.insert(i, (root, a));
        assert(self.requests@ =~= before.update(i as int, (root, a)));
        assert(self@ =~= old(self)@.update(i as int, (old(self)@[i as int].0, a@)));
        assert(before[i as int].1.wf());
        proof {
            assert forall|j: int| 0 <= j < self.requests@.len() implies #[trigger] self.requests@[j].1.wf() by {
                if j != i {
                    assert(self.requests@[j] == before[j]);
                    assert(old(self).requests@[j].1.wf());
                }
            }
            assert(keys_distinct(self@)) by {
                assert forall|x: int, y: int| 0 <= x < self@.len() && 0 <= y < self@.len() && x != y implies self@[x].0 != self@[y].0 by {
                    assert(self@[x].0 == old(self)@[x].0);
                    assert(self@[y].0 == old(self)@[y].0);
                }
            }
        }
        prev
    }

    /// A disconnected peer is no longer counted as asked, for every request.
    pub fn peer_disconnected(&mut self, peer_id: &PeerId)
        requires
            old(self).wf(),
        ensures
            final(self).wf(),
            final(self)@ == spec_peer_disconnected(old(self)@, *peer_id),
    {
        let ghost old_view = self@;
        let mut i: usize = 0;
        while i < self.requests.len()
            invariant
                self.wf(),
                i <= self@.len(),
                self@.len() == old_view.len(),
                self.requests@.len() == self@.len(),
                forall|j: int| 0 <= j < i ==> #[trigger] self@[j] == (old_view[j].0, spec_remove_peer(old_view[j].1, *peer_id)),
                forall|j: int| i <= j < self@.len() ==> #[trigger] self@[j] == old_view[j],
            decreases self@.len() - i,
        {
            assert(self@[i as int] == old_view[i as int]);
            let mut a = self.swap_attempts(i, RequestAttempts::awaiting_peer());
            a.remove_peer(peer_id);
            self.swap_attempts(i, a);
            i = i + 1;
        }
        assert(self@ =~= spec_peer_disconnected(old_view, *peer_id));
    }

    /// A disconnected peer is no longer counted as asked, for every pending request.
    pub fn pending_peer_disconnected(&mut self, peer_id: &PeerId)
        requires
            old(self).wf(),
        ensures
            final(self).wf(),
            final(self)@ == spec_pending_peer_disconnected(old(self)@, *peer_id),
    {
        let ghost old_view = self@;
        let mut i: usize = 0;
        while i < self.requests.len()
            invariant
                self.wf(),
                i <= self@.len(),
                self@.len() == old_view.len(),
                self.requests@.len() == self@.len(),
                forall|j: int| 0 <= j < i ==> #[trigger] self@[j] == (if old_view[j].1.state != BlockByRootRequestState::Found {
                    (old_view[j].0, spec_remove_peer(old_view[j].1, *peer_id))
                } else {
                    old_view[j]
                }),
                forall|j: int| i <= j < self@.len() ==> #[trigger] self@[j] == old_view[j],
            decreases self@.len() - i,
        {
            assert(self@[i as int] == old_view[i as int]);
            assert(self@[i as int] == (self.requests@[i as int].0, self.requests@[i as int].1@));
            if self.requests[i].1.state != BlockByRootRequestState::Found {
                let mut a = self.swap_attempts(i, RequestAttempts::awaiting_peer());
                a.remove_peer(peer_id);
                self.swap_attempts(i, a);
            }
            i = i + 1;
        }
        assert(self@ =~= spec_pending_peer_disconnected(old_view, *peer_id));
    }

    /// Counts one more "not found" answer for this root (the count stops at
    /// its maximum); the request stays.
    pub fn increment_not_found(&mut self, root: &Hash256)
        requires
            old(self).wf(),
        ensures
            final(self).wf(),
            has_key(old(self)@, *root) && get(old(self)@, *root).not_found_count < u64::MAX ==> updated_at(
                old(self)@,
                final(self)@,
                *root,
                RequestAttemptsView {
                    not_found_count: (get(old(self)@, *root).not_found_count + 1) as u64,
                    ..get(old(self)@, *root)
                },
            ),
            has_key(old(self)@, *root) && get(old(self)@, *root).not_found_count == u64::MAX ==> final(self)@ == old(self)@,
            !has_key(old(self)@, *root) ==> final(self)@ == old(self)@,
    {
        if let Some(i) = self.find(root) {
            proof {
                self.lemma_get_at(*root, i as int);
            }
            if self.requests[i].1.not_found_count < u64::MAX {
                let mut a = self.swap_attempts(i, RequestAttempts::awaiting_peer());
                a.increment_not_found();
                self.swap_attempts(i, a);
                proof {
                    assert(self@ =~= old(self)@.update(i as int, (old(self)@[i as int].0, self@[i as int].1)));
                    self.lemma_update_is_updated_at(old(self)@, i as int, self@);
                }
            }
        }
    }

    /// A well-formed map requests no root twice.
    pub proof fn lemma_wf_keys(&self)
        requires
            self.wf(),
        ensures
            keys_distinct(self@),
    {
    }

    /// A failed request: the peer is no longer counted as asked for this root.
    pub fn failed_request(&mut self, root: &Hash256, peer_id: &PeerId)
        requires
            old(self).wf(),
        ensures
            final(self).wf(),
            has_key(old(self)@, *root) ==> updated_at(old(self)@, final(self)@, *root, spec_remove_peer(get(old(self)@, *root), *peer_id)),
            !has_key(old(self)@, *root) ==> final(self)@ == old(self)@,
    {
        if let Some(i) = self.find(root) {
            proof {
                self.lemma_get_at(*root, i as int);
            }
            let mut a = self.swap_attempts(i, RequestAttempts::awaiting_peer());
            a.remove_peer(peer_id);
            self.swap_attempts(i, a);
            proof {
                assert(self@ =~= old(self)@.update(i as int, (old(self)@[i as int].0, self@[i as int].1)));
                self.lemma_update_is_updated_at(old(self)@, i as int, self@);
            }
        }
    }

    proof fn lemma_update_is_updated_at(&self, s: RequestsView, i: int, t: RequestsView)
        requires
            keys_distinct(s),
            0 <= i < s.len(),
            t == s.update(i, (s[i].0, t[i].1)),
        ensures
            updated_at(s, t, s[i].0, t[i].1),
    {
        assert forall|j: int| 0 <= j < s.len() implies #[trigger] t[j] == if s[j].0 == s[i].0 {
            (s[i].0, t[i].1)
        } else {
            s[j]
        } by {
            if j != i {
                assert(s[j].0 != s[i].0);
            }
        }
    }

    /// The block with this root came from `found_by`: the request is marked
    /// found and its first finder kept. Tells whether the request existed and
    /// was not found before.
    pub fn block_found(&mut self, root: &Hash256, found_by: PeerId) -> (newly_found: bool)
        requires
            old(self).wf(),
        ensures
            final(self).wf(),
            spec_found_entry(old(self)@, final(self)@, *root, found_by, newly_found),
    {
        if let Some(i) = self.find(root) {
            proof {
                self.lemma_get_at(*root, i as int);
            }
            let mut a = self.swap_attempts(i, RequestAttempts::awaiting_peer());
            let was_found = a.state == BlockByRootRequestState::Found;
            a.set_found(found_by);
            self.swap_attempts(i, a);
            proof {
                assert(self@ =~= old(self)@.update(i as int, (old(self)@[i as int].0, self@[i as int].1)));
                self.lemma_update_is_updated_at(old(self)@, i as int, self@);
            }
            !was_found
        } else {
            false
        }
    }

    /// A peer answered that it does not have the block. After more than
    /// `MAX_NOT_FOUND` such answers the request is dropped.
    pub fn block_not_found(&mut self, root: &Hash256) -> (r: BlockNotFoundResult)
        requires
            old(self).wf(),
            has_key(old(self)@, *root) ==> get(old(self)@, *root).not_found_count < u64::MAX,
        ensures
            final(self).wf(),
            spec_not_found_step(old(self)@, final(self)@, *root, r),
    {
        match self.find(root) {
            None => BlockNotFoundResult::NotRequested,
            Some(i) => {
                proof {
                    self.lemma_get_at(*root, i as int);
                }
                let mut a = self.swap_attempts(i, RequestAttempts::awaiting_peer());
                a.increment_not_found();
                if a.not_found_count > MAX_NOT_FOUND {
                    let ghost before = self.requests@;
                    let ghost before_view = self@;
                    assert(self.requests@.len() == self@.len());
                    assert(forall|j: int| 0 <= j < before.len() ==> #[trigger] before[j].1.wf());
                    self.requests.remove(i);
                    proof {
                        self.lemma_remove_is_filter(before_view, i as int, *root);
                        assert(without_key(before_view, *root) == without_key(old(self)@, *root)) by {
                            self.lemma_filter_ignores_value(old(self)@, before_view, i as int, *root);
                        }
                        assert(self@ =~= before_view.remove(i as int));
                        assert forall|j: int| 0 <= j < self.requests@.len() implies #[trigger] self.requests@[j].1.wf() by {
                            if j < i {
                                assert(self.requests@[j] == before[j]);
                                assert(before[j].1.wf());
                            } else {
                                assert(self.requests@[j] == before[j + 1]);
                                assert(before[j + 1].1.wf());
                            }
                        }
                        assert(keys_distinct(self@)) by {
                            assert forall|x: int, y: int| 0 <= x < self@.len() && 0 <= y < self@.len() && x != y implies self@[x].0 != self@[y].0 by {
                                let ox = if x < i { x } else { x + 1 };
                                let oy = if y < i { y } else { y + 1 };
                                assert(self@[x] == before_view[ox]);
                                assert(self@[y] == before_view[oy]);
                            }
                        }
                    }
                    BlockNotFoundResult::NotFound
                } else {
                    self.swap_attempts(i, a);
                    proof {
                        assert(self@ =~= old(self)@.update(i as int, (old(self)@[i as int].0, self@[i as int].1)));
                self.lemma_update_is_updated_at(old(self)@, i as int, self@);
                    }
                    BlockNotFoundResult::Searching
                }
            },
        }
    }

    /// Asks for the block with this root at this slot. A root not requested
    /// yet is asked of every connected good peer (or waits for a peer when
    /// there is none); in every case the slot is added to its possible slots.
    pub fn request_block_by_root(
        &mut self,
        slot: &Slot,
        root: &Hash256,
        connected_good_peers: &Vec<PeerId>,
    ) -> (cmds: Vec<NetworkCommand>)
        requires
            old(self).wf(),
        ensures
            final(self).wf(),
            final(self)@ == spec_request_block_by_root(old(self)@, *slot, *root, connected_good_peers@),
            commands_ask(cmds@, new_asks(old(self)@, *root, connected_good_peers@)),
            has_key(old(self)@, *root) ==> {
                &&& cmds@.len() == 0
                &&& updated_at(old(self)@, final(self)@, *root, RequestAttemptsView {
                    possible_slots: get(old(self)@, *root).possible_slots.insert(*slot),
                    ..get(old(self)@, *root)
                })
            },
            !has_key(old(self)@, *root) ==> {
                &&& asks_peers(cmds@, connected_good_peers@, *root)
                &&& final(self)@ == old(self)@.push((*root, RequestAttemptsView {
                    possible_slots: Set::empty().insert(*slot),
                    found_by: None,
                    state: if connected_good_peers@.len() == 0 {
                        BlockByRootRequestState::AwaitingPeer
                    } else {
                        BlockByRootRequestState::Requesting
                    },
                    not_found_count: 0,
                    peers: connected_good_peers@.to_set(),
                }))
            },
    {
        match self.find(root) {
            Some(i) => {
                proof {
                    self.lemma_get_at(*root, i as int);
                }
                let mut a = self.swap_attempts(i, RequestAttempts::awaiting_peer());
                a.insert_slot(*slot);
                self.swap_attempts(i, a);
                proof {
                    assert(self@ =~= old(self)@.update(i as int, (old(self)@[i as int].0, self@[i as int].1)));
                    self.lemma_update_is_updated_at(old(self)@, i as int, self@);
                    assert(self@ =~= spec_request_block_by_root(old(self)@, *slot, *root, connected_good_peers@));
                }
                Vec::new()
            },
            None => {
                let mut cmds: Vec<NetworkCommand> = Vec::new();
                let mut attempts = if connected_good_peers.len() == 0 {
                    assert(connected_good_peers@.to_set() =~= Set::empty()) by {
                        assert forall|x: PeerId| !connected_good_peers@.to_set().contains(x) by {}
                    }
                    RequestAttempts::awaiting_peer()
                } else {
                    let mut j: usize = 0;
                    while j < connected_good_peers.len()
                        invariant
                            j <= connected_good_peers@.len(),
                            asks_peers(cmds@, connected_good_peers@.take(j as int), *root),
                        decreases connected_good_peers@.len() - j,
                    {
                        cmds.push(block_by_root_command(connected_good_peers[j], *root));
                        j = j + 1;
                    }
                    assert(connected_good_peers@.take(j as int) =~= connected_good_peers@);
                    let distinct = distinct_peers(connected_good_peers);
                    RequestAttempts::requesting(distinct)
                };
                attempts.insert_slot(*slot);
                let ghost before = self.requests@;
                self.requests.push((*root, attempts));
                proof {
                    assert(self@ =~= old(self)@.push((*root, attempts@)));
                    assert(attempts@.possible_slots =~= Set::empty().insert(*slot));
                    assert(cmds@.len() == connected_good_peers@.len());
                    assert(commands_ask(cmds@, new_asks(old(self)@, *root, connected_good_peers@)));
                    assert forall|j: int| 0 <= j < self.requests@.len() implies #[trigger] self.requests@[j].1.wf() by {
                        if j < before.len() {
                            assert(self.requests@[j] == before[j]);
                        }
                    }
                    assert(keys_distinct(self@)) by {
                        assert forall|x: int, y: int| 0 <= x < self@.len() && 0 <= y < self@.len() && x != y implies self@[x].0 != self@[y].0 by {
                            if x < old(self)@.len() && y < old(self)@.len() {
                                assert(self@[x] == old(self)@[x]);
                                assert(self@[y] == old(self)@[y]);
                            } else if x < old(self)@.len() {
                                assert(self@[x] == old(self)@[x]);
                            } else {
                                assert(self@[y] == old(self)@[y]);
                            }
                        }
                    }
                }
                cmds
            },
        }
    }

    /// Asks for the block of each vote in turn; the commands to send come back
    /// in order.
    pub fn request_all(&mut self, votes: &Vec<(Slot, Hash256)>, connected_good_peers: &Vec<PeerId>) -> (cmds: Vec<NetworkCommand>)
        requires
            old(self).wf(),
        ensures
            final(self).wf(),
            final(self)@ == request_all(old(self)@, votes@, connected_good_peers@).0,
            commands_ask(cmds@, request_all(old(self)@, votes@, connected_good_peers@).1),
    {
        let mut cmds: Vec<NetworkCommand> = Vec::new();
        let mut i: usize = 0;
        while i < votes.len()
            invariant
                self.wf(),
                i <= votes@.len(),
                self@ == request_all(old(self)@, votes@.take(i as int), connected_good_peers@).0,
                commands_ask(cmds@, request_all(old(self)@, votes@.take(i as int), connected_good_peers@).1),
            decreases votes@.len() - i,
        {
            assert(votes@.take(i as int + 1).drop_last() =~= votes@.take(i as int));
            let ghost prev_asks = request_all(old(self)@, votes@.take(i as int), connected_good_peers@).1;
            let ghost before = self@;
            let more = self.request_block_by_root(&votes[i].0, &votes[i].1, connected_good_peers);
            let ghost c0 = cmds@;
            let mut more = more;
            cmds.append(&mut more);
            proof {
                let asks = request_all(old(self)@, votes@.take(i as int + 1), connected_good_peers@).1;
                let na = new_asks(before, votes@[i as int].1, connected_good_peers@);
                assert(asks == prev_asks + na);
                assert forall|j: int| 0 <= j < cmds@.len() implies #[trigger] is_block_by_root_request(cmds@[j], asks[j].0, asks[j].1) by {
                    if j < c0.len() {
                        assert(cmds@[j] == c0[j]);
                        assert(asks[j] == prev_asks[j]);
                    } else {
                        assert(asks[j] == na[j - c0.len()]);
                    }
                }
            }
            i = i + 1;
        }
        assert(votes@.take(i as int) =~= votes@);
        cmds
    }

    /// Every request as it is persisted, in order.
    pub fn to_models(&self) -> (models: Vec<BlockRequestModelWithId>)
        ensures
            models@.len() == self@.len(),
            forall|i: int| 0 <= i < models@.len() ==> #[trigger] model_of(models@[i], self@[i]),
    {
        let mut models: Vec<BlockRequestModelWithId> = Vec::new();
        let mut i: usize = 0;
        while i < self.requests.len()
            invariant
                i <= self.requests@.len(),
                self@.len() == self.requests@.len(),
                models@.len() == i,
                forall|j: int| 0 <= j < i ==> #[trigger] model_of(models@[j], self@[j]),
            decreases self.requests@.len() - i,
        {
            let e = &self.requests[i];
            let slots = e.1.possible_slots.clone();
            assert(slots@ =~= e.1.possible_slots@);
            models.push(
                BlockRequestModelWithId {
                    id: e.0,
                    model: BlockRequestModel {
                        possible_slots: slots,
                        state: e.1.state,
                        not_found_count: e.1.not_found_count,
                        found_by: e.1.found_by,
                    },
                },
            );
            assert(self@[i as int] == (e.0, e.1@));
            assert(model_of(models@[i as int], self@[i as int]));
            i = i + 1;
        }
        models
    }

    proof fn lemma_filter_ignores_value(&self, s: RequestsView, t: RequestsView, i: int, k: Hash256)
        requires
            0 <= i < s.len(),
            s[i].0 == k,
            t == s.update(i, (k, t[i].1)),
        ensures
            without_key(t, k) == without_key(s, k),
        decreases s.len(),
    {
        let f = |e: (Hash256, RequestAttemptsView)| e.0 != k;
        reveal(Seq::filter);
        if i == s.len() - 1 {
            assert(t.drop_last() =~= s.drop_last());
        } else {
            assert(t.drop_last() =~= s.drop_last().update(i, (k, t[i].1)));
            self.lemma_filter_ignores_value(s.drop_last(), t.drop_last(), i, k);
            assert(t.last() == s.last());
        }
    }

    proof fn lemma_remove_is_filter(&self, s: RequestsView, i: int, k: Hash256)
        requires
            keys_distinct(s),
            0 <= i < s.len(),
            s[i].0 == k,
        ensures
            s.remove(i) == without_key(s, k),
        decreases s.len(),
    {
        let f = |e: (Hash256, RequestAttemptsView)| e.0 != k;
        reveal(Seq::filter);
        if i == s.len() - 1 {
            assert(s.remove(i) =~= s.drop_last());
            lemma_filter_all(s.drop_last(), k);
        } else {
            let d = s.drop_last();
            assert(keys_distinct(d));
            self.lemma_remove_is_filter(d, i, k);
            assert(s.remove(i) =~= d.remove(i).push(s.last()));
            assert(s.last().0 != k);
        }
    }
}

/// Filtering out a key that no entry has keeps every entry.
pub proof fn lemma_filter_all(s: RequestsView, k: Hash256)
    requires
        forall|j: int| 0 <= j < s.len() ==> #[trigger] s[j].0 != k,
    ensures
        without_key(s, k) == s,
    decreases s.len(),
{
    reveal(Seq::filter);
    if s.len() > 0 {
        lemma_filter_all(s.drop_last(), k);
        assert(s.drop_last().push(s.last()) =~= s);
    }
}

} // verus!

verus! {

/// After an update in place, the key is still requested, with the new attempts.
pub proof fn lemma_updated_at_get(s: RequestsView, t: RequestsView, k: Hash256, a: RequestAttemptsView)
    requires
        keys_distinct(s),
        has_key(s, k),
        updated_at(s, t, k, a),
    ensures
        has_key(t, k),
        get(t, k) == a,
        keys_distinct(t),
{
    let i = choose|i: int| 0 <= i < s.len() && #[trigger] s[i].0 == k;
    assert(t[i] == (k, a));
    assert(keys_distinct(t)) by {
        assert forall|x: int, y: int| 0 <= x < t.len() && 0 <= y < t.len() && x != y implies t[x].0 != t[y].0 by {
            assert(t[x].0 == s[x].0);
            assert(t[y].0 == s[y].0);
        }
    }
    let j = choose|j: int| 0 <= j < t.len() && t[j].0 == k;
    assert(j == i);
}

} // verus!

verus! {

/// Once the block with a root is asked for, a request for that root exists.
pub proof fn lemma_requested_root_exists(s: RequestsView, slot: Slot, root: Hash256, peers: Seq<PeerId>)
    ensures
        has_key(spec_request_block_by_root(s, slot, root, peers), root),
{
    let t = spec_request_block_by_root(s, slot, root, peers);
    if has_key(s, root) {
        let i = choose|i: int| 0 <= i < s.len() && #[trigger] s[i].0 == root;
        assert(t[i].0 == root);
    } else {
        assert(t[s.len() as int].0 == root);
    }
}

/// A block is newly found at most once: marking a root found a second time (by any
/// peer) reports that it was not pending any more.
pub proof fn lemma_found_once(
    s: RequestsView,
    t: RequestsView,
    u: RequestsView,
    root: Hash256,
    first_finder: PeerId,
    second_finder: PeerId,
    first: bool,
    second: bool,
)
    requires
        keys_distinct(s),
        spec_found_entry(s, t, root, first_finder, first),
        spec_found_entry(t, u, root, second_finder, second),
    ensures
        !second,
        has_key(s, root) ==> get(u, root).found_by == get(t, root).found_by,
{
    if has_key(s, root) {
        lemma_updated_at_get(s, t, root, spec_set_found(get(s, root), first_finder));
        lemma_updated_at_get(t, u, root, spec_set_found(get(t, root), second_finder));
    }
}

/// Dropping a key leaves no entry with it.
pub proof fn lemma_without_key_lacks(s: RequestsView, k: Hash256)
    ensures
        !has_key(without_key(s, k), k),
{
    let t = without_key(s, k);
    assert forall|i: int| 0 <= i < t.len() implies #[trigger] t[i].0 != k by {
        s.filter_lemma(|e: (Hash256, RequestAttemptsView)| e.0 != k);
        assert(t.contains(t[i]));
    }
}

/// A request that nobody has is given up: starting from a request with no not-found
/// answer, the answer `MAX_NOT_FOUND + 1` times in a row drops it, the earlier ones
/// keeping it with their count.
pub proof fn lemma_not_found_drops(states: Seq<RequestsView>, results: Seq<BlockNotFoundResult>, root: Hash256)
    requires
        states.len() == MAX_NOT_FOUND + 2,
        results.len() == MAX_NOT_FOUND + 1,
        keys_distinct(states[0]),
        has_key(states[0], root),
        get(states[0], root).not_found_count == 0,
        forall|i: int| 0 <= i < results.len() ==> spec_not_found_step(states[i], states[i + 1], root, #[trigger] results[i]),
    ensures
        forall|i: int| 0 <= i < MAX_NOT_FOUND ==> #[trigger] results[i] == BlockNotFoundResult::Searching,
        results[MAX_NOT_FOUND as int] == BlockNotFoundResult::NotFound,
        !has_key(states[MAX_NOT_FOUND + 1], root),
{
    lemma_not_found_counts(states, results, root, MAX_NOT_FOUND as int);
    assert(spec_not_found_step(states[MAX_NOT_FOUND as int], states[MAX_NOT_FOUND + 1], root, results[MAX_NOT_FOUND as int]));
    lemma_without_key_lacks(states[MAX_NOT_FOUND as int], root);
    assert forall|i: int| 0 <= i < MAX_NOT_FOUND implies #[trigger] results[i] == BlockNotFoundResult::Searching by {
        lemma_not_found_counts(states, results, root, i);
        assert(spec_not_found_step(states[i], states[i + 1], root, results[i]));
    }
}

/// Along the answers, the request stays with one more count per answer.
proof fn lemma_not_found_counts(states: Seq<RequestsView>, results: Seq<BlockNotFoundResult>, root: Hash256, n: int)
    requires
        states.len() == MAX_NOT_FOUND + 2,
        results.len() == MAX_NOT_FOUND + 1,
        keys_distinct(states[0]),
        has_key(states[0], root),
        get(states[0], root).not_found_count == 0,
        forall|i: int| 0 <= i < results.len() ==> spec_not_found_step(states[i], states[i + 1], root, #[trigger] results[i]),
        0 <= n <= MAX_NOT_FOUND,
    ensures
        keys_distinct(states[n]),
        has_key(states[n], root),
        get(states[n], root).not_found_count == n,
    decreases n,
{
    if n > 0 {
        lemma_not_found_counts(states, results, root, n - 1);
        assert(spec_not_found_step(states[n - 1], states[n], root, results[n - 1]));
        let a = get(states[n - 1], root);
        lemma_updated_at_get(states[n - 1], states[n], root, RequestAttemptsView {
            not_found_count: (a.not_found_count + 1) as u64,
            ..a
        });
    }
}

/// Storing the requests and reading them back gives the same requests, by root, except
/// that no peer counts as asked any more.
pub proof fn lemma_store_restore(s: RequestsView, models: Seq<BlockRequestModelWithId>)
    requires
        models.len() == s.len(),
        forall|i: int| 0 <= i < models.len() ==> #[trigger] model_of(models[i], s[i]),
    ensures
        restored(models) == without_peers(s),
    decreases s.len(),
{
    if s.len() > 0 {
        let n = s.len() - 1;
        assert forall|i: int| 0 <= i < n implies #[trigger] model_of(models.drop_last()[i], s.drop_last()[i]) by {
            assert(model_of(models[i], s[i]));
        }
        lemma_store_restore(s.drop_last(), models.drop_last());
        assert(model_of(models[n], s[n]));
        assert(attempts_of_model(models.last().model) == RequestAttemptsView { peers: Set::empty(), ..s.last().1 });
    }
}

} // verus!

verus! {

/// Whether the request at `i` of `s` is for `r`, its block is not found yet, and `p` has
/// not been asked for it.
pub open spec fn unasked_pending_at(s: RequestsView, i: int, r: Hash256, p: PeerId) -> bool {
    &&& 0 <= i < s.len()
    &&& s[i].0 == r
    &&& s[i].1.state != BlockByRootRequestState::Found
    &&& !s[i].1.peers.contains(p)
}

/// A newly connected peer is offered every request whose block is not found yet, whatever
/// it waits for: each such request keeps its root, slots, finder and count, now has the
/// peer among its asked peers and is requesting; a found request is left as it was. The
/// peer is asked exactly for the roots of the pending requests it had not been asked for.
pub proof fn lemma_peer_connected_asks_every_pending(s: RequestsView, p: PeerId)
    ensures
        spec_peer_connected(s, p).len() == s.len(),
        forall|i: int|
            0 <= i < s.len() ==> {
                let e = s[i];
                let f = #[trigger] spec_peer_connected(s, p)[i];
                &&& f.0 == e.0
                &&& f.1.possible_slots == e.1.possible_slots
                &&& f.1.found_by == e.1.found_by
                &&& f.1.not_found_count == e.1.not_found_count
                &&& e.1.state != BlockByRootRequestState::Found ==> {
                    &&& f.1.peers == e.1.peers.insert(p)
                    &&& f.1.state == BlockByRootRequestState::Requesting
                }
                &&& e.1.state == BlockByRootRequestState::Found ==> f.1 == e.1
            },
        forall|r: Hash256|
            #[trigger] roots_to_ask(s, p).contains(r) <==> exists|i: int| unasked_pending_at(s, i, r, p),
    decreases s.len(),
{
    if s.len() > 0 {
        let q = s.drop_last();
        lemma_peer_connected_asks_every_pending(q, p);
        let e = s.last();
        let n = s.len() - 1;
        let rq = roots_to_ask(q, p);
        assert forall|r: Hash256| #[trigger] roots_to_ask(s, p).contains(r) implies exists|i: int| unasked_pending_at(s, i, r, p) by {
            let j = choose|j: int| 0 <= j < roots_to_ask(s, p).len() && roots_to_ask(s, p)[j] == r;
            if j < rq.len() {
                assert(rq[j] == r);
                assert(rq.contains(r));
                let i = choose|i: int| unasked_pending_at(q, i, r, p);
                assert(q[i] == s[i]);
                assert(unasked_pending_at(s, i, r, p));
            } else {
                assert(e.1.state != BlockByRootRequestState::Found && !e.1.peers.contains(p));
                assert(r == e.0);
                assert(unasked_pending_at(s, n, r, p));
            }
        }
        assert forall|r: Hash256| (exists|i: int| unasked_pending_at(s, i, r, p)) implies #[trigger] roots_to_ask(s, p).contains(r) by {
            let i = choose|i: int| unasked_pending_at(s, i, r, p);
            if i < n {
                assert(q[i] == s[i]);
                assert(unasked_pending_at(q, i, r, p));
                assert(rq.contains(r));
                let j = choose|j: int| 0 <= j < rq.len() && rq[j] == r;
                assert(roots_to_ask(s, p)[j] == r);
            } else {
                assert(roots_to_ask(s, p) == rq.push(e.0));
                assert(roots_to_ask(s, p)[rq.len() as int] == r);
            }
        }
    }
}

/// A new request agrees with its asked peers: asked of no peer it waits for one, asked of
/// some it is requesting from exactly them.
pub proof fn lemma_new_request_follows_peers(slot: Slot, peers: Seq<PeerId>)
    ensures
        crate::network::request_attempts::state_follows_peers(new_request_view(slot, peers)),
        new_request_view(slot, peers).peers == peers.to_set(),
        new_request_view(slot, peers).possible_slots == Set::<Slot>::empty().insert(slot),
{
    if peers.len() == 0 {
        assert(peers.to_set() =~= Set::<PeerId>::empty());
    } else {
        assert(peers.to_set().contains(peers[0]));
    }
}

/// Whether a request's block is not found yet.
pub open spec fn not_found_yet() -> spec_fn((Hash256, RequestAttemptsView)) -> bool {
    |e: (Hash256, RequestAttemptsView)| e.1.state != BlockByRootRequestState::Found
}

/// The requests counted are exactly those whose block is not found yet: the count is the
/// number of requests not found, so requests all found count nothing.
pub proof fn lemma_count_is_pending(s: RequestsView)
    ensures
        pending_count(s) == s.filter(not_found_yet()).len(),
        (forall|i: int| 0 <= i < s.len() ==> #[trigger] s[i].1.state == BlockByRootRequestState::Found) ==> pending_count(s) == 0,
    decreases s.len(),
{
    reveal(Seq::filter);
    if s.len() > 0 {
        lemma_count_is_pending(s.drop_last());
        assert(s.filter(not_found_yet()) == (if not_found_yet()(s.last()) {
            s.drop_last().filter(not_found_yet()).push(s.last())
        } else {
            s.drop_last().filter(not_found_yet())
        }));
        if forall|i: int| 0 <= i < s.len() ==> #[trigger] s[i].1.state == BlockByRootRequestState::Found {
            assert forall|i: int| 0 <= i < s.drop_last().len() implies #[trigger] s.drop_last()[i].1.state == BlockByRootRequestState::Found by {
                assert(s[i].1.state == BlockByRootRequestState::Found);
            }
            assert(s[s.len() - 1].1.state == BlockByRootRequestState::Found);
        }
    }
}

/// Marking the block of a pending request found lowers the count by one; marking that of
/// a found request, or of a root not requested, leaves it.
pub proof fn lemma_found_lowers_count(s: RequestsView, t: RequestsView, k: Hash256, p: PeerId, newly_found: bool)
    requires
        keys_distinct(s),
        spec_found_entry(s, t, k, p, newly_found),
    ensures
        pending_count(t) == if newly_found { pending_count(s) - 1 } else { pending_count(s) as int },
    decreases s.len(),
{
    if has_key(s, k) {
        let i = choose|i: int| 0 <= i < s.len() && #[trigger] s[i].0 == k;
        assert(get(s, k) == s[i].1);
        lemma_count_update_at(s, t, i);
    }
}

/// Changing one request's state alone changes the count by what its pending-ness changed.
proof fn lemma_count_update_at(s: RequestsView, t: RequestsView, i: int)
    requires
        0 <= i < s.len(),
        t.len() == s.len(),
        forall|j: int| 0 <= j < s.len() && j != i ==> #[trigger] t[j] == s[j],
    ensures
        pending_count(t) == pending_count(s) - (if s[i].1.state != BlockByRootRequestState::Found { 1int } else { 0 })
            + (if t[i].1.state != BlockByRootRequestState::Found { 1int } else { 0 }),
    decreases s.len(),
{
    if i < s.len() - 1 {
        lemma_count_update_at(s.drop_last(), t.drop_last(), i);
        assert(t.last() == s.last());
    } else {
        assert(t.drop_last() =~= s.drop_last());
    }
}

} // verus!
