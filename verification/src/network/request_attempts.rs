use vstd::prelude::*;

use crate::primitives::{PeerId, Slot};

verus! {

/// Where a request for a block by its root stands.
#[derive(Clone, Copy, Debug, PartialEq, Eq, Structural)]
pub enum BlockByRootRequestState {
    /// No connected peer has been asked yet.
    AwaitingPeer,
    /// Some connected peers have been asked.
    Requesting,
    /// A peer sent the block.
    Found,
}

/// What the indexer remembers of its attempts to get one block by its root.
pub struct RequestAttempts {
    /// The slots the block may be at (every slot of an attestation that voted for it).
    pub possible_slots: Vec<Slot>,
    /// The first peer that sent the block.
    pub found_by: Option<PeerId>,
    pub state: BlockByRootRequestState,
    /// How many peers answered that they do not have the block.
    pub not_found_count: u64,
    /// The connected peers that have been asked.
    pub peers: Vec<PeerId>,
}

/// The mathematical view of request attempts.
pub struct RequestAttemptsView {
    pub possible_slots: Set<Slot>,
    pub found_by: Option<PeerId>,
    pub state: BlockByRootRequestState,
    pub not_found_count: u64,
    pub peers: Set<PeerId>,
}

impl View for RequestAttempts {
    type V = RequestAttemptsView;

    open spec fn view(&self) -> RequestAttemptsView {
        RequestAttemptsView {
            possible_slots: self.possible_slots@.to_set(),
            found_by: self.found_by,
            state: self.state,
            not_found_count: self.not_found_count,
            peers: self.peers@.to_set(),
        }
    }
}

/// Asking one more peer: it joins the asked peers, and a request that was
/// waiting for a peer is now requesting.
pub open spec fn spec_insert_peer(v: RequestAttemptsView, p: PeerId) -> RequestAttemptsView {
    RequestAttemptsView {
        peers: v.peers.insert(p),
        state: if v.state == BlockByRootRequestState::AwaitingPeer {
            BlockByRootRequestState::Requesting
        } else {
            v.state
        },
        ..v
    }
}

/// Losing a peer: it leaves the asked peers, and a request with no asked peer
/// left waits for a peer again.
pub open spec fn spec_remove_peer(v: RequestAttemptsView, p: PeerId) -> RequestAttemptsView {
    RequestAttemptsView {
        peers: v.peers.remove(p),
        state: if v.state == BlockByRootRequestState::Requesting && v.peers.remove(p).len() == 0 {
            BlockByRootRequestState::AwaitingPeer
        } else {
            v.state
        },
        ..v
    }
}

/// Marking the block as found: the first finder is kept.
pub open spec fn spec_set_found(v: RequestAttemptsView, p: PeerId) -> RequestAttemptsView {
    RequestAttemptsView {
        found_by: if v.found_by is None {
            Some(p)
        } else {
            v.found_by
        },
        state: BlockByRootRequestState::Found,
        ..v
    }
}

fn contains_peer(peers: &Vec<PeerId>, p: PeerId) -> (r: Option<usize>)
    ensures
        match r {
            Some(i) => i < peers@.len() && peers@[i as int] == p,
            None => !peers@.contains(p),
        },
{
    let mut i: usize = 0;
    while i < peers.len()
        invariant
            i <= peers@.len(),
            forall|j: int| 0 <= j < i ==> peers@[j] != p,
        decreases peers@.len() - i,
    {
        if peers[i] == p {
            return Some(i);
        }
        i = i + 1;
    }
    None
}

fn contains_slot(slots: &Vec<Slot>, s: Slot) -> (r: bool)
    ensures
        r == slots@.contains(s),
{
    let mut i: usize = 0;
    while i < slots.len()
        invariant
            i <= slots@.len(),
            forall|j: int| 0 <= j < i ==> slots@[j] != s,
        decreases slots@.len() - i,
    {
        if slots[i] == s {
            return true;
        }
        i = i + 1;
    }
    false
}

impl RequestAttempts {
    /// Neither list holds an item twice.
    pub closed spec fn wf(&self) -> bool {
        &&& self.possible_slots@.no_duplicates()
        &&& self.peers@.no_duplicates()
    }

    /// A request as it was stored: its slots, finder, state and count, with no peer asked.
    pub fn restore(
        slots: &Vec<Slot>,
        found_by: Option<PeerId>,
        state: BlockByRootRequestState,
        not_found_count: u64,
    ) -> (a: Self)
        ensures
            a.wf(),
            a@ == (RequestAttemptsView {
                possible_slots: slots@.to_set(),
                found_by,
                state,
                not_found_count,
                peers: Set::empty(),
            }),
    {
        let mut a = Self::awaiting_peer();
        let mut i: usize = 0;
        assert(slots@.take(0).to_set() =~= Set::<Slot>::empty());
        while i < slots.len()
            invariant
                i <= slots@.len(),
                a.wf(),
                a@ == (RequestAttemptsView {
                    possible_slots: slots@.take(i as int).to_set(),
                    found_by: None,
                    state: BlockByRootRequestState::AwaitingPeer,
                    not_found_count: 0,
                    peers: Set::empty(),
                }),
            decreases slots@.len() - i,
        {
            let ghost before = a@.possible_slots;
            a.insert_slot(slots[i]);
            proof {
                let t = slots@.take(i + 1);
                assert(t == slots@.take(i as int).push(slots@[i as int]));
                assert forall|x: Slot| t.to_set().contains(x) <==> before.insert(slots@[i as int]).contains(x) by {
                    if t.contains(x) && x != slots@[i as int] {
                        let k = choose|k: int| 0 <= k < t.len() && t[k] == x;
                        assert(slots@.take(i as int)[k] == x);
                    }
                    if x == slots@[i as int] {
                        assert(t[i as int] == x);
                    }
                    if slots@.take(i as int).contains(x) {
                        let k = choose|k: int| 0 <= k < i && slots@.take(i as int)[k] == x;
                        assert(t[k] == x);
                    }
                }
                assert(t.to_set() =~= before.insert(slots@[i as int]));
            }
            i = i + 1;
        }
        assert(slots@.take(i as int) =~= slots@);
        a.found_by = found_by;
        a.state = state;
        a.not_found_count = not_found_count;
        a
    }

    /// A request that no peer could be asked for yet.
    pub fn awaiting_peer() -> (a: Self)
        ensures
            a.wf(),
            a@.possible_slots == Set::<Slot>::empty(),
            a@.found_by is None,
            a@.state == BlockByRootRequestState::AwaitingPeer,
            a@.not_found_count == 0,
            a@.peers == Set::<PeerId>::empty(),
    {
        let a = RequestAttempts {
            possible_slots: Vec::new(),
            found_by: None,
            state: BlockByRootRequestState::AwaitingPeer,
            not_found_count: 0,
            peers: Vec::new(),
        };
        assert(a@.possible_slots =~= Set::<Slot>::empty());
        assert(a@.peers =~= Set::<PeerId>::empty());
        a
    }

    /// A request sent to the given peers.
    pub fn requesting(peers: Vec<PeerId>) -> (a: Self)
        requires
            peers@.no_duplicates(),
        ensures
            a.wf(),
            a@.possible_slots == Set::<Slot>::empty(),
            a@.found_by is None,
            a@.state == BlockByRootRequestState::Requesting,
            a@.not_found_count == 0,
            a@.peers == peers@.to_set(),
    {
        let a = RequestAttempts {
            possible_slots: Vec::new(),
            found_by: None,
            state: BlockByRootRequestState::Requesting,
            not_found_count: 0,
            peers,
        };
        assert(a@.possible_slots =~= Set::<Slot>::empty());
        a
    }

    /// Adds a peer to the asked peers; tells whether it was not asked before.
    pub fn insert_peer(&mut self, p: &PeerId) -> (inserted: bool)
        requires
            old(self).wf(),
        ensures
            final(self).wf(),
            inserted == !old(self)@.peers.contains(*p),
            final(self)@ == spec_insert_peer(old(self)@, *p),
            final(self)@.peers.contains(*p),
            old(self)@.state != BlockByRootRequestState::Found ==> final(self)@.state == BlockByRootRequestState::Requesting,
            old(self)@.state == BlockByRootRequestState::Found ==> final(self)@.state == BlockByRootRequestState::Found,
    {
        proof {
            lemma_insert_peer_requests(old(self)@, *p);
        }
        let found = contains_peer(&self.peers, *p);
        proof {
            if found is None {
                assert(!old(self)@.peers.contains(*p));
            } else {
                assert(old(self)@.peers.contains(*p));
            }
        }
        if found.is_none() {
            self.peers.push(*p);
            assert(self.peers@.to_set() =~= old(self).peers@.to_set().insert(*p)) by {
                assert forall|x: PeerId| self.peers@.to_set().contains(x) <==> old(self).peers@.to_set().insert(*p).contains(x) by {
                    if x == *p {
                        assert(self.peers@[self.peers@.len() - 1] == x);
                    } else if old(self).peers@.contains(x) {
                        let k = choose|k: int| 0 <= k < old(self).peers@.len() && old(self).peers@[k] == x;
                        assert(self.peers@[k] == x);
                    }
                }
            }
        } else {
            assert(old(self).peers@.to_set().insert(*p) =~= old(self).peers@.to_set());
        }
        if self.state == BlockByRootRequestState::AwaitingPeer {
            self.state = BlockByRootRequestState::Requesting;
        }
        found.is_none()
    }

    /// Removes a peer from the asked peers.
    pub fn remove_peer(&mut self, p: &PeerId)
        requires
            old(self).wf(),
        ensures
            final(self).wf(),
            final(self)@ == spec_remove_peer(old(self)@, *p),
    {
        let found = contains_peer(&self.peers, *p);
        match found {
            Some(i) => {
                self.peers.remove(i);
                assert(self.peers@.to_set() =~= old(self).peers@.to_set().remove(*p)) by {
                    assert forall|x: PeerId| self.peers@.to_set().contains(x) <==> old(self).peers@.to_set().remove(*p).contains(x) by {
                        if self.peers@.contains(x) {
                            let k = choose|k: int| 0 <= k < self.peers@.len() && self.peers@[k] == x;
                            if k < i {
                                assert(old(self).peers@[k] == x);
                            } else {
                                assert(old(self).peers@[k + 1] == x);
                            }
                        }
                        if x != *p && old(self).peers@.contains(x) {
                            let k = choose|k: int| 0 <= k < old(self).peers@.len() && old(self).peers@[k] == x;
                            assert(k != i);
                            if k < i {
                                assert(self.peers@[k] == x);
                            } else {
                                assert(self.peers@[k - 1] == x);
                            }
                        }
                    }
                }
                assert(self.peers@.no_duplicates()) by {
                    assert forall|a: int, b: int| 0 <= a < b < self.peers@.len() implies self.peers@[a] != self.peers@[b] by {
                        let oa = if a < i { a } else { a + 1 };
                        let ob = if b < i { b } else { b + 1 };
                        assert(self.peers@[a] == old(self).peers@[oa]);
                        assert(self.peers@[b] == old(self).peers@[ob]);
                    }
                }
            },
            None => {
                assert(old(self).peers@.to_set().remove(*p) =~= old(self).peers@.to_set());
            },
        }
        proof {
            self.peers@.unique_seq_to_set();
        }
        if self.state == BlockByRootRequestState::Requesting && self.peers.len() == 0 {
            self.state = BlockByRootRequestState::AwaitingPeer;
        }
    }

    /// Adds a slot the block may be at.
    pub fn insert_slot(&mut self, s: Slot)
        requires
            old(self).wf(),
        ensures
            final(self).wf(),
            final(self)@ == (RequestAttemptsView {
                possible_slots: old(self)@.possible_slots.insert(s),
                ..old(self)@
            }),
    {
        if !contains_slot(&self.possible_slots, s) {
            self.possible_slots.push(s);
            assert(self.possible_slots@.to_set() =~= old(self).possible_slots@.to_set().insert(s)) by {
                assert forall|x: Slot| self.possible_slots@.to_set().contains(x) <==> old(self).possible_slots@.to_set().insert(s).contains(x) by {
                    if x == s {
                        assert(self.possible_slots@[self.possible_slots@.len() - 1] == x);
                    } else if old(self).possible_slots@.contains(x) {
                        let k = choose|k: int| 0 <= k < old(self).possible_slots@.len() && old(self).possible_slots@[k] == x;
                        assert(self.possible_slots@[k] == x);
                    }
                }
            }
        } else {
            assert(old(self).possible_slots@.to_set().insert(s) =~= old(self).possible_slots@.to_set());
        }
    }

    /// Marks the block as found, keeping the first finder.
    pub fn set_found(&mut self, p: PeerId)
        requires
            old(self).wf(),
        ensures
            final(self).wf(),
            final(self)@ == spec_set_found(old(self)@, p),
    {
        if self.found_by.is_none() {
            self.found_by = Some(p);
        }
        self.state = BlockByRootRequestState::Found;
    }

    /// Counts one more peer that does not have the block.
    pub fn increment_not_found(&mut self)
        requires
            old(self).wf(),
            old(self).not_found_count < u64::MAX,
        ensures
            final(self).wf(),
            final(self)@ == (RequestAttemptsView {
                not_found_count: (old(self)@.not_found_count + 1) as u64,
                ..old(self)@
            }),
    {
        self.not_found_count = self.not_found_count + 1;
    }

    /// A copy of the attempts.
    pub fn duplicate(&self) -> (r: Self)
        requires
            self.wf(),
        ensures
            r.wf(),
            r@ == self@,
    {
        let slots = self.possible_slots.clone();
        let peers = self.peers.clone();
        assert(slots@ =~= self.possible_slots@);
        assert(peers@ =~= self.peers@);
        RequestAttempts {
            possible_slots: slots,
            found_by: self.found_by,
            state: self.state,
            not_found_count: self.not_found_count,
            peers,
        }
    }
}

} // verus!

verus! {

/// Whether a request's state agrees with its asked peers: one whose block is not found yet
/// waits for a peer exactly when no peer has been asked.
pub open spec fn state_follows_peers(v: RequestAttemptsView) -> bool {
    v.state != BlockByRootRequestState::Found ==> (v.state == BlockByRootRequestState::AwaitingPeer
        <==> v.peers == Set::<PeerId>::empty())
}

/// Asking one more peer: the peer is among the asked peers, those asked before stay asked,
/// a request whose block is not found yet is now requesting (it no longer waits for a
/// peer), a found one stays found, and the slots, finder and count are kept.
pub proof fn lemma_insert_peer_requests(v: RequestAttemptsView, p: PeerId)
    ensures
        spec_insert_peer(v, p).peers.contains(p),
        v.peers.subset_of(spec_insert_peer(v, p).peers),
        spec_insert_peer(v, p).peers.remove(p) == v.peers.remove(p),
        v.state != BlockByRootRequestState::Found ==> spec_insert_peer(v, p).state == BlockByRootRequestState::Requesting,
        v.state == BlockByRootRequestState::Found ==> spec_insert_peer(v, p).state == BlockByRootRequestState::Found,
        spec_insert_peer(v, p).possible_slots == v.possible_slots,
        spec_insert_peer(v, p).found_by == v.found_by,
        spec_insert_peer(v, p).not_found_count == v.not_found_count,
{
    assert(spec_insert_peer(v, p).peers.remove(p) =~= v.peers.remove(p));
}

/// The state keeps agreeing with the asked peers: asking a peer, losing one and marking the
/// block found all keep the agreement.
pub proof fn lemma_state_follows_peers(v: RequestAttemptsView, p: PeerId)
    requires
        state_follows_peers(v),
        v.peers.finite(),
    ensures
        state_follows_peers(spec_insert_peer(v, p)),
        state_follows_peers(spec_remove_peer(v, p)),
        state_follows_peers(spec_set_found(v, p)),
{
    assert(spec_insert_peer(v, p).peers.contains(p));
    if v.state == BlockByRootRequestState::Requesting {
        let rest = v.peers.remove(p);
        if rest.len() == 0 {
            assert(rest =~= Set::<PeerId>::empty()) by {
                if exists|x: PeerId| rest.contains(x) {
                    let x = choose|x: PeerId| rest.contains(x);
                    vstd::set::axiom_set_contains_len(rest, x);
                }
            }
        } else {
            assert(rest != Set::<PeerId>::empty()) by {
                broadcast use vstd::set::axiom_set_empty_len;
            }
        }
    }
    if v.state == BlockByRootRequestState::AwaitingPeer {
        assert(v.peers.remove(p) =~= Set::<PeerId>::empty());
    }
}

} // verus!
