use vstd::prelude::*;

use crate::network::augmented_network_service::Request;
use crate::network::event::{LighthouseNetworkEvent, Response};
use crate::primitives::{Hash256, PeerId};

verus! {

/// Whether two requests ask for the same thing.
pub open spec fn same_request(a: Request, b: Request) -> bool {
    match a {
        Request::BlocksByRange { start_slot, count } => b matches Request::BlocksByRange {
            start_slot: s2,
            count: c2,
        } && start_slot == s2 && count == c2,
        Request::BlocksByRoot { block_roots } => b matches Request::BlocksByRoot { block_roots: r2 }
            && block_roots@ == r2@,
    }
}

/// A copy of a request.
pub fn copy_request(r: &Request) -> (c: Request)
    ensures
        same_request(*r, c),
{
    match r {
        Request::BlocksByRange { start_slot, count } => Request::BlocksByRange {
            start_slot: *start_slot,
            count: *count,
        },
        Request::BlocksByRoot { block_roots } => {
            let mut roots: Vec<Hash256> = Vec::new();
            let mut i: usize = 0;
            while i < block_roots.len()
                invariant
                    i <= block_roots@.len(),
                    roots@ == block_roots@.take(i as int),
                decreases block_roots@.len() - i,
            {
                roots.push(block_roots[i]);
                proof {
                    assert(block_roots@.take(i + 1) =~= block_roots@.take(i as int).push(block_roots@[i as int]));
                }
                i = i + 1;
            }
            assert(block_roots@.take(i as int) =~= block_roots@);
            Request::BlocksByRoot { block_roots: roots }
        },
    }
}

/// A request with what became of it: the id and peer it was last sent with, if it is in
/// flight, and the peers that failed it.
pub struct RequestHistory {
    pub id: Option<(usize, PeerId)>,
    pub request: Request,
    pub not_found_on: Vec<PeerId>,
}

/// A request sent to a peer under an id.
pub struct SendAction {
    pub peer_id: PeerId,
    pub request_id: usize,
    pub request: Request,
}

impl RequestHistory {
    /// A request not sent yet, failed by no peer.
    pub fn from_request(request: Request) -> (h: Self)
        ensures
            h.id is None,
            h.request == request,
            h.not_found_on@.len() == 0,
    {
        RequestHistory { id: None, request, not_found_on: Vec::new() }
    }

    /// Whether the request is in flight under this id.
    pub fn eq(&self, request_id: usize) -> (b: bool)
        ensures
            b == (self.id matches Some((rid, _)) && rid == request_id),
    {
        match self.id {
            Some((rid, _)) => rid == request_id,
            None => false,
        }
    }

    /// Whether the request is in flight to this peer.
    pub fn is_sent_to(&self, peer_id: PeerId) -> (b: bool)
        ensures
            b == (self.id matches Some((_, p)) && p == peer_id),
    {
        match self.id {
            Some((_, p)) => p == peer_id,
            None => false,
        }
    }

    /// Whether the request waits to be sent.
    pub fn is_pending(&self) -> (b: bool)
        ensures
            b == self.id is None,
    {
        self.id.is_none()
    }

    /// Makes the request wait to be sent again.
    pub fn reset_id(&mut self)
        ensures
            final(self).id is None,
            final(self).request == old(self).request,
            final(self).not_found_on@ == old(self).not_found_on@,
    {
        self.id = None;
    }

    /// The id and peer of the request in flight; where there is none, the request is put
    /// in flight to `peer_id` under the next id.
    pub fn get_or_insert_id(&mut self, next_request_id: &mut usize, peer_id: PeerId) -> (r: (usize, PeerId))
        requires
            *old(next_request_id) < usize::MAX,
        ensures
            final(self).request == old(self).request,
            final(self).not_found_on@ == old(self).not_found_on@,
            final(self).id == Some(r),
            match old(self).id {
                Some(x) => r == x && *final(next_request_id) == *old(next_request_id),
                None => r == (*old(next_request_id), peer_id) && *final(next_request_id)
                    == *old(next_request_id) + 1,
            },
    {
        match self.id {
            Some(x) => x,
            None => {
                let x = (*next_request_id, peer_id);
                *next_request_id = *next_request_id + 1;
                self.id = Some(x);
                x
            },
        }
    }

    /// Puts the request in flight to `peer_id` under the next id, and gives that id and a
    /// copy of the request.
    pub fn as_request_with_id(&mut self, id: &mut usize, peer_id: PeerId) -> (r: (usize, Request))
        requires
            *old(id) < usize::MAX,
        ensures
            final(self).id == Some((*old(id), peer_id)),
            *final(id) == *old(id) + 1,
            r.0 == *old(id),
            same_request(old(self).request, r.1),
            final(self).request == old(self).request,
            final(self).not_found_on@ == old(self).not_found_on@,
    {
        let request_id = *id;
        self.id = Some((request_id, peer_id));
        *id = *id + 1;
        (request_id, copy_request(&self.request))
    }

    /// Whether the peer failed the request.
    pub fn was_not_found_on(&self, peer_id: &PeerId) -> (b: bool)
        ensures
            b == self.not_found_on@.contains(*peer_id),
    {
        let mut i: usize = 0;
        while i < self.not_found_on.len()
            invariant
                i <= self.not_found_on@.len(),
                forall|j: int| 0 <= j < i ==> self.not_found_on@[j] != *peer_id,
            decreases self.not_found_on@.len() - i,
        {
            if self.not_found_on[i] == *peer_id {
                return true;
            }
            i = i + 1;
        }
        false
    }

    /// Records that the peer the request is in flight to failed it, and makes the request
    /// wait to be sent again.
    pub fn mark_as_failed(&mut self)
        ensures
            final(self).id is None,
            final(self).request == old(self).request,
            final(self).not_found_on@ == match old(self).id {
                Some((_, p)) => old(self).not_found_on@.push(p),
                None => old(self).not_found_on@,
            },
    {
        if let Some((_, p)) = self.id {
            self.not_found_on.push(p);
        }
        self.id = None;
    }
}

/// The first peer that has not failed the request, if any.
pub open spec fn first_candidate(best_peers: Seq<PeerId>, failed: Seq<PeerId>) -> Option<PeerId>
    decreases best_peers.len(),
{
    if best_peers.len() == 0 {
        None
    } else if !failed.contains(best_peers[0]) {
        Some(best_peers[0])
    } else {
        first_candidate(best_peers.drop_first(), failed)
    }
}

/// Sends a request to the best connected peer (peers best first) that has not failed it:
/// under the id it is in flight with, or else the next id. With no such peer, the request
/// waits to be sent again.
pub fn send_request(
    history: &mut RequestHistory,
    next_request_id: &mut usize,
    best_peers: &Vec<PeerId>,
) -> (action: Option<SendAction>)
    requires
        *old(next_request_id) < usize::MAX,
    ensures
        final(history).request == old(history).request,
        final(history).not_found_on@ == old(history).not_found_on@,
        match first_candidate(best_peers@, old(history).not_found_on@) {
            None => {
                &&& action is None
                &&& final(history).id is None
                &&& *final(next_request_id) == *old(next_request_id)
            },
            Some(peer) => action matches Some(a) && {
                &&& a.peer_id == peer
                &&& same_request(old(history).request, a.request)
                &&& final(history).id matches Some((rid, _)) && a.request_id == rid
                &&& match old(history).id {
                    Some(x) => final(history).id == Some(x) && *final(next_request_id)
                        == *old(next_request_id),
                    None => final(history).id == Some((*old(next_request_id), peer))
                        && *final(next_request_id) == *old(next_request_id) + 1,
                }
            },
        },
{
    let mut i: usize = 0;
    let mut chosen: Option<PeerId> = None;
    assert(best_peers@.subrange(0, best_peers@.len() as int) =~= best_peers@);
    while i < best_peers.len() && chosen.is_none()
        invariant
            i <= best_peers@.len(),
            match chosen {
                None => first_candidate(best_peers@, history.not_found_on@) == first_candidate(
                    best_peers@.subrange(i as int, best_peers@.len() as int),
                    history.not_found_on@,
                ),
                Some(p) => first_candidate(best_peers@, history.not_found_on@) == Some(p),
            },
        decreases best_peers@.len() - i,
    {
        let p = best_peers[i];
        proof {
            let rest = best_peers@.subrange(i as int, best_peers@.len() as int);
            assert(rest[0] == p);
            assert(rest.drop_first() =~= best_peers@.subrange(i + 1, best_peers@.len() as int));
        }
        if !history.was_not_found_on(&p) {
            chosen = Some(p);
        }
        i = i + 1;
    }
    proof {
        if chosen is None {
            assert(best_peers@.subrange(i as int, best_peers@.len() as int).len() == 0);
        }
    }
    match chosen {
        Some(peer_id) => {
            let (request_id, _) = history.get_or_insert_id(next_request_id, peer_id);
            let request = copy_request(&history.request);
            Some(SendAction { peer_id, request_id, request })
        },
        None => {
            history.reset_id();
            None
        },
    }
}

/// Whether a request is in flight under this id.
pub open spec fn in_flight_as(r: RequestHistory, request_id: usize) -> bool {
    r.id matches Some((x, _)) && x == request_id
}

/// The requests, without those in flight under this id.
pub open spec fn without_id(s: Seq<RequestHistory>, request_id: usize) -> Seq<RequestHistory>
    decreases s.len(),
{
    if s.len() == 0 {
        Seq::empty()
    } else if in_flight_as(s.last(), request_id) {
        without_id(s.drop_last(), request_id)
    } else {
        without_id(s.drop_last(), request_id).push(s.last())
    }
}

/// The id a request is in flight under.
pub open spec fn in_flight_id(r: RequestHistory) -> usize {
    match r.id {
        Some((rid, _)) => rid,
        None => 0,
    }
}

/// The peer a request is in flight to.
pub open spec fn in_flight_peer(r: RequestHistory) -> PeerId {
    match r.id {
        Some((_, p)) => p,
        None => PeerId { id: 0 },
    }
}

/// Whether the request ids in flight are below `next` and belong to one request each.
pub open spec fn ids_fresh(requests: Seq<RequestHistory>, next: usize) -> bool {
    &&& forall|i: int|
        0 <= i < requests.len() ==> ((#[trigger] requests[i]).id matches Some((rid, _)) ==> rid < next)
    &&& forall|i: int, j: int|
        0 <= i < requests.len() && 0 <= j < requests.len() && i != j && (#[trigger] requests[i]).id is Some
            && (#[trigger] requests[j]).id is Some ==> in_flight_id(requests[i]) != in_flight_id(requests[j])
}

/// The requests waiting for their responses.
pub struct ActiveRequests {
    requests: Vec<RequestHistory>,
}

impl View for ActiveRequests {
    type V = Seq<RequestHistory>;

    closed spec fn view(&self) -> Seq<RequestHistory> {
        self.requests@
    }
}

impl ActiveRequests {
    pub fn new() -> (a: Self)
        ensures
            a@.len() == 0,
    {
        ActiveRequests { requests: Vec::new() }
    }

    /// The position of the request in flight under this id.
    pub fn find_by_request_id(&self, request_id: usize) -> (r: Option<usize>)
        ensures
            match r {
                Some(i) => i < self@.len() && in_flight_as(self@[i as int], request_id)
                    && forall|j: int| 0 <= j < i ==> !in_flight_as(#[trigger] self@[j], request_id),
                None => forall|j: int| 0 <= j < self@.len() ==> !in_flight_as(#[trigger] self@[j], request_id),
            },
    {
        let mut i: usize = 0;
        while i < self.requests.len()
            invariant
                i <= self@.len(),
                forall|j: int| 0 <= j < i ==> !in_flight_as(#[trigger] self@[j], request_id),
            decreases self@.len() - i,
        {
            if self.requests[i].eq(request_id) {
                return Some(i);
            }
            i = i + 1;
        }
        None
    }

    pub fn push(&mut self, request_history: RequestHistory)
        ensures
            final(self)@ == old(self)@.push(request_history),
    {
        self.requests.push(request_history);
    }

    /// Drops the requests in flight under this id.
    pub fn remove(&mut self, request_id: usize)
        ensures
            final(self)@ == without_id(old(self)@, request_id),
    {
        let mut kept: Vec<RequestHistory> = Vec::new();
        let mut rest = Vec::new();
        std::mem::swap(&mut rest, &mut self.requests);
        let ghost all = rest@;
        let ghost mut done: int = 0;
        while rest.len() > 0
            invariant
                0 <= done <= all.len(),
                rest@ == all.subrange(done, all.len() as int),
                kept@ == without_id(all.take(done), request_id),
            decreases rest@.len(),
        {
            let r = rest.remove(0);
            proof {
                assert(all.take(done + 1).drop_last() =~= all.take(done));
                assert(all.take(done + 1).last() == r);
            }
            if !r.eq(request_id) {
                kept.push(r);
            }
            proof {
                done = done + 1;
                assert(rest@ =~= all.subrange(done, all.len() as int));
            }
        }
        proof {
            assert(all.take(done) =~= all);
        }
        self.requests = kept;
    }

    /// The request at a position.
    pub fn get(&self, i: usize) -> (r: &RequestHistory)
        requires
            i < self@.len(),
        ensures
            *r == self@[i as int],
    {
        &self.requests[i]
    }

    pub fn len(&self) -> (n: usize)
        ensures
            n == self@.len(),
    {
        self.requests.len()
    }
}

/// How many of the requests wait to be sent.
pub open spec fn pending_count(s: Seq<RequestHistory>) -> nat
    decreases s.len(),
{
    if s.len() == 0 {
        0
    } else {
        pending_count(s.drop_last()) + if s.last().id is None { 1nat } else { 0nat }
    }
}

/// A request is never sent to a peer that failed it: the peer it goes to is one of the
/// best peers, and not one of those that failed it.
pub proof fn lemma_first_candidate(best_peers: Seq<PeerId>, failed: Seq<PeerId>)
    ensures
        first_candidate(best_peers, failed) matches Some(p) ==> best_peers.contains(p) && !failed.contains(p),
    decreases best_peers.len(),
{
    if best_peers.len() > 0 {
        lemma_first_candidate(best_peers.drop_first(), failed);
        if first_candidate(best_peers, failed) is Some && failed.contains(best_peers[0]) {
            let p = first_candidate(best_peers, failed)->0;
            let j = choose|j: int| 0 <= j < best_peers.drop_first().len() && best_peers.drop_first()[j] == p;
            assert(best_peers[j + 1] == p);
        }
    }
}

/// Sends requests, resends them when they fail, and hands back their responses.
pub struct RequestManager {
    next_request_id: usize,
    active_requests: ActiveRequests,
}

impl RequestManager {
    /// The requests waiting for their responses.
    pub closed spec fn requests(&self) -> Seq<RequestHistory> {
        self.active_requests@
    }

    /// The id that the next request put in flight gets.
    pub closed spec fn next_id(&self) -> usize {
        self.next_request_id
    }

    /// Request ids in flight are below the next id, one request each.
    pub closed spec fn wf(&self) -> bool {
        ids_fresh(self.requests(), self.next_id())
    }

    /// Whether ids are left for every request and one more.
    pub open spec fn has_room(&self) -> bool {
        self.next_id() + self.requests().len() < usize::MAX
    }

    pub fn new() -> (m: Self)
        ensures
            m.wf(),
            m.requests().len() == 0,
            m.next_id() == 0,
    {
        RequestManager { next_request_id: 0, active_requests: ActiveRequests::new() }
    }

    /// Sends a new request to the first of the best peers, and keeps it until its response
    /// comes; with no peer it waits to be sent.
    pub fn send_request(&mut self, request: Request, best_peers: &Vec<PeerId>) -> (action: Option<SendAction>)
        requires
            old(self).wf(),
            old(self).has_room(),
        ensures
            final(self).wf(),
            final(self).requests().len() == old(self).requests().len() + 1,
            final(self).requests().take(old(self).requests().len() as int) == old(self).requests(),
            final(self).requests().last().request == request,
            final(self).requests().last().not_found_on@.len() == 0,
            if best_peers@.len() == 0 {
                &&& action is None
                &&& final(self).requests().last().id is None
                &&& final(self).next_id() == old(self).next_id()
            } else {
                &&& action matches Some(a) && a.peer_id == best_peers@[0] && a.request_id == old(self).next_id()
                    && same_request(request, a.request)
                &&& final(self).requests().last().id == Some((old(self).next_id(), best_peers@[0]))
                &&& final(self).next_id() == old(self).next_id() + 1
            },
    {
        let mut history = RequestHistory::from_request(request);
        proof {
            if best_peers@.len() > 0 {
                assert(!history.not_found_on@.contains(best_peers@[0]));
            }
        }
        let action = send_request(&mut history, &mut self.next_request_id, best_peers);
        let ghost before = self.active_requests@;
        self.active_requests.push(history);
        proof {
            assert(self.requests().take(before.len() as int) =~= before);
            assert forall|i: int| 0 <= i < self.requests().len() implies ((#[trigger] self.requests()[i]).id matches Some((rid, _)) ==> rid < self.next_id()) by {
                if i < before.len() {
                    assert(self.requests()[i] == before[i]);
                }
            }
            assert forall|i: int, j: int|
                0 <= i < self.requests().len() && 0 <= j < self.requests().len() && i != j && (#[trigger] self.requests()[i]).id is Some
                    && (#[trigger] self.requests()[j]).id is Some implies in_flight_id(self.requests()[i]) != in_flight_id(self.requests()[j]) by {
                if i < before.len() {
                    assert(self.requests()[i] == before[i]);
                }
                if j < before.len() {
                    assert(self.requests()[j] == before[j]);
                }
            }
        }
        action
    }

    /// Resends the request in flight under this id, to the best peer that has not failed
    /// it, after recording its peer as failing it.
    pub fn retry_request(&mut self, request_id: usize, best_peers: &Vec<PeerId>) -> (action: Option<SendAction>)
        requires
            old(self).wf(),
            old(self).has_room(),
        ensures
            final(self).wf(),
            final(self).requests().len() == old(self).requests().len(),
            (forall|j: int| 0 <= j < old(self).requests().len() ==> !in_flight_as(#[trigger] old(self).requests()[j], request_id))
                ==> {
                &&& action is None
                &&& final(self).requests() == old(self).requests()
                &&& final(self).next_id() == old(self).next_id()
            },
            forall|k: int|
                0 <= k < old(self).requests().len() && in_flight_as(#[trigger] old(self).requests()[k], request_id) ==> {
                    let h = old(self).requests()[k];
                    let h2 = final(self).requests()[k];
                    &&& h2.request == h.request
                    &&& h2.not_found_on@ == h.not_found_on@.push(in_flight_peer(h))
                    &&& forall|j: int| 0 <= j < old(self).requests().len() && j != k ==> final(self).requests()[j] == old(self).requests()[j]
                    &&& match first_candidate(best_peers@, h2.not_found_on@) {
                        None => action is None && h2.id is None && final(self).next_id() == old(self).next_id(),
                        Some(peer) => action matches Some(a) && a.peer_id == peer && a.request_id == old(self).next_id()
                            && same_request(h.request, a.request) && h2.id == Some((old(self).next_id(), peer))
                            && final(self).next_id() == old(self).next_id() + 1,
                    }
                },
    {
        match self.active_requests.find_by_request_id(request_id) {
            None => None,
            Some(k) => {
                let ghost before = self.active_requests@;
                let ghost next0 = self.next_request_id;
                let mut history = self.active_requests.requests.remove(k);
                history.mark_as_failed();
                let action = send_request(&mut history, &mut self.next_request_id, best_peers);
                self.active_requests.requests.insert(k, history);
                proof {
                    assert forall|j: int| 0 <= j < before.len() && j != k implies self.requests()[j] == before[j] by {}
                    assert forall|i: int| 0 <= i < self.requests().len() implies ((#[trigger] self.requests()[i]).id matches Some((rid, _)) ==> rid < self.next_id()) by {
                        if i != k {
                            assert(self.requests()[i] == before[i]);
                        }
                    }
                    assert forall|i: int, j: int|
                        0 <= i < self.requests().len() && 0 <= j < self.requests().len() && i != j && (#[trigger] self.requests()[i]).id is Some
                            && (#[trigger] self.requests()[j]).id is Some implies in_flight_id(self.requests()[i]) != in_flight_id(self.requests()[j]) by {
                        if i != k {
                            assert(self.requests()[i] == before[i]);
                        }
                        if j != k {
                            assert(self.requests()[j] == before[j]);
                        }
                    }
                    assert forall|k2: int|
                        0 <= k2 < before.len() && in_flight_as(#[trigger] before[k2], request_id) implies k2 == k by {
                        if k2 != k {
                            assert(in_flight_id(before[k2]) != in_flight_id(before[k as int]));
                        }
                    }
                }
                action
            },
        }
    }

    /// Resends every request in flight to a peer that went away, each to the best peer
    /// that has not failed it, after recording the peer as failing it.
    pub fn retry_requests_by_peer_id(&mut self, peer_id: PeerId, best_peers: &Vec<PeerId>) -> (actions: Vec<SendAction>)
        requires
            old(self).wf(),
            old(self).has_room(),
        ensures
            final(self).wf(),
            final(self).requests().len() == old(self).requests().len(),
            final(self).next_id() <= old(self).next_id() + old(self).requests().len(),
            forall|k: int|
                0 <= k < old(self).requests().len() ==> {
                    let h = #[trigger] old(self).requests()[k];
                    let h2 = final(self).requests()[k];
                    if h.id matches Some((_, p)) && p == peer_id {
                        &&& h2.request == h.request
                        &&& h2.not_found_on@ == h.not_found_on@.push(peer_id)
                        &&& match h2.id {
                            None => first_candidate(best_peers@, h2.not_found_on@) is None,
                            Some((_, q)) => first_candidate(best_peers@, h2.not_found_on@) == Some(q),
                        }
                    } else {
                        h2 == h
                    }
                },
            forall|k: int|
                0 <= k < final(self).requests().len() ==> !(#[trigger] final(self).requests()[k].id matches Some((_, q)) && q == peer_id),
            forall|i: int|
                0 <= i < actions@.len() ==> exists|k: int|
                    0 <= k < final(self).requests().len() && final(self).requests()[k].id == Some(((#[trigger] actions@[i]).request_id, actions@[i].peer_id))
                        && same_request(final(self).requests()[k].request, actions@[i].request),
    {
        let ghost start = self.active_requests@;
        let ghost next0 = self.next_request_id;
        let mut actions: Vec<SendAction> = Vec::new();
        let mut k: usize = 0;
        while k < self.active_requests.requests.len()
            invariant
                ids_fresh(self.requests(), self.next_id()),
                self.requests().len() == start.len(),
                k <= start.len(),
                self.next_id() <= next0 + k,
                next0 + start.len() < usize::MAX,
                forall|j: int|
                    k <= j < start.len() ==> #[trigger] self.requests()[j] == start[j],
                forall|j: int|
                    0 <= j < k ==> {
                        let h = #[trigger] start[j];
                        let h2 = self.requests()[j];
                        if h.id matches Some((_, p)) && p == peer_id {
                            &&& h2.request == h.request
                            &&& h2.not_found_on@ == h.not_found_on@.push(peer_id)
                            &&& match h2.id {
                                None => first_candidate(best_peers@, h2.not_found_on@) is None,
                                Some((_, q)) => first_candidate(best_peers@, h2.not_found_on@) == Some(q),
                            }
                        } else {
                            h2 == h
                        }
                    },
                forall|i: int|
                    0 <= i < actions@.len() ==> exists|j: int|
                        0 <= j < self.requests().len() && self.requests()[j].id == Some(((#[trigger] actions@[i]).request_id, actions@[i].peer_id))
                            && same_request(self.requests()[j].request, actions@[i].request),
                forall|i: int| 0 <= i < actions@.len() ==> (#[trigger] actions@[i]).peer_id != peer_id,
            decreases start.len() - k,
        {
            if self.active_requests.requests[k].is_sent_to(peer_id) {
                let ghost before = self.active_requests@;
                let ghost acts0 = actions@;
                let mut history = self.active_requests.requests.remove(k);
                history.mark_as_failed();
                let ghost marked = history;
                let action = send_request(&mut history, &mut self.next_request_id, best_peers);
                self.active_requests.requests.insert(k, history);
                match action {
                    Some(a) => {
                        actions.push(a);
                    },
                    None => {},
                }
                proof {
                    lemma_first_candidate(best_peers@, marked.not_found_on@);
                    assert(before[k as int] == start[k as int]);
                    assert(marked.not_found_on@.last() == peer_id);
                    assert(marked.not_found_on@.contains(peer_id));
                    assert forall|i: int| 0 <= i < actions@.len() implies (#[trigger] actions@[i]).peer_id != peer_id by {
                        if i < acts0.len() {
                            assert(actions@[i] == acts0[i]);
                        }
                    }
                    assert forall|i: int| 0 <= i < self.requests().len() implies ((#[trigger] self.requests()[i]).id matches Some((rid, _)) ==> rid < self.next_id()) by {
                        if i != k {
                            assert(self.requests()[i] == before[i]);
                        }
                    }
                    assert forall|i: int, j: int|
                        0 <= i < self.requests().len() && 0 <= j < self.requests().len() && i != j && (#[trigger] self.requests()[i]).id is Some
                            && (#[trigger] self.requests()[j]).id is Some implies in_flight_id(self.requests()[i]) != in_flight_id(self.requests()[j]) by {
                        if i != k {
                            assert(self.requests()[i] == before[i]);
                        }
                        if j != k {
                            assert(self.requests()[j] == before[j]);
                        }
                    }
                    assert forall|i: int|
                        0 <= i < actions@.len() implies exists|j: int|
                            0 <= j < self.requests().len() && self.requests()[j].id == Some(((#[trigger] actions@[i]).request_id, actions@[i].peer_id))
                                && same_request(self.requests()[j].request, actions@[i].request) by {
                        if i < acts0.len() {
                            assert(actions@[i] == acts0[i]);
                            let j = choose|j: int|
                                0 <= j < before.len() && before[j].id == Some((acts0[i].request_id, acts0[i].peer_id))
                                    && same_request(before[j].request, acts0[i].request);
                            if j == k {
                                assert(in_flight_id(before[j]) < next0 + k);
                            }
                            assert(j != k) by {
                                if j == k {
                                    assert(before[j] == start[j]);
                                    assert(acts0[i].peer_id != peer_id);
                                }
                            }
                            assert(self.requests()[j] == before[j]);
                        } else {
                            assert(self.requests()[k as int].id == Some((actions@[i].request_id, actions@[i].peer_id)));
                        }
                    }
                    assert forall|j: int| 0 <= j < k + 1 implies {
                        let h = #[trigger] start[j];
                        let h2 = self.requests()[j];
                        if h.id matches Some((_, p)) && p == peer_id {
                            &&& h2.request == h.request
                            &&& h2.not_found_on@ == h.not_found_on@.push(peer_id)
                            &&& match h2.id {
                                None => first_candidate(best_peers@, h2.not_found_on@) is None,
                                Some((_, q)) => first_candidate(best_peers@, h2.not_found_on@) == Some(q),
                            }
                        } else {
                            h2 == h
                        }
                    } by {
                        if j < k {
                            assert(self.requests()[j] == before[j]);
                        }
                    }
                }
            }
            k = k + 1;
        }
        proof {
            assert forall|j: int| 0 <= j < self.requests().len() implies !(#[trigger] self.requests()[j].id matches Some((_, q)) && q == peer_id) by {
                let h = start[j];
                let h2 = self.requests()[j];
                if h.id matches Some((_, p)) && p == peer_id {
                    lemma_first_candidate(best_peers@, h2.not_found_on@);
                    assert(h2.not_found_on@.last() == peer_id);
                    assert(h2.not_found_on@.contains(peer_id));
                }
            }
        }
        actions
    }

    /// Sends every request that waits to a peer that just connected, each under the next
    /// id, in order.
    #[verifier::rlimit(60)]
    #[verifier::spinoff_prover]
    pub fn send_pending_requests(&mut self, peer_id: PeerId) -> (actions: Vec<SendAction>)
        requires
            old(self).wf(),
            old(self).has_room(),
        ensures
            final(self).wf(),
            final(self).requests().len() == old(self).requests().len(),
            final(self).next_id() == old(self).next_id() + pending_count(old(self).requests()),
            actions@.len() == pending_count(old(self).requests()),
            forall|k: int|
                0 <= k < old(self).requests().len() ==> {
                    let h = #[trigger] old(self).requests()[k];
                    let h2 = final(self).requests()[k];
                    let n = pending_count(old(self).requests().take(k));
                    if h.id is None {
                        &&& h2.id == Some(((old(self).next_id() + n) as usize, peer_id))
                        &&& h2.request == h.request
                        &&& h2.not_found_on@ == h.not_found_on@
                        &&& actions@[n as int].peer_id == peer_id
                        &&& actions@[n as int].request_id == old(self).next_id() + n
                        &&& same_request(h.request, actions@[n as int].request)
                    } else {
                        h2 == h
                    }
                },
            forall|k: int| 0 <= k < final(self).requests().len() ==> (#[trigger] final(self).requests()[k]).id is Some,
    {
        let ghost start = self.active_requests@;
        let ghost next0 = self.next_request_id;
        let mut actions: Vec<SendAction> = Vec::new();
        let mut k: usize = 0;
        while k < self.active_requests.requests.len()
            invariant
                ids_fresh(self.requests(), self.next_id()),
                self.requests().len() == start.len(),
                k <= start.len(),
                next0 + start.len() < usize::MAX,
                self.next_id() == next0 + pending_count(start.take(k as int)),
                pending_count(start.take(k as int)) <= k,
                actions@.len() == pending_count(start.take(k as int)),
                forall|i: int| 0 <= i < start.len() ==> ((#[trigger] start[i]).id matches Some((rid, _)) ==> rid < next0),
                forall|j: int| k <= j < start.len() ==> #[trigger] self.requests()[j] == start[j],
                forall|j: int| 0 <= j < k ==> (#[trigger] self.requests()[j]).id is Some,
                forall|j: int|
                    0 <= j < k ==> {
                        let h = #[trigger] start[j];
                        let h2 = self.requests()[j];
                        let n = pending_count(start.take(j));
                        if h.id is None {
                            &&& h2.id == Some(((next0 + n) as usize, peer_id))
                            &&& h2.request == h.request
                            &&& h2.not_found_on@ == h.not_found_on@
                            &&& actions@[n as int].peer_id == peer_id
                            &&& actions@[n as int].request_id == next0 + n
                            &&& same_request(h.request, actions@[n as int].request)
                        } else {
                            h2 == h
                        }
                    },
            decreases start.len() - k,
        {
            let ghost before = self.active_requests@;
            let ghost acts0 = actions@;
            proof {
                assert(start.take(k + 1).drop_last() =~= start.take(k as int));
            }
            if self.active_requests.requests[k].is_pending() {
                let mut history = self.active_requests.requests.remove(k);
                let (request_id, request) = history.as_request_with_id(&mut self.next_request_id, peer_id);
                self.active_requests.requests.insert(k, history);
                actions.push(SendAction { peer_id, request_id, request });
                proof {
                    assert(before[k as int] == start[k as int]);
                    assert forall|i: int| 0 <= i < self.requests().len() implies ((#[trigger] self.requests()[i]).id matches Some((rid, _)) ==> rid < self.next_id()) by {
                        if i != k {
                            assert(self.requests()[i] == before[i]);
                        }
                    }
                    assert forall|i: int, j: int|
                        0 <= i < self.requests().len() && 0 <= j < self.requests().len() && i != j && (#[trigger] self.requests()[i]).id is Some
                            && (#[trigger] self.requests()[j]).id is Some implies in_flight_id(self.requests()[i]) != in_flight_id(self.requests()[j]) by {
                        if i != k {
                            assert(self.requests()[i] == before[i]);
                        }
                        if j != k {
                            assert(self.requests()[j] == before[j]);
                        }
                    }
                    assert forall|j: int| 0 <= j < k + 1 implies {
                        let h = #[trigger] start[j];
                        let h2 = self.requests()[j];
                        let n = pending_count(start.take(j));
                        if h.id is None {
                            &&& h2.id == Some(((next0 + n) as usize, peer_id))
                            &&& h2.request == h.request
                            &&& h2.not_found_on@ == h.not_found_on@
                            &&& actions@[n as int].peer_id == peer_id
                            &&& actions@[n as int].request_id == next0 + n
                            &&& same_request(h.request, actions@[n as int].request)
                        } else {
                            h2 == h
                        }
                    } by {
                        if j < k {
                            assert(self.requests()[j] == before[j]);
                            if start[j].id is None {
                                lemma_pending_count_prefix(start, j, k as int);
                                assert(actions@[pending_count(start.take(j)) as int] == acts0[pending_count(start.take(j)) as int]);
                            }
                        }
                    }
                    assert forall|j: int| 0 <= j < k + 1 implies (#[trigger] self.requests()[j]).id is Some by {
                        if j < k {
                            assert(self.requests()[j] == before[j]);
                        }
                    }
                }
            } else {
                proof {
                    assert forall|j: int| 0 <= j < k + 1 implies (#[trigger] self.requests()[j]).id is Some by {}
                }
            }
            k = k + 1;
        }
        proof {
            assert(start.take(k as int) =~= start);
        }
        actions
    }
}

impl RequestManager {
    /// Handles one event of the network: a peer that connects gets the waiting requests, a
    /// failed request is resent, the requests of a peer that went away are resent, and a
    /// response is handed back once its request is dropped.
    pub fn next_event(
        &mut self,
        event: LighthouseNetworkEvent<usize>,
        best_peers: &Vec<PeerId>,
    ) -> (r: (Vec<SendAction>, Option<Response>))
        requires
            old(self).wf(),
            old(self).has_room(),
        ensures
            final(self).wf(),
            match event {
                LighthouseNetworkEvent::PeerConnectedOutgoing(p) => {
                    &&& r.1 is None
                    &&& r.0@.len() == pending_count(old(self).requests())
                    &&& final(self).requests().len() == old(self).requests().len()
                    &&& final(self).next_id() == old(self).next_id() + pending_count(old(self).requests())
                    &&& forall|k: int| 0 <= k < final(self).requests().len()
                        ==> (#[trigger] final(self).requests()[k]).id is Some
                },
                LighthouseNetworkEvent::RpcFailed { id, .. } => {
                    &&& r.1 is None
                    &&& r.0@.len() <= 1
                    &&& final(self).requests().len() == old(self).requests().len()
                },
                LighthouseNetworkEvent::PeerDisconnected(p) => {
                    &&& r.1 is None
                    &&& final(self).requests().len() == old(self).requests().len()
                    &&& forall|k: int| 0 <= k < final(self).requests().len()
                        ==> !(#[trigger] final(self).requests()[k].id matches Some((_, q)) && q == p)
                },
                LighthouseNetworkEvent::ResponseReceived { id, response, .. } => {
                    &&& r.0@.len() == 0
                    &&& r.1 == Some(response)
                    &&& final(self).next_id() == old(self).next_id()
                    &&& if exists|k: int| 0 <= k < old(self).requests().len() && in_flight_as(#[trigger] old(self).requests()[k], id) {
                        exists|k: int| 0 <= k < old(self).requests().len() && in_flight_as(#[trigger] old(self).requests()[k], id)
                            && final(self).requests() == old(self).requests().remove(k)
                    } else {
                        final(self).requests() == old(self).requests()
                    }
                },
                _ => {
                    &&& r.0@.len() == 0
                    &&& r.1 is None
                    &&& final(self).requests() == old(self).requests()
                    &&& final(self).next_id() == old(self).next_id()
                },
            },
    {
        match event {
            LighthouseNetworkEvent::PeerConnectedOutgoing(p) => (self.send_pending_requests(p), None),
            LighthouseNetworkEvent::RpcFailed { id, .. } => {
                let mut actions = Vec::new();
                match self.retry_request(id, best_peers) {
                    Some(a) => actions.push(a),
                    None => {},
                }
                (actions, None)
            },
            LighthouseNetworkEvent::PeerDisconnected(p) => (self.retry_requests_by_peer_id(p, best_peers), None),
            LighthouseNetworkEvent::ResponseReceived { id, response, .. } => {
                let ghost before = self.active_requests@;
                match self.active_requests.find_by_request_id(id) {
                    Some(k) => {
                        self.active_requests.requests.remove(k);
                        proof {
                            assert(in_flight_as(before[k as int], id));
                            assert forall|i: int| 0 <= i < self.requests().len() implies ((#[trigger] self.requests()[i]).id matches Some((rid, _)) ==> rid < self.next_id()) by {
                                if i < k { assert(self.requests()[i] == before[i]); } else { assert(self.requests()[i] == before[i + 1]); }
                            }
                            assert forall|i: int, j: int|
                                0 <= i < self.requests().len() && 0 <= j < self.requests().len() && i != j && (#[trigger] self.requests()[i]).id is Some
                                    && (#[trigger] self.requests()[j]).id is Some implies in_flight_id(self.requests()[i]) != in_flight_id(self.requests()[j]) by {
                                let ii = if i < k { i } else { i + 1 };
                                let jj = if j < k { j } else { j + 1 };
                                assert(self.requests()[i] == before[ii]);
                                assert(self.requests()[j] == before[jj]);
                            }
                        }
                    },
                    None => {},
                }
                (Vec::new(), Some(response))
            },
            _ => (Vec::new(), None),
        }
    }
}

/// The pending count grows with the prefix.
proof fn lemma_pending_count_prefix(s: Seq<RequestHistory>, j: int, k: int)
    requires
        0 <= j < k <= s.len(),
        s[j].id is None,
    ensures
        pending_count(s.take(j)) < pending_count(s.take(k)),
    decreases k - j,
{
    assert(s.take(k).drop_last() =~= s.take(k - 1));
    if j < k - 1 {
        lemma_pending_count_prefix(s, j, k - 1);
    } else {
        assert(s.take(k).last() == s[j]);
    }
}

} // verus!
