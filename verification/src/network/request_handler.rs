use vstd::prelude::*;

use crate::primitives::PeerId;

verus! {

/// Whether the peer is in the list, and where.
fn position(v: &Vec<PeerId>, p: PeerId) -> (r: Option<usize>)
    ensures
        match r {
            Some(i) => i < v@.len() && v@[i as int] == p,
            None => !v@.contains(p),
        },
{
    let mut i: usize = 0;
    while i < v.len()
        invariant
            i <= v@.len(),
            forall|j: int| 0 <= j < i ==> v@[j] != p,
        decreases v@.len() - i,
    {
        if v[i] == p {
            return Some(i);
        }
        i = i + 1;
    }
    None
}

/// The request channels of the peers: created ones wait until the peer is activated,
/// then their requests are read.
pub struct RequestHandler {
    pending_channels: Vec<PeerId>,
    streams: Vec<PeerId>,
}

/// Why a channel operation was refused.
#[derive(Clone, Copy, Debug, PartialEq, Eq, Structural)]
pub enum ChannelError {
    /// A channel has already been created for this peer.
    AlreadyCreated,
    /// Trying to activate a channel that was not created.
    NotCreated,
}

impl ChannelError {
    /// The message of the error.
    pub fn message(&self) -> (s: String)
        ensures
            s@ == match self {
                ChannelError::AlreadyCreated => "A channel has already been created for this peer"@,
                ChannelError::NotCreated => "Trying to activate a non existant channel"@,
            },
    {
        match self {
            ChannelError::AlreadyCreated => String::from_str("A channel has already been created for this peer"),
            ChannelError::NotCreated => String::from_str("Trying to activate a non existant channel"),
        }
    }
}

impl RequestHandler {
    /// The peers whose channels wait to be activated.
    pub closed spec fn pending(&self) -> Set<PeerId> {
        self.pending_channels@.to_set()
    }

    /// The peers whose channels are read.
    pub closed spec fn active(&self) -> Set<PeerId> {
        self.streams@.to_set()
    }

    pub closed spec fn wf(&self) -> bool {
        &&& self.pending_channels@.no_duplicates()
        &&& self.streams@.no_duplicates()
    }

    pub fn new() -> (h: Self)
        ensures
            h.wf(),
            h.pending() == Set::<PeerId>::empty(),
            h.active() == Set::<PeerId>::empty(),
    {
        let h = RequestHandler { pending_channels: Vec::new(), streams: Vec::new() };
        assert(h.pending() =~= Set::<PeerId>::empty());
        assert(h.active() =~= Set::<PeerId>::empty());
        h
    }

    /// Creates a waiting channel for a peer; refused where the peer has one waiting.
    pub fn create_channel(&mut self, peer_id: PeerId) -> (r: Result<(), ChannelError>)
        requires
            old(self).wf(),
        ensures
            final(self).wf(),
            final(self).active() == old(self).active(),
            old(self).pending().contains(peer_id) <==> r == Err::<(), ChannelError>(ChannelError::AlreadyCreated),
            r is Ok ==> final(self).pending() == old(self).pending().insert(peer_id),
            r is Err ==> final(self).pending() == old(self).pending(),
    {
        match position(&self.pending_channels, peer_id) {
            Some(i) => {
                assert(self.pending_channels@.contains(peer_id));
                Err(ChannelError::AlreadyCreated)
            },
            None => {
                let ghost before = self.pending_channels@;
                self.pending_channels.push(peer_id);
                proof {
                    assert(self.pending_channels@ == before.push(peer_id));
                    assert forall|a: int, b: int| 0 <= a < b < self.pending_channels@.len() implies self.pending_channels@[a] != self.pending_channels@[b] by {
                        if b == before.len() {
                            assert(before.contains(before[a]));
                        }
                    }
                    assert forall|x: PeerId| self.pending().contains(x) <==> old(self).pending().insert(peer_id).contains(x) by {
                        if x != peer_id && self.pending_channels@.contains(x) {
                            let j = choose|j: int| 0 <= j < self.pending_channels@.len() && self.pending_channels@[j] == x;
                            assert(before[j] == x);
                        }
                        if x == peer_id {
                            assert(self.pending_channels@[before.len() as int] == x);
                        }
                        if before.contains(x) {
                            let j = choose|j: int| 0 <= j < before.len() && before[j] == x;
                            assert(self.pending_channels@[j] == x);
                        }
                    }
                    assert(self.pending() =~= old(self).pending().insert(peer_id));
                }
                Ok(())
            },
        }
    }

    /// Drops the waiting channel of a peer, if any.
    pub fn close_channel(&mut self, peer_id: PeerId)
        requires
            old(self).wf(),
        ensures
            final(self).wf(),
            final(self).pending() == old(self).pending().remove(peer_id),
            final(self).active() == old(self).active(),
    {
        match position(&self.pending_channels, peer_id) {
            Some(i) => {
                let ghost before = self.pending_channels@;
                self.pending_channels.remove(i);
                proof {
                    lemma_remove_unique(before, i as int);
                }
            },
            None => {
                assert(self.pending() =~= old(self).pending().remove(peer_id));
            },
        }
    }

    /// Starts reading the waiting channel of a peer; refused where the peer has none.
    pub fn activate(&mut self, peer_id: PeerId) -> (r: Result<(), ChannelError>)
        requires
            old(self).wf(),
        ensures
            final(self).wf(),
            !old(self).pending().contains(peer_id) <==> r == Err::<(), ChannelError>(ChannelError::NotCreated),
            r is Ok ==> final(self).pending() == old(self).pending().remove(peer_id)
                && final(self).active() == old(self).active().insert(peer_id),
            r is Err ==> final(self).pending() == old(self).pending() && final(self).active() == old(self).active(),
    {
        match position(&self.pending_channels, peer_id) {
            None => Err(ChannelError::NotCreated),
            Some(i) => {
                let ghost before = self.pending_channels@;
                self.pending_channels.remove(i);
                proof {
                    lemma_remove_unique(before, i as int);
                    assert(before.contains(peer_id));
                }
                match position(&self.streams, peer_id) {
                    Some(_) => {
                        assert(self.active() =~= old(self).active().insert(peer_id));
                    },
                    None => {
                        let ghost s0 = self.streams@;
                        self.streams.push(peer_id);
                        proof {
                            assert forall|a: int, b: int| 0 <= a < b < self.streams@.len() implies self.streams@[a] != self.streams@[b] by {
                                if b == s0.len() {
                                    assert(s0.contains(s0[a]));
                                }
                            }
                            assert forall|x: PeerId| self.active().contains(x) <==> old(self).active().insert(peer_id).contains(x) by {
                                if x != peer_id && self.streams@.contains(x) {
                                    let j = choose|j: int| 0 <= j < self.streams@.len() && self.streams@[j] == x;
                                    assert(s0[j] == x);
                                }
                                if x == peer_id {
                                    assert(self.streams@[s0.len() as int] == x);
                                }
                                if s0.contains(x) {
                                    let j = choose|j: int| 0 <= j < s0.len() && s0[j] == x;
                                    assert(self.streams@[j] == x);
                                }
                            }
                            assert(self.active() =~= old(self).active().insert(peer_id));
                        }
                    },
                }
                Ok(())
            },
        }
    }
}

/// Removing an element of a list without repeats removes it from the list's set.
proof fn lemma_remove_unique(s: Seq<PeerId>, i: int)
    requires
        0 <= i < s.len(),
        s.no_duplicates(),
    ensures
        s.remove(i).no_duplicates(),
        s.remove(i).to_set() == s.to_set().remove(s[i]),
{
    let r = s.remove(i);
    assert forall|a: int, b: int| 0 <= a < b < r.len() implies r[a] != r[b] by {
        let aa = if a < i { a } else { a + 1 };
        let bb = if b < i { b } else { b + 1 };
        assert(r[a] == s[aa]);
        assert(r[b] == s[bb]);
    }
    assert forall|x: PeerId| r.to_set().contains(x) <==> s.to_set().remove(s[i]).contains(x) by {
        if r.contains(x) {
            let j = choose|j: int| 0 <= j < r.len() && r[j] == x;
            let jj = if j < i { j } else { j + 1 };
            assert(s[jj] == x);
        }
        if s.contains(x) && x != s[i] {
            let j = choose|j: int| 0 <= j < s.len() && s[j] == x;
            assert(j != i);
            let jj = if j < i { j } else { j - 1 };
            assert(r[jj] == x);
        }
    }
    assert(r.to_set() =~= s.to_set().remove(s[i]));
}

} // verus!
