use vstd::prelude::*;

use rand::seq::IteratorRandom;
use vstd::multiset::Multiset;

use crate::assoc::{assoc_map, distinct_keys, keys, lemma_assoc_dom, lemma_assoc_push, lemma_assoc_update};
use crate::primitives::PeerId;

verus! {

/// How many peers are dialled at the start.
pub const PEERS_TO_CONNECT: usize = 10;

/// Calls `choose_multiple` of `rand`'s `IteratorRandom` on the ids with a fresh thread
/// random number generator. Its reservoir keeps at most `amount` elements, each taken
/// from a different position of the input, and keeps `amount` of them unless the input
/// has fewer, in which case it keeps them all. Which ones, and in what order, is left to
/// chance and is not stated.
#[verifier::external_body]
fn choose_peer_ids(ids: &Vec<PeerId>, amount: usize) -> (chosen: Vec<PeerId>)
    requires
        ids@.no_duplicates(),
        amount <= 4096,
    ensures
        chosen@.len() == if amount < ids@.len() { amount as nat } else { ids@.len() },
        chosen@.no_duplicates(),
        forall|i: int| 0 <= i < chosen@.len() ==> ids@.contains(#[trigger] chosen@[i]),
{
    let mut rng = rand::thread_rng();
    ids.iter().copied().choose_multiple(&mut rng, amount)
}

/// The peers known at the start, split into those to dial and the others.
pub struct PeersManager {
    elligible_peers: Vec<(PeerId, String)>,
    connected_peers: Vec<(PeerId, String)>,
}

/// A copy of an entry.
fn copy_entry(e: &(PeerId, String)) -> (c: (PeerId, String))
    ensures
        c == *e,
{
    (e.0, e.1.clone())
}

/// The listening address of each peer, a later entry of a peer replacing an earlier one.
pub fn peer_map(peers: &Vec<(PeerId, String)>) -> (m: Vec<(PeerId, String)>)
    ensures
        distinct_keys(m@),
        assoc_map(m@) == assoc_map(peers@),
{
    let mut m: Vec<(PeerId, String)> = Vec::new();
    let mut i: usize = 0;
    while i < peers.len()
        invariant
            i <= peers@.len(),
            distinct_keys(m@),
            assoc_map(m@) == assoc_map(peers@.take(i as int)),
        decreases peers@.len() - i,
    {
        let e = copy_entry(&peers[i]);
        let ghost before = m@;
        proof {
            assert(peers@.take(i + 1).drop_last() =~= peers@.take(i as int));
            assert(peers@.take(i + 1).last() == e);
            lemma_assoc_dom(before, e.0);
        }
        let mut j: usize = 0;
        let mut found: Option<usize> = None;
        while j < m.len() && found.is_none()
            invariant
                j <= m@.len(),
                m@ == before,
                match found {
                    Some(k) => k < m@.len() && m@[k as int].0 == e.0,
                    None => forall|k: int| 0 <= k < j ==> m@[k].0 != e.0,
                },
            decreases m@.len() - j,
        {
            if m[j].0 == e.0 {
                found = Some(j);
            }
            j = j + 1;
        }
        match found {
            Some(k) => {
                let v = e.1;
                m.set(k, (e.0, v));
                proof {
                    lemma_assoc_update(before, k as int, m@[k as int].1);
                }
            },
            None => {
                m.push(e);
                proof {
                    lemma_assoc_push(before, e.0, e.1);
                }
            },
        }
        i = i + 1;
    }
    assert(peers@.take(i as int) =~= peers@);
    m
}

/// The entries whose key is chosen, in order.
pub open spec fn chosen_part(s: Seq<(PeerId, String)>, chosen: Seq<PeerId>) -> Seq<(PeerId, String)>
    decreases s.len(),
{
    if s.len() == 0 {
        Seq::empty()
    } else if chosen.contains(s.last().0) {
        chosen_part(s.drop_last(), chosen).push(s.last())
    } else {
        chosen_part(s.drop_last(), chosen)
    }
}

/// The entries whose key is not chosen, in order.
pub open spec fn other_part(s: Seq<(PeerId, String)>, chosen: Seq<PeerId>) -> Seq<(PeerId, String)>
    decreases s.len(),
{
    if s.len() == 0 {
        Seq::empty()
    } else if chosen.contains(s.last().0) {
        other_part(s.drop_last(), chosen)
    } else {
        other_part(s.drop_last(), chosen).push(s.last())
    }
}

/// The two parts hold the entries of the list between them.
proof fn lemma_parts_partition(s: Seq<(PeerId, String)>, chosen: Seq<PeerId>)
    ensures
        chosen_part(s, chosen).to_multiset().add(other_part(s, chosen).to_multiset()) == s.to_multiset(),
    decreases s.len(),
{
    broadcast use vstd::multiset::group_multiset_axioms;
    broadcast use vstd::seq_lib::group_to_multiset_ensures;

    if s.len() == 0 {
        assert(chosen_part(s, chosen).to_multiset() =~= Multiset::empty());
        assert(other_part(s, chosen).to_multiset() =~= Multiset::empty());
        assert(s.to_multiset() =~= Multiset::empty());
    } else {
        lemma_parts_partition(s.drop_last(), chosen);
        assert(s == s.drop_last().push(s.last()));
        assert(chosen_part(s, chosen).to_multiset().add(other_part(s, chosen).to_multiset())
            =~= s.to_multiset());
    }
}

/// The parts depend only on which keys of the list are chosen.
proof fn lemma_parts_same_choice(s: Seq<(PeerId, String)>, c1: Seq<PeerId>, c2: Seq<PeerId>)
    requires
        forall|i: int| 0 <= i < s.len() ==> (c1.contains(#[trigger] s[i].0) <==> c2.contains(s[i].0)),
    ensures
        chosen_part(s, c1) == chosen_part(s, c2),
    decreases s.len(),
{
    if s.len() > 0 {
        assert(c1.contains(s[s.len() - 1].0) <==> c2.contains(s[s.len() - 1].0));
        lemma_parts_same_choice(s.drop_last(), c1, c2);
    }
}

/// Where every chosen key (each chosen once) is a key of a list without repeated keys,
/// the chosen part holds one entry per chosen key.
proof fn lemma_chosen_part_len(s: Seq<(PeerId, String)>, chosen: Seq<PeerId>)
    requires
        distinct_keys(s),
        chosen.no_duplicates(),
        forall|i: int| 0 <= i < chosen.len() ==> keys(s).contains(#[trigger] chosen[i]),
    ensures
        chosen_part(s, chosen).len() == chosen.len(),
    decreases s.len(),
{
    if s.len() == 0 {
        if chosen.len() > 0 {
            assert(keys(s).contains(chosen[0]));
        }
    } else {
        let t = s.drop_last();
        let k = s.last().0;
        assert(keys(t) =~= keys(s).drop_last());
        assert forall|a: int, b: int| 0 <= a < t.len() && 0 <= b < t.len() && a != b implies t[a].0 != t[b].0 by {
            assert(t[a] == s[a] && t[b] == s[b]);
        }
        if chosen.contains(k) {
            let p = choose|p: int| 0 <= p < chosen.len() && chosen[p] == k;
            let c2 = chosen.remove(p);
            assert forall|a: int, b: int| 0 <= a < b < c2.len() implies c2[a] != c2[b] by {
                let aa = if a < p { a } else { a + 1 };
                let bb = if b < p { b } else { b + 1 };
                assert(c2[a] == chosen[aa] && c2[b] == chosen[bb]);
            }
            assert forall|i: int| 0 <= i < c2.len() implies keys(t).contains(#[trigger] c2[i]) by {
                let ii = if i < p { i } else { i + 1 };
                assert(c2[i] == chosen[ii]);
                assert(keys(s).contains(chosen[ii]));
                let j = choose|j: int| 0 <= j < keys(s).len() && keys(s)[j] == chosen[ii];
                if j == s.len() - 1 {
                    assert(chosen[ii] == chosen[p]);
                }
                assert(keys(t)[j] == chosen[ii]);
            }
            lemma_chosen_part_len(t, c2);
            assert forall|i: int| 0 <= i < t.len() implies (chosen.contains(#[trigger] t[i].0) <==> c2.contains(t[i].0)) by {
                assert(t[i] == s[i]);
                assert(t[i].0 != k);
                if chosen.contains(t[i].0) {
                    let q = choose|q: int| 0 <= q < chosen.len() && chosen[q] == t[i].0;
                    assert(q != p);
                    let qq = if q < p { q } else { q - 1 };
                    assert(c2[qq] == t[i].0);
                }
                if c2.contains(t[i].0) {
                    let q = choose|q: int| 0 <= q < c2.len() && c2[q] == t[i].0;
                    let qq = if q < p { q } else { q + 1 };
                    assert(chosen[qq] == t[i].0);
                }
            }
            lemma_parts_same_choice(t, chosen, c2);
        } else {
            assert forall|i: int| 0 <= i < chosen.len() implies keys(t).contains(#[trigger] chosen[i]) by {
                assert(keys(s).contains(chosen[i]));
                let j = choose|j: int| 0 <= j < keys(s).len() && keys(s)[j] == chosen[i];
                if j == s.len() - 1 {
                    assert(chosen.contains(k));
                }
                assert(keys(t)[j] == chosen[i]);
            }
            lemma_chosen_part_len(t, chosen);
        }
    }
}

impl PeersManager {
    /// The peers not dialled.
    pub closed spec fn elligible(&self) -> Seq<(PeerId, String)> {
        self.elligible_peers@
    }

    /// The peers dialled.
    pub closed spec fn connected(&self) -> Seq<(PeerId, String)> {
        self.connected_peers@
    }

    /// The peers to dial, with their addresses.
    pub fn connected_peers(&self) -> (r: &Vec<(PeerId, String)>)
        ensures
            r@ == self.connected(),
    {
        &self.connected_peers
    }

    /// The peers not dialled, with their addresses.
    pub fn elligible_peers(&self) -> (r: &Vec<(PeerId, String)>)
        ensures
            r@ == self.elligible(),
    {
        &self.elligible_peers
    }

    /// Splits the peers (each once) into those chosen, to dial, and the others, keeping
    /// their order.
    pub fn from_choice(peers: Vec<(PeerId, String)>, chosen: &Vec<PeerId>) -> (m: Self)
        ensures
            m.connected() == chosen_part(peers@, chosen@),
            m.elligible() == other_part(peers@, chosen@),
    {
        let ghost all = peers@;
        let mut rest = peers;
        let mut connected: Vec<(PeerId, String)> = Vec::new();
        let mut elligible: Vec<(PeerId, String)> = Vec::new();
        let ghost mut done: int = 0;
        while rest.len() > 0
            invariant
                0 <= done <= all.len(),
                rest@ == all.subrange(done, all.len() as int),
                connected@ == chosen_part(all.take(done), chosen@),
                elligible@ == other_part(all.take(done), chosen@),
            decreases rest@.len(),
        {
            let e = rest.remove(0);
            let mut k: usize = 0;
            let mut is_chosen = false;
            while k < chosen.len()
                invariant
                    k <= chosen@.len(),
                    is_chosen <==> exists|j: int| 0 <= j < k && chosen@[j] == e.0,
                decreases chosen@.len() - k,
            {
                if chosen[k] == e.0 {
                    is_chosen = true;
                }
                k = k + 1;
            }
            proof {
                assert(all.take(done + 1).drop_last() =~= all.take(done));
                assert(all.take(done + 1).last() == e);
                if is_chosen {
                    let j = choose|j: int| 0 <= j < k && chosen@[j] == e.0;
                    assert(chosen@.contains(e.0));
                }
            }
            if is_chosen {
                connected.push(e);
            } else {
                elligible.push(e);
            }
            proof {
                done = done + 1;
                assert(rest@ =~= all.subrange(done, all.len() as int));
            }
        }
        proof {
            assert(all.take(done) =~= all);
        }
        PeersManager { elligible_peers: elligible, connected_peers: connected }
    }

    /// The peers known at the start, each with its listening address, split at random
    /// into `PEERS_TO_CONNECT` of them (or all, if fewer), to dial, and the others.
    pub fn new(peers: &Vec<(PeerId, String)>) -> (m: Self)
        ensures
            exists|map: Seq<(PeerId, String)>|
                {
                    &&& distinct_keys(map)
                    &&& #[trigger] assoc_map(map) == assoc_map(peers@)
                    &&& m.connected().to_multiset().add(m.elligible().to_multiset()) == map.to_multiset()
                    &&& m.connected().len() == if PEERS_TO_CONNECT < map.len() {
                        PEERS_TO_CONNECT as nat
                    } else {
                        map.len()
                    }
                },
    {
        let map = peer_map(peers);
        let mut ids: Vec<PeerId> = Vec::new();
        let mut i: usize = 0;
        while i < map.len()
            invariant
                i <= map@.len(),
                ids@ == keys(map@).take(i as int),
            decreases map@.len() - i,
        {
            ids.push(map[i].0);
            proof {
                assert(keys(map@).take(i + 1) =~= keys(map@).take(i as int).push(map@[i as int].0));
            }
            i = i + 1;
        }
        proof {
            assert(keys(map@).take(i as int) =~= keys(map@));
            assert forall|a: int, b: int| 0 <= a < b < ids@.len() implies ids@[a] != ids@[b] by {}
        }
        let chosen = choose_peer_ids(&ids, PEERS_TO_CONNECT);
        let ghost map_view = map@;
        let m = Self::from_choice(map, &chosen);
        proof {
            lemma_parts_partition(map_view, chosen@);
            assert forall|a: int| 0 <= a < chosen@.len() implies keys(map_view).contains(#[trigger] chosen@[a]) by {
                assert(ids@.contains(chosen@[a]));
            }
            lemma_chosen_part_len(map_view, chosen@);
            assert(assoc_map(map_view) == assoc_map(peers@));
        }
        m
    }
}

} // verus!
