use vstd::prelude::*;

use crate::primitives::PeerId;

verus! {

/// What the peer-to-peer layer knows of a peer.
pub struct PeerInfo {
    pub is_connected: bool,
    /// Whether the peer published an ENR.
    pub has_enr: bool,
    /// The multiaddress of the first address the peer was seen at, if any.
    pub seen_address: Option<String>,
}

/// A snapshot of the peers of the peer-to-peer layer.
pub struct NetworkPeers {
    /// Every known peer, once, with what is known of it.
    pub peers: Vec<(PeerId, PeerInfo)>,
    /// The best connected peer with an ENR, as the peer manager ranks them.
    pub best_connected_peer: Option<PeerId>,
}

/// The information of `p` in the snapshot, if it knows `p`.
pub open spec fn info_of(peers: Seq<(PeerId, PeerInfo)>, p: PeerId) -> Option<PeerInfo>
    decreases peers.len(),
{
    if peers.len() == 0 {
        None
    } else if peers[0].0 == p {
        Some(peers[0].1)
    } else {
        info_of(peers.drop_first(), p)
    }
}

/// The good peers that the snapshot knows, with their information, in order.
pub open spec fn known_good_peers(good: Seq<PeerId>, peers: Seq<(PeerId, PeerInfo)>) -> Seq<(PeerId, PeerInfo)>
    decreases good.len(),
{
    if good.len() == 0 {
        Seq::empty()
    } else {
        let prev = known_good_peers(good.drop_last(), peers);
        match info_of(peers, good.last()) {
            Some(i) => prev.push((good.last(), i)),
            None => prev,
        }
    }
}

/// Those of the pairs whose peer is connected.
pub open spec fn connected_only(s: Seq<(PeerId, PeerInfo)>) -> Seq<(PeerId, PeerInfo)>
    decreases s.len(),
{
    if s.len() == 0 {
        Seq::empty()
    } else {
        let prev = connected_only(s.drop_last());
        if s.last().1.is_connected {
            prev.push(s.last())
        } else {
            prev
        }
    }
}

/// The peers known to hold orphaned blocks (good peers).
pub struct PeerDb {
    pub good_peers: Vec<PeerId>,
}

fn find_info<'a>(peers: &'a Vec<(PeerId, PeerInfo)>, p: &PeerId) -> (r: Option<&'a PeerInfo>)
    ensures
        r matches Some(x) ==> info_of(peers@, *p) == Some(*x),
        r is None ==> info_of(peers@, *p) is None,
{
    let mut i: usize = 0;
    assert(peers@.skip(0) =~= peers@);
    while i < peers.len()
        invariant
            i <= peers@.len(),
            info_of(peers@, *p) == info_of(peers@.skip(i as int), *p),
        decreases peers@.len() - i,
    {
        assert(peers@.skip(i as int).drop_first() =~= peers@.skip(i as int + 1));
        if peers[i].0 == *p {
            return Some(&peers[i].1);
        }
        i = i + 1;
    }
    assert(peers@.skip(i as int).len() == 0);
    None
}

fn clone_info(i: &PeerInfo) -> (r: PeerInfo)
    ensures
        r == *i,
{
    PeerInfo {
        is_connected: i.is_connected,
        has_enr: i.has_enr,
        seen_address: match &i.seen_address {
            Some(a) => Some(a.clone()),
            None => None,
        },
    }
}

impl PeerDb {
    pub open spec fn wf(&self) -> bool {
        self.good_peers@.no_duplicates()
    }

    pub fn new(good_peers: Vec<PeerId>) -> (db: Self)
        requires
            good_peers@.no_duplicates(),
        ensures
            db.wf(),
            db.good_peers@ == good_peers@,
    {
        PeerDb { good_peers }
    }

    pub fn get_peer_info(&self, network: &NetworkPeers, peer_id: &PeerId) -> (r: Option<PeerInfo>)
        ensures
            r == info_of(network.peers@, *peer_id),
    {
        match find_info(&network.peers, peer_id) {
            Some(i) => Some(clone_info(i)),
            None => None,
        }
    }

    /// The best connected peer, as the peer manager ranks them.
    pub fn get_best_connected_peer(&self, network: &NetworkPeers) -> (r: Option<PeerId>)
        ensures
            r == network.best_connected_peer,
    {
        network.best_connected_peer
    }

    pub fn is_good_peer(&self, peer_id: &PeerId) -> (b: bool)
        ensures
            b == self.good_peers@.contains(*peer_id),
    {
        let mut i: usize = 0;
        while i < self.good_peers.len()
            invariant
                i <= self.good_peers@.len(),
                forall|j: int| 0 <= j < i ==> self.good_peers@[j] != *peer_id,
            decreases self.good_peers@.len() - i,
        {
            if self.good_peers[i] == *peer_id {
                return true;
            }
            i = i + 1;
        }
        false
    }

    /// The good peers that the network knows, with their information.
    pub fn get_good_peers(&self, network: &NetworkPeers) -> (r: Vec<(PeerId, PeerInfo)>)
        ensures
            r@ == known_good_peers(self.good_peers@, network.peers@),
    {
        let mut r: Vec<(PeerId, PeerInfo)> = Vec::new();
        let mut i: usize = 0;
        while i < self.good_peers.len()
            invariant
                i <= self.good_peers@.len(),
                r@ == known_good_peers(self.good_peers@.take(i as int), network.peers@),
            decreases self.good_peers@.len() - i,
        {
            let p = self.good_peers[i];
            assert(self.good_peers@.take(i as int + 1).drop_last() =~= self.good_peers@.take(i as int));
            match find_info(&network.peers, &p) {
                Some(info) => r.push((p, clone_info(info))),
                None => {},
            }
            i = i + 1;
        }
        assert(self.good_peers@.take(i as int) =~= self.good_peers@);
        r
    }

    /// Adds a good peer.
    pub fn add_good_peer(&mut self, peer_id: PeerId)
        requires
            old(self).wf(),
        ensures
            final(self).wf(),
            final(self).good_peers@.to_set() == old(self).good_peers@.to_set().insert(peer_id),
            old(self).good_peers@.contains(peer_id) ==> final(self).good_peers@ == old(self).good_peers@,
            !old(self).good_peers@.contains(peer_id) ==> final(self).good_peers@ == old(self).good_peers@.push(peer_id),
    {
        if !self.is_good_peer(&peer_id) {
            self.good_peers.push(peer_id);
            proof {
                assert(self.good_peers@.to_set() =~= old(self).good_peers@.to_set().insert(peer_id)) by {
                    assert forall|x: PeerId| self.good_peers@.to_set().contains(x) <==> old(self).good_peers@.to_set().insert(peer_id).contains(x) by {
                        if x == peer_id {
                            assert(self.good_peers@[self.good_peers@.len() - 1] == x);
                        } else if old(self).good_peers@.contains(x) {
                            let k = choose|k: int| 0 <= k < old(self).good_peers@.len() && old(self).good_peers@[k] == x;
                            assert(self.good_peers@[k] == x);
                        }
                    }
                }
            }
        } else {
            assert(old(self).good_peers@.to_set().insert(peer_id) =~= old(self).good_peers@.to_set());
        }
    }

    /// The good peers that are connected, with their information.
    pub fn get_connected_good_peers(&self, network: &NetworkPeers) -> (r: Vec<(PeerId, PeerInfo)>)
        ensures
            r@ == connected_only(known_good_peers(self.good_peers@, network.peers@)),
    {
        let all = self.get_good_peers(network);
        let mut r: Vec<(PeerId, PeerInfo)> = Vec::new();
        let mut i: usize = 0;
        while i < all.len()
            invariant
                i <= all@.len(),
                r@ == connected_only(all@.take(i as int)),
            decreases all@.len() - i,
        {
            assert(all@.take(i as int + 1).drop_last() =~= all@.take(i as int));
            if all[i].1.is_connected {
                r.push((all[i].0, clone_info(&all[i].1)));
            }
            i = i + 1;
        }
        assert(all@.take(i as int) =~= all@);
        r
    }

    /// The ids of the connected good peers.
    pub fn get_connected_good_peer_ids(&self, network: &NetworkPeers) -> (r: Vec<PeerId>)
        ensures
            r@ == connected_only(known_good_peers(self.good_peers@, network.peers@)).map_values(
                |e: (PeerId, PeerInfo)| e.0,
            ),
    {
        let all = self.get_connected_good_peers(network);
        let mut r: Vec<PeerId> = Vec::new();
        let mut i: usize = 0;
        while i < all.len()
            invariant
                i <= all@.len(),
                r@ == all@.take(i as int).map_values(|e: (PeerId, PeerInfo)| e.0),
            decreases all@.len() - i,
        {
            r.push(all[i].0);
            assert(all@.take(i as int + 1).map_values(|e: (PeerId, PeerInfo)| e.0) =~= all@.take(
                i as int,
            ).map_values(|e: (PeerId, PeerInfo)| e.0).push(all@[i as int].0));
            i = i + 1;
        }
        assert(all@.take(i as int) =~= all@);
        r
    }

    /// Whether some good peer is connected.
    pub fn has_connected_good_peers(&self, network: &NetworkPeers) -> (b: bool)
        ensures
            b == (connected_only(known_good_peers(self.good_peers@, network.peers@)).len() > 0),
    {
        self.get_connected_good_peers(network).len() > 0
    }
}

} // verus!
