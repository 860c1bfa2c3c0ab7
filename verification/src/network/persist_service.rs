use vstd::prelude::*;

use crate::assoc::{
    assoc_map, distinct_keys, find_key, lemma_assoc_dom, lemma_assoc_finite, lemma_assoc_get,
    lemma_assoc_len, lemma_assoc_push, lemma_assoc_remove, lemma_assoc_update, sort_by_key,
    sorted_by_key,
};
use crate::block_state::BeaconBlock;
use crate::network::block_by_root_requests::BlockRequestModelWithId;
use crate::network::peer_db::PeerInfo;
use crate::types::meta::{BlockRequestsMeta, GoodPeersMeta};
use crate::primitives::PeerId;
use crate::primitives::{epoch_of, spec_epoch_of, Epoch, Slot};

verus! {

/// A block to persist, or a slot without block.
pub enum BlockMessage {
    Proposed(BeaconBlock),
    Orphaned(BeaconBlock),
    Missed(Slot),
}

impl BlockMessage {
    pub open spec fn spec_slot(&self) -> Slot {
        match self {
            BlockMessage::Proposed(b) => b.slot,
            BlockMessage::Orphaned(b) => b.slot,
            BlockMessage::Missed(s) => *s,
        }
    }

    pub fn slot(&self) -> (s: Slot)
        ensures
            s == self.spec_slot(),
    {
        match self {
            BlockMessage::Proposed(b) => b.slot,
            BlockMessage::Orphaned(b) => b.slot,
            BlockMessage::Missed(s) => *s,
        }
    }
}

/// What the persist service does after a block message.
pub enum PersistAction {
    /// Every slot of the epoch is known: persist the epoch with its blocks,
    /// ordered by slot.
    Epoch { epoch: Epoch, blocks: Vec<(Slot, BlockMessage)> },
    /// An orphaned block arrived after its epoch was persisted: persist it
    /// over the missed slot it belongs to.
    ExistingBlock { block: BeaconBlock, slot: Slot, epoch: Epoch },
    Nothing,
}

/// The blocks of an epoch once a message is taken in: a slot already known
/// keeps its block, unless it was known as missed.
pub open spec fn merged(bucket: Map<Slot, BlockMessage>, slot: Slot, msg: BlockMessage) -> Map<Slot, BlockMessage> {
    if bucket.dom().contains(slot) && !(bucket[slot] is Missed) {
        bucket
    } else {
        bucket.insert(slot, msg)
    }
}

/// The blocks known for an epoch (none when the epoch has no entry).
pub open spec fn bucket_of(buckets: Map<Epoch, Map<Slot, BlockMessage>>, e: Epoch) -> Map<Slot, BlockMessage> {
    if buckets.dom().contains(e) {
        buckets[e]
    } else {
        Map::empty()
    }
}

/// Gathers blocks by epoch and hands an epoch on once all its slots are known,
/// epoch after epoch.
pub struct PersistService {
    pub current_epoch: Epoch,
    pub slots_per_epoch: u64,
    pub blocks_by_epoch: Vec<(Epoch, Vec<(Slot, BlockMessage)>)>,
}

pub open spec fn bucket_view(e: (Epoch, Vec<(Slot, BlockMessage)>)) -> (Epoch, Map<Slot, BlockMessage>) {
    (e.0, assoc_map(e.1@))
}

/// What taking in a block message does to the service and which action it gives: the
/// block joins the blocks of its epoch; the current epoch, once all its slots are known,
/// is handed on (ordered by slot, its slots all of the epoch) and the next epoch becomes
/// current; a message for an epoch already handed on is dropped, but an orphaned block.
pub open spec fn block_message_step(s: PersistService, t: PersistService, block_message: BlockMessage, action: PersistAction) -> bool {
    let slot = block_message.spec_slot();
    let e = spec_epoch_of(slot, s.slots_per_epoch);
    let nb = merged(bucket_of(s.buckets(), e), slot, block_message);
    if e >= s.current_epoch {
        if e == s.current_epoch && nb.dom().len() == s.slots_per_epoch {
            &&& t.current_epoch == s.current_epoch + 1
            &&& t.buckets() == s.buckets().remove(e)
            &&& action matches PersistAction::Epoch { epoch, blocks } && epoch == e
                && sorted_by_key(blocks@) && distinct_keys(blocks@) && assoc_map(blocks@) == nb
            &&& nb.dom().finite()
            &&& forall|x: Slot| #[trigger] nb.dom().contains(x) ==> spec_epoch_of(x, s.slots_per_epoch) == e
        } else {
            &&& t.current_epoch == s.current_epoch
            &&& t.buckets() == s.buckets().insert(e, nb)
            &&& action is Nothing
        }
    } else {
        &&& t.current_epoch == s.current_epoch
        &&& t.buckets() == s.buckets()
        &&& match block_message {
            BlockMessage::Orphaned(b) => action == (PersistAction::ExistingBlock { block: b, slot, epoch: e }),
            _ => action is Nothing,
        }
    }
}

impl PersistService {
    pub closed spec fn buckets_seq(&self) -> Seq<(Epoch, Map<Slot, BlockMessage>)> {
        self.blocks_by_epoch@.map_values(|e: (Epoch, Vec<(Slot, BlockMessage)>)| bucket_view(e))
    }

    /// The blocks gathered so far, by epoch and slot.
    pub closed spec fn buckets(&self) -> Map<Epoch, Map<Slot, BlockMessage>> {
        assoc_map(self.buckets_seq())
    }

    /// Every epoch has one entry, every slot one block; every entry is for
    /// the current epoch or a later one and holds only slots of its epoch.
    pub closed spec fn wf(&self) -> bool {
        &&& self.slots_per_epoch > 0
        &&& distinct_keys(self.buckets_seq())
        &&& forall|i: int| 0 <= i < self.blocks_by_epoch@.len() ==> distinct_keys(#[trigger] self.blocks_by_epoch@[i].1@)
        &&& forall|e: Epoch| #[trigger] self.buckets().dom().contains(e) ==> e >= self.current_epoch
        &&& forall|e: Epoch, s: Slot| self.buckets().dom().contains(e) && #[trigger] self.buckets()[e].dom().contains(s)
            ==> spec_epoch_of(s, self.slots_per_epoch) == e
    }

    pub fn new(slots_per_epoch: u64) -> (p: Self)
        requires
            slots_per_epoch > 0,
        ensures
            p.wf(),
            p.current_epoch == 0,
            p.slots_per_epoch == slots_per_epoch,
            p.buckets() == Map::<Epoch, Map<Slot, BlockMessage>>::empty(),
    {
        let p = PersistService { current_epoch: 0, slots_per_epoch, blocks_by_epoch: Vec::new() };
        assert(p.buckets_seq() =~= Seq::empty());
        p
    }

    proof fn lemma_bucket_at(&self, i: int)
        requires
            self.wf(),
            0 <= i < self.blocks_by_epoch@.len(),
        ensures
            self.buckets().dom().contains(self.blocks_by_epoch@[i].0),
            self.buckets()[self.blocks_by_epoch@[i].0] == assoc_map(self.blocks_by_epoch@[i].1@),
    {
        assert(self.buckets_seq()[i] == bucket_view(self.blocks_by_epoch@[i]));
        lemma_assoc_get(self.buckets_seq(), i);
    }

    /// Takes in a block message. The block joins the blocks of its epoch (a
    /// slot already known keeps its block unless it was missed); once every
    /// slot of the current epoch is known, the epoch is handed on, ordered by
    /// slot, and the next epoch becomes current. A message for an epoch
    /// already handed on is dropped, except an orphaned block.
    pub fn handle_block_message(&mut self, block_message: BlockMessage) -> (action: PersistAction)
        requires
            old(self).wf(),
            spec_epoch_of(block_message.spec_slot(), old(self).slots_per_epoch) < u64::MAX,
        ensures
            final(self).wf(),
            final(self).slots_per_epoch == old(self).slots_per_epoch,
            block_message_step(*old(self), *final(self), block_message, action),
            forall|e: Epoch| #[trigger] final(self).buckets().dom().contains(e) ==> e >= final(self).current_epoch,
    {
        let slot = block_message.slot();
        let epoch = epoch_of(slot, self.slots_per_epoch);
        let ghost old_seq = self.buckets_seq();
        let ghost old_buckets = self.buckets();
        if epoch < self.current_epoch {
            return match block_message {
                BlockMessage::Orphaned(block) => PersistAction::ExistingBlock { block, slot, epoch },
                _ => PersistAction::Nothing,
            };
        }
        let idx = find_key(&self.blocks_by_epoch, epoch);
        let ghost prev_vec = self.blocks_by_epoch@;
        let mut bucket: Vec<(Slot, BlockMessage)> = match idx {
            Some(i) => {
                proof {
                    self.lemma_bucket_at(i as int);
                }
                let (_, b) = self.blocks_by_epoch.remove(i);
                b
            },
            None => {
                proof {
                    lemma_assoc_dom(old_seq, epoch);
                    if old_buckets.dom().contains(epoch) {
                        let k = choose|k: int| 0 <= k < old_seq.len() && #[trigger] old_seq[k].0 == epoch;
                        assert(old_seq[k] == bucket_view(prev_vec[k]));
                    }
                }
                Vec::new()
            },
        };
        proof {
            assert(assoc_map(bucket@) == bucket_of(old_buckets, epoch)) by {
                if idx is None {
                    assert(assoc_map(bucket@) =~= Map::<Slot, BlockMessage>::empty());
                }
            }
            if idx is Some {
                assert(distinct_keys(bucket@)) by {
                    assert(prev_vec[idx->0 as int].1 == bucket);
                }
            }
        }
        let ghost old_bucket = bucket@;
        let ghost nb = merged(bucket_of(old_buckets, epoch), slot, block_message);
        match find_key(&bucket, slot) {
            Some(j) => {
                proof {
                    lemma_assoc_get(old_bucket, j as int);
                }
                let is_missed = match &bucket[j].1 {
                    BlockMessage::Missed(_) => true,
                    _ => false,
                };
                if is_missed {
                    let _ = bucket.remove(j);
                    bucket.insert(j, (slot, block_message));
                    proof {
                        assert(bucket@ =~= old_bucket.update(j as int, (old_bucket[j as int].0, block_message)));
                        lemma_assoc_update(old_bucket, j as int, block_message);
                    }
                }
            },
            None => {
                proof {
                    lemma_assoc_dom(old_bucket, slot);
                }
                bucket.push((slot, block_message));
                proof {
                    lemma_assoc_push(old_bucket, slot, block_message);
                }
            },
        }
        proof {
            assert(assoc_map(bucket@) == nb);
            assert(distinct_keys(bucket@));
            lemma_assoc_len(bucket@);
            lemma_assoc_finite(bucket@);
            assert forall|s: Slot| #[trigger] nb.dom().contains(s) implies spec_epoch_of(s, self.slots_per_epoch) == epoch by {
                if s != slot {
                    assert(old_buckets.dom().contains(epoch));
                    assert(old_buckets[epoch].dom().contains(s));
                }
            }
        }
        let ghost mid_seq = self.buckets_seq();
        proof {
            match idx {
                Some(i) => {
                    assert(mid_seq =~= old_seq.remove(i as int));
                    lemma_assoc_remove(old_seq, i as int);
                    assert(old_seq[i as int].0 == epoch);
                },
                None => {
                    assert(mid_seq =~= old_seq);
                    assert(old_buckets.remove(epoch) =~= old_buckets);
                },
            }
            assert(assoc_map(mid_seq) == old_buckets.remove(epoch));
            assert(distinct_keys(mid_seq));
        }
        if epoch == self.current_epoch && bucket.len() as u64 == self.slots_per_epoch {
            let blocks = sort_by_key(bucket);
            self.current_epoch = self.current_epoch + 1;
            proof {
                assert forall|i: int| 0 <= i < self.blocks_by_epoch@.len() implies distinct_keys(#[trigger] self.blocks_by_epoch@[i].1@) by {
                    match idx {
                        Some(k) => {
                            if i < k {
                                assert(self.blocks_by_epoch@[i] == prev_vec[i]);
                            } else {
                                assert(self.blocks_by_epoch@[i] == prev_vec[i + 1]);
                            }
                        },
                        None => {
                            assert(self.blocks_by_epoch@[i] == prev_vec[i]);
                        },
                    }
                }
                assert forall|e: Epoch| #[trigger] self.buckets().dom().contains(e) implies e >= self.current_epoch by {
                    assert(old_buckets.dom().contains(e));
                }
            }
            PersistAction::Epoch { epoch, blocks }
        } else {
            match idx {
                Some(i) => {
                    self.blocks_by_epoch.insert(i, (epoch, bucket));
                    proof {
                        assert(self.buckets_seq() =~= old_seq.update(i as int, (old_seq[i as int].0, nb)));
                        lemma_assoc_update(old_seq, i as int, nb);
                        assert forall|k: int| 0 <= k < self.blocks_by_epoch@.len() implies distinct_keys(#[trigger] self.blocks_by_epoch@[k].1@) by {
                            if k != i {
                                assert(self.blocks_by_epoch@[k] == prev_vec[k]);
                            }
                        }
                    }
                },
                None => {
                    self.blocks_by_epoch.push((epoch, bucket));
                    proof {
                        assert(self.buckets_seq() =~= mid_seq.push((epoch, nb)));
                        lemma_assoc_dom(old_seq, epoch);
                        assert(!assoc_map(mid_seq).dom().contains(epoch));
                        lemma_assoc_push(mid_seq, epoch, nb);
                        assert forall|k: int| 0 <= k < self.blocks_by_epoch@.len() implies distinct_keys(#[trigger] self.blocks_by_epoch@[k].1@) by {
                            if k < prev_vec.len() {
                                assert(self.blocks_by_epoch@[k] == prev_vec[k]);
                            }
                        }
                    }
                },
            }
            proof {
                assert(self.buckets() =~= old_buckets.insert(epoch, nb));
            }
            PersistAction::Nothing
        }
    }
}

} // verus!

verus! {

/// A good peer as it is persisted: its id and the address it was seen at.
pub struct GoodPeerModelWithId {
    pub id: PeerId,
    pub address: String,
}

/// What the persist service is asked to persist.
pub enum PersistMessage {
    Block(BlockMessage),
    BlockRequests(Vec<BlockRequestModelWithId>),
    GoodPeers(Vec<GoodPeerModelWithId>),
}

impl PersistMessage {
    /// The message to persist an orphaned block.
    pub fn new_ophan_block(block: BeaconBlock) -> (m: Self)
        ensures
            m == PersistMessage::Block(BlockMessage::Orphaned(block)),
    {
        PersistMessage::Block(BlockMessage::Orphaned(block))
    }
}

/// What handling a persist message comes to: the action for a block, or the rows to
/// store with the new count of their table.
pub enum PersistOutcome {
    Block(PersistAction),
    BlockRequests { rows: Vec<BlockRequestModelWithId>, meta: BlockRequestsMeta },
    GoodPeers { rows: Vec<GoodPeerModelWithId>, meta: GoodPeersMeta },
}

impl PersistService {
    /// Takes in a persist message: a block goes to its epoch; block requests and good
    /// peers are stored whole, with their number.
    pub fn handle_event(&mut self, message: PersistMessage) -> (r: PersistOutcome)
        requires
            old(self).wf(),
            message matches PersistMessage::Block(b) ==> spec_epoch_of(b.spec_slot(), old(self).slots_per_epoch) < u64::MAX,
        ensures
            final(self).wf(),
            match message {
                PersistMessage::Block(b) => r matches PersistOutcome::Block(action)
                    && block_message_step(*old(self), *final(self), b, action),
                PersistMessage::BlockRequests(rows) => {
                    &&& *final(self) == *old(self)
                    &&& r matches PersistOutcome::BlockRequests { rows: out, meta } && out@ == rows@ && meta.count == rows@.len()
                },
                PersistMessage::GoodPeers(rows) => {
                    &&& *final(self) == *old(self)
                    &&& r matches PersistOutcome::GoodPeers { rows: out, meta } && out@ == rows@ && meta.count == rows@.len()
                },
            },
    {
        match message {
            PersistMessage::Block(block_message) => PersistOutcome::Block(self.handle_block_message(block_message)),
            PersistMessage::BlockRequests(rows) => {
                let meta = BlockRequestsMeta::new(rows.len() as u64);
                PersistOutcome::BlockRequests { rows, meta }
            },
            PersistMessage::GoodPeers(rows) => {
                let meta = GoodPeersMeta::new(rows.len() as u64);
                PersistOutcome::GoodPeers { rows, meta }
            },
        }
    }
}

/// The persisted form of the good peers: each with its first seen address,
/// or an empty address when none is known.
pub fn good_peer_models(good_peers: &Vec<(PeerId, PeerInfo)>) -> (m: Vec<GoodPeerModelWithId>)
    ensures
        m@.len() == good_peers@.len(),
        forall|i: int|
            0 <= i < m@.len() ==> #[trigger] m@[i].id == good_peers@[i].0 && m@[i].address@ == match good_peers@[i].1.seen_address {
                Some(a) => a@,
                None => Seq::<char>::empty(),
            },
{
    let mut m: Vec<GoodPeerModelWithId> = Vec::new();
    let mut i: usize = 0;
    while i < good_peers.len()
        invariant
            i <= good_peers@.len(),
            m@.len() == i,
            forall|j: int|
                0 <= j < i ==> #[trigger] m@[j].id == good_peers@[j].0 && m@[j].address@ == match good_peers@[j].1.seen_address {
                    Some(a) => a@,
                    None => Seq::<char>::empty(),
                },
        decreases good_peers@.len() - i,
    {
        let address = match &good_peers[i].1.seen_address {
            Some(a) => a.clone(),
            None => String::new(),
        };
        m.push(GoodPeerModelWithId { id: good_peers[i].0, address });
        i = i + 1;
    }
    m
}

} // verus!

verus! {

/// The service never holds blocks for an epoch already handed on: if every epoch with
/// gathered blocks is the current epoch or a later one, it stays so after a block message,
/// whichever epoch the message is for.
pub proof fn lemma_buckets_not_behind(
    s: PersistService,
    t: PersistService,
    block_message: BlockMessage,
    action: PersistAction,
)
    requires
        forall|e: Epoch| #[trigger] s.buckets().dom().contains(e) ==> e >= s.current_epoch,
        block_message_step(s, t, block_message, action),
    ensures
        forall|e: Epoch| #[trigger] t.buckets().dom().contains(e) ==> e >= t.current_epoch,
{
}

/// An epoch handed on holds a block for every slot of the epoch: `slots_per_epoch` slots,
/// all of the epoch, are all the slots of the epoch.
pub proof fn lemma_full_epoch_holds_every_slot(
    bucket: Map<Slot, BlockMessage>,
    e: Epoch,
    slots_per_epoch: u64,
)
    requires
        slots_per_epoch > 0,
        bucket.dom().finite(),
        bucket.dom().len() == slots_per_epoch,
        forall|s: Slot| #[trigger] bucket.dom().contains(s) ==> spec_epoch_of(s, slots_per_epoch) == e,
    ensures
        forall|s: Slot| spec_epoch_of(s, slots_per_epoch) == e <==> #[trigger] bucket.dom().contains(s),
{
    let d = bucket.dom();
    let f = |s: Slot| s as int;
    let lo = e * slots_per_epoch;
    let hi = lo + slots_per_epoch;
    let di = d.map(f);
    assert(vstd::relations::injective_on(f, d)) by {
        assert forall|a: Slot, b: Slot| d.contains(a) && d.contains(b) && #[trigger] f(a) == #[trigger] f(b) implies a == b by {}
    }
    vstd::set_lib::lemma_map_size(d, di, f);
    vstd::set_lib::lemma_int_range(lo, hi);
    let r = vstd::set_lib::set_int_range(lo, hi);
    assert forall|x: int| di.contains(x) implies r.contains(x) by {
        let s = choose|s: Slot| d.contains(s) && f(s) == x;
        assert(spec_epoch_of(s, slots_per_epoch) == e);
        assert(s / slots_per_epoch == e);
        assert(lo <= s < hi) by (nonlinear_arith)
            requires
                s / slots_per_epoch == e,
                slots_per_epoch > 0,
                lo == e * slots_per_epoch,
                hi == lo + slots_per_epoch,
        {}
    }
    vstd::set_lib::lemma_subset_equality(di, r);
    assert forall|s: Slot| spec_epoch_of(s, slots_per_epoch) == e implies #[trigger] bucket.dom().contains(s) by {
        assert(s / slots_per_epoch == e);
        assert(lo <= s < hi) by (nonlinear_arith)
            requires
                s / slots_per_epoch == e,
                slots_per_epoch > 0,
                lo == e * slots_per_epoch,
                hi == lo + slots_per_epoch,
        {}
        assert(r.contains(s as int));
        assert(di.contains(s as int));
        let t = choose|t: Slot| d.contains(t) && f(t) == s as int;
        assert(t == s);
    }
}

} // verus!
