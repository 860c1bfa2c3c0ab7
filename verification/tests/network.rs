use indexer::block_state::{Attestation, BeaconBlock, BlockState};
use indexer::network::block_db::BlockDb;
use indexer::network::consensus_network::{NetworkCommand, RequestId};
use indexer::network::event::{LighthouseNetworkEvent, Response};
use indexer::network::block_by_root_requests::{BlockByRootRequests, BlockNotFoundResult};
use indexer::network::event::NetworkEvent;
use indexer::network::persist_service::{BlockMessage, PersistAction, PersistMessage, PersistOutcome, PersistService};
use indexer::network::request_attempts::BlockByRootRequestState;
use indexer::network::workers::persist_existing_block_worker::{
    persist_existing_block, PersistExistingBlockWorker,
};
use indexer::primitives::{epoch_of, Hash256, PeerId};
use indexer::root_set::RootSet;
use indexer::text::{hash_to_bytes, hash_to_hex, u64_to_string};
use indexer::types::clock::Clock;
use indexer::types::consolidated_block::{BlockModel, BlockModelWithId};
use indexer::types::consolidated_epoch::AggregatedEpochData;
use indexer::workers::index_worker::{BlockRangeRequests, BlockRootsCache, IndexAction, IndexWorker};

fn h(n: u64) -> Hash256 {
    Hash256 { w0: 0, w1: 0, w2: 0, w3: n }
}

fn p(n: u64) -> PeerId {
    PeerId { id: n }
}

fn block(slot: u64) -> BeaconBlock {
    BeaconBlock {
        slot,
        root: h(slot + 1),
        parent_root: h(slot),
        state_root: h(0),
        attestations: vec![],
        deposits_count: 2,
        voluntary_exits_count: 0,
        proposer_slashings_count: 1,
        attester_slashings_count: 0,
        randao_reveal: String::new(),
        signature: String::new(),
        graffiti: "g".to_string(),
        eth1_deposit_root: h(0),
        eth1_deposit_count: 0,
        eth1_block_hash: h(0),
    }
}

#[test]
fn a_requested_root_exists() {
    let mut r = BlockByRootRequests::new();
    assert!(!r.request_exists(&h(5)));
    let cmds = r.request_block_by_root(&3, &h(5), &vec![p(1), p(2)]);
    assert_eq!(cmds.len(), 2);
    assert!(r.request_exists(&h(5)));
    assert_eq!(r.count(), 1);
    let again = r.request_block_by_root(&4, &h(5), &vec![p(1)]);
    assert!(again.is_empty());
    assert_eq!(r.count(), 1);
    assert_eq!(r.get(&h(5)).unwrap().possible_slots.len(), 2);
}

#[test]
fn a_block_is_newly_found_once() {
    let mut r = BlockByRootRequests::new();
    r.request_block_by_root(&3, &h(5), &vec![p(1)]);
    assert!(r.block_found(&h(5), p(1)));
    assert!(!r.block_found(&h(5), p(2)));
    assert_eq!(r.get(&h(5)).unwrap().found_by, Some(p(1)));
    assert_eq!(r.get(&h(5)).unwrap().state, BlockByRootRequestState::Found);
    assert!(!r.block_found(&h(6), p(1)));
}

#[test]
fn a_block_nobody_has_is_given_up() {
    let mut r = BlockByRootRequests::new();
    r.request_block_by_root(&3, &h(5), &vec![p(1)]);
    for _ in 0..9 {
        assert_eq!(r.block_not_found(&h(5)), BlockNotFoundResult::Searching);
    }
    assert_eq!(r.block_not_found(&h(5)), BlockNotFoundResult::NotFound);
    assert!(!r.request_exists(&h(5)));
    assert_eq!(r.block_not_found(&h(5)), BlockNotFoundResult::NotRequested);
}

#[test]
fn an_epoch_is_handed_on_once_all_its_slots_are_known() {
    let mut s = PersistService::new(2);
    assert!(matches!(s.handle_block_message(BlockMessage::Proposed(block(1))), PersistAction::Nothing));
    assert!(matches!(s.handle_block_message(BlockMessage::Missed(2)), PersistAction::Nothing));
    match s.handle_block_message(BlockMessage::Missed(0)) {
        PersistAction::Epoch { epoch, blocks } => {
            assert_eq!(epoch, 0);
            let slots: Vec<u64> = blocks.iter().map(|(s, _)| *s).collect();
            assert_eq!(slots, vec![0, 1]);
        },
        _ => panic!("epoch expected"),
    }
    assert_eq!(s.current_epoch, 1);
    match s.handle_block_message(BlockMessage::Proposed(block(3))) {
        PersistAction::Epoch { epoch, blocks } => {
            assert_eq!(epoch, 1);
            assert!(matches!(blocks[0].1, BlockMessage::Missed(2)));
            assert!(matches!(blocks[1].1, BlockMessage::Proposed(_)));
        },
        _ => panic!("epoch expected"),
    }
    match s.handle_block_message(BlockMessage::Orphaned(block(1))) {
        PersistAction::ExistingBlock { slot, epoch, .. } => assert_eq!((slot, epoch), (1, 0)),
        _ => panic!("existing block expected"),
    }
    assert!(matches!(s.handle_block_message(BlockMessage::Missed(1)), PersistAction::Nothing));
    assert!(s.blocks_by_epoch.iter().all(|(e, _)| *e >= s.current_epoch));
    assert!(matches!(s.handle_block_message(BlockMessage::Proposed(block(6))), PersistAction::Nothing));
    assert!(s.blocks_by_epoch.iter().all(|(e, _)| *e >= s.current_epoch));
    assert_eq!(s.blocks_by_epoch.len(), 1);
}

fn stored(status: &str) -> BlockModelWithId {
    BlockModelWithId {
        id: 9,
        model: BlockModel {
            epoch: 0,
            timestamp: 0,
            proposer_slashings_count: 0,
            attester_slashings_count: 0,
            attestations_count: 0,
            deposits_count: 0,
            voluntary_exits_count: 0,
            proposer: 44,
            status: status.to_string(),
        },
    }
}

#[test]
fn an_orphan_overwrites_only_a_missed_slot() {
    let w = PersistExistingBlockWorker::new("data".to_string());
    assert!(w.spawn(BlockState::Proposed(block(9)), 32).is_none());
    assert!(w.spawn(BlockState::Missed(9), 32).is_none());
    let job = w.spawn(BlockState::Orphaned(block(9)), 8).unwrap();
    assert_eq!((job.slot, job.epoch, job.base_dir.as_str()), (9, 1, "data"));
    let clock = Clock::new(0, 12);
    let (m, e) = persist_existing_block(job, &stored("Missed"), &clock, 8).unwrap();
    assert_eq!(m.model.status, "Orphaned");
    assert_eq!(m.model.proposer, 44);
    assert_eq!(m.model.timestamp, 108);
    assert_eq!(m.model.deposits_count, 0);
    assert!(e.model.is_some());
    let job = w.spawn(BlockState::Orphaned(block(9)), 8).unwrap();
    assert!(persist_existing_block(job, &stored("Proposed"), &clock, 8).is_none());
}

#[test]
fn texts_of_numbers_and_hashes() {
    assert_eq!(u64_to_string(0), "0");
    assert_eq!(u64_to_string(18446744073709551615), "18446744073709551615");
    let hash = Hash256 { w0: 0x0123456789abcdef, w1: 0, w2: 0, w3: 255 };
    assert_eq!(
        hash_to_hex(&hash),
        format!("0x0123456789abcdef{}00000000000000ff", "0".repeat(32))
    );
    let bytes = hash_to_bytes(&hash);
    assert_eq!(bytes.len(), 32);
    assert_eq!(bytes[0], 0x01);
    assert_eq!(bytes[7], 0xef);
    assert_eq!(bytes[31], 0xff);
}

#[test]
fn clock_and_epochs() {
    let c = Clock::new(1_606_824_023, 12);
    assert_eq!(c.timestamp(1), Some(1_606_824_035));
    assert_eq!(c.timestamp(u64::MAX), None);
    assert_eq!(c.timestamp_or_zero(u64::MAX), 0);
    assert_eq!(epoch_of(63, 32), 1);
    assert_eq!(epoch_of(64, 32), 2);
}

#[test]
fn aggregation_restarts_from_zero() {
    let mut d = AggregatedEpochData::default();
    d.consolidate(&BlockState::Proposed(block(0)));
    d.consolidate(&BlockState::Missed(1));
    d.consolidate(&BlockState::Orphaned(block(2)));
    let first = d.aggregate();
    assert_eq!(first.proposed_blocks_count, 1);
    assert_eq!(first.missed_blocks_count, 1);
    assert_eq!(first.orphaned_blocks_count, 1);
    assert_eq!(first.deposits_count, 2);
    assert_eq!(first.proposer_slashings_count, 1);
    assert_eq!(d.aggregate(), AggregatedEpochData::default());
}

#[test]
fn queued_blocks_come_out_lowest_slot_first() {
    let mut q = BlockRangeRequests::new();
    assert_eq!(q.next_or(block(5)).slot, 5);
    q.blocks_queue.push((7, block(7)));
    q.blocks_queue.push((9, block(9)));
    assert_eq!(q.next_or(block(8)).slot, 7);
    assert_eq!(q.next_or(block(10)).slot, 8);
}

#[test]
fn roots_once_put_are_known() {
    let mut c = BlockRootsCache::new();
    assert!(!c.contains(&h(1)));
    c.put(h(1), 4);
    assert!(c.contains(&h(1)));
    let mut s = RootSet::new();
    assert!(s.insert(h(2)));
    assert!(!s.insert(h(2)));
    assert!(s.contains(&h(2)));
}

#[test]
fn stored_requests_read_back_the_same() {
    let mut r = BlockByRootRequests::new();
    r.request_block_by_root(&3, &h(5), &vec![p(1)]);
    r.request_block_by_root(&4, &h(5), &vec![p(1)]);
    r.request_block_by_root(&8, &h(6), &vec![]);
    r.block_not_found(&h(6));
    r.block_found(&h(5), p(2));
    let back = BlockByRootRequests::from_block_requests(r.to_models());
    assert_eq!(back.count(), r.count());
    let a = back.get(&h(5)).unwrap();
    assert_eq!(a.found_by, Some(p(2)));
    assert_eq!(a.state, BlockByRootRequestState::Found);
    let mut slots = a.possible_slots.clone();
    slots.sort();
    assert_eq!(slots, vec![3, 4]);
    assert!(a.peers.is_empty());
    let b = back.get(&h(6)).unwrap();
    assert_eq!(b.not_found_count, 1);
    assert_eq!(b.state, BlockByRootRequestState::AwaitingPeer);
}

#[test]
fn events_are_logged_with_their_slot() {
    assert_eq!(NetworkEvent::NewBlock(BlockState::Missed(12), p(1)).to_string(), "New missed block at 12");
    assert_eq!(NetworkEvent::NewBlock(BlockState::Proposed(block(7)), p(1)).to_string(), "New proposed block at 7");
    assert_eq!(NetworkEvent::NewBlock(BlockState::Orphaned(block(0)), p(1)).to_string(), "New orphaned block at 0");
    assert_eq!(NetworkEvent::PeerConnected(p(1)).to_string(), "Peer connected");
    assert_eq!(NetworkEvent::RangeRequestSuccedeed.to_string(), "Range request succedeed");
    assert_eq!(NetworkEvent::BlockRootNotFound(h(1)).to_string(), "Block root not found");
}

#[test]
fn stored_lists_carry_their_count() {
    use_persist_outcome();
}

fn use_persist_outcome() {
    let mut s = PersistService::new(4);
    let mut r = BlockByRootRequests::new();
    r.request_block_by_root(&3, &h(5), &vec![]);
    r.request_block_by_root(&3, &h(6), &vec![]);
    match s.handle_event(PersistMessage::BlockRequests(r.to_models())) {
        PersistOutcome::BlockRequests { rows, meta } => {
            assert_eq!(rows.len(), 2);
            assert_eq!(meta.count, 2);
        },
        _ => panic!("block requests expected"),
    }
    match s.handle_event(PersistMessage::GoodPeers(vec![])) {
        PersistOutcome::GoodPeers { rows, meta } => {
            assert!(rows.is_empty());
            assert_eq!(meta.count, 0);
        },
        _ => panic!("good peers expected"),
    }
    assert!(matches!(
        s.handle_event(PersistMessage::Block(BlockMessage::Missed(9))),
        PersistOutcome::Block(PersistAction::Nothing)
    ));
}

#[test]
fn a_found_root_hands_back_its_request_each_time() {
    let mut db = BlockDb::new();
    assert!(db.with_found_block_root(h(7), p(1)).is_none());
    db.block_by_root_requests.request_block_by_root(&3, &h(7), &vec![]);
    let first = db.with_found_block_root(h(7), p(1)).unwrap();
    assert_eq!(first.found_by, Some(p(1)));
    assert_eq!(first.state, BlockByRootRequestState::Found);
    let again = db.with_found_block_root(h(7), p(2)).unwrap();
    assert_eq!(again.found_by, Some(p(1)));
    assert_eq!(again.state, BlockByRootRequestState::Found);
}

#[test]
fn unknown_roots_are_registered_only_through_their_actions() {
    let mut w = IndexWorker::new();
    let mut b = block(2);
    b.attestations.push(Attestation { slot: 1, beacon_block_root: h(40), index: 0, aggregation_bits: vec![] });
    let event = LighthouseNetworkEvent::ResponseReceived {
        peer_id: p(1),
        id: RequestId::Range,
        response: Response::BlocksByRange(Some(b)),
    };
    let actions = w.handle_consensus_event(event, Some(0));
    assert_eq!(actions.len(), 4);
    assert!(matches!(actions[0], IndexAction::ProcessBlock(BlockState::Missed(1))));
    assert!(matches!(actions[1], IndexAction::ProcessBlock(BlockState::Proposed(_))));
    match &actions[2] {
        IndexAction::RegisterRootRequest(slot, root) => assert_eq!((*slot, *root), (1, h(40))),
        _ => panic!("registration expected"),
    }
    match &actions[3] {
        IndexAction::Command(NetworkCommand::SendBlockByRootRequest { peer_id, root }) => {
            assert_eq!((*peer_id, *root), (None, h(40)))
        },
        _ => panic!("command expected"),
    }
    assert!(!w.block_by_root_requests.request_exists(&h(40)));
    w.register_root_request(1, h(40));
    assert!(w.block_by_root_requests.request_exists(&h(40)));
}
