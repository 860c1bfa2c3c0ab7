use indexer::network::augmented_network_service::Request;
use indexer::network::event::{LighthouseNetworkEvent, Response};
use indexer::network::execution_service::DepositCursor;
use indexer::network::peers_manager::{peer_map, PeersManager};
use indexer::network::request_handler::{ChannelError, RequestHandler};
use indexer::network::request_manager::{send_request, ActiveRequests, RequestHistory, RequestManager};
use indexer::primitives::{Hash256, PeerId};

fn p(n: u64) -> PeerId {
    PeerId { id: n }
}

fn range(start: u64) -> Request {
    Request::BlocksByRange { start_slot: start, count: 32 }
}

fn start_slot(r: &Request) -> u64 {
    match r {
        Request::BlocksByRange { start_slot, .. } => *start_slot,
        Request::BlocksByRoot { .. } => u64::MAX,
    }
}

#[test]
fn history_tracks_the_request_in_flight() {
    let mut h = RequestHistory::from_request(range(1));
    assert!(h.is_pending());
    let mut next = 4;
    assert_eq!(h.get_or_insert_id(&mut next, p(1)), (4, p(1)));
    assert_eq!(next, 5);
    assert_eq!(h.get_or_insert_id(&mut next, p(2)), (4, p(1)));
    assert_eq!(next, 5);
    assert!(h.eq(4) && !h.eq(5));
    assert!(h.is_sent_to(p(1)) && !h.is_sent_to(p(2)));
    h.mark_as_failed();
    assert!(h.is_pending());
    assert!(h.was_not_found_on(&p(1)));
    assert!(!h.was_not_found_on(&p(2)));
    let (id, req) = h.as_request_with_id(&mut next, p(3));
    assert_eq!(id, 5);
    assert_eq!(start_slot(&req), 1);
    assert_eq!(h.id, Some((5, p(3))));
    h.reset_id();
    assert!(h.is_pending());
}

#[test]
fn a_request_goes_to_the_best_peer_that_did_not_fail_it() {
    let mut h = RequestHistory::from_request(range(7));
    h.not_found_on.push(p(1));
    let mut next = 0;
    let a = send_request(&mut h, &mut next, &vec![p(1), p(2), p(3)]).unwrap();
    assert_eq!(a.peer_id, p(2));
    assert_eq!(a.request_id, 0);
    assert_eq!(start_slot(&a.request), 7);
    assert_eq!(next, 1);
    let none = send_request(&mut h, &mut next, &vec![p(1)]);
    assert!(none.is_none());
    assert!(h.is_pending());
}

#[test]
fn active_requests_are_found_and_dropped_by_id() {
    let mut active = ActiveRequests::new();
    let mut a = RequestHistory::from_request(range(1));
    a.id = Some((3, p(1)));
    active.push(a);
    active.push(RequestHistory::from_request(range(2)));
    assert_eq!(active.find_by_request_id(3), Some(0));
    assert_eq!(active.find_by_request_id(4), None);
    active.remove(3);
    assert_eq!(active.len(), 1);
    assert_eq!(start_slot(&active.get(0).request), 2);
}

#[test]
fn manager_resends_and_hands_back_responses() {
    let mut m = RequestManager::new();
    let a = m.send_request(range(10), &vec![p(1), p(2)]).unwrap();
    assert_eq!((a.peer_id, a.request_id), (p(1), 0));
    assert!(m.send_request(range(20), &vec![]).is_none());

    let (sent, response) = m.next_event(LighthouseNetworkEvent::PeerConnectedOutgoing(p(3)), &vec![]);
    assert!(response.is_none());
    assert_eq!(sent.len(), 1);
    assert_eq!((sent[0].peer_id, sent[0].request_id, start_slot(&sent[0].request)), (p(3), 1, 20));

    let (sent, _) = m.next_event(LighthouseNetworkEvent::RpcFailed { id: 0, peer_id: p(1) }, &vec![p(1), p(2)]);
    assert_eq!(sent.len(), 1);
    assert_eq!((sent[0].peer_id, sent[0].request_id), (p(2), 2));

    let (sent, _) = m.next_event(LighthouseNetworkEvent::PeerDisconnected(p(3)), &vec![p(3), p(4)]);
    assert_eq!(sent.len(), 1);
    assert_eq!((sent[0].peer_id, sent[0].request_id, start_slot(&sent[0].request)), (p(4), 3, 20));

    let (sent, response) = m.next_event(
        LighthouseNetworkEvent::ResponseReceived { peer_id: p(2), id: 2, response: Response::Other },
        &vec![],
    );
    assert!(sent.is_empty());
    assert!(matches!(response, Some(Response::Other)));

    let (sent, response) = m.next_event(LighthouseNetworkEvent::Other, &vec![p(1)]);
    assert!(sent.is_empty() && response.is_none());
}

#[test]
fn channels_are_created_once_and_activated() {
    let mut handler = RequestHandler::new();
    assert_eq!(handler.activate(p(1)), Err(ChannelError::NotCreated));
    assert_eq!(handler.create_channel(p(1)), Ok(()));
    assert_eq!(handler.create_channel(p(1)), Err(ChannelError::AlreadyCreated));
    assert_eq!(handler.activate(p(1)), Ok(()));
    assert_eq!(handler.activate(p(1)), Err(ChannelError::NotCreated));
    assert_eq!(handler.create_channel(p(1)), Ok(()));
    handler.close_channel(p(1));
    assert_eq!(handler.activate(p(1)), Err(ChannelError::NotCreated));
    assert_eq!(ChannelError::AlreadyCreated.message(), "A channel has already been created for this peer");
    assert_eq!(ChannelError::NotCreated.message(), "Trying to activate a non existant channel");
}

#[test]
fn ten_peers_are_dialled() {
    let peers: Vec<(PeerId, String)> = (0..15u64).map(|i| (p(i), format!("/ip4/10.0.0.{i}/tcp/9000"))).collect();
    let m = PeersManager::new(&peers);
    assert_eq!(m.connected_peers().len(), 10);
    assert_eq!(m.elligible_peers().len(), 5);
    let mut all: Vec<u64> = m.connected_peers().iter().chain(m.elligible_peers().iter()).map(|e| e.0.id).collect();
    all.sort();
    assert_eq!(all, (0..15u64).collect::<Vec<_>>());

    let few = vec![(p(1), "a".to_string()), (p(2), "b".to_string()), (p(1), "c".to_string())];
    let map = peer_map(&few);
    assert_eq!(map, vec![(p(1), "c".to_string()), (p(2), "b".to_string())]);
    let m = PeersManager::new(&few);
    assert_eq!(m.connected_peers().len(), 2);
    assert!(m.elligible_peers().is_empty());

    let chosen = PeersManager::from_choice(map, &vec![p(2)]);
    assert_eq!(chosen.connected_peers(), &vec![(p(2), "b".to_string())]);
    assert_eq!(chosen.elligible_peers(), &vec![(p(1), "c".to_string())]);
}

#[test]
fn deposit_logs_are_read_in_contiguous_ranges() {
    let mut c = DepositCursor::new(11_052_984);
    assert_eq!(c.range(), (11_052_984, 11_053_984));
    c.on_result(false);
    assert_eq!(c.range(), (11_052_984, 11_053_984));
    c.on_result(true);
    assert_eq!(c.range(), (11_053_984, 11_054_984));
}

#[test]
fn by_root_requests_copy_their_roots() {
    let r = Request::BlocksByRoot { block_roots: vec![Hash256 { w0: 1, w1: 2, w2: 3, w3: 4 }] };
    let mut h = RequestHistory::from_request(r);
    let mut next = 0;
    let (_, copy) = h.as_request_with_id(&mut next, p(9));
    match copy {
        Request::BlocksByRoot { block_roots } => assert_eq!(block_roots, vec![Hash256 { w0: 1, w1: 2, w2: 3, w3: 4 }]),
        _ => panic!("not a by-root request"),
    }
}
