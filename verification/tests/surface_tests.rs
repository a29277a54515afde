//! The newer surfaces under concrete scenarios: the RPC front, the
//! bootstrapped monitor, branch expansion, the storage walk, the context
//! tables, and the per-peer broadcast plan.

use shell_core::assoc::KeySet;
use shell_core::bootstrap::{expand_branch_received, BootstrapAction};
use shell_core::context::TezedgeContext;
use shell_core::effects::{broadcast_plan, decode_or_graylist, ReaderDecision};
use shell_core::hash::operation_hash;
use shell_core::ipc_context::{serve_context_request, ContextRequest, ContextResponse};
use shell_core::mempool::{
    mempool_reducer, ActionMeta, Applied, MempoolAction, MempoolState, PeerAddress,
};
use shell_core::messages::{
    AdvertiseMessage, BlockHeader, Operation, OperationMessage, PeerMessage, PeerMessageResponse,
};
use shell_core::rpc::{rpc_request_decision, BootstrappedMonitor, RpcDecision, RpcRequest};
use shell_core::storage::MempoolStorage;
use shell_core::store::{Dispatcher, Store};
use shell_core::echo::EchoMiddleware;

fn hash(fill: u8) -> Vec<u8> {
    vec![fill; 32]
}

fn meta(id: u64) -> ActionMeta {
    ActionMeta { id, time_ns: id }
}

fn addr(port: u16) -> PeerAddress {
    PeerAddress { ip: 0x7f00_0001, port }
}

fn sample_header(level: i32) -> BlockHeader {
    BlockHeader::new(
        level,
        1,
        hash(0xaa),
        1_650_000_000,
        4,
        hash(0xbb),
        vec![vec![0], vec![0, 0, 0, 0, 0, 0, 0, 42]],
        hash(0xcc),
        vec![1, 2, 3, 4],
    )
}

#[test]
fn rpc_decision_routes_each_request() {
    match rpc_request_decision(
        true,
        false,
        RpcRequest::InjectOperation {
            operation: vec![1, 2],
            operation_hash: hash(1),
            rpc_id: 5,
        },
    ) {
        RpcDecision::Dispatch { operation, operation_hash, rpc_id } => {
            assert_eq!(operation, vec![1, 2]);
            assert_eq!(operation_hash, hash(1));
            assert_eq!(rpc_id, 5);
        }
        _ => panic!("an injection with a head ready must dispatch"),
    }
    match rpc_request_decision(
        false,
        false,
        RpcRequest::InjectOperation {
            operation: vec![1],
            operation_hash: hash(1),
            rpc_id: 5,
        },
    ) {
        RpcDecision::ReplyError { message } => assert_eq!(message, "head is not ready"),
        _ => panic!("an injection before the head must be refused"),
    }
    assert!(matches!(
        rpc_request_decision(false, true, RpcRequest::MempoolStatus),
        RpcDecision::ReplyEmptyString
    ));
    assert!(matches!(
        rpc_request_decision(false, false, RpcRequest::MempoolStatus),
        RpcDecision::ReplyNull
    ));
    assert!(matches!(
        rpc_request_decision(false, false, RpcRequest::GetPendingOperations { rpc_id: 9 }),
        RpcDecision::DispatchPending { rpc_id: 9 }
    ));
    assert!(matches!(
        rpc_request_decision(false, false, RpcRequest::RequestCurrentHeadFromConnectedPeers),
        RpcDecision::AskHeads
    ));
}

#[test]
fn bootstrapped_monitor_streams_until_done() {
    let mut monitor = BootstrappedMonitor::new();
    let (respond, done) = monitor.subscribe(1);
    assert!(!respond && !done);
    let notified = monitor.new_block(hash(1), 100, false);
    assert_eq!(notified, vec![1]);
    let (respond, done) = monitor.subscribe(2);
    assert!(respond && !done);
    let notified = monitor.new_block(hash(2), 200, true);
    assert_eq!(notified, vec![1, 2]);
    // Everyone was closed; a late subscriber is answered and closed at once.
    let (respond, done) = monitor.subscribe(3);
    assert!(respond && done);
    let notified = monitor.new_block(hash(3), 300, true);
    assert_eq!(notified, Vec::<u64>::new());
}

#[test]
fn branch_expansion_votes_tip_and_predecessor() {
    let peer = addr(1);
    let head = sample_header(10);
    let actions = expand_branch_received(&peer, &head);
    assert_eq!(actions.len(), 3);
    let tip = match &actions[0] {
        BootstrapAction::PeerBranchReceived { peer: p, level, tip_hash } => {
            assert_eq!(*p, peer);
            assert_eq!(*level, 10);
            tip_hash.clone()
        }
        _ => panic!("the branch record must come first"),
    };
    match &actions[1] {
        BootstrapAction::BlockSupporterSeen { peer: p, block_hash, level } => {
            assert_eq!(*p, peer);
            assert_eq!(*block_hash, hash(0xaa));
            assert_eq!(*level, 9);
        }
        _ => panic!("the predecessor vote must come second"),
    }
    match &actions[2] {
        BootstrapAction::BlockSupporterSeen { peer: p, block_hash, level } => {
            assert_eq!(*p, peer);
            assert_eq!(*block_hash, tip);
            assert_eq!(*level, 10);
        }
        _ => panic!("the tip vote must come last"),
    }
}

#[test]
fn undecodable_bytes_graylist_the_peer() {
    let peer = addr(7);
    let bad = vec![1, 2, 3];
    match decode_or_graylist(&bad, &peer) {
        Err(ReaderDecision::GraylistPeer { address }) => assert_eq!(address, peer),
        _ => panic!("bad bytes must graylist"),
    }
    let good = PeerMessageResponse::from_message(PeerMessage::Bootstrap).as_bytes().unwrap();
    match decode_or_graylist(&good, &peer) {
        Ok(resp) => assert_eq!(resp.into_messages().len(), 1),
        Err(_) => panic!("a whole response must decode"),
    }
}

#[test]
fn advertise_decode_enforces_the_list_bounds() {
    let long = AdvertiseMessage::new(vec!["10.0.0.1:9732".to_string(); 101]);
    let bytes =
        PeerMessageResponse::from_message(PeerMessage::Advertise(long)).as_bytes().unwrap();
    assert!(PeerMessageResponse::from_bytes(&bytes).is_none());

    let wide = AdvertiseMessage::new(vec![
        "012345678901234567890123456789012345678901234567".to_string(),
    ]);
    let bytes =
        PeerMessageResponse::from_message(PeerMessage::Advertise(wide)).as_bytes().unwrap();
    assert!(PeerMessageResponse::from_bytes(&bytes).is_none());

    let fits = AdvertiseMessage::new(vec!["10.0.0.1:9732".to_string(); 100]);
    let bytes =
        PeerMessageResponse::from_message(PeerMessage::Advertise(fits)).as_bytes().unwrap();
    assert!(PeerMessageResponse::from_bytes(&bytes).is_some());
}

#[test]
fn response_keeps_the_bytes_it_was_decoded_from() {
    let bytes = PeerMessageResponse::from_message(PeerMessage::Bootstrap).as_bytes().unwrap();
    let resp = PeerMessageResponse::from_bytes(&bytes).unwrap();
    assert_eq!(resp.as_bytes().unwrap(), bytes);
}

#[test]
fn storage_iter_walks_both_lists() {
    let mut storage = MempoolStorage::new();
    let op1 = Operation::new(hash(1), vec![1]);
    let op2 = Operation::new(hash(2), vec![2]);
    storage.put_pending(OperationMessage::new(op1)).unwrap();
    storage.put_known_valid(OperationMessage::new(op2)).unwrap();
    let items = storage.iter().unwrap();
    assert_eq!(items.len(), 2);
}

#[test]
fn context_serves_ids_hashes_and_shapes() {
    let mut context = TezedgeContext::new();
    context.set_hash_id(&hash(1), 44);
    context.set_object_hash(44, hash(2));
    context.set_shape(7, vec![b"data".to_vec(), b"rolls".to_vec()]);

    match serve_context_request(&context, &ContextRequest::GetContextHashId(hash(1))) {
        (ContextResponse::GetContextHashIdResponse(Some(44)), true) => {}
        _ => panic!("a recorded context hash must answer its id"),
    }
    match serve_context_request(&context, &ContextRequest::GetContextHashId(hash(9))) {
        (ContextResponse::GetContextHashIdResponse(None), true) => {}
        _ => panic!("an unknown context hash must answer nothing"),
    }
    match serve_context_request(&context, &ContextRequest::GetHash(44)) {
        (ContextResponse::GetContextHashResponse(Some(h)), true) => assert_eq!(h, hash(2)),
        _ => panic!("a recorded id must answer its object hash"),
    }
    match serve_context_request(&context, &ContextRequest::GetShape(7)) {
        (ContextResponse::GetShapeResponse(Some(dirs)), true) => {
            assert_eq!(dirs, vec![b"data".to_vec(), b"rolls".to_vec()]);
        }
        _ => panic!("a recorded shape must answer its directories"),
    }
    match serve_context_request(&context, &ContextRequest::GetShape(8)) {
        (ContextResponse::GetShapeResponse(None), true) => {}
        _ => panic!("an unknown shape must answer nothing"),
    }
}

#[test]
fn broadcast_plan_filters_what_the_peer_saw() {
    let peer = addr(3);
    let mut seen = KeySet::new();
    seen.insert(hash(4));
    let head = sample_header(5);
    let (message, done) = broadcast_plan(
        &peer,
        &seen,
        &vec![9, 9, 9, 9],
        &head,
        &vec![hash(4), hash(5)],
        &vec![hash(6)],
    );
    let mempool = message.current_mempool();
    assert_eq!(mempool.known_valid(), &vec![hash(5)]);
    assert_eq!(mempool.pending(), &vec![hash(6)]);
    assert_eq!(done.len(), 2);
    match &done[0] {
        MempoolAction::BroadcastDone { address, hash: h } => {
            assert_eq!(*address, peer);
            assert_eq!(*h, hash(5));
        }
        _ => panic!("each sent hash must be recorded"),
    }
    match &done[1] {
        MempoolAction::BroadcastDone { address, hash: h } => {
            assert_eq!(*address, peer);
            assert_eq!(*h, hash(6));
        }
        _ => panic!("each sent hash must be recorded"),
    }
}

#[test]
fn classified_operation_is_not_readmitted() {
    let mut state = MempoolState::new();
    let op = Operation::new(hash(1), vec![3, 3]);
    let h = operation_hash(&op);
    mempool_reducer(
        &mut state,
        &MempoolAction::OperationInject {
            operation: op,
            operation_hash: h.clone(),
            rpc_id: 1,
        },
        &meta(1),
    );
    let applied = Applied { hash: h.clone(), protocol_data_json: "{}".to_string() };
    mempool_reducer(&mut state, &MempoolAction::OperationApplied { applied }, &meta(2));
    assert!(state.validated_operations.ops.contains_key(&h));
    assert!(!state.pending_operations.contains_key(&h));

    // A second injection of the same operation changes nothing: the hash
    // stays in exactly one pool.
    let op_again = Operation::new(hash(1), vec![3, 3]);
    mempool_reducer(
        &mut state,
        &MempoolAction::OperationInject {
            operation: op_again,
            operation_hash: h.clone(),
            rpc_id: 2,
        },
        &meta(3),
    );
    assert!(!state.pending_operations.contains_key(&h));
    assert!(state.validated_operations.ops.contains_key(&h));
}

#[test]
fn disabled_mempool_ignores_every_action() {
    let mut state = MempoolState::new();
    state.disabled = true;
    let op = Operation::new(hash(1), vec![1]);
    let h = operation_hash(&op);
    mempool_reducer(
        &mut state,
        &MempoolAction::OperationInject {
            operation: op,
            operation_hash: h.clone(),
            rpc_id: 1,
        },
        &meta(1),
    );
    assert!(!state.pending_operations.contains_key(&h));
}

#[test]
fn store_reports_its_initial_state() {
    let store: Store<shell_core::echo::EchoServerState, shell_core::echo::EchoServerAction, EchoMiddleware> =
        Store::new(shell_core::echo::EchoServerState::Initial);
    assert!(matches!(store.get_state(), shell_core::echo::EchoServerState::Initial));
    let mut d: Dispatcher<u8> = Dispatcher::new();
    assert!(d.is_empty());
    d.dispatch(1);
    assert!(!d.is_empty());
}
