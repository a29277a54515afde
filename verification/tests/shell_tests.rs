//! The state machine under concrete scenarios: mempool transitions, the
//! prechecker fast path, bootstrap's main-block agreement, and the effect
//! decisions around them.

use std::cell::RefCell;
use std::rc::Rc;

use shell_core::bootstrap::{
    bootstrap_reducer, main_block, BlockSupport, BootstrapAction, BootstrapState,
};
use shell_core::assoc::{KeyMap, KeySet};
use shell_core::context::{ContextApi, TezedgeContext};
use shell_core::echo::{echo_server_middleware, EchoServerAction, EchoServerState, StreamState};
use shell_core::effects::{
    expand_validate_result, filter_unseen, inject_reply, read_message_decision,
    peer_connection_closed_effects, ReaderDecision, RpcReply,
};
use shell_core::generator::{range_extended, range_simple, Constraint};
use shell_core::hash::operation_hash;
use shell_core::mempool::{
    mempool_reducer, ActionMeta, Applied, Errored, MempoolAction, MempoolState, OperationKind,
    OperationState, OperationValidationResult, PeerAddress, PrevalidatorWrapper, ValidateResult,
};
use shell_core::messages::{GetCurrentBranchMessage, Operation, PeerMessage};
use shell_core::prechecker::{
    prechecker_reducer, validate_endorsement, EndorsementValidationError, EndorsingRights, Key,
    OperationDecodedContents, PrecheckResult, PrecheckerAction, PrecheckerOperationState,
    PrecheckerState,
};
use shell_core::router::{create_routes, HandlerId};
use shell_core::store::{Dispatcher, Middleware, State, Store};
use shell_core::storage::{MempoolOperationType, MempoolStorage};
use shell_core::tezedge_state::{TezedgeState, TezedgeStateWrapper};
use shell_core::ipc_context::{serve_context_request, ContextRequest, ContextResponse};

fn hash(fill: u8) -> Vec<u8> {
    vec![fill; 32]
}

fn meta(id: u64) -> ActionMeta {
    ActionMeta { id, time_ns: 1_000_000 + id }
}

fn addr(port: u16) -> PeerAddress {
    PeerAddress::new(0x7f000001, port)
}

#[test]
fn inject_then_apply_moves_operation_through_pools() {
    let mut state = MempoolState::new();
    let op = Operation::new(hash(1), vec![0, 9, 9]);
    let h = operation_hash(&op);
    mempool_reducer(
        &mut state,
        &MempoolAction::OperationInject { operation: op, operation_hash: h.clone(), rpc_id: 42 },
        &meta(1),
    );
    assert!(state.pending_operations.contains_key(&h));
    assert!(state.injecting_rpc_ids.contains_key(&h));

    let applied = Applied { hash: h.clone(), protocol_data_json: "{}".to_string() };
    mempool_reducer(&mut state, &MempoolAction::OperationApplied { applied }, &meta(2));
    assert!(!state.pending_operations.contains_key(&h));
    assert!(state.validated_operations.ops.contains_key(&h));
    assert_eq!(state.validated_operations.applied.len(), 1);
    assert!(!state.injecting_rpc_ids.contains_key(&h));
    assert_eq!(state.injected_rpc_ids, vec![42]);

    mempool_reducer(&mut state, &MempoolAction::RpcRespond, &meta(3));
    assert_eq!(state.injected_rpc_ids.len(), 0);
}

#[test]
fn refused_operation_lands_in_refused_pool() {
    let mut state = MempoolState::new();
    let op = Operation::new(hash(2), vec![1, 2]);
    let h = operation_hash(&op);
    mempool_reducer(
        &mut state,
        &MempoolAction::OperationInject { operation: op, operation_hash: h.clone(), rpc_id: 7 },
        &meta(1),
    );
    let errored = Errored { hash: h.clone(), error_json: "bad".to_string() };
    mempool_reducer(
        &mut state,
        &MempoolAction::OperationErrored {
            errored,
            result: OperationValidationResult::Refused,
        },
        &meta(2),
    );
    assert!(state.validated_operations.refused_ops.contains_key(&h));
    assert!(!state.validated_operations.ops.contains_key(&h));
    assert_eq!(state.validated_operations.refused.len(), 1);
}

#[test]
fn peer_hash_seen_then_drain_moves_requests_to_pending() {
    let mut state = MempoolState::new();
    let peer = addr(9732);
    mempool_reducer(
        &mut state,
        &MempoolAction::OperationHashSeen { address: peer, hash: hash(9), block_time: 100 },
        &meta(1),
    );
    let k = peer.key_bytes();
    let ps = state.peer_state.get(&k).unwrap();
    assert!(ps.requesting_full_content.contains(&hash(9)));
    assert!(ps.seen_operations.contains(&hash(9)));
    assert!(state.operations_state.contains_key(&hash(9)));
    let record = state.operations_state.get(&hash(9)).unwrap();
    assert!(matches!(record.state, OperationState::ReceivedHash));
    assert_eq!(record.block_timestamp, 100 * 1_000_000_000);

    mempool_reducer(&mut state, &MempoolAction::GetOperationsPending { address: peer }, &meta(2));
    let ps = state.peer_state.get(&k).unwrap();
    assert_eq!(ps.requesting_full_content.len(), 0);
    assert!(ps.pending_full_content.contains(&hash(9)));
}

#[test]
fn broadcast_done_suppresses_duplicates() {
    let mut state = MempoolState::new();
    let peer = addr(1000);
    mempool_reducer(
        &mut state,
        &MempoolAction::RecvDone { address: peer, block_hash: hash(3), level: 5 },
        &meta(1),
    );
    mempool_reducer(
        &mut state,
        &MempoolAction::BroadcastDone { address: peer, hash: hash(4) },
        &meta(2),
    );
    let k = peer.key_bytes();
    let ps = state.peer_state.get(&k).unwrap();
    assert!(ps.seen_operations.contains(&hash(4)));
    // The filter now keeps the hash away from this peer forever.
    let unseen = filter_unseen(&vec![hash(4), hash(5)], &ps.seen_operations);
    assert_eq!(unseen, vec![hash(5)]);
}

#[test]
fn expand_validate_result_orders_verdicts() {
    let result = ValidateResult {
        prevalidator: PrevalidatorWrapper { chain_id: hash(9), predecessor: hash(8) },
        applied: vec![Applied { hash: hash(1), protocol_data_json: "a".to_string() }],
        refused: vec![Errored { hash: hash(2), error_json: "r".to_string() }],
        branch_refused: vec![Errored { hash: hash(3), error_json: "br".to_string() }],
        branch_delayed: vec![Errored { hash: hash(4), error_json: "bd".to_string() }],
    };
    let actions = expand_validate_result(&result);
    assert_eq!(actions.len(), 5);
    match &actions[0] {
        MempoolAction::PrevalidatorReady(pv) => {
            assert_eq!(pv.chain_id, hash(9));
            assert_eq!(pv.predecessor, hash(8));
        }
        _ => panic!("expected the prevalidator first"),
    }
    assert!(matches!(&actions[1], MempoolAction::OperationApplied { .. }));
    assert!(matches!(
        &actions[2],
        MempoolAction::OperationErrored { result: OperationValidationResult::Refused, .. }
    ));
    assert!(matches!(
        &actions[3],
        MempoolAction::OperationErrored { result: OperationValidationResult::BranchRefused, .. }
    ));
    assert!(matches!(
        &actions[4],
        MempoolAction::OperationErrored { result: OperationValidationResult::BranchDelayed, .. }
    ));
}

#[test]
fn inject_without_head_answers_not_ready() {
    let (reply, broadcast) = inject_reply(false);
    assert!(matches!(reply, RpcReply::Message("head is not ready")));
    assert!(!broadcast);
    let (reply, broadcast) = inject_reply(true);
    assert!(matches!(reply, RpcReply::Null));
    assert!(broadcast);
}

#[test]
fn reader_drops_other_chains() {
    let ours = vec![1, 2, 3, 4];
    let msg = PeerMessage::GetCurrentBranch(GetCurrentBranchMessage::new(vec![9, 9, 9, 9]));
    assert!(matches!(read_message_decision(&msg, &ours), ReaderDecision::DropOtherChain));
    let same = PeerMessage::GetCurrentBranch(GetCurrentBranchMessage::new(ours.clone()));
    assert!(matches!(read_message_decision(&same, &ours), ReaderDecision::Ignore));
    assert!(matches!(
        read_message_decision(&PeerMessage::Bootstrap, &ours),
        ReaderDecision::RespondAdvertise
    ));
    assert!(matches!(
        peer_connection_closed_effects(&addr(5)),
        ReaderDecision::GraylistPeer { .. }
    ));
}

fn endorsement_encoding(branch: &[u8], level: i32, slot: u16, sig: &[u8]) -> Vec<u8> {
    let mut v = branch.to_vec();
    v.push(0);
    v.extend(level.to_be_bytes());
    v.extend(slot.to_be_bytes());
    v.extend(sig);
    v
}

#[test]
fn prechecker_fast_path_applies_valid_endorsement() {
    let signing = ed25519_dalek::SigningKey::from_bytes(&[7u8; 32]);
    let verifying = signing.verifying_key();
    let chain_id = vec![1, 2, 3, 4];
    let branch = hash(0x66);
    let unsigned = endorsement_encoding(&branch, 55, 3, &[]);
    let mut payload = vec![2u8];
    payload.extend(&chain_id);
    payload.extend(&unsigned);
    let sig = ed25519_dalek::Signer::sign(&signing, &payload);
    let encoding = endorsement_encoding(&branch, 55, 3, &sig.to_bytes());

    let contents = OperationDecodedContents::parse(&encoding).unwrap();
    assert!(contents.is_endorsement);
    assert_eq!(contents.level, 55);
    assert_eq!(contents.slot, 3);

    let mut tagged_pk = vec![0u8];
    tagged_pk.extend(verifying.to_bytes());
    let rights = EndorsingRights { level: 55, slots: vec![(3, tagged_pk.clone())] };
    let (result, err) = validate_endorsement(&encoding, &chain_id, &contents, &rights);
    assert!(matches!(result, PrecheckResult::Applied));
    assert!(err.is_none());

    // A tampered signature is refused.
    let mut bad = encoding.clone();
    let n = bad.len();
    bad[n - 1] ^= 0xff;
    let (result, err) = validate_endorsement(&bad, &chain_id, &contents, &rights);
    assert!(matches!(result, PrecheckResult::Refused));
    assert_eq!(err, Some(EndorsementValidationError::InvalidSignature));

    // A key of another scheme defers to the protocol.
    let mut ecdsa_pk = vec![1u8];
    ecdsa_pk.extend(verifying.to_bytes());
    let other_rights = EndorsingRights { level: 55, slots: vec![(3, ecdsa_pk)] };
    let (result, err) = validate_endorsement(&encoding, &chain_id, &contents, &other_rights);
    assert!(matches!(result, PrecheckResult::ProtocolNeeded));
    assert!(err.is_none());

    // A wrong level is refused before any lookup.
    let wrong_rights = EndorsingRights { level: 56, slots: vec![(3, tagged_pk)] };
    let (result, err) = validate_endorsement(&encoding, &chain_id, &contents, &wrong_rights);
    assert!(matches!(result, PrecheckResult::Refused));
    assert_eq!(err, Some(EndorsementValidationError::WrongLevel));

    // An unowned slot is refused.
    let empty_rights = EndorsingRights { level: 55, slots: vec![] };
    let (result, err) = validate_endorsement(&encoding, &chain_id, &contents, &empty_rights);
    assert!(matches!(result, PrecheckResult::Refused));
    assert_eq!(err, Some(EndorsementValidationError::NoSlotOwner));
}

#[test]
fn prechecker_lifecycle_reaches_applied() {
    let mut state = PrecheckerState::new();
    let op = Operation::new(hash(0x51), vec![0, 1]);
    let encoding = {
        let mut v = Vec::new();
        op.encode(&mut v);
        v
    };
    let key = Key { operation: operation_hash(&op) };
    let k = || Key { operation: key.operation.clone() };
    prechecker_reducer(
        &mut state,
        &PrecheckerAction::PrecheckOperationInit {
            key: k(),
            operation: op,
            operation_binary_encoding: encoding.clone(),
        },
        &meta(1),
    );
    prechecker_reducer(&mut state, &PrecheckerAction::DecodeOperation { key: k() }, &meta(2));
    let contents = OperationDecodedContents::parse(&encoding).unwrap();
    prechecker_reducer(
        &mut state,
        &PrecheckerAction::OperationDecoded { key: k(), contents },
        &meta(3),
    );
    prechecker_reducer(&mut state, &PrecheckerAction::GetEndorsingRights { key: k() }, &meta(4));
    prechecker_reducer(
        &mut state,
        &PrecheckerAction::EndorsingRightsReady { key: k(), endorsing_rights_level: 10 },
        &meta(5),
    );
    prechecker_reducer(&mut state, &PrecheckerAction::ValidateEndorsement { key: k() }, &meta(6));
    prechecker_reducer(
        &mut state,
        &PrecheckerAction::EndorsementValidationApplied {
            key: k(),
            protocol_data: "{}".to_string(),
        },
        &meta(7),
    );
    let entry = state.operations.get(&key.operation).unwrap();
    assert!(matches!(entry.state, PrecheckerOperationState::Applied { .. }));
}

#[test]
fn three_peers_converge_on_main_block() {
    let mut supporters: KeyMap<BlockSupport> = KeyMap::new();
    let mut set = KeySet::new();
    set.insert(addr(1).key_bytes());
    set.insert(addr(2).key_bytes());
    set.insert(addr(3).key_bytes());
    supporters.insert(hash(0xa1), BlockSupport { level: 100, supporters: set });
    let chosen = main_block(&supporters, 2).unwrap();
    assert_eq!(chosen.0, 100);
    assert_eq!(chosen.1, hash(0xa1));
}

#[test]
fn conflicting_tips_pick_the_quorum() {
    let mut state = BootstrapState::Init { time: 0 };
    bootstrap_reducer(&mut state, &BootstrapAction::PeersMainBranchFindPending, &meta(1));
    for (peer, block) in [(1u16, 0x11u8), (2, 0x11), (3, 0x22)] {
        bootstrap_reducer(
            &mut state,
            &BootstrapAction::BlockSupporterSeen {
                peer: addr(peer),
                block_hash: hash(block),
                level: 100,
            },
            &meta(2),
        );
    }
    bootstrap_reducer(
        &mut state,
        &BootstrapAction::PeersMainBranchFindSuccess { peers_bootstrapped_min: 2 },
        &meta(3),
    );
    match state {
        BootstrapState::PeersMainBranchFindSuccess { main_block_level, main_block_hash, .. } => {
            assert_eq!(main_block_level, 100);
            assert_eq!(main_block_hash, hash(0x11));
        }
        _ => panic!("expected the main branch to be found"),
    }
}

#[test]
fn quorum_short_stays_pending() {
    let mut state = BootstrapState::Init { time: 0 };
    bootstrap_reducer(&mut state, &BootstrapAction::PeersMainBranchFindPending, &meta(1));
    bootstrap_reducer(
        &mut state,
        &BootstrapAction::BlockSupporterSeen { peer: addr(1), block_hash: hash(7), level: 10 },
        &meta(2),
    );
    bootstrap_reducer(
        &mut state,
        &BootstrapAction::PeersMainBranchFindSuccess { peers_bootstrapped_min: 2 },
        &meta(3),
    );
    assert!(matches!(state, BootstrapState::PeersMainBranchFindPending { .. }));
}

#[test]
fn storage_put_get_find_delete() {
    let mut storage = MempoolStorage::new();
    let op = Operation::new(hash(0x71), vec![4, 5, 6]);
    let h = operation_hash(&op);
    let message = shell_core::messages::OperationMessage::new(op);
    storage.put_pending(message).unwrap();
    assert!(storage.get(MempoolOperationType::Pending, &h).is_some());
    assert!(storage.get(MempoolOperationType::KnownValid, &h).is_none());
    assert!(storage.find(&h).is_some());
    storage.delete(&h);
    assert!(storage.find(&h).is_none());
}

#[test]
fn context_assigns_only_known_hashes() {
    let mut ctx = TezedgeContext::new();
    let key = vec![b"data".to_vec(), b"rolls".to_vec()];
    ctx.set(&key, vec![1, 2, 3]).unwrap();
    assert_eq!(ctx.get_key(&key).unwrap(), vec![1, 2, 3]);
    assert!(ctx.checkout(&hash(1)).is_err());
    ctx.commit(&hash(2), &hash(1)).unwrap();
    assert!(ctx.checkout(&hash(1)).is_ok());
    ctx.delete_to_diff(&key).unwrap();
    assert!(ctx.get_key(&key).is_err());
}

#[test]
fn wrapper_reports_connections() {
    let mut w = TezedgeStateWrapper::from_state(TezedgeState::new(5));
    assert_eq!(w.newest_time_seen(), 5);
    assert!(!w.is_peer_connected(&addr(1)));
    w.peer_connected(&addr(1), 9);
    assert!(w.is_peer_connected(&addr(1)));
    let stats = w.stats();
    assert_eq!(stats.newest_time_seen, 9);
    assert_eq!(stats.connected_peers, 1);
}

#[test]
fn constraint_and_ranges() {
    let c = Constraint::new(Some(2), Some(5));
    assert!(c.contains(&2));
    assert!(c.contains(&5));
    assert!(!c.contains(&1));
    assert!(!c.contains(&6));
    assert_eq!(range_simple(&c), vec![2, 5]);
    assert_eq!(range_extended(&c), vec![2, 5, 1, 6]);
    let open = Constraint::new(None, Some(3));
    assert_eq!(range_extended(&open), vec![0, 3, 4]);
}

#[test]
fn routes_double_every_path() {
    let routes = create_routes(false);
    assert_eq!(routes.len(), 66);
    for (i, r) in routes.iter().enumerate() {
        assert_eq!(r.handler == HandlerId::DescribeRoute, i % 2 == 1);
        assert!(r.handler != HandlerId::InjectBlock);
    }
    let sandbox = create_routes(true);
    assert_eq!(sandbox.len(), 68);
    assert!(sandbox.iter().any(|r| r.handler == HandlerId::InjectBlock));
}

#[test]
fn operation_kinds_from_tags() {
    assert!(matches!(OperationKind::from_tag(0), OperationKind::Endorsement));
    assert!(matches!(OperationKind::from_tag(108), OperationKind::Transaction));
    assert!(matches!(OperationKind::from_tag(200), OperationKind::Unknown));
    assert!(matches!(
        OperationKind::from_operation_content_raw(&vec![]),
        OperationKind::Unknown
    ));
    assert!(matches!(
        OperationKind::from_operation_content_raw(&vec![17, 0]),
        OperationKind::FailingNoop
    ));
}

struct CountingEcho {
    started: Rc<RefCell<i32>>,
    echoed: Rc<RefCell<i32>>,
}

impl Middleware<EchoServerState, EchoServerAction> for CountingEcho {
    fn apply(
        &mut self,
        state: &EchoServerState,
        action: EchoServerAction,
        dispatcher: &mut Dispatcher<EchoServerAction>,
    ) -> Option<EchoServerAction> {
        let action = if state.wf_check() {
            echo_server_middleware(state, action, dispatcher)?
        } else {
            action
        };
        match &action {
            EchoServerAction::Started => {
                assert!(matches!(state, &EchoServerState::Active { .. }));
                *self.started.borrow_mut() += 1;
            }
            EchoServerAction::Echo { stream_id, data } => {
                assert_eq!((*stream_id, data), (1u64, &vec![0x00]));
                *self.echoed.borrow_mut() += 1;
            }
            _ => {}
        }
        Some(action)
    }
}

#[test]
fn test_connection() {
    let started = Rc::new(RefCell::new(0));
    let echoed = Rc::new(RefCell::new(0));

    let mut store: Store<EchoServerState, EchoServerAction, CountingEcho> =
        Store::new(EchoServerState::Initial);
    store.add_middleware(CountingEcho { started: started.clone(), echoed: echoed.clone() });

    store.dispatch(EchoServerAction::Start);
    store.dispatch(EchoServerAction::Connected { stream_id: 1 });
    store.dispatch(EchoServerAction::Listen { stream_id: 1 });
    store.dispatch(EchoServerAction::Shout { stream_id: 1, data: vec![0x00] });
    store.event_loop_with(EchoServerAction::EchoSent { stream_id: 99 }, 100);

    assert_eq!(*started.borrow(), 1, "Should be started exactly once");
    assert_eq!(*echoed.borrow(), 1, "Should echo exactly once");
}

#[test]
fn echo_streams_walk_their_states() {
    let mut s = EchoServerState::Initial;
    s.apply(&EchoServerAction::Start);
    s.apply(&EchoServerAction::Connected { stream_id: 4 });
    assert!(matches!(s.with_stream(4), Some(StreamState::Initial)));
    s.apply(&EchoServerAction::Listen { stream_id: 4 });
    assert!(matches!(s.with_stream(4), Some(StreamState::Listening)));
    s.apply(&EchoServerAction::Shout { stream_id: 4, data: vec![1] });
    assert!(matches!(s.with_stream(4), Some(StreamState::Echoing)));
    s.apply(&EchoServerAction::EchoSent { stream_id: 4 });
    assert!(matches!(s.with_stream(4), Some(StreamState::Listening)));
    s.apply(&EchoServerAction::Disconnect { stream_id: 4 });
    assert!(matches!(s.with_stream(4), Some(StreamState::Disconnected)));
    assert!(s.with_stream(5).is_none());
}

#[test]
fn intervals_build_sorted_and_advance() {
    let mut pkhs: KeyMap<Vec<u8>> = KeyMap::new();
    pkhs.insert(addr(1).key_bytes(), vec![1; 16]);
    pkhs.insert(addr(2).key_bytes(), vec![2; 16]);
    let branches = vec![
        (addr(1), 100, hash(0x10), vec![hash(0x11), hash(0x12), hash(0x13)]),
        (addr(2), 100, hash(0x10), vec![hash(0x21)]),
    ];
    let intervals = shell_core::bootstrap::build_intervals(
        &branches,
        &pkhs,
        &vec![0xee; 16],
        0,
        100,
        &hash(0x10),
    );
    assert!(!intervals.is_empty());
    for w in intervals.windows(2) {
        let a = w[0].current.as_ref().unwrap().0;
        let b = w[1].current.as_ref().unwrap().0;
        assert!(a < b, "windows must be sorted by expected level");
    }
    // Feed the sorted windows into the header download phase and advance one.
    let mut state = BootstrapState::PeersMainBranchFindSuccess {
        time: 0,
        main_block_level: 100,
        main_block_hash: hash(0x10),
    };
    bootstrap_reducer(
        &mut state,
        &BootstrapAction::PeersBlockHeadersGetPending {
            main_chain_last_level: 100,
            peer_intervals: intervals,
        },
        &meta(1),
    );
    let (peer, level, expected) = match &state {
        BootstrapState::PeersBlockHeadersGetPending { peer_intervals, .. } => {
            let last = peer_intervals.last().unwrap();
            let (l, h) = last.current.as_ref().unwrap();
            (last.peer, *l, h.clone())
        }
        _ => panic!("expected the header download phase"),
    };
    bootstrap_reducer(
        &mut state,
        &BootstrapAction::PeerBlockHeaderReceived {
            peer,
            level,
            block_hash: expected.clone(),
            predecessor: hash(0x99),
            validation_pass: 4,
            operations_hash: hash(0x98),
        },
        &meta(2),
    );
    match &state {
        BootstrapState::PeersBlockHeadersGetPending { peer_intervals, main_chain, .. } => {
            // The downloaded tip seamlessly continues the main chain, so it
            // drains there at once and the window expects the predecessor.
            let last = peer_intervals.last().unwrap();
            assert_eq!(last.downloaded.len(), 0);
            let (l, h) = last.current.as_ref().unwrap();
            assert_eq!(*l, level - 1);
            assert_eq!(h, &hash(0x99));
            assert_eq!(main_chain.len(), 1);
            assert_eq!(main_chain.front().unwrap().block_hash, expected);
        }
        _ => panic!("expected to stay in the header download phase"),
    }
}

#[test]
fn advertisement_expands_to_per_hash_actions() {
    let mempool = shell_core::messages::Mempool::new(vec![hash(1)], vec![hash(2), hash(3)]);
    let actions = shell_core::effects::expand_mempool_advertisement(
        &addr(4),
        &mempool,
        &hash(9),
        12,
        500,
    );
    assert_eq!(actions.len(), 4);
    assert!(matches!(&actions[0], MempoolAction::RecvDone { level: 12, .. }));
    match &actions[1] {
        MempoolAction::OperationHashSeen { hash: h, block_time, .. } => {
            assert_eq!(h, &hash(1));
            assert_eq!(*block_time, 500);
        }
        _ => panic!("expected a hash-seen action"),
    }
    match &actions[3] {
        MempoolAction::OperationHashSeen { hash: h, .. } => assert_eq!(h, &hash(3)),
        _ => panic!("expected a hash-seen action"),
    }
}

#[test]
fn iter_value_walks_its_run() {
    assert!(shell_core::generator::IterValue::<usize>::new(vec![]).is_none());
    let mut it = shell_core::generator::IterValue::new(vec![10usize, 20, 30]).unwrap();
    assert_eq!(it.value(), 10);
    assert!(it.has_next());
    assert_eq!(it.value(), 20);
    assert!(it.has_next());
    assert_eq!(it.value(), 30);
    assert!(!it.has_next());
    assert_eq!(it.value(), 30);
}

#[test]
fn context_requests_are_served_from_the_tree() {
    let mut ctx = TezedgeContext::new();
    let key = vec![b"rolls".to_vec()];
    ctx.set(&key, vec![5, 5]).unwrap();
    let (resp, go_on) = serve_context_request(&ctx, &ContextRequest::GetValue(key.clone()));
    assert!(go_on);
    match resp {
        ContextResponse::GetValueResponse(Some(v)) => assert_eq!(v, vec![5, 5]),
        _ => panic!("expected the stored value"),
    }
    let (resp, _) = serve_context_request(
        &ctx,
        &ContextRequest::ContainsObject(vec![b"nothing".to_vec()]),
    );
    assert!(matches!(resp, ContextResponse::ContainsObjectResponse(false)));
    let (resp, go_on) = serve_context_request(&ctx, &ContextRequest::ShutdownCall);
    assert!(matches!(resp, ContextResponse::ShutdownResult));
    assert!(!go_on);
}

#[test]
fn to_key_joins_with_slashes() {
    let joined = shell_core::context::to_key(&vec![b"data".to_vec(), b"v1".to_vec(), b"x".to_vec()]);
    assert_eq!(joined, b"data/v1/x".to_vec());
    assert_eq!(shell_core::context::to_key(&vec![]), Vec::<u8>::new());
}

#[test]
fn operation_stats_fold_observations() {
    let mut stats = shell_core::mempool::OperationStats::new();
    let node = vec![3u8; 16];
    stats.received_in_current_head(
        &node,
        shell_core::mempool::OperationNodeCurrentHeadStats { time: 50, block_level: 7, block_timestamp: 1234 },
    );
    assert_eq!(stats.min_time, Some(50));
    assert_eq!(stats.first_block_timestamp, Some(1234));
    stats.content_received(&node, 40, &vec![108, 0, 0]);
    assert_eq!(stats.min_time, Some(40));
    assert!(matches!(stats.kind, Some(shell_core::mempool::OperationKind::Transaction)));
    stats.content_sent(&node, 90);
    assert_eq!(stats.min_time, Some(40));
    let record = stats.nodes.get(&node).unwrap();
    assert_eq!(record.received.len(), 1);
    assert_eq!(record.content_received, vec![40]);
    assert_eq!(record.content_sent, vec![90]);
    stats.validation_started(77);
    assert_eq!(stats.validation_started, Some(77));
}
