use protobuf::Message as _;
use std::collections::HashMap;

use gridrock::client::get_random_value;
use gridrock::errors::{ClientGrpcRequestProcessingError, ErrorA, ErrorB, ErrorC, ErrorD, StatusCode};
use gridrock::node_comm_client::build_endpoint;
use gridrock::node_comm_server::{
    check_join, forward_response, raft_message_request, forwarded_operation_type, get_cluster_info, join_response, ClusterState,
    JoinClusterRequest,
};
use gridrock::node_config::{parse_node_peers, PeerConfigError};
use gridrock::node_utils::{
    accept_proposal, advance_tick_clock, check_proposal, record_with_balance, PendingReplies, committed_entry_action, committed_result, db_operation_for,
    operation_type_of, CreateRequest, DbOperation, DelValRequest, EntryAction, EntryKind, GetValRequest,
    Operation, OperationType, RaftProcessedResponse, RaftProposal, UpdateRequest,
};
use gridrock::proposal_id::{init_node_id, next_proposal_id, ProposalIdState};
use gridrock::server::storage_response;

fn record(id: &str, balance: u64) -> CreateRequest {
    CreateRequest {
        unique_id: id.to_string(),
        balance,
        executable: true,
        rent_epoch: 0,
        data_hash: "test".to_string(),
        last_updated_slot: 0,
    }
}

#[test]
fn proposal_ids_carry_node_and_counter() {
    let mut ids = ProposalIdState::new();
    assert_eq!(next_proposal_id(&mut ids), 1);
    init_node_id(&mut ids, 3);
    assert_eq!(next_proposal_id(&mut ids), (3u64 << 48) | 2);
    assert_eq!(next_proposal_id(&mut ids), (3u64 << 48) | 3);
    assert_eq!(ids.next_sequence(), 4);
    assert_eq!(next_proposal_id(&mut ids), (3u64 << 48) | 5);
}

#[test]
fn proposal_ids_of_two_nodes_differ() {
    let mut a = ProposalIdState::new();
    let mut b = ProposalIdState::new();
    init_node_id(&mut a, 1);
    init_node_id(&mut b, 2);
    let ia: Vec<u64> = (0..5).map(|_| next_proposal_id(&mut a)).collect();
    let ib: Vec<u64> = (0..5).map(|_| next_proposal_id(&mut b)).collect();
    for x in &ia {
        assert!(!ib.contains(x));
        assert_eq!(x >> 48, 1);
    }
}

#[test]
fn only_the_leader_proposes() {
    assert_eq!(check_proposal(false, OperationType::Create), Err(ClientGrpcRequestProcessingError::NotLeader));
    assert_eq!(check_proposal(false, OperationType::Get), Err(ClientGrpcRequestProcessingError::NotLeader));
    assert_eq!(check_proposal(true, OperationType::Get), Ok(()));
    assert_eq!(check_proposal(true, OperationType::Create), Ok(()));
    assert_eq!(check_proposal(true, OperationType::Update), Ok(()));
    assert_eq!(check_proposal(true, OperationType::Delete), Ok(()));
}

#[test]
fn operation_kinds_and_db_operations() {
    assert_eq!(operation_type_of(&None), None);
    assert_eq!(operation_type_of(&Some(Operation::Get(GetValRequest { unique_id: "x".to_string() }))), Some(OperationType::Get));
    match db_operation_for(Operation::Update(UpdateRequest { unique_id: "u".to_string(), balance: 7 })) {
        DbOperation::Update { key, balance } => assert_eq!((key.as_str(), balance), ("u", 7)),
        _ => panic!("expected an update"),
    }
    match db_operation_for(Operation::Delete(DelValRequest { unique_id: "d".to_string() })) {
        DbOperation::Delete { key } => assert_eq!(key, "d"),
        _ => panic!("expected a delete"),
    }
    match db_operation_for(Operation::Create(record("c", 1))) {
        DbOperation::Create { record } => assert_eq!(record.unique_id, "c"),
        _ => panic!("expected a create"),
    }
}

#[test]
fn committed_results() {
    let r = committed_result(RaftProposal { proposal_id: 1, operation: None }, Ok(None));
    assert!(matches!(r, Err(ClientGrpcRequestProcessingError::NodeUnaware)));
    let r = committed_result(
        RaftProposal { proposal_id: 1, operation: Some(Operation::Create(record("k", 5))) },
        Err(gridrock::errors::DbError::KeyAlreadyExists("k".to_string())),
    );
    assert!(matches!(r, Err(ClientGrpcRequestProcessingError::DbResponseFailed)));
    let r = committed_result(RaftProposal { proposal_id: 1, operation: Some(Operation::Create(record("k", 5))) }, Ok(None))
        .ok()
        .unwrap();
    assert_eq!(r.id.as_deref(), Some("k"));
    assert!(r.success);
    assert_eq!(r.data.unwrap().balance, 5);
    let r = committed_result(
        RaftProposal { proposal_id: 2, operation: Some(Operation::Get(GetValRequest { unique_id: "k".to_string() })) },
        Ok(Some(record("k", 9))),
    )
    .ok()
    .unwrap();
    assert_eq!(r.data.unwrap().balance, 9);
    let r = committed_result(
        RaftProposal { proposal_id: 3, operation: Some(Operation::Delete(DelValRequest { unique_id: "k".to_string() })) },
        Ok(None),
    )
    .ok()
    .unwrap();
    assert_eq!(r.id.as_deref(), Some("k"));
    assert!(r.data.is_none());
}

#[test]
fn committed_entries_and_tick_clock() {
    assert_eq!(committed_entry_action(true, EntryKind::Normal), EntryAction::Skip);
    assert_eq!(committed_entry_action(false, EntryKind::Normal), EntryAction::ApplyProposal);
    assert_eq!(committed_entry_action(false, EntryKind::ConfChange), EntryAction::ApplyConfChange);
    assert_eq!(committed_entry_action(false, EntryKind::ConfChangeV2), EntryAction::Unsupported);
    assert_eq!(advance_tick_clock(100, 30, 100), (70, false));
    assert_eq!(advance_tick_clock(100, 100, 100), (100, true));
    assert_eq!(advance_tick_clock(20, 45, 100), (100, true));
}

#[test]
fn parse_node_peers_reads_id_address_pairs() {
    let peers = parse_node_peers("1:[::1]:50051, 2:[::1]:50052 ,,3:host:1").ok().unwrap();
    assert_eq!(peers.peer_ids, vec![1, 2, 3]);
    assert_eq!(peers.peer_registry.get(&1).unwrap(), "[::1]:50051");
    assert_eq!(peers.peer_registry.get(&2).unwrap(), "[::1]:50052");
    assert_eq!(peers.peer_registry.get(&3).unwrap(), "host:1");
    let peers = parse_node_peers("7:a,7:b").ok().unwrap();
    assert_eq!(peers.peer_ids, vec![7, 7]);
    assert_eq!(peers.peer_registry.get(&7).unwrap(), "b");
}

#[test]
fn parse_node_peers_errors() {
    assert_eq!(parse_node_peers("").err(), Some(PeerConfigError::NoPeers));
    assert_eq!(parse_node_peers(" , ").err(), Some(PeerConfigError::NoPeers));
    assert_eq!(parse_node_peers("1:a,noid").err(), Some(PeerConfigError::MissingColon));
    assert_eq!(parse_node_peers("x:a").err(), Some(PeerConfigError::InvalidPeerId));
    assert_eq!(parse_node_peers("x:a,nocolon").err(), Some(PeerConfigError::InvalidPeerId));
}

#[test]
fn cluster_info_and_joins() {
    let mut peers = HashMap::new();
    peers.insert(1u64, "a:1".to_string());
    peers.insert(2u64, "b:2".to_string());
    let state = ClusterState { leader_id: 2, peers };
    let info = get_cluster_info(&state);
    assert_eq!(info.leader_id, 2);
    let mut listed: Vec<(u64, String)> = info.peers.iter().map(|p| (p.node_id, p.address.clone())).collect();
    listed.sort();
    assert_eq!(listed, vec![(1, "a:1".to_string()), (2, "b:2".to_string())]);
    let refused = check_join(&state, &JoinClusterRequest { node_id: 1, address: "x".to_string() }).err().unwrap();
    assert_eq!(refused.code, StatusCode::Internal);
    assert_eq!(refused.message, "Node already exists in the cluster");
    assert!(check_join(&state, &JoinClusterRequest { node_id: 3, address: "c:3".to_string() }).is_ok());
    let ok = RaftProcessedResponse { id: None, success: true, data: None };
    let joined = join_response(&state, Ok(ok)).ok().unwrap();
    assert_eq!(joined.message, "Node joined successfully");
    assert_eq!(joined.peers.len(), 2);
    let failed = join_response(&state, Err(ClientGrpcRequestProcessingError::NotLeader)).err().unwrap();
    assert_eq!(failed.message, "the node is not a leader");
}

#[test]
fn forwarded_proposals() {
    let status = forwarded_operation_type(&None).err().unwrap();
    assert_eq!(status.message, "forwarded proposal has no operation");
    assert_eq!(
        forwarded_operation_type(&Some(Operation::Delete(DelValRequest { unique_id: "d".to_string() }))).ok(),
        Some(OperationType::Delete)
    );
    let ok = forward_response(Ok(RaftProcessedResponse { id: None, success: true, data: None })).ok().unwrap();
    assert_eq!(ok.message, "proposal forwarded and committed successfully");
    let err = forward_response(Err(ClientGrpcRequestProcessingError::DbResponseFailed)).err().unwrap();
    assert_eq!(err.message, "the db response failed");
}

#[test]
fn storage_responses() {
    let done = || Ok(RaftProcessedResponse { id: Some("k".to_string()), success: true, data: Some(record("k", 3)) });
    let r = storage_response(OperationType::Create, &"k".to_string(), done()).ok().unwrap();
    assert_eq!(r.message, "Value with key 'k' successfully created");
    assert!(r.record.is_none());
    let r = storage_response(OperationType::Update, &"k".to_string(), done()).ok().unwrap();
    assert_eq!(r.message, "Value with key 'k' successfully updated");
    let r = storage_response(OperationType::Get, &"k".to_string(), done()).ok().unwrap();
    assert_eq!(r.message, "Value with key 'k' retrieved successfully");
    assert_eq!(r.record.unwrap().balance, 3);
    let r = storage_response(OperationType::Delete, &"k".to_string(), done()).ok().unwrap();
    assert_eq!(r.message, "Value with key 'k' successfully deleted");
    let e = storage_response(OperationType::Get, &"k".to_string(), Err(ClientGrpcRequestProcessingError::GetRequestNotSupported))
        .err()
        .unwrap();
    assert_eq!(e.code, StatusCode::Internal);
    assert_eq!(e.message, "the get request is not supported ");
}

#[test]
fn error_texts() {
    assert_eq!(ErrorA::Message("boom".to_string()).to_string(), "ErrorA: boom");
    assert_eq!(ErrorB::Message("x".to_string()).to_string(), "ErrorB: x");
    assert_eq!(ErrorC::Message(String::new()).to_string(), "ErrorC: ");
    assert_eq!(ErrorD::Message("d".to_string()).to_string(), "ErrorD: d");
    assert_eq!(ClientGrpcRequestProcessingError::NodeUnaware.to_string(), "the node is not aware of the request");
    assert_eq!(
        ClientGrpcRequestProcessingError::RequestForwardingFailed.to_string(),
        "the request forwarding to the leader failed"
    );
}

#[test]
fn endpoints() {
    assert_eq!(build_endpoint("10.0.0.1", 50051), "http://10.0.0.1:50051");
    assert_eq!(build_endpoint("::1", 7), "http://[::1]:7");
    assert_eq!(build_endpoint("node-a.internal", 0), "http://node-a.internal:0");
}

#[test]
fn random_value_is_one_of_the_values() {
    let values = [3u32, 5, 8];
    for _ in 0..50 {
        assert!(values.contains(&get_random_value(&values)));
    }
    assert_eq!(get_random_value(&[42u8]), 42);
}

#[test]
fn raft_settings_refuse_only_a_zero_id() {
    assert!(gridrock::raft_node::validate_raft_config(0).is_err());
    assert!(gridrock::raft_node::validate_raft_config(1).is_ok());
    assert!(gridrock::raft_node::validate_raft_config(u64::MAX).is_ok());
}

#[test]
fn pending_replies_answer_each_client_once() {
    let mut pending: PendingReplies<&str> = PendingReplies::new();
    assert!(accept_proposal(&mut pending, 1, true, OperationType::Create, "client-1").is_none());
    assert!(accept_proposal(&mut pending, 2, true, OperationType::Get, "client-2").is_none());
    let refused = accept_proposal(&mut pending, 3, false, OperationType::Update, "client-3");
    assert_eq!(refused, Some(("client-3", ClientGrpcRequestProcessingError::NotLeader)));
    assert_eq!(pending.take(3), None);
    assert_eq!(pending.take(2), Some("client-2"));
    assert_eq!(pending.take(2), None);
    assert_eq!(pending.take(1), Some("client-1"));
    pending.register(7, "conf");
    assert_eq!(pending.take(7), Some("conf"));
}

#[test]
fn a_leader_answers_a_committed_read_with_the_record() {
    let mut pending: PendingReplies<u8> = PendingReplies::new();
    assert!(accept_proposal(&mut pending, 9, true, OperationType::Get, 0).is_none());
    assert_eq!(pending.take(9), Some(0));
    let r = committed_result(
        RaftProposal { proposal_id: 9, operation: Some(Operation::Get(GetValRequest { unique_id: "k".to_string() })) },
        Ok(Some(record("k", 11))),
    )
    .ok()
    .unwrap();
    let response = storage_response(OperationType::Get, &"k".to_string(), Ok(r)).ok().unwrap();
    assert_eq!(response.message, "Value with key 'k' retrieved successfully");
    assert_eq!(response.record.unwrap().balance, 11);
}

#[test]
fn record_with_balance_sets_only_the_balance() {
    let updated = record_with_balance(record("k", 1), 500);
    assert_eq!(updated.balance, 500);
    assert_eq!(updated.unique_id, "k");
    assert_eq!(updated.data_hash, "test");
    assert!(updated.executable);
}

#[test]
fn raft_messages_decode_from_bytes() {
    let mut msg = raft::eraftpb::Message::default();
    msg.set_from(3);
    msg.set_to(4);
    msg.set_term(9);
    let bytes = msg.write_to_bytes().unwrap();
    let decoded = raft_message_request(&bytes).ok().unwrap();
    assert_eq!((decoded.get_from(), decoded.get_to(), decoded.get_term()), (3, 4, 9));
    let status = raft_message_request(&[0xff, 0xff, 0xff]).err().unwrap();
    assert_eq!(status.code, StatusCode::Internal);
    assert!(status.message.starts_with("decode failed: "));
}
