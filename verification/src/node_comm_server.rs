//! The node-to-node service of a storage node: what it answers about the
//! cluster, whether it lets a node join, and how it answers a forwarded
//! proposal once raft has handled it.
use vstd::prelude::*;

use protobuf::Message as ProtobufMessage;
use raft::eraftpb::Message as RaftMessage;
use std::collections::HashMap;
use vstd::std_specs::iter::IteratorSpec;

use crate::text::concat_str;
use crate::errors::{request_error_text, status, ClientGrpcRequestProcessingError, Status, StatusCode};
use crate::node_utils::{kind_of, operation_type_of, Operation, OperationType, RaftProcessedResponse};

verus! {

broadcast use vstd::std_specs::hash::group_hash_axioms;

/// What a node knows of its cluster: the leader's id (0 before an election)
/// and the address of every peer.
pub struct ClusterState {
    pub leader_id: u64,
    pub peers: HashMap<u64, String>,
}

/// One peer as the service reports it.
pub struct PeerInfo {
    pub node_id: u64,
    pub address: String,
}

pub struct GetClusterInfoResponse {
    pub leader_id: u64,
    pub peers: Vec<PeerInfo>,
}

pub struct JoinClusterRequest {
    pub node_id: u64,
    pub address: String,
}

pub struct JoinClusterResponse {
    pub success: bool,
    pub message: String,
    pub peers: Vec<PeerInfo>,
}

pub struct ForwardProposalResponse {
    pub success: bool,
    pub message: String,
}

/// A raft message of the `raft` crate.
#[verifier::external_type_specification]
#[verifier::external_body]
pub struct ExRaftMessage(RaftMessage);

/// Whether the bytes are the protobuf encoding of a raft message, as
/// `protobuf::Message::parse_from_bytes` decides.
pub uninterp spec fn raft_message_parses(bytes: Seq<u8>) -> bool;

/// Calls `parse_from_bytes` of the `protobuf` crate for `raft::eraftpb::Message`;
/// on failure, the decoder's error text. Whether it succeeds depends on the
/// bytes alone; the message decoded and the error text are left unsaid.
#[verifier::external_body]
fn parse_raft_message(bytes: &[u8]) -> (parsed: Result<RaftMessage, String>)
    ensures
        parsed is Ok <==> raft_message_parses(bytes@),
{
    RaftMessage::parse_from_bytes(bytes).map_err(|e| e.to_string())
}

/// The raft message a peer sent, decoded from its bytes; bytes that are not a
/// raft message are refused as an internal error whose text starts with
/// `decode failed: `.
pub fn raft_message_request(bytes: &[u8]) -> (parsed: Result<RaftMessage, Status>)
    ensures
        parsed is Ok <==> raft_message_parses(bytes@),
        parsed matches Err(s) ==> s.code == StatusCode::Internal
            && exists|detail: Seq<char>| s.message@ == "decode failed: "@ + detail,
{
    match parse_raft_message(bytes) {
        Ok(msg) => Ok(msg),
        Err(e) => {
            let message = concat_str("decode failed: ", e.as_str());
            Err(Status { code: StatusCode::Internal, message })
        },
    }
}

/// `peers` lists every peer of the map once, each with its address.
pub open spec fn lists_peers(peers: Seq<PeerInfo>, map: Map<u64, String>) -> bool {
    &&& peers.len() == map.dom().len()
    &&& forall|i: int| 0 <= i < peers.len() ==> #[trigger] map.contains_key(peers[i].node_id)
        && map[peers[i].node_id]@ == peers[i].address@
    &&& forall|id: u64| #[trigger] map.contains_key(id) ==> exists|i: int| 0 <= i < peers.len() && peers[i].node_id == id
    &&& forall|i: int, j: int| 0 <= i < j < peers.len() ==> peers[i].node_id != peers[j].node_id
}

/// Every peer of the cluster, once each, in the map's iteration order.
pub fn peer_list(state: &ClusterState) -> (peers: Vec<PeerInfo>)
    ensures
        lists_peers(peers@, state.peers@),
{
    let mut peers: Vec<PeerInfo> = Vec::new();
    let ghost all = vstd::std_specs::hash::spec_hash_map_iter(&state.peers).remaining();
    proof {
        vstd::std_specs::hash::axiom_spec_hash_map_iter(&state.peers);
    }
    for (node_id, addr) in it: state.peers.iter()
        invariant
            it.seq() == all,
            peers@.len() == it.index(),
            forall|i: int| 0 <= i < peers@.len() ==> peers@[i].node_id == *all[i].0
                && peers@[i].address@ == (*all[i].1)@,
    {
        peers.push(PeerInfo { node_id: *node_id, address: addr.clone() });
    }
    assert(peers@.len() == all.len());
    proof {
        let s = all;
        assert forall|i: int| 0 <= i < peers@.len() implies #[trigger] state.peers@.contains_key(peers@[i].node_id)
            && state.peers@[peers@[i].node_id]@ == peers@[i].address@ by {
            assert(state.peers@.contains_key(*s[i].0));
        }
        assert forall|id: u64| #[trigger] state.peers@.contains_key(id) implies exists|i: int|
            0 <= i < peers@.len() && peers@[i].node_id == id by {
            assert(s.contains((&id, &state.peers@[id])));
            let i = choose|i: int| 0 <= i < s.len() && s[i] == (&id, &state.peers@[id]);
            assert(peers@[i].node_id == id);
        }
        assert forall|i: int, j: int| 0 <= i < j < peers@.len() implies peers@[i].node_id != peers@[j].node_id by {
            assert(state.peers@.contains_key(*s[i].0));
            assert(state.peers@.contains_key(*s[j].0));
            if *s[i].0 == *s[j].0 {
                assert(s[i] == s[j]);
            }
        }
    }
    peers
}

/// The cluster information: the leader's id and every peer.
pub fn get_cluster_info(state: &ClusterState) -> (response: GetClusterInfoResponse)
    ensures
        response.leader_id == state.leader_id,
        lists_peers(response.peers@, state.peers@),
{
    GetClusterInfoResponse { leader_id: state.leader_id, peers: peer_list(state) }
}

/// Whether a node may ask to join: a node whose id is already a peer is
/// refused.
pub fn check_join(state: &ClusterState, request: &JoinClusterRequest) -> (checked: Result<(), Status>)
    ensures
        state.peers@.contains_key(request.node_id) ==> (checked matches Err(s) && s.code == StatusCode::Internal
            && s.message@ == "Node already exists in the cluster"@),
        !state.peers@.contains_key(request.node_id) ==> checked is Ok,
{
    if state.peers.contains_key(&request.node_id) {
        return Err(status(StatusCode::Internal, "Node already exists in the cluster"));
    }
    Ok(())
}

/// The answer to a join request once raft has handled the configuration
/// change: the peers of the cluster as they now stand, or the failure.
pub fn join_response(
    state: &ClusterState,
    outcome: Result<RaftProcessedResponse, ClientGrpcRequestProcessingError>,
) -> (response: Result<JoinClusterResponse, Status>)
    ensures
        match outcome {
            Ok(_) => response matches Ok(r) && r.success && r.message@ == "Node joined successfully"@
                && lists_peers(r.peers@, state.peers@),
            Err(e) => response matches Err(s) && s.code == StatusCode::Internal && s.message@ == request_error_text(e),
        },
{
    match outcome {
        Ok(_) => Ok(JoinClusterResponse {
            success: true,
            message: "Node joined successfully".to_owned(),
            peers: peer_list(state),
        }),
        Err(e) => Err(Status { code: StatusCode::Internal, message: e.to_string() }),
    }
}

/// The kind of a forwarded proposal; a proposal without an operation is
/// refused.
pub fn forwarded_operation_type(operation: &Option<Operation>) -> (kind: Result<OperationType, Status>)
    ensures
        match operation {
            Some(op) => kind == Ok::<OperationType, Status>(kind_of(*op)),
            None => kind matches Err(s) && s.code == StatusCode::Internal
                && s.message@ == "forwarded proposal has no operation"@,
        },
{
    match operation_type_of(operation) {
        Some(kind) => Ok(kind),
        None => Err(status(StatusCode::Internal, "forwarded proposal has no operation")),
    }
}

/// The answer to a forwarded proposal once raft has handled it.
pub fn forward_response(
    outcome: Result<RaftProcessedResponse, ClientGrpcRequestProcessingError>,
) -> (response: Result<ForwardProposalResponse, Status>)
    ensures
        match outcome {
            Ok(_) => response matches Ok(r) && r.success
                && r.message@ == "proposal forwarded and committed successfully"@,
            Err(e) => response matches Err(s) && s.code == StatusCode::Internal && s.message@ == request_error_text(e),
        },
{
    match outcome {
        Ok(_) => Ok(ForwardProposalResponse {
            success: true,
            message: "proposal forwarded and committed successfully".to_owned(),
        }),
        Err(e) => Err(Status { code: StatusCode::Internal, message: e.to_string() }),
    }
}

} // verus!
