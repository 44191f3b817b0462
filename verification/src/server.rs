//! The client-facing service of a storage node: the answer a request gets
//! once raft has handled it.
use vstd::prelude::*;

use crate::errors::{request_error_text, ClientGrpcRequestProcessingError, Status, StatusCode};
use crate::node_utils::{CreateRequest, OperationType, RaftProcessedResponse};
use crate::text::concat_str;

verus! {

/// The answer to a client request: a message, whether it succeeded, and for
/// a read the record that was found.
pub struct StorageResponse {
    pub message: String,
    pub success: bool,
    pub record: Option<CreateRequest>,
}

/// The message that tells a client its request on `key` succeeded.
pub open spec fn success_message(kind: OperationType, key: Seq<char>) -> Seq<char> {
    "Value with key '"@ + key + match kind {
        OperationType::Create => "' successfully created"@,
        OperationType::Update => "' successfully updated"@,
        OperationType::Get => "' retrieved successfully"@,
        OperationType::Delete => "' successfully deleted"@,
    }
}

/// The answer to a client request on `unique_id` of the given kind, once raft
/// has handled it: on success a message naming the key (and, for a read, the
/// record found); on failure an internal error with the failure's text.
pub fn storage_response(
    kind: OperationType,
    unique_id: &String,
    outcome: Result<RaftProcessedResponse, ClientGrpcRequestProcessingError>,
) -> (response: Result<StorageResponse, Status>)
    ensures
        match outcome {
            Ok(processed) => response matches Ok(r) && {
                &&& r.success
                &&& r.message@ == success_message(kind, unique_id@)
                &&& r.record == (if kind == OperationType::Get { processed.data } else { None })
            },
            Err(e) => response matches Err(s) && s.code == StatusCode::Internal && s.message@ == request_error_text(e),
        },
{
    match outcome {
        Ok(processed) => {
            let head = concat_str("Value with key '", unique_id.as_str());
            let (message, record) = match kind {
                OperationType::Create => (concat_str(head.as_str(), "' successfully created"), None),
                OperationType::Update => (concat_str(head.as_str(), "' successfully updated"), None),
                OperationType::Get => (concat_str(head.as_str(), "' retrieved successfully"), processed.data),
                OperationType::Delete => (concat_str(head.as_str(), "' successfully deleted"), None),
            };
            Ok(StorageResponse { message, success: true, record })
        },
        Err(e) => Err(Status { code: StatusCode::Internal, message: e.to_string() }),
    }
}

} // verus!
