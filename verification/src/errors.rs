//! The error types of the client SDK and of the storage node, with the text
//! each one shows.
use vstd::prelude::*;

use crate::text::concat_str;

verus! {

/// The kind of failure a handler reports.
#[derive(Debug, Clone, Copy, PartialEq, Eq, Structural)]
pub enum StatusCode {
    InvalidArgument,
    Internal,
    NotFound,
}

/// A failed request: its kind and a message for the client.
pub struct Status {
    pub code: StatusCode,
    pub message: String,
}

/// A status with the given kind and message.
pub fn status(code: StatusCode, message: &str) -> (s: Status)
    ensures
        s.code == code,
        s.message@ == message@,
{
    Status { code, message: message.to_owned() }
}


/// A client SDK error carrying a message.
#[derive(Debug)]
pub enum ErrorA {
    Message(String),
}

/// A client SDK error carrying a message.
#[derive(Debug)]
pub enum ErrorB {
    Message(String),
}

/// A client SDK error carrying a message.
#[derive(Debug)]
pub enum ErrorC {
    Message(String),
}

/// A client SDK error carrying a message.
#[derive(Debug)]
pub enum ErrorD {
    Message(String),
}

impl ErrorA {
    /// The error's text: `ErrorA: ` followed by its message.
    pub fn to_string(&self) -> (text: String)
        ensures
            text@ == "ErrorA: "@ + self->Message_0@,
    {
        match self {
            ErrorA::Message(msg) => concat_str("ErrorA: ", msg.as_str()),
        }
    }
}

impl ErrorB {
    /// The error's text: `ErrorB: ` followed by its message.
    pub fn to_string(&self) -> (text: String)
        ensures
            text@ == "ErrorB: "@ + self->Message_0@,
    {
        match self {
            ErrorB::Message(msg) => concat_str("ErrorB: ", msg.as_str()),
        }
    }
}

impl ErrorC {
    /// The error's text: `ErrorC: ` followed by its message.
    pub fn to_string(&self) -> (text: String)
        ensures
            text@ == "ErrorC: "@ + self->Message_0@,
    {
        match self {
            ErrorC::Message(msg) => concat_str("ErrorC: ", msg.as_str()),
        }
    }
}

impl ErrorD {
    /// The error's text: `ErrorD: ` followed by its message.
    pub fn to_string(&self) -> (text: String)
        ensures
            text@ == "ErrorD: "@ + self->Message_0@,
    {
        match self {
            ErrorD::Message(msg) => concat_str("ErrorD: ", msg.as_str()),
        }
    }
}

/// Why a storage node could not carry out a client request.
#[derive(Debug, Clone, Copy, PartialEq, Eq, Structural)]
pub enum ClientGrpcRequestProcessingError {
    NodeUnaware,
    NotLeader,
    GetRequestNotSupported,
    DbResponseFailed,
    RequestForwardingFailed,
}

/// The text shown for each request-processing error.
pub open spec fn request_error_text(e: ClientGrpcRequestProcessingError) -> Seq<char> {
    match e {
        ClientGrpcRequestProcessingError::NodeUnaware => "the node is not aware of the request"@,
        ClientGrpcRequestProcessingError::NotLeader => "the node is not a leader"@,
        ClientGrpcRequestProcessingError::GetRequestNotSupported => "the get request is not supported "@,
        ClientGrpcRequestProcessingError::DbResponseFailed => "the db response failed"@,
        ClientGrpcRequestProcessingError::RequestForwardingFailed => "the request forwarding to the leader failed"@,
    }
}

impl ClientGrpcRequestProcessingError {
    /// The error's text.
    pub fn to_string(&self) -> (text: String)
        ensures
            text@ == request_error_text(*self),
    {
        match self {
            ClientGrpcRequestProcessingError::NodeUnaware => "the node is not aware of the request".to_owned(),
            ClientGrpcRequestProcessingError::NotLeader => "the node is not a leader".to_owned(),
            ClientGrpcRequestProcessingError::GetRequestNotSupported => "the get request is not supported ".to_owned(),
            ClientGrpcRequestProcessingError::DbResponseFailed => "the db response failed".to_owned(),
            ClientGrpcRequestProcessingError::RequestForwardingFailed => "the request forwarding to the leader failed".to_owned(),
        }
    }
}

/// Why a storage-engine operation failed.
#[derive(Debug)]
pub enum DbError {
    /// The key already exists (a second create).
    KeyAlreadyExists(String),
    /// The key is not in the store.
    KeyNotFound(String),
    /// A record could not be encoded or decoded.
    SerializationError(String),
    /// The storage engine itself failed; its message.
    RocksDb(String),
}

/// The text shown for each storage-engine error.
pub open spec fn db_error_text(e: DbError) -> Seq<char> {
    match e {
        DbError::KeyAlreadyExists(key) => "key '"@ + key@ + "' already exists"@,
        DbError::KeyNotFound(key) => "key '"@ + key@ + "' not found"@,
        DbError::SerializationError(msg) => "serialization error: "@ + msg@,
        DbError::RocksDb(msg) => "rocksdb error: "@ + msg@,
    }
}

impl DbError {
    /// The error's text.
    pub fn to_string(&self) -> (text: String)
        ensures
            text@ == db_error_text(*self),
    {
        match self {
            DbError::KeyAlreadyExists(key) => {
                let head = concat_str("key '", key.as_str());
                concat_str(head.as_str(), "' already exists")
            },
            DbError::KeyNotFound(key) => {
                let head = concat_str("key '", key.as_str());
                concat_str(head.as_str(), "' not found")
            },
            DbError::SerializationError(msg) => concat_str("serialization error: ", msg.as_str()),
            DbError::RocksDb(msg) => concat_str("rocksdb error: ", msg.as_str()),
        }
    }
}

} // verus!
