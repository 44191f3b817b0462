//! The decisions of a storage node's raft processor: which client proposals
//! it accepts, which storage operation a committed proposal asks for, what
//! the client is answered once that operation ran, and when raft is ticked.
use vstd::prelude::*;

mod sealed;

use std::collections::HashMap;

use crate::errors::{ClientGrpcRequestProcessingError, DbError};

verus! {

broadcast use vstd::std_specs::hash::group_hash_axioms;

/// A full record, as a client creates it.
pub struct CreateRequest {
    pub unique_id: String,
    pub balance: u64,
    pub executable: bool,
    pub rent_epoch: u64,
    pub data_hash: String,
    pub last_updated_slot: u64,
}

/// A new balance for an existing record.
pub struct UpdateRequest {
    pub unique_id: String,
    pub balance: u64,
}

/// A read of one record.
pub struct GetValRequest {
    pub unique_id: String,
}

/// A deletion of one record.
pub struct DelValRequest {
    pub unique_id: String,
}

/// The operation a proposal carries.
pub enum Operation {
    Create(CreateRequest),
    Update(UpdateRequest),
    Delete(DelValRequest),
    Get(GetValRequest),
}

/// What a node proposes to raft: an identifier and, normally, an operation.
pub struct RaftProposal {
    pub proposal_id: u64,
    pub operation: Option<Operation>,
}

impl sealed::Sealed for GetValRequest {}

impl sealed::Sealed for UpdateRequest {}

impl sealed::Sealed for CreateRequest {}

impl sealed::Sealed for DelValRequest {}

/// The request types that may travel in a proposal; sealed, so that no type
/// outside this crate can be added.
#[allow(private_bounds)]
pub trait AllowedTypes: sealed::Sealed {}

impl AllowedTypes for GetValRequest {}

impl AllowedTypes for UpdateRequest {}

impl AllowedTypes for CreateRequest {}

impl AllowedTypes for DelValRequest {}

/// The kind of a client proposal.
#[derive(Debug, Clone, Copy, PartialEq, Eq, Structural)]
pub enum OperationType {
    Create,
    Update,
    Delete,
    Get,
}

/// What a client is answered once its proposal was applied.
pub struct RaftProcessedResponse {
    pub id: Option<String>,
    pub success: bool,
    pub data: Option<CreateRequest>,
}

/// The storage operation that a committed proposal asks for.
pub enum DbOperation {
    /// Store a new record under its id.
    Create { record: CreateRequest },
    /// Set the balance of the record with this id.
    Update { key: String, balance: u64 },
    /// Remove the record with this id.
    Delete { key: String },
    /// Read the record with this id.
    Read { key: String },
}

/// The kind of a proposal's operation.
pub open spec fn kind_of(op: Operation) -> OperationType {
    match op {
        Operation::Create(_) => OperationType::Create,
        Operation::Update(_) => OperationType::Update,
        Operation::Delete(_) => OperationType::Delete,
        Operation::Get(_) => OperationType::Get,
    }
}

/// Whether a node takes a client proposal to raft: only the leader does;
/// it takes every kind, reads included.
pub fn check_proposal(is_leader: bool, operation_type: OperationType) -> (decision: Result<(), ClientGrpcRequestProcessingError>)
    ensures
        !is_leader ==> decision == Err::<(), _>(ClientGrpcRequestProcessingError::NotLeader),
        is_leader ==> decision is Ok,
{
    if !is_leader {
        return Err(ClientGrpcRequestProcessingError::NotLeader);
    }
    Ok(())
}

/// The clients waiting for their proposals to commit, each by its proposal
/// id, with what answers it (a reply channel, for instance).
pub struct PendingReplies<T> {
    waiting: HashMap<u64, T>,
}

impl<T> View for PendingReplies<T> {
    type V = Map<u64, T>;

    closed spec fn view(&self) -> Map<u64, T> {
        self.waiting@
    }
}

impl<T> PendingReplies<T> {
    /// No client waits.
    pub fn new() -> (pending: PendingReplies<T>)
        ensures
            pending@ == Map::<u64, T>::empty(),
    {
        PendingReplies { waiting: HashMap::new() }
    }

    /// Makes the client of proposal `id` wait; a client already waiting under
    /// that id is replaced.
    pub fn register(&mut self, id: u64, reply: T)
        ensures
            final(self)@ == old(self)@.insert(id, reply),
    {
        self.waiting.insert(id, reply);
    }

    /// The client waiting for proposal `id`, which stops waiting: each client
    /// is handed out once. `None` when none waits here, as on a follower,
    /// which applies committed entries without answering anyone.
    pub fn take(&mut self, id: u64) -> (reply: Option<T>)
        ensures
            final(self)@ == old(self)@.remove(id),
            reply == (if old(self)@.contains_key(id) { Some(old(self)@[id]) } else { None::<T> }),
    {
        self.waiting.remove(&id)
    }
}

/// A client proposal reaching the processor: refused at once with the reason
/// when `check_proposal` refuses it (the reply comes back to be answered),
/// else its client waits for the commit.
pub fn accept_proposal<T>(
    pending: &mut PendingReplies<T>,
    id: u64,
    is_leader: bool,
    operation_type: OperationType,
    reply: T,
) -> (refused: Option<(T, ClientGrpcRequestProcessingError)>)
    ensures
        !is_leader ==> refused == Some((reply, ClientGrpcRequestProcessingError::NotLeader))
            && final(pending)@ == old(pending)@,
        is_leader ==> refused is None && final(pending)@ == old(pending)@.insert(id, reply),
{
    match check_proposal(is_leader, operation_type) {
        Err(e) => Some((reply, e)),
        Ok(()) => {
            pending.register(id, reply);
            None
        },
    }
}

/// A client is answered at most once: once its reply was taken, a second
/// take for the same proposal finds no one.
pub proof fn lemma_answered_at_most_once<T>(waiting: Map<u64, T>, id: u64)
    ensures
        !waiting.remove(id).contains_key(id),
{
}

/// An accepted proposal's client is the one answered when it commits; other
/// waiting clients keep waiting.
pub proof fn lemma_accepted_then_answered<T>(waiting: Map<u64, T>, id: u64, reply: T, other: u64)
    requires
        other != id,
    ensures
        waiting.insert(id, reply).contains_key(id),
        waiting.insert(id, reply)[id] == reply,
        waiting.insert(id, reply).remove(id).contains_key(other) == waiting.contains_key(other),
{
}

/// The record an update writes: the stored record with the new balance.
pub fn record_with_balance(record: CreateRequest, balance: u64) -> (updated: CreateRequest)
    ensures
        updated == (CreateRequest { balance, ..record }),
{
    CreateRequest { balance, ..record }
}

/// The kind of a forwarded proposal's operation; `None` when it carries none.
pub fn operation_type_of(operation: &Option<Operation>) -> (kind: Option<OperationType>)
    ensures
        match operation {
            Some(op) => kind == Some(kind_of(*op)),
            None => kind is None,
        },
{
    match operation {
        Some(Operation::Create(_)) => Some(OperationType::Create),
        Some(Operation::Update(_)) => Some(OperationType::Update),
        Some(Operation::Delete(_)) => Some(OperationType::Delete),
        Some(Operation::Get(_)) => Some(OperationType::Get),
        None => None,
    }
}

/// The storage operation that a committed operation asks for.
pub fn db_operation_for(operation: Operation) -> (db_op: DbOperation)
    ensures
        match operation {
            Operation::Create(req) => db_op == (DbOperation::Create { record: req }),
            Operation::Update(req) => db_op == (DbOperation::Update { key: req.unique_id, balance: req.balance }),
            Operation::Delete(req) => db_op == (DbOperation::Delete { key: req.unique_id }),
            Operation::Get(req) => db_op == (DbOperation::Read { key: req.unique_id }),
        },
{
    match operation {
        Operation::Create(req) => DbOperation::Create { record: req },
        Operation::Update(req) => DbOperation::Update { key: req.unique_id, balance: req.balance },
        Operation::Delete(req) => DbOperation::Delete { key: req.unique_id },
        Operation::Get(req) => DbOperation::Read { key: req.unique_id },
    }
}

/// What the client of a committed proposal is answered, given what the
/// storage engine reported for its operation (the record read, for a read).
/// A proposal without an operation is answered `NodeUnaware`, an engine
/// failure `DbResponseFailed`.
pub fn committed_result(
    proposal: RaftProposal,
    outcome: Result<Option<CreateRequest>, DbError>,
) -> (result: Result<RaftProcessedResponse, ClientGrpcRequestProcessingError>)
    ensures
        match proposal.operation {
            None => result == Err::<RaftProcessedResponse, _>(ClientGrpcRequestProcessingError::NodeUnaware),
            Some(op) => match outcome {
                Err(_) => result == Err::<RaftProcessedResponse, _>(ClientGrpcRequestProcessingError::DbResponseFailed),
                Ok(record) => match op {
                    Operation::Create(req) => result == Ok::<_, ClientGrpcRequestProcessingError>(
                        RaftProcessedResponse { id: Some(req.unique_id), success: true, data: Some(req) },
                    ),
                    Operation::Update(req) => result == Ok::<_, ClientGrpcRequestProcessingError>(
                        RaftProcessedResponse { id: Some(req.unique_id), success: true, data: None },
                    ),
                    Operation::Delete(req) => result == Ok::<_, ClientGrpcRequestProcessingError>(
                        RaftProcessedResponse { id: Some(req.unique_id), success: true, data: None },
                    ),
                    Operation::Get(req) => result == Ok::<_, ClientGrpcRequestProcessingError>(
                        RaftProcessedResponse { id: Some(req.unique_id), success: true, data: record },
                    ),
                },
            },
        },
{
    let op = match proposal.operation {
        Some(op) => op,
        None => {
            return Err(ClientGrpcRequestProcessingError::NodeUnaware);
        },
    };
    let record = match outcome {
        Ok(record) => record,
        Err(_) => {
            return Err(ClientGrpcRequestProcessingError::DbResponseFailed);
        },
    };
    match op {
        Operation::Create(req) => {
            let id = req.unique_id.clone();
            Ok(RaftProcessedResponse { id: Some(id), success: true, data: Some(req) })
        },
        Operation::Update(req) => Ok(RaftProcessedResponse { id: Some(req.unique_id), success: true, data: None }),
        Operation::Delete(req) => Ok(RaftProcessedResponse { id: Some(req.unique_id), success: true, data: None }),
        Operation::Get(req) => Ok(RaftProcessedResponse { id: Some(req.unique_id), success: true, data: record }),
    }
}

/// The kinds of raft log entries.
#[derive(Debug, Clone, Copy, PartialEq, Eq, Structural)]
pub enum EntryKind {
    Normal,
    ConfChange,
    ConfChangeV2,
}

/// What the processor does with a committed log entry.
#[derive(Debug, Clone, Copy, PartialEq, Eq, Structural)]
pub enum EntryAction {
    /// An entry without data (such as a new leader's empty entry) is passed over.
    Skip,
    /// A normal entry holds a proposal to apply to the store.
    ApplyProposal,
    /// A configuration change is applied to raft.
    ApplyConfChange,
    /// The second form of configuration change is not handled.
    Unsupported,
}

/// What the processor does with a committed entry of the given kind.
pub fn committed_entry_action(data_is_empty: bool, kind: EntryKind) -> (action: EntryAction)
    ensures
        data_is_empty ==> action == EntryAction::Skip,
        !data_is_empty && kind == EntryKind::Normal ==> action == EntryAction::ApplyProposal,
        !data_is_empty && kind == EntryKind::ConfChange ==> action == EntryAction::ApplyConfChange,
        !data_is_empty && kind == EntryKind::ConfChangeV2 ==> action == EntryAction::Unsupported,
{
    if data_is_empty {
        return EntryAction::Skip;
    }
    match kind {
        EntryKind::Normal => EntryAction::ApplyProposal,
        EntryKind::ConfChange => EntryAction::ApplyConfChange,
        EntryKind::ConfChangeV2 => EntryAction::Unsupported,
    }
}

/// The processor's tick clock after an iteration that took `elapsed`
/// nanoseconds, when `remaining` nanoseconds were left before the next tick:
/// a tick is due once the time is used up, and the clock restarts at `period`.
pub fn advance_tick_clock(remaining: u128, elapsed: u128, period: u128) -> (next: (u128, bool))
    ensures
        elapsed >= remaining ==> next == (period, true),
        elapsed < remaining ==> next == ((remaining - elapsed) as u128, false),
{
    if elapsed >= remaining {
        (period, true)
    } else {
        (remaining - elapsed, false)
    }
}

} // verus!
