//! The guarded operations of the storage engine. The engine is a byte-keyed
//! key-value store; each operation first reads whether the key is present,
//! then these functions decide whether the operation goes ahead and which
//! write it makes. The model of the engine below is a map from keys to
//! values, and the laws at the end state what a sequence of operations does
//! to it.
use vstd::prelude::*;

use crate::errors::DbError;

verus! {

/// A write to the engine.
pub enum DbWrite {
    /// Store `value` under `key`, replacing what was there.
    Put { key: String, value: Vec<u8> },
    /// Remove `key`.
    Delete { key: String },
}

/// The engine's contents after a write.
pub open spec fn apply_write(store: Map<Seq<char>, Seq<u8>>, write: DbWrite) -> Map<Seq<char>, Seq<u8>> {
    match write {
        DbWrite::Put { key, value } => store.insert(key@, value@),
        DbWrite::Delete { key } => store.remove(key@),
    }
}

/// A plan made by `db_create`: refused when the key is present, else a put.
pub open spec fn is_create_plan(key: Seq<char>, value: Seq<u8>, present: bool, plan: Result<DbWrite, DbError>) -> bool {
    if present {
        plan matches Err(DbError::KeyAlreadyExists(k)) && k@ == key
    } else {
        plan matches Ok(DbWrite::Put { key: k, value: v }) && k@ == key && v@ == value
    }
}

/// A plan made by `db_update`: refused when the key is absent, else a put.
pub open spec fn is_update_plan(key: Seq<char>, value: Seq<u8>, present: bool, plan: Result<DbWrite, DbError>) -> bool {
    if present {
        plan matches Ok(DbWrite::Put { key: k, value: v }) && k@ == key && v@ == value
    } else {
        plan matches Err(DbError::KeyNotFound(k)) && k@ == key
    }
}

/// A plan made by `db_delete`: refused when the key is absent, else a delete.
pub open spec fn is_delete_plan(key: Seq<char>, present: bool, plan: Result<DbWrite, DbError>) -> bool {
    if present {
        plan matches Ok(DbWrite::Delete { key: k }) && k@ == key
    } else {
        plan matches Err(DbError::KeyNotFound(k)) && k@ == key
    }
}

/// What `db_read` gives for what the engine holds under the key.
pub open spec fn is_read_result(key: Seq<char>, stored: Option<Seq<u8>>, read: Result<Vec<u8>, DbError>) -> bool {
    match stored {
        Some(v) => read matches Ok(r) && r@ == v,
        None => read matches Err(DbError::KeyNotFound(k)) && k@ == key,
    }
}

/// What the engine holds under a key.
pub open spec fn stored_at(store: Map<Seq<char>, Seq<u8>>, key: Seq<char>) -> Option<Seq<u8>> {
    if store.contains_key(key) {
        Some(store[key])
    } else {
        None
    }
}

/// The engine's contents after a plan runs: its write, if it has one.
pub open spec fn run_plan(store: Map<Seq<char>, Seq<u8>>, plan: Result<DbWrite, DbError>) -> Map<Seq<char>, Seq<u8>> {
    match plan {
        Ok(write) => apply_write(store, write),
        Err(_) => store,
    }
}

/// Creating an entry: refused when the key is present, else a put.
pub fn db_create(key: &str, value: &[u8], present: bool) -> (plan: Result<DbWrite, DbError>)
    ensures
        is_create_plan(key@, value@, present, plan),
{
    if present {
        return Err(DbError::KeyAlreadyExists(key.to_owned()));
    }
    Ok(DbWrite::Put { key: key.to_owned(), value: vstd::slice::slice_to_vec(value) })
}

/// Reading an entry: the stored value, or `KeyNotFound` when there is none.
pub fn db_read(key: &str, stored: Option<Vec<u8>>) -> (read: Result<Vec<u8>, DbError>)
    ensures
        is_read_result(key@, match stored { Some(v) => Some(v@), None => None }, read),
{
    match stored {
        Some(raw_bytes) => Ok(raw_bytes),
        None => Err(DbError::KeyNotFound(key.to_owned())),
    }
}

/// Updating an entry: refused when the key is absent, else a put.
pub fn db_update(key: &str, value: &[u8], present: bool) -> (plan: Result<DbWrite, DbError>)
    ensures
        is_update_plan(key@, value@, present, plan),
{
    if !present {
        return Err(DbError::KeyNotFound(key.to_owned()));
    }
    Ok(DbWrite::Put { key: key.to_owned(), value: vstd::slice::slice_to_vec(value) })
}

/// Deleting an entry: refused when the key is absent, else a delete.
pub fn db_delete(key: &str, present: bool) -> (plan: Result<DbWrite, DbError>)
    ensures
        is_delete_plan(key@, present, plan),
{
    if !present {
        return Err(DbError::KeyNotFound(key.to_owned()));
    }
    Ok(DbWrite::Delete { key: key.to_owned() })
}

/// Whether the engine holds the key.
pub fn db_exists(stored: &Option<Vec<u8>>) -> (found: bool)
    ensures
        found == stored is Some,
{
    stored.is_some()
}

/// Creating a key that the engine does not hold succeeds, and a read
/// afterwards gives the value back.
pub proof fn lemma_create_then_read(
    store: Map<Seq<char>, Seq<u8>>,
    key: Seq<char>,
    value: Seq<u8>,
    plan: Result<DbWrite, DbError>,
    read: Result<Vec<u8>, DbError>,
)
    requires
        !store.contains_key(key),
        is_create_plan(key, value, store.contains_key(key), plan),
        is_read_result(key, stored_at(run_plan(store, plan), key), read),
    ensures
        plan is Ok,
        read matches Ok(r) && r@ == value,
{
}

/// A second create of a key fails with `KeyAlreadyExists` and leaves the
/// engine as the first create left it.
pub proof fn lemma_create_twice_fails(
    store: Map<Seq<char>, Seq<u8>>,
    key: Seq<char>,
    first: Seq<u8>,
    second: Seq<u8>,
    plan1: Result<DbWrite, DbError>,
    plan2: Result<DbWrite, DbError>,
)
    requires
        !store.contains_key(key),
        is_create_plan(key, first, store.contains_key(key), plan1),
        is_create_plan(key, second, run_plan(store, plan1).contains_key(key), plan2),
    ensures
        plan2 matches Err(DbError::KeyAlreadyExists(k)) && k@ == key,
        run_plan(run_plan(store, plan1), plan2) == run_plan(store, plan1),
        run_plan(run_plan(store, plan1), plan2)[key] == first,
{
}

/// Reading a key that the engine does not hold fails with `KeyNotFound`.
pub proof fn lemma_read_missing(store: Map<Seq<char>, Seq<u8>>, key: Seq<char>, read: Result<Vec<u8>, DbError>)
    requires
        !store.contains_key(key),
        is_read_result(key, stored_at(store, key), read),
    ensures
        read matches Err(DbError::KeyNotFound(k)) && k@ == key,
{
}

/// Updating a key that the engine holds succeeds, and a read afterwards gives
/// the new value.
pub proof fn lemma_update_then_read(
    store: Map<Seq<char>, Seq<u8>>,
    key: Seq<char>,
    value: Seq<u8>,
    plan: Result<DbWrite, DbError>,
    read: Result<Vec<u8>, DbError>,
)
    requires
        store.contains_key(key),
        is_update_plan(key, value, store.contains_key(key), plan),
        is_read_result(key, stored_at(run_plan(store, plan), key), read),
    ensures
        plan is Ok,
        read matches Ok(r) && r@ == value,
{
}

/// Updating a key that the engine does not hold fails with `KeyNotFound` and
/// changes nothing.
pub proof fn lemma_update_missing_fails(
    store: Map<Seq<char>, Seq<u8>>,
    key: Seq<char>,
    value: Seq<u8>,
    plan: Result<DbWrite, DbError>,
)
    requires
        !store.contains_key(key),
        is_update_plan(key, value, store.contains_key(key), plan),
    ensures
        plan matches Err(DbError::KeyNotFound(k)) && k@ == key,
        run_plan(store, plan) == store,
{
}

/// Deleting a key that the engine holds succeeds, and afterwards the engine
/// no longer holds it: a read fails with `KeyNotFound`.
pub proof fn lemma_delete_then_absent(
    store: Map<Seq<char>, Seq<u8>>,
    key: Seq<char>,
    plan: Result<DbWrite, DbError>,
    read: Result<Vec<u8>, DbError>,
)
    requires
        store.contains_key(key),
        is_delete_plan(key, store.contains_key(key), plan),
        is_read_result(key, stored_at(run_plan(store, plan), key), read),
    ensures
        plan is Ok,
        !run_plan(store, plan).contains_key(key),
        read matches Err(DbError::KeyNotFound(k)) && k@ == key,
{
}

/// Deleting a key that the engine does not hold fails with `KeyNotFound` and
/// changes nothing.
pub proof fn lemma_delete_missing_fails(
    store: Map<Seq<char>, Seq<u8>>,
    key: Seq<char>,
    plan: Result<DbWrite, DbError>,
)
    requires
        !store.contains_key(key),
        is_delete_plan(key, store.contains_key(key), plan),
    ensures
        plan matches Err(DbError::KeyNotFound(k)) && k@ == key,
        run_plan(store, plan) == store,
{
}

/// Operations on one key leave every other key as it was.
pub proof fn lemma_other_keys_unchanged(
    store: Map<Seq<char>, Seq<u8>>,
    plan: Result<DbWrite, DbError>,
    other: Seq<char>,
)
    requires
        plan matches Ok(DbWrite::Put { key: k, value: _ }) ==> k@ != other,
        plan matches Ok(DbWrite::Delete { key: k }) ==> k@ != other,
    ensures
        stored_at(run_plan(store, plan), other) == stored_at(store, other),
{
}

} // verus!
