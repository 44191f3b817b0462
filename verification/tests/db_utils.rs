//! The storage-engine operations, run against an in-memory engine that does
//! what a key-value engine does with a put, a delete and a get.
use std::collections::HashMap;

use gridrock::db_utils::{db_create, db_delete, db_exists, db_read, db_update, DbWrite};
use gridrock::errors::DbError;

struct Engine {
    entries: HashMap<String, Vec<u8>>,
}

impl Engine {
    fn new() -> Engine {
        Engine { entries: HashMap::new() }
    }

    fn apply(&mut self, write: DbWrite) {
        match write {
            DbWrite::Put { key, value } => {
                self.entries.insert(key, value);
            }
            DbWrite::Delete { key } => {
                self.entries.remove(&key);
            }
        }
    }

    fn create<'a>(&mut self, key: &'a str, value: &[u8]) -> Result<&'a str, DbError> {
        let plan = db_create(key, value, self.entries.contains_key(key))?;
        self.apply(plan);
        Ok(key)
    }

    fn read(&self, key: &str) -> Result<Vec<u8>, DbError> {
        db_read(key, self.entries.get(key).cloned())
    }

    fn update<'a>(&mut self, key: &'a str, value: &[u8]) -> Result<&'a str, DbError> {
        let plan = db_update(key, value, self.entries.contains_key(key))?;
        self.apply(plan);
        Ok(key)
    }

    fn delete<'a>(&mut self, key: &'a str) -> Result<&'a str, DbError> {
        let plan = db_delete(key, self.entries.contains_key(key))?;
        self.apply(plan);
        Ok(key)
    }

    fn has_key(&self, key: &str) -> Result<bool, DbError> {
        Ok(db_exists(&self.entries.get(key).cloned()))
    }
}

#[test]
fn test_create_and_read() {
    let mut db = Engine::new();
    let value = b"hello gridrock";

    db.create("key_1", value).unwrap();
    let result = db.read("key_1").unwrap();

    assert_eq!(result, value);
}

#[test]
fn test_create_duplicate_fails() {
    let mut db = Engine::new();

    db.create("key_dup", b"first").unwrap();

    match db.create("key_dup", b"second") {
        Err(DbError::KeyAlreadyExists(_)) => {}
        other => panic!("expected KeyAlreadyExists, got {:?}", other),
    }
}

#[test]
fn test_read_missing_key() {
    let db = Engine::new();

    match db.read("does_not_exist") {
        Err(DbError::KeyNotFound(_)) => {}
        other => panic!("expected KeyNotFound, got {:?}", other),
    }
}

#[test]
fn test_update() {
    let mut db = Engine::new();

    db.create("key_upd", b"old_value").unwrap();
    db.update("key_upd", b"new_value").unwrap();

    let result = db.read("key_upd").unwrap();
    assert_eq!(result, b"new_value");
}

#[test]
fn test_update_missing_key_fails() {
    let mut db = Engine::new();

    match db.update("ghost", b"data") {
        Err(DbError::KeyNotFound(_)) => {}
        other => panic!("expected KeyNotFound, got {:?}", other),
    }
}

#[test]
fn test_delete() {
    let mut db = Engine::new();

    db.create("key_del", b"data").unwrap();
    db.delete("key_del").unwrap();

    assert!(!db.has_key("key_del").unwrap());
}

#[test]
fn test_delete_missing_key_fails() {
    let mut db = Engine::new();

    match db.delete("phantom") {
        Err(DbError::KeyNotFound(_)) => {}
        other => panic!("expected KeyNotFound, got {:?}", other),
    }
}

#[test]
fn test_exists() {
    let mut db = Engine::new();

    assert!(!db.has_key("key_exists").unwrap());
    db.create("key_exists", b"data").unwrap();
    assert!(db.has_key("key_exists").unwrap());
}

#[test]
fn failed_create_names_the_key_and_leaves_the_value() {
    let mut db = Engine::new();
    db.create("k", b"first").unwrap();
    match db.create("k", b"second") {
        Err(DbError::KeyAlreadyExists(k)) => assert_eq!(k, "k"),
        other => panic!("unexpected {:?}", other),
    }
    assert_eq!(db.read("k").unwrap(), b"first");
}

#[test]
fn db_error_texts() {
    assert_eq!(DbError::KeyAlreadyExists("a".to_string()).to_string(), "key 'a' already exists");
    assert_eq!(DbError::KeyNotFound("b".to_string()).to_string(), "key 'b' not found");
    assert_eq!(DbError::SerializationError("bad".to_string()).to_string(), "serialization error: bad");
    assert_eq!(DbError::RocksDb("io".to_string()).to_string(), "rocksdb error: io");
}
