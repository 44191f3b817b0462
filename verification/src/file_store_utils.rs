//! The shard configuration kept on disk by the shard controller.
use vstd::prelude::*;

verus! {

/// A shard configuration: its version, the field that keys the shards, and
/// the number of virtual nodes each server gets on the ring.
pub struct ShardConfig {
    pub version: u64,
    pub shard_key: String,
    pub virtual_nodes: u64,
}

/// Updating a stored shard configuration; it changes nothing yet.
pub fn update_shard_configuration() {
}

/// Reading a stored shard configuration; it reads nothing yet.
pub fn get_shard_configuration() {
}

/// Deleting a stored shard configuration; it deletes nothing yet.
pub fn delete_shard_configuration() {
}

} // verus!
