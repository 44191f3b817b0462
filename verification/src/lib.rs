//! GridRock: a sharded key-value store whose servers sit on a consistent-hash
//! ring kept by a shard controller, and whose storage nodes replicate writes
//! through raft before applying them to a local key-value engine.

pub mod config_store;
pub mod text;
pub mod config_controller;
pub mod errors;
pub mod proposal_id;
pub mod node_utils;
pub mod db_utils;
pub mod node_config;
pub mod node_comm_server;
pub mod server;
pub mod client;
pub mod node_comm_client;
pub mod file_store_utils;
pub mod raft_node;
