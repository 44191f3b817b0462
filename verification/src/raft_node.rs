//! The raft settings of a storage node: its id and its tick settings, every
//! other setting at the `raft` crate's default.
use vstd::prelude::*;

use raft::Config;

verus! {

/// The error type of the `raft` crate.
#[verifier::external_type_specification]
#[verifier::external_body]
pub struct ExRaftError(raft::Error);

/// Number of ticks without word from a leader before a follower starts an
/// election.
pub const ELECTION_TICK: usize = 10;

/// Number of ticks between the leader's heartbeats.
pub const HEARTBEAT_TICK: usize = 1;

/// Builds `raft::Config` from the node id and the two tick settings, every
/// other setting at its default, and calls `Config::validate`. With those
/// defaults, `validate` (raft 0.7, src/config.rs) accepts the configuration
/// exactly when the id is not 0, the heartbeat tick is positive and the
/// election tick exceeds it; the election tick is bounded so that its double,
/// which `validate` computes, cannot overflow.
#[verifier::external_body]
fn validate_config(id: u64, election_tick: usize, heartbeat_tick: usize) -> (checked: Result<(), raft::Error>)
    requires
        election_tick <= usize::MAX / 2,
    ensures
        checked is Ok <==> (id != 0 && heartbeat_tick > 0 && election_tick > heartbeat_tick),
{
    Config { id, election_tick, heartbeat_tick, ..Default::default() }.validate()
}

/// Checks the raft settings of the node with the given id: election after
/// `ELECTION_TICK` ticks, a heartbeat every `HEARTBEAT_TICK` ticks. Only a
/// zero id is refused.
pub fn validate_raft_config(id: u64) -> (checked: Result<(), raft::Error>)
    ensures
        checked is Ok <==> id != 0,
{
    validate_config(id, ELECTION_TICK, HEARTBEAT_TICK)
}

} // verus!
