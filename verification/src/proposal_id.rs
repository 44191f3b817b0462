//! Proposal identifiers of a storage node: the high 16 bits hold the node's
//! id and the low 48 bits a per-node counter, so that nodes never hand out
//! the same identifier.
use vstd::prelude::*;

verus! {

/// The low 48 bits of a `u64`.
pub const COUNTER_MASK: u64 = 0x0000_FFFF_FFFF_FFFFu64;

/// The identifier built from a node id and a counter value.
pub open spec fn proposal_id(node_id: u64, seq: u64) -> u64 {
    (node_id << 48u64) | (seq & COUNTER_MASK)
}

/// The node's id and the next counter value, kept for the whole process.
pub struct ProposalIdState {
    node_id: u64,
    counter: u64,
}

impl View for ProposalIdState {
    type V = (u64, u64);

    /// The node id and the next counter value.
    closed spec fn view(&self) -> (u64, u64) {
        (self.node_id, self.counter)
    }
}

impl ProposalIdState {
    /// The state at start-up: node id 0, counter at 1.
    pub fn new() -> (state: ProposalIdState)
        ensures
            state@ == (0u64, 1u64),
    {
        ProposalIdState { node_id: 0, counter: 1 }
    }

    /// Hands out the counter's value and advances it by one, wrapping at the
    /// top of the `u64` range.
    pub fn next_sequence(&mut self) -> (seq: u64)
        ensures
            seq == old(self)@.1,
            final(self)@ == (old(self)@.0, old(self)@.1.wrapping_add(1)),
    {
        let seq = self.counter;
        self.counter = self.counter.wrapping_add(1);
        seq
    }
}

/// Sets this node's id, used for every identifier handed out afterwards.
pub fn init_node_id(state: &mut ProposalIdState, node_id: u64)
    ensures
        final(state)@ == (node_id, old(state)@.1),
{
    state.node_id = node_id;
}

/// A new identifier: the node id in the high 16 bits and the low 48 bits of
/// the counter, which then advances by one.
pub fn next_proposal_id(state: &mut ProposalIdState) -> (id: u64)
    ensures
        id == proposal_id(old(state)@.0, old(state)@.1),
        final(state)@ == (old(state)@.0, old(state)@.1.wrapping_add(1)),
{
    let nid = state.node_id;
    let seq = state.next_sequence();
    (nid << 48u64) | (seq & COUNTER_MASK)
}

/// Identifiers of two different nodes never clash, for node ids that fit in
/// 16 bits.
pub proof fn lemma_ids_of_distinct_nodes_differ(n1: u64, s1: u64, n2: u64, s2: u64)
    requires
        n1 != n2,
        n1 < 0x1_0000u64,
        n2 < 0x1_0000u64,
    ensures
        proposal_id(n1, s1) != proposal_id(n2, s2),
{
    assert(n1 != n2 && n1 < 0x1_0000u64 && n2 < 0x1_0000u64 ==> ((n1 << 48u64) | (s1
        & 0x0000_FFFF_FFFF_FFFFu64)) != ((n2 << 48u64) | (s2 & 0x0000_FFFF_FFFF_FFFFu64)))
        by (bit_vector);
}

/// An identifier gives back the node id (when it fits in 16 bits) and the low
/// 48 bits of the counter it was built from.
pub proof fn lemma_id_parts(n: u64, s: u64)
    requires
        n < 0x1_0000u64,
    ensures
        proposal_id(n, s) >> 48u64 == n,
        proposal_id(n, s) & COUNTER_MASK == s & COUNTER_MASK,
{
    assert(n < 0x1_0000u64 ==> ((n << 48u64) | (s & 0x0000_FFFF_FFFF_FFFFu64)) >> 48u64 == n)
        by (bit_vector);
    assert(((n << 48u64) | (s & 0x0000_FFFF_FFFF_FFFFu64)) & 0x0000_FFFF_FFFF_FFFFu64 == s
        & 0x0000_FFFF_FFFF_FFFFu64) by (bit_vector);
}

/// One node hands out pairwise different identifiers over any run of fewer
/// than 2^48 calls: counters that are `j` steps apart, with `0 < j < 2^48`,
/// give different identifiers.
pub proof fn lemma_ids_of_one_node_differ(n: u64, c: u64, j: u64)
    requires
        0 < j < 0x1_0000_0000_0000u64,
    ensures
        proposal_id(n, c) != proposal_id(n, c.wrapping_add(j)),
{
    let d = c.wrapping_add(j);
    assert(d == (c + j) % 0x1_0000_0000_0000_0000);
    assert(0 < j < 0x1_0000_0000_0000u64 && d == (c + j) % 0x1_0000_0000_0000_0000 ==> ((n << 48u64)
        | (c & 0x0000_FFFF_FFFF_FFFFu64)) != ((n << 48u64) | (d & 0x0000_FFFF_FFFF_FFFFu64)))
        by (bit_vector);
}

} // verus!
