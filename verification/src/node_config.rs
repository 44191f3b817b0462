//! The peer list of a storage node, as given at start-up: a comma-separated
//! list of `id:address` entries, for example `1:[::1]:50051,2:[::1]:50052`.
use vstd::prelude::*;

use std::collections::HashMap;

use crate::text::{
    chars_of, parse_unsigned, parse_unsigned_chars, split_on, string_from_chars, sub_chars, trim, trim_chars,
};

verus! {

broadcast use vstd::seq_lib::group_seq_properties, vstd::std_specs::hash::group_hash_axioms;

/// Why a peer list was refused.
#[derive(Debug, Clone, Copy, PartialEq, Eq, Structural)]
pub enum PeerConfigError {
    /// An entry has no `:` between id and address.
    MissingColon,
    /// An entry's id is not a `u64`.
    InvalidPeerId,
    /// The list holds no entry.
    NoPeers,
}

/// The peers of a node: their ids in the order given, and the address of each.
pub struct NodePeers {
    pub peer_ids: Vec<u64>,
    pub peer_registry: HashMap<u64, String>,
}

/// The index of the first `:` in `s`, or `s.len()` when there is none.
pub open spec fn first_colon(s: Seq<char>) -> nat
    decreases s.len(),
{
    if s.len() == 0 {
        0
    } else if s[0] == ':' {
        0
    } else {
        1 + first_colon(s.drop_first())
    }
}

/// What one comma-separated piece holds: nothing when it is blank, else an
/// id and an address split at the first `:` of the trimmed piece.
pub open spec fn parse_peer(piece: Seq<char>) -> Result<Option<(u64, Seq<char>)>, PeerConfigError> {
    let t = trim(piece);
    let c = first_colon(t) as int;
    if t.len() == 0 {
        Ok(None)
    } else if c == t.len() {
        Err(PeerConfigError::MissingColon)
    } else {
        match parse_unsigned(t.subrange(0, c), u64::MAX as nat) {
            Some(id) => Ok(Some((id as u64, t.subrange(c + 1, t.len() as int)))),
            None => Err(PeerConfigError::InvalidPeerId),
        }
    }
}

/// The entries of a sequence of pieces, in order; the first bad piece decides
/// the error.
pub open spec fn parse_peers(pieces: Seq<Seq<char>>) -> Result<Seq<(u64, Seq<char>)>, PeerConfigError>
    decreases pieces.len(),
{
    if pieces.len() == 0 {
        Ok(Seq::empty())
    } else {
        match parse_peers(pieces.drop_last()) {
            Err(e) => Err(e),
            Ok(entries) => match parse_peer(pieces.last()) {
                Err(e) => Err(e),
                Ok(None) => Ok(entries),
                Ok(Some(entry)) => Ok(entries.push(entry)),
            },
        }
    }
}

/// The address of each id; a later entry for an id replaces an earlier one.
pub open spec fn registry_of(entries: Seq<(u64, Seq<char>)>) -> Map<u64, Seq<char>>
    decreases entries.len(),
{
    if entries.len() == 0 {
        Map::empty()
    } else {
        registry_of(entries.drop_last()).insert(entries.last().0, entries.last().1)
    }
}

/// The entries of a whole peer list: every comma-separated piece, and at
/// least one entry.
pub open spec fn peer_list(raw: Seq<char>) -> Result<Seq<(u64, Seq<char>)>, PeerConfigError> {
    match parse_peers(split_on(raw, ',')) {
        Err(e) => Err(e),
        Ok(entries) => if entries.len() == 0 {
            Err(PeerConfigError::NoPeers)
        } else {
            Ok(entries)
        },
    }
}

/// The registry holds an address for exactly the ids of the list.
pub proof fn lemma_registry_covers_ids(entries: Seq<(u64, Seq<char>)>)
    ensures
        forall|id: u64| #[trigger] registry_of(entries).contains_key(id) <==> exists|i: int|
            0 <= i < entries.len() && entries[i].0 == id,
    decreases entries.len(),
{
    if entries.len() > 0 {
        let rest = entries.drop_last();
        lemma_registry_covers_ids(rest);
        assert forall|id: u64| #[trigger] registry_of(entries).contains_key(id) <==> exists|i: int|
            0 <= i < entries.len() && entries[i].0 == id by {
            if registry_of(entries).contains_key(id) {
                if id == entries.last().0 {
                    assert(entries[entries.len() - 1].0 == id);
                } else {
                    assert(registry_of(rest).contains_key(id));
                    let i = choose|i: int| 0 <= i < rest.len() && rest[i].0 == id;
                    assert(entries[i] == rest[i]);
                }
            }
            if exists|i: int| 0 <= i < entries.len() && entries[i].0 == id {
                let i = choose|i: int| 0 <= i < entries.len() && entries[i].0 == id;
                if i < entries.len() - 1 {
                    assert(rest[i] == entries[i]);
                    assert(registry_of(rest).contains_key(id));
                }
            }
        }
    }
}

proof fn lemma_first_colon(s: Seq<char>)
    ensures
        first_colon(s) <= s.len(),
        forall|j: int| 0 <= j < first_colon(s) ==> s[j] != ':',
        first_colon(s) < s.len() ==> s[first_colon(s) as int] == ':',
    decreases s.len(),
{
    if s.len() > 0 && s[0] != ':' {
        lemma_first_colon(s.drop_first());
        assert forall|j: int| 0 < j < first_colon(s) implies s[j] != ':' by {
            assert(s[j] == s.drop_first()[j - 1]);
        }
    }
}

proof fn lemma_first_colon_unique(s: Seq<char>, i: int)
    requires
        0 <= i <= s.len(),
        forall|j: int| 0 <= j < i ==> s[j] != ':',
        i < s.len() ==> s[i] == ':',
    ensures
        first_colon(s) == i,
    decreases s.len(),
{
    if s.len() > 0 && s[0] != ':' {
        assert forall|j: int| 0 <= j < i - 1 implies s.drop_first()[j] != ':' by {
            assert(s.drop_first()[j] == s[j + 1]);
        }
        lemma_first_colon_unique(s.drop_first(), i - 1);
    }
}

/// Parses one piece of the list.
fn parse_peer_chars(piece: &Vec<char>) -> (parsed: Result<Option<(u64, String)>, PeerConfigError>)
    ensures
        match parse_peer(piece@) {
            Ok(None) => parsed matches Ok(None),
            Ok(Some(entry)) => parsed matches Ok(Some(e)) && e.0 == entry.0 && e.1@ == entry.1,
            Err(err) => parsed == Err::<Option<(u64, String)>, _>(err),
        },
{
    let t = trim_chars(piece);
    if t.len() == 0 {
        return Ok(None);
    }
    let mut c: usize = 0;
    while c < t.len() && t[c] != ':'
        invariant
            c <= t@.len(),
            forall|j: int| 0 <= j < c ==> t@[j] != ':',
        decreases t@.len() - c,
    {
        c = c + 1;
    }
    proof {
        lemma_first_colon_unique(t@, c as int);
    }
    if c == t.len() {
        return Err(PeerConfigError::MissingColon);
    }
    let id_chars = sub_chars(&t, 0, c);
    let id = match parse_unsigned_chars(&id_chars, u64::MAX) {
        Some(id) => id,
        None => {
            return Err(PeerConfigError::InvalidPeerId);
        },
    };
    let addr_chars = sub_chars(&t, c + 1, t.len());
    let address = string_from_chars(addr_chars.as_slice());
    Ok(Some((id, address)))
}

/// Parses a peer list: each comma-separated piece is trimmed; blank pieces
/// are passed over; every other piece is `id:address`, split at its first
/// `:`, with an id that parses as a `u64`. The ids keep the order of the list;
/// the registry maps each id to its address, a later entry replacing an
/// earlier one. A list without entries is refused.
pub fn parse_node_peers(raw: &str) -> (parsed: Result<NodePeers, PeerConfigError>)
    ensures
        match peer_list(raw@) {
            Err(e) => parsed == Err::<NodePeers, _>(e),
            Ok(entries) => parsed matches Ok(peers) && {
                &&& peers.peer_ids@ == entries.map_values(|e: (u64, Seq<char>)| e.0)
                &&& peers.peer_registry@.dom() == registry_of(entries).dom()
                &&& forall|id: u64| #[trigger] peers.peer_registry@.contains_key(id)
                    ==> peers.peer_registry@[id]@ == registry_of(entries)[id]
            },
        },
{
    let chars = chars_of(raw);
    let mut peer_ids: Vec<u64> = Vec::new();
    let mut peer_registry: HashMap<u64, String> = HashMap::new();
    let mut current: Vec<char> = Vec::new();
    let ghost mut done: Seq<Seq<char>> = Seq::empty();
    let ghost mut entries: Seq<(u64, Seq<char>)> = Seq::empty();
    let mut i: usize = 0;
    assert(chars@.subrange(0, 0) =~= Seq::<char>::empty());
    while i < chars.len()
        invariant
            i <= chars@.len(),
            chars@ == raw@,
            split_on(chars@.subrange(0, i as int), ',') == done.push(current@),
            parse_peers(done) == Ok::<_, PeerConfigError>(entries),
            peer_ids@ == entries.map_values(|e: (u64, Seq<char>)| e.0),
            peer_registry@.dom() == registry_of(entries).dom(),
            forall|id: u64| #[trigger] peer_registry@.contains_key(id) ==> peer_registry@[id]@ == registry_of(entries)[id],
        decreases chars@.len() - i,
    {
        let c = chars[i];
        let ghost prefix = chars@.subrange(0, i + 1);
        assert(prefix.drop_last() =~= chars@.subrange(0, i as int));
        assert(prefix.last() == c);
        if c == ',' {
            let parsed = parse_peer_chars(&current);
            assert(done.push(current@).drop_last() =~= done);
            match parsed {
                Err(e) => {
                    proof {
                        assert(split_on(prefix, ',') == done.push(current@).push(Seq::<char>::empty()));
                        lemma_parse_peers_error(done.push(current@), Seq::<char>::empty(), e);
                        lemma_error_prefix(chars@, i + 1, e);
                    }
                    return Err(e);
                },
                Ok(None) => {},
                Ok(Some((id, address))) => {
                    let ghost entry = (id, address@);
                    peer_ids.push(id);
                    peer_registry.insert(id, address);
                    proof {
                        let old_entries = entries;
                        entries = entries.push(entry);
                        assert(entries.drop_last() =~= old_entries);
                        assert(peer_ids@ =~= entries.map_values(|e: (u64, Seq<char>)| e.0));
                        assert(peer_registry@.dom() =~= registry_of(entries).dom());
                    }
                },
            }
            proof {
                done = done.push(current@);
            }
            current = Vec::new();
        } else {
            let ghost before = current@;
            current.push(c);
            proof {
                let pieces = split_on(chars@.subrange(0, i as int), ',');
                assert(pieces.last() == before);
                assert(split_on(prefix, ',') =~= done.push(current@));
            }
        }
        i = i + 1;
    }
    assert(chars@.subrange(0, chars@.len() as int) =~= chars@);
    let parsed = parse_peer_chars(&current);
    assert(done.push(current@).drop_last() =~= done);
    match parsed {
        Err(e) => {
            return Err(e);
        },
        Ok(None) => {},
        Ok(Some((id, address))) => {
            let ghost entry = (id, address@);
            peer_ids.push(id);
            peer_registry.insert(id, address);
            proof {
                let old_entries = entries;
                entries = entries.push(entry);
                assert(entries.drop_last() =~= old_entries);
                assert(peer_ids@ =~= entries.map_values(|e: (u64, Seq<char>)| e.0));
                assert(peer_registry@.dom() =~= registry_of(entries).dom());
            }
        },
    }
    if peer_ids.len() == 0 {
        return Err(PeerConfigError::NoPeers);
    }
    Ok(NodePeers { peer_ids, peer_registry })
}

/// Once a prefix of the pieces has failed, the whole list fails the same way.
proof fn lemma_parse_peers_error(pieces: Seq<Seq<char>>, next: Seq<char>, e: PeerConfigError)
    requires
        parse_peers(pieces) == Err::<Seq<(u64, Seq<char>)>, _>(e),
    ensures
        parse_peers(pieces.push(next)) == Err::<Seq<(u64, Seq<char>)>, _>(e),
{
    assert(pieces.push(next).drop_last() =~= pieces);
}

/// The pieces of a longer text extend the pieces of its prefix: the last
/// piece may grow, and new pieces follow.
proof fn lemma_split_extends(s: Seq<char>, k: int)
    requires
        0 <= k <= s.len(),
    ensures
        ({
            let p = split_on(s.subrange(0, k), ',');
            let q = split_on(s, ',');
            &&& p.len() <= q.len()
            &&& forall|j: int| 0 <= j < p.len() - 1 ==> #[trigger] q[j] == p[j]
        }),
    decreases s.len() - k,
{
    crate::text::lemma_split_on_len(s.subrange(0, k), ',');
    if k < s.len() {
        lemma_split_extends(s.drop_last(), k);
        assert(s.drop_last().subrange(0, k) =~= s.subrange(0, k));
        crate::text::lemma_split_on_len(s.drop_last(), ',');
    } else {
        assert(s.subrange(0, k) =~= s);
    }
}

/// Once the pieces of a prefix (all but its last, unfinished piece) fail,
/// the whole list fails the same way.
proof fn lemma_error_prefix(s: Seq<char>, k: int, e: PeerConfigError)
    requires
        0 <= k <= s.len(),
        parse_peers(split_on(s.subrange(0, k), ',').drop_last()) == Err::<Seq<(u64, Seq<char>)>, _>(e),
    ensures
        peer_list(s) == Err::<Seq<(u64, Seq<char>)>, _>(e),
{
    let p = split_on(s.subrange(0, k), ',');
    let q = split_on(s, ',');
    lemma_split_extends(s, k);
    crate::text::lemma_split_on_len(s.subrange(0, k), ',');
    assert(q.subrange(0, p.len() - 1) =~= p.drop_last());
    lemma_parse_peers_prefix_error(q, p.len() - 1, e);
}

/// When the first `n` pieces fail, all of them fail the same way.
proof fn lemma_parse_peers_prefix_error(q: Seq<Seq<char>>, n: int, e: PeerConfigError)
    requires
        0 <= n <= q.len(),
        parse_peers(q.subrange(0, n)) == Err::<Seq<(u64, Seq<char>)>, _>(e),
    ensures
        parse_peers(q) == Err::<Seq<(u64, Seq<char>)>, _>(e),
    decreases q.len() - n,
{
    if n < q.len() {
        lemma_parse_peers_error(q.subrange(0, n), q[n], e);
        assert(q.subrange(0, n).push(q[n]) =~= q.subrange(0, n + 1));
        lemma_parse_peers_prefix_error(q, n + 1, e);
    } else {
        assert(q.subrange(0, n) =~= q);
    }
}

} // verus!
