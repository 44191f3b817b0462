//! The consistent-hash ring of the shard controller.
//!
//! Each server sits on a ring of `u64` positions ("ticks"); its tick is the
//! xxh3 hash of its address. The ring is kept sorted by tick, and a key is
//! served by the first server whose tick is at least the key's tick, wrapping
//! around to the first server when the key lies past every server.
use vstd::prelude::*;
use vstd::multiset::Multiset;
use xxhash_rust::xxh3::xxh3_64;

verus! {

broadcast use vstd::seq_lib::group_seq_properties;

/// What `xxh3_64` of the `xxhash-rust` crate returns for the given bytes.
pub uninterp spec fn xxh3_64_of(input: Seq<u8>) -> u64;

/// Calls `xxhash_rust::xxh3::xxh3_64`, the seedless 64-bit XXH3 hash. The hash
/// depends on the input bytes alone; its value is left to the name above.
#[verifier::external_body]
fn xxh3_hash(input: &[u8]) -> (hash: u64)
    ensures
        hash == xxh3_64_of(input@),
{
    xxh3_64(input)
}

/// A ring point as the contracts see it: the tick and the address.
pub open spec fn point(v: ConfigVal) -> (u64, Seq<char>) {
    (v.tick_value, v.address@)
}

/// The ring points of a sequence of entries, in order.
pub open spec fn points(s: Seq<ConfigVal>) -> Seq<(u64, Seq<char>)> {
    s.map_values(|v: ConfigVal| point(v))
}

/// The ticks never decrease along the sequence.
pub open spec fn is_sorted_ring(s: Seq<(u64, Seq<char>)>) -> bool {
    forall|i: int, j: int| 0 <= i <= j < s.len() ==> s[i].0 <= s[j].0
}

/// The index of the first point whose tick is at least `t` (the length of `s`
/// when there is none).
pub open spec fn first_at_least(s: Seq<(u64, Seq<char>)>, t: u64) -> nat
    decreases s.len(),
{
    if s.len() == 0 {
        0
    } else if s[0].0 >= t {
        0
    } else {
        1 + first_at_least(s.drop_first(), t)
    }
}

/// `p` inserted in front of every point whose tick is at least its own.
pub open spec fn insert_point(s: Seq<(u64, Seq<char>)>, p: (u64, Seq<char>)) -> Seq<(u64, Seq<char>)> {
    s.insert(first_at_least(s, p.0) as int, p)
}

/// The points sorted by tick; points with equal ticks keep their order.
pub open spec fn sort_ring(s: Seq<(u64, Seq<char>)>) -> Seq<(u64, Seq<char>)>
    decreases s.len(),
{
    if s.len() == 0 {
        s
    } else {
        insert_point(sort_ring(s.drop_first()), s[0])
    }
}

/// The index of the point that serves a key with tick `key`: the first point
/// whose tick is at least `key`, or the first point of all when there is none.
pub open spec fn successor(s: Seq<(u64, Seq<char>)>, key: u64) -> int {
    if first_at_least(s, key) == s.len() {
        0
    } else {
        first_at_least(s, key) as int
    }
}

/// Every point before `first_at_least(s, t)` lies below `t`, the point there
/// (if any) does not, and on a sorted ring neither does any point after it.
pub proof fn lemma_first_at_least(s: Seq<(u64, Seq<char>)>, t: u64)
    ensures
        first_at_least(s, t) <= s.len(),
        forall|j: int| 0 <= j < first_at_least(s, t) ==> s[j].0 < t,
        first_at_least(s, t) < s.len() ==> s[first_at_least(s, t) as int].0 >= t,
        is_sorted_ring(s) ==> forall|j: int|
            first_at_least(s, t) <= j < s.len() ==> s[j].0 >= t,
    decreases s.len(),
{
    if s.len() > 0 && s[0].0 < t {
        lemma_first_at_least(s.drop_first(), t);
        assert forall|j: int| 0 <= j < first_at_least(s, t) implies s[j].0 < t by {
            if j > 0 {
                assert(s[j] == s.drop_first()[j - 1]);
            }
        }
    }
}

/// Any index that splits the points into "below `t`" and "at least `t`" is
/// the one `first_at_least` names.
pub proof fn lemma_first_at_least_unique(s: Seq<(u64, Seq<char>)>, t: u64, i: int)
    requires
        0 <= i <= s.len(),
        forall|j: int| 0 <= j < i ==> s[j].0 < t,
        i < s.len() ==> s[i].0 >= t,
    ensures
        first_at_least(s, t) == i,
    decreases s.len(),
{
    if s.len() > 0 && s[0].0 < t {
        assert forall|j: int| 0 <= j < i - 1 implies s.drop_first()[j].0 < t by {
            assert(s.drop_first()[j] == s[j + 1]);
        }
        lemma_first_at_least_unique(s.drop_first(), t, i - 1);
    }
}

/// Inserting a point keeps a ring sorted and adds exactly that point.
pub proof fn lemma_insert_point(s: Seq<(u64, Seq<char>)>, p: (u64, Seq<char>))
    requires
        is_sorted_ring(s),
    ensures
        is_sorted_ring(insert_point(s, p)),
        insert_point(s, p).len() == s.len() + 1,
        insert_point(s, p).to_multiset() =~= s.to_multiset().insert(p),
{
    let k = first_at_least(s, p.0) as int;
    lemma_first_at_least(s, p.0);
    let r = s.insert(k, p);
    s.insert_ensures(k, p);
    assert forall|i: int, j: int| 0 <= i <= j < r.len() implies r[i].0 <= r[j].0 by {
        if i < k && j < k {
        } else if i < k && j == k {
        } else if i < k {
            assert(r[j] == s[j - 1]);
        } else if i == k && j > k {
            assert(r[j] == s[j - 1]);
        } else if i > k {
            assert(r[i] == s[i - 1]);
            assert(r[j] == s[j - 1]);
        }
    }
    assert(r.remove(k) =~= s);
    assert(r.to_multiset().count(p) > 0) by {
        assert(r[k] == p);
        assert(r.contains(p));
    }
    assert(r.remove(k).to_multiset() =~= r.to_multiset().remove(p));
}

/// The sorted ring is sorted, as long as its input, and holds the same points.
pub proof fn lemma_sort_ring(s: Seq<(u64, Seq<char>)>)
    ensures
        is_sorted_ring(sort_ring(s)),
        sort_ring(s).len() == s.len(),
        sort_ring(s).to_multiset() =~= s.to_multiset(),
    decreases s.len(),
{
    if s.len() > 0 {
        lemma_sort_ring(s.drop_first());
        lemma_insert_point(sort_ring(s.drop_first()), s[0]);
        assert(s =~= seq![s[0]] + s.drop_first());
        vstd::seq_lib::lemma_multiset_commutative(seq![s[0]], s.drop_first());
        assert(seq![s[0]].to_multiset() =~= Multiset::empty().insert(s[0])) by {
            assert(seq![s[0]] =~= Seq::<(u64, Seq<char>)>::empty().push(s[0]));
        }
    }
}

/// The tick at which a server with the given address sits on the ring: the
/// xxh3 hash of the address's UTF-8 bytes.
pub open spec fn address_tick(address: Seq<char>) -> u64 {
    xxh3_64_of(vstd::utf8::encode_utf8(address))
}

/// The ring points of the given server addresses, in order.
pub open spec fn address_points(addresses: Seq<String>) -> Seq<(u64, Seq<char>)> {
    addresses.map_values(|a: String| (address_tick(a@), a@))
}

/// The ring position of a value: the xxh3 hash of its UTF-8 bytes.
pub fn hashing_function(value: String) -> (hash: u64)
    ensures
        hash == address_tick(value@),
        hash == xxh3_64_of(vstd::utf8::encode_utf8(value@)),
{
    xxh3_hash(value.as_str().as_bytes())
}

/// A key is served by the next server clockwise: when some server's tick is at
/// least the key's, the serving server has the smallest such tick; otherwise
/// the key wraps around to the first server, which has the smallest tick of all.
pub proof fn lemma_successor_is_next_clockwise(s: Seq<(u64, Seq<char>)>, key: u64)
    requires
        is_sorted_ring(s),
        s.len() > 0,
    ensures
        0 <= successor(s, key) < s.len(),
        (exists|j: int| 0 <= j < s.len() && s[j].0 >= key) ==> {
            &&& s[successor(s, key)].0 >= key
            &&& forall|j: int| 0 <= j < s.len() && (#[trigger] s[j]).0 >= key ==> s[successor(s, key)].0 <= s[j].0
        },
        (forall|j: int| 0 <= j < s.len() ==> s[j].0 < key) ==> {
            &&& successor(s, key) == 0
            &&& forall|j: int| 0 <= j < s.len() ==> s[0].0 <= (#[trigger] s[j]).0
        },
{
    lemma_first_at_least(s, key);
    if exists|j: int| 0 <= j < s.len() && s[j].0 >= key {
        let j = choose|j: int| 0 <= j < s.len() && s[j].0 >= key;
        assert(first_at_least(s, key) < s.len());
    }
}

/// Consistent hashing: when a server joins the ring, every key is served
/// either by the server that served it before or by the new server.
pub proof fn lemma_add_moves_keys_only_to_new_server(
    s: Seq<(u64, Seq<char>)>,
    p: (u64, Seq<char>),
    key: u64,
)
    requires
        is_sorted_ring(s),
    ensures
        ({
            let t = insert_point(s, p);
            ||| t[successor(t, key)] == p
            ||| (s.len() > 0 && t[successor(t, key)] == s[successor(s, key)])
        }),
{
    let k = first_at_least(s, p.0) as int;
    let t = insert_point(s, p);
    lemma_first_at_least(s, p.0);
    lemma_first_at_least(s, key);
    lemma_insert_point(s, p);
    s.insert_ensures(k, p);
    lemma_first_at_least(t, key);
    let i = first_at_least(s, key) as int;
    if i < k {
        assert forall|j: int| 0 <= j < i implies t[j].0 < key by {
            assert(t[j] == s[j]);
        }
        assert(t[i] == s[i]);
        lemma_first_at_least_unique(t, key, i);
    } else if p.0 >= key {
        assert forall|j: int| 0 <= j < k implies t[j].0 < key by {
            assert(t[j] == s[j]);
        }
        lemma_first_at_least_unique(t, key, k);
    } else {
        assert forall|j: int| 0 <= j < i + 1 implies t[j].0 < key by {
            if j < k {
                assert(t[j] == s[j]);
            } else if j > k {
                assert(t[j] == s[j - 1]);
            }
        }
        if i < s.len() {
            assert(t[i + 1] == s[i]);
        }
        lemma_first_at_least_unique(t, key, i + 1);
        if i == s.len() && k > 0 {
            assert(t[0] == s[0]);
        }
    }
}

/// Sorting entries that are already sorted by tick leaves them as they are.
pub proof fn lemma_sort_ring_of_sorted(s: Seq<(u64, Seq<char>)>)
    requires
        is_sorted_ring(s),
    ensures
        sort_ring(s) == s,
    decreases s.len(),
{
    if s.len() > 0 {
        let rest = s.drop_first();
        assert(is_sorted_ring(rest)) by {
            assert forall|i: int, j: int| 0 <= i <= j < rest.len() implies rest[i].0 <= rest[j].0 by {
                assert(rest[i] == s[i + 1]);
                assert(rest[j] == s[j + 1]);
            }
        }
        lemma_sort_ring_of_sorted(rest);
        assert forall|j: int| 0 <= j < rest.len() implies rest[j].0 >= s[0].0 by {
            assert(rest[j] == s[j + 1]);
        }
        if rest.len() > 0 {
            assert(rest[0].0 >= s[0].0);
        }
        lemma_first_at_least_unique(rest, s[0].0, 0);
        assert(rest.insert(0, s[0]) =~= s);
    }
}

/// The points of `s` whose address is not `address`, in order.
pub open spec fn without_address(s: Seq<(u64, Seq<char>)>, address: Seq<char>) -> Seq<(u64, Seq<char>)>
    decreases s.len(),
{
    if s.len() == 0 {
        s
    } else if s.last().1 == address {
        without_address(s.drop_last(), address)
    } else {
        without_address(s.drop_last(), address).push(s.last())
    }
}

/// Some point of `s` has this address.
pub open spec fn has_address(s: Seq<(u64, Seq<char>)>, address: Seq<char>) -> bool {
    exists|i: int| 0 <= i < s.len() && (#[trigger] s[i]).1 == address
}

/// The addresses of the points, each once, in the order of first appearance.
pub open spec fn unique_addresses(s: Seq<(u64, Seq<char>)>) -> Seq<Seq<char>>
    decreases s.len(),
{
    if s.len() == 0 {
        Seq::empty()
    } else if unique_addresses(s.drop_last()).contains(s.last().1) {
        unique_addresses(s.drop_last())
    } else {
        unique_addresses(s.drop_last()).push(s.last().1)
    }
}

/// Removing a server keeps the ring sorted, and leaves none of its points.
pub proof fn lemma_without_address(s: Seq<(u64, Seq<char>)>, address: Seq<char>)
    requires
        is_sorted_ring(s),
    ensures
        is_sorted_ring(without_address(s, address)),
        !has_address(without_address(s, address), address),
        forall|i: int| 0 <= i < without_address(s, address).len() ==>
            exists|j: int| 0 <= j < s.len() && #[trigger] without_address(s, address)[i] == s[j],
    decreases s.len(),
{
    if s.len() > 0 {
        let rest = s.drop_last();
        assert(is_sorted_ring(rest));
        lemma_without_address(rest, address);
        let r = without_address(rest, address);
        assert forall|i: int| 0 <= i < r.len() implies exists|j: int| 0 <= j < s.len() && #[trigger] r[i] == s[j] by {
            let j = choose|j: int| 0 <= j < rest.len() && r[i] == rest[j];
            assert(s[j] == rest[j]);
        }
        if s.last().1 != address {
            let t = r.push(s.last());
            assert forall|i: int, j: int| 0 <= i <= j < t.len() implies t[i].0 <= t[j].0 by {
                if j == t.len() - 1 && i < j {
                    let k = choose|k: int| 0 <= k < s.len() && r[i] == s[k];
                    assert(t[i] == r[i]);
                }
            }
            assert forall|i: int| 0 <= i < t.len() implies exists|j: int| 0 <= j < s.len() && #[trigger] t[i] == s[j] by {
                if i == t.len() - 1 {
                    assert(t[i] == s[s.len() - 1]);
                } else {
                    assert(t[i] == r[i]);
                }
            }
            assert(!has_address(t, address)) by {
                if has_address(t, address) {
                    let i = choose|i: int| 0 <= i < t.len() && (#[trigger] t[i]).1 == address;
                    assert(i < t.len() - 1);
                    assert(t[i] == r[i]);
                }
            }
        }
    }
}

/// Removing an address from two joined sequences removes it from each.
pub proof fn lemma_without_address_concat(x: Seq<(u64, Seq<char>)>, y: Seq<(u64, Seq<char>)>, address: Seq<char>)
    ensures
        without_address(x + y, address) == without_address(x, address) + without_address(y, address),
    decreases y.len(),
{
    if y.len() == 0 {
        assert(x + y =~= x);
        assert(without_address(x, address) + without_address(y, address) =~= without_address(x, address));
    } else {
        lemma_without_address_concat(x, y.drop_last(), address);
        assert((x + y).drop_last() =~= x + y.drop_last());
        assert((x + y).last() == y.last());
        if y.last().1 != address {
            assert(without_address(x, address) + without_address(y.drop_last(), address).push(y.last())
                =~= (without_address(x, address) + without_address(y.drop_last(), address)).push(y.last()));
        }
    }
}

/// Every point left after a removal is a point of the original sequence.
pub proof fn lemma_without_address_elements(s: Seq<(u64, Seq<char>)>, address: Seq<char>)
    ensures
        without_address(s, address).len() <= s.len(),
        forall|i: int| 0 <= i < without_address(s, address).len() ==>
            exists|j: int| 0 <= j < s.len() && #[trigger] without_address(s, address)[i] == s[j],
    decreases s.len(),
{
    if s.len() > 0 {
        let rest = s.drop_last();
        lemma_without_address_elements(rest, address);
        let r = without_address(rest, address);
        assert forall|i: int| 0 <= i < r.len() implies exists|j: int| 0 <= j < s.len() && #[trigger] r[i] == s[j] by {
            let j = choose|j: int| 0 <= j < rest.len() && r[i] == rest[j];
            assert(s[j] == rest[j]);
        }
        if s.last().1 != address {
            let t = r.push(s.last());
            assert forall|i: int| 0 <= i < t.len() implies exists|j: int| 0 <= j < s.len() && #[trigger] t[i] == s[j] by {
                if i == t.len() - 1 {
                    assert(t[i] == s[s.len() - 1]);
                } else {
                    assert(t[i] == r[i]);
                }
            }
        }
    }
}

/// Consistent hashing: when a server leaves the ring, every key that another
/// server served is still served by that server.
pub proof fn lemma_remove_keeps_other_servers_keys(s: Seq<(u64, Seq<char>)>, address: Seq<char>, key: u64)
    requires
        is_sorted_ring(s),
        s.len() > 0,
        s[successor(s, key)].1 != address,
    ensures
        without_address(s, address).len() > 0,
        ({
            let t = without_address(s, address);
            t[successor(t, key)] == s[successor(s, key)]
        }),
{
    let i = successor(s, key);
    let t = without_address(s, address);
    lemma_first_at_least(s, key);
    let before = s.subrange(0, i);
    let after = s.subrange(i, s.len() as int);
    assert(s =~= before + after);
    lemma_without_address_concat(before, after, address);
    assert(after =~= seq![s[i]] + after.drop_first());
    lemma_without_address_concat(seq![s[i]], after.drop_first(), address);
    assert(seq![s[i]] =~= Seq::<(u64, Seq<char>)>::empty().push(s[i]));
    assert(without_address(Seq::<(u64, Seq<char>)>::empty(), address) =~= Seq::<(u64, Seq<char>)>::empty());
    assert(without_address(seq![s[i]], address) =~= seq![s[i]]) by {
        let one = seq![s[i]];
        assert(one.drop_last() =~= Seq::<(u64, Seq<char>)>::empty());
        assert(one.last() == s[i]);
        assert(Seq::<(u64, Seq<char>)>::empty().push(s[i]) =~= one);
    }
    let wb = without_address(before, address);
    let wa = without_address(after.drop_first(), address);
    assert(t =~= wb + seq![s[i]] + wa);
    let c = wb.len() as int;
    assert(t[c] == s[i]);
    lemma_without_address_elements(before, address);
    lemma_without_address_elements(s, address);
    if first_at_least(s, key) < s.len() {
        assert forall|j: int| 0 <= j < c implies t[j].0 < key by {
            assert(t[j] == wb[j]);
            let m = choose|m: int| 0 <= m < before.len() && wb[j] == before[m];
            assert(before[m] == s[m]);
        }
        lemma_first_at_least_unique(t, key, c);
    } else {
        assert(i == 0);
        assert(c == 0) by {
            assert(before.len() == 0);
        }
        assert forall|j: int| 0 <= j < t.len() implies t[j].0 < key by {
            let m = choose|m: int| 0 <= m < s.len() && t[j] == s[m];
        }
        lemma_first_at_least_unique(t, key, t.len() as int);
    }
}

/// The points of a sequence that sit at tick `t`.
pub open spec fn at_tick(t: u64) -> spec_fn((u64, Seq<char>)) -> bool {
    |p: (u64, Seq<char>)| p.0 == t
}

proof fn lemma_filter_none(s: Seq<(u64, Seq<char>)>, t: u64)
    requires
        forall|j: int| 0 <= j < s.len() ==> s[j].0 != t,
    ensures
        s.filter(at_tick(t)) == Seq::<(u64, Seq<char>)>::empty(),
    decreases s.len(),
{
    reveal(Seq::filter);
    if s.len() > 0 {
        lemma_filter_none(s.drop_last(), t);
    }
}

/// Sorting is stable: the points at any one tick keep the order they had.
pub proof fn lemma_sort_ring_stable(s: Seq<(u64, Seq<char>)>, t: u64)
    ensures
        sort_ring(s).filter(at_tick(t)) == s.filter(at_tick(t)),
    decreases s.len(),
{
    if s.len() > 0 {
        let rest = s.drop_first();
        let r = sort_ring(rest);
        let p = s[0];
        lemma_sort_ring_stable(rest, t);
        lemma_sort_ring(rest);
        lemma_first_at_least(r, p.0);
        let k = first_at_least(r, p.0) as int;
        let lo = r.subrange(0, k);
        let hi = r.subrange(k, r.len() as int);
        assert(r =~= lo + hi);
        assert(r.insert(k, p) =~= lo + (seq![p] + hi));
        Seq::filter_distributes_over_add(lo, seq![p] + hi, at_tick(t));
        Seq::filter_distributes_over_add(seq![p], hi, at_tick(t));
        Seq::filter_distributes_over_add(lo, hi, at_tick(t));
        assert(s =~= seq![p] + rest);
        Seq::filter_distributes_over_add(seq![p], rest, at_tick(t));
        assert(seq![p].filter(at_tick(t)) == (if p.0 == t { seq![p] } else { Seq::<(u64, Seq<char>)>::empty() })) by {
            reveal(Seq::filter);
            assert(seq![p].drop_last() =~= Seq::<(u64, Seq<char>)>::empty());
            assert(Seq::<(u64, Seq<char>)>::empty().filter(at_tick(t)) =~= Seq::<(u64, Seq<char>)>::empty());
        }
        if p.0 == t {
            assert forall|j: int| 0 <= j < lo.len() implies lo[j].0 != t by {
                assert(lo[j] == r[j]);
            }
            lemma_filter_none(lo, t);
            assert(Seq::<(u64, Seq<char>)>::empty() + hi.filter(at_tick(t)) =~= hi.filter(at_tick(t)));
        }
        assert(Seq::<(u64, Seq<char>)>::empty() + rest.filter(at_tick(t)) =~= rest.filter(at_tick(t)));
        assert(Seq::<(u64, Seq<char>)>::empty() + hi.filter(at_tick(t)) =~= hi.filter(at_tick(t)));
    }
}

/// Adding one point by binary-search insertion gives the same ring as
/// appending it and sorting again, when no point already sits at its tick.
pub proof fn lemma_insert_point_is_resort(s: Seq<(u64, Seq<char>)>, p: (u64, Seq<char>))
    requires
        is_sorted_ring(s),
        forall|j: int| 0 <= j < s.len() ==> s[j].0 != p.0,
    ensures
        insert_point(s, p) == sort_ring(s + seq![p]),
    decreases s.len(),
{
    let sp = s + seq![p];
    if s.len() == 0 {
        assert(sp =~= seq![p]);
        assert(sp.drop_first() =~= Seq::<(u64, Seq<char>)>::empty());
        assert(Seq::<(u64, Seq<char>)>::empty().insert(0, p) =~= seq![p]);
        assert(s.insert(0, p) =~= seq![p]);
        assert(sort_ring(sp) == insert_point(sort_ring(sp.drop_first()), sp[0]));
        assert(sort_ring(sp.drop_first()) == sp.drop_first());
    } else {
        let s0 = s[0];
        let rest = s.drop_first();
        assert(is_sorted_ring(rest)) by {
            assert forall|i: int, j: int| 0 <= i <= j < rest.len() implies rest[i].0 <= rest[j].0 by {
                assert(rest[i] == s[i + 1]);
                assert(rest[j] == s[j + 1]);
            }
        }
        assert forall|j: int| 0 <= j < rest.len() implies rest[j].0 != p.0 by {
            assert(rest[j] == s[j + 1]);
        }
        lemma_insert_point_is_resort(rest, p);
        assert(sp.drop_first() =~= rest + seq![p]);
        assert(sp[0] == s0);
        let ip = insert_point(rest, p);
        assert(sort_ring(sp) == insert_point(ip, s0));
        lemma_first_at_least(rest, p.0);
        lemma_first_at_least(s, p.0);
        let kr = first_at_least(rest, p.0) as int;
        rest.insert_ensures(kr, p);
        assert forall|j: int| 0 <= j < rest.len() implies rest[j].0 >= s0.0 by {
            assert(rest[j] == s[j + 1]);
        }
        if p.0 < s0.0 {
            assert(kr == 0) by {
                if rest.len() > 0 {
                    assert(rest[0].0 >= s0.0);
                }
                lemma_first_at_least_unique(rest, p.0, 0);
            }
            assert(ip =~= seq![p] + rest);
            assert forall|j: int| 0 <= j < 1 implies ip[j].0 < s0.0 by {}
            if ip.len() > 1 {
                assert(ip[1] == rest[0]);
            }
            lemma_first_at_least_unique(ip, s0.0, 1);
            lemma_first_at_least_unique(s, p.0, 0);
            assert(ip.insert(1, s0) =~= s.insert(0, p));
        } else {
            assert(p.0 > s0.0);
            assert forall|j: int| 0 <= j < ip.len() implies ip[j].0 >= s0.0 by {
                if j < kr {
                    assert(ip[j] == rest[j]);
                } else if j > kr {
                    assert(ip[j] == rest[j - 1]);
                }
            }
            if ip.len() > 0 {
                assert(ip[0].0 >= s0.0);
            }
            lemma_first_at_least_unique(ip, s0.0, 0);
            let ks = first_at_least(s, p.0) as int;
            assert(ks == kr + 1) by {
                assert forall|j: int| 0 <= j < kr + 1 implies s[j].0 < p.0 by {
                    if j > 0 {
                        assert(s[j] == rest[j - 1]);
                    }
                }
                if kr + 1 < s.len() {
                    assert(s[kr + 1] == rest[kr]);
                }
                lemma_first_at_least_unique(s, p.0, kr + 1);
            }
            assert(ip.insert(0, s0) =~= s.insert(ks, p));
        }
    }
}

/// Removing an address that no point has leaves the points as they are.
pub proof fn lemma_without_address_absent(s: Seq<(u64, Seq<char>)>, address: Seq<char>)
    requires
        !has_address(s, address),
    ensures
        without_address(s, address) == s,
    decreases s.len(),
{
    if s.len() > 0 {
        let rest = s.drop_last();
        assert(!has_address(rest, address)) by {
            if has_address(rest, address) {
                let i = choose|i: int| 0 <= i < rest.len() && (#[trigger] rest[i]).1 == address;
                assert(s[i] == rest[i]);
            }
        }
        lemma_without_address_absent(rest, address);
        assert(s.last() == s[s.len() - 1]);
        assert(rest.push(s.last()) =~= s);
    }
}

/// The distinct addresses hold no address twice, and hold an address
/// exactly when some point of the ring has it.
pub proof fn lemma_unique_addresses(s: Seq<(u64, Seq<char>)>)
    ensures
        forall|i: int, j: int| 0 <= i < j < unique_addresses(s).len() ==> unique_addresses(s)[i] != unique_addresses(s)[j],
        forall|a: Seq<char>| unique_addresses(s).contains(a) <==> has_address(s, a),
    decreases s.len(),
{
    if s.len() > 0 {
        let rest = s.drop_last();
        lemma_unique_addresses(rest);
        let u = unique_addresses(rest);
        assert forall|a: Seq<char>| has_address(s, a) <==> (has_address(rest, a) || s.last().1 == a) by {
            if has_address(s, a) {
                let i = choose|i: int| 0 <= i < s.len() && (#[trigger] s[i]).1 == a;
                if i < s.len() - 1 {
                    assert(rest[i] == s[i]);
                }
            }
            if has_address(rest, a) {
                let i = choose|i: int| 0 <= i < rest.len() && (#[trigger] rest[i]).1 == a;
                assert(s[i] == rest[i]);
            }
            if s.last().1 == a {
                assert(s[s.len() - 1].1 == a);
            }
        }
        if !u.contains(s.last().1) {
            let v = u.push(s.last().1);
            assert forall|i: int, j: int| 0 <= i < j < v.len() implies v[i] != v[j] by {
                if j == v.len() - 1 {
                    assert(v[i] == u[i]);
                }
            }
            assert forall|a: Seq<char>| v.contains(a) <==> (u.contains(a) || a == s.last().1) by {
                if v.contains(a) {
                    let k = choose|k: int| 0 <= k < v.len() && v[k] == a;
                    if k < u.len() {
                        assert(u[k] == a);
                    }
                }
                if u.contains(a) {
                    let k = choose|k: int| 0 <= k < u.len() && u[k] == a;
                    assert(v[k] == a);
                }
                if a == s.last().1 {
                    assert(v[v.len() - 1] == a);
                }
            }
        }
    }
}

/// The ring position of an address is the xxh3 hash of exactly its UTF-8
/// bytes.
pub proof fn lemma_address_tick_is_hash_of_bytes(address: Seq<char>)
    ensures
        address_tick(address) == xxh3_64_of(vstd::utf8::encode_utf8(address)),
{
}

/// A ring built from addresses holds each address at the xxh3 hash of exactly
/// its UTF-8 bytes.
pub proof fn lemma_address_points(addresses: Seq<String>)
    ensures
        address_points(addresses).len() == addresses.len(),
        forall|i: int| 0 <= i < addresses.len() ==> #[trigger] address_points(addresses)[i] == (
            xxh3_64_of(vstd::utf8::encode_utf8(addresses[i]@)),
            addresses[i]@,
        ),
{
}

/// A server on the ring: its tick and its address.
#[derive(Debug)]
pub struct ConfigVal {
    pub tick_value: u64,
    pub address: String,
}

impl ConfigVal {
    /// Places a server on the ring: its tick is the hash of its address.
    pub fn new(address: String) -> (val: ConfigVal)
        ensures
            val.address@ == address@,
            val.tick_value == address_tick(address@),
            val.tick_value == xxh3_64_of(vstd::utf8::encode_utf8(address@)),
    {
        let tick_value = hashing_function(address.clone());
        ConfigVal { tick_value, address }
    }
}

/// The index of the first entry of `v` whose tick is at least `t`, found by
/// binary search.
fn partition_point_below(v: &Vec<ConfigVal>, t: u64) -> (idx: usize)
    requires
        is_sorted_ring(points(v@)),
    ensures
        idx == first_at_least(points(v@), t),
{
    let ghost s = points(v@);
    let mut lo: usize = 0;
    let mut hi: usize = v.len();
    while lo < hi
        invariant
            s == points(v@),
            is_sorted_ring(s),
            lo <= hi <= v.len(),
            forall|j: int| 0 <= j < lo ==> s[j].0 < t,
            forall|j: int| hi <= j < v.len() ==> s[j].0 >= t,
        decreases hi - lo,
    {
        let mid = lo + (hi - lo) / 2;
        if v[mid].tick_value < t {
            assert(s[mid as int].0 < t);
            lo = mid + 1;
        } else {
            assert(s[mid as int].0 >= t);
            hi = mid;
        }
    }
    proof {
        lemma_first_at_least_unique(s, t, lo as int);
    }
    lo
}

/// Inserts `entry` in front of every entry whose tick is at least its own.
fn insert_sorted(v: &mut Vec<ConfigVal>, entry: ConfigVal)
    requires
        is_sorted_ring(points(old(v)@)),
    ensures
        points(final(v)@) == insert_point(points(old(v)@), point(entry)),
        is_sorted_ring(points(final(v)@)),
{
    let idx = partition_point_below(v, entry.tick_value);
    proof {
        lemma_first_at_least(points(v@), entry.tick_value);
        lemma_insert_point(points(v@), point(entry));
    }
    let ghost before = v@;
    let ghost p = point(entry);
    v.insert(idx, entry);
    assert(points(v@) =~= points(before).insert(idx as int, p));
}

/// Sorts the entries by tick; entries with equal ticks keep their order.
fn sort_entries(entries: Vec<ConfigVal>) -> (sorted: Vec<ConfigVal>)
    ensures
        points(sorted@) == sort_ring(points(entries@)),
        is_sorted_ring(points(sorted@)),
{
    let ghost all = points(entries@);
    let ghost n = entries@.len() as int;
    let mut rest = entries;
    let mut sorted: Vec<ConfigVal> = Vec::new();
    assert(all.subrange(n, n) =~= Seq::<(u64, Seq<char>)>::empty());
    while rest.len() > 0
        invariant
            n == all.len(),
            rest@.len() <= n,
            points(rest@) == all.subrange(0, rest@.len() as int),
            points(sorted@) == sort_ring(all.subrange(rest@.len() as int, n)),
            is_sorted_ring(points(sorted@)),
        decreases rest@.len(),
    {
        let ghost k = rest@.len() as int;
        let ghost before = rest@;
        let entry = rest.pop().unwrap();
        assert(point(entry) == all[k - 1]) by {
            assert(points(before)[k - 1] == point(before[k - 1]));
            assert(all.subrange(0, k)[k - 1] == all[k - 1]);
        }
        assert(points(rest@) =~= all.subrange(0, k - 1)) by {
            assert(rest@ =~= before.subrange(0, k - 1));
        }
        assert(all.subrange(k - 1, n).drop_first() =~= all.subrange(k, n));
        assert(all.subrange(k - 1, n)[0] == all[k - 1]);
        insert_sorted(&mut sorted, entry);
    }
    assert(all.subrange(0, n) =~= all);
    sorted
}

/// The ring: servers sorted by tick.
#[derive(Debug)]
pub struct Config {
    config: Vec<ConfigVal>,
}

impl View for Config {
    type V = Seq<(u64, Seq<char>)>;

    closed spec fn view(&self) -> Seq<(u64, Seq<char>)> {
        points(self.config@)
    }
}

impl Config {
    #[verifier::type_invariant]
    spec fn sorted_by_tick(self) -> bool {
        is_sorted_ring(points(self.config@))
    }

    /// Builds a ring from entries in any order; it holds them sorted by tick,
    /// entries with equal ticks in the order given.
    pub fn new(config: Vec<ConfigVal>) -> (ring: Config)
        ensures
            ring@ == sort_ring(points(config@)),
            is_sorted_ring(ring@),
    {
        let sorted = sort_entries(config);
        Config { config: sorted }
    }

    /// Builds the ring from server addresses: each address is hashed onto
    /// the ring, then the entries are sorted by tick.
    pub fn from_addresses(addresses: Vec<String>) -> (ring: Config)
        ensures
            ring@ == sort_ring(address_points(addresses@)),
            is_sorted_ring(ring@),
    {
        let mut entries: Vec<ConfigVal> = Vec::new();
        let mut i: usize = 0;
        while i < addresses.len()
            invariant
                i <= addresses@.len(),
                points(entries@) =~= address_points(addresses@.subrange(0, i as int)),
            decreases addresses@.len() - i,
        {
            let entry = ConfigVal::new(addresses[i].clone());
            let ghost before = entries@;
            entries.push(entry);
            assert(addresses@.subrange(0, i + 1).drop_last() =~= addresses@.subrange(0, i as int));
            assert(points(entries@) =~= points(before).push(point(entry)));
            i = i + 1;
        }
        assert(addresses@.subrange(0, addresses@.len() as int) =~= addresses@);
        Config::new(entries)
    }

    /// Adds entries and re-sorts: the ring holds the old entries followed by
    /// the new ones, sorted by tick, equal ticks in that order.
    pub fn update_config(&mut self, values: Vec<ConfigVal>)
        ensures
            final(self)@ == sort_ring(old(self)@ + points(values@)),
            is_sorted_ring(final(self)@),
    {
        let mut all: Vec<ConfigVal> = Vec::new();
        std::mem::swap(&mut all, &mut self.config);
        let mut values = values;
        let ghost old_all = all@;
        let ghost old_values = values@;
        all.append(&mut values);
        assert(points(all@) =~= points(old_all) + points(old_values));
        self.config = sort_entries(all);
    }

    /// Adds one entry by binary search: it goes in front of every entry whose
    /// tick is at least its own, so the ring stays sorted.
    pub fn add_entry(&mut self, entry: ConfigVal)
        ensures
            final(self)@ == insert_point(old(self)@, point(entry)),
            is_sorted_ring(final(self)@),
    {
        proof {
            use_type_invariant(&*self);
        }
        let mut all: Vec<ConfigVal> = Vec::new();
        std::mem::swap(&mut all, &mut self.config);
        insert_sorted(&mut all, entry);
        self.config = all;
    }

    /// The entries of the ring, in ring order.
    pub fn get_entries(&self) -> (entries: &Vec<ConfigVal>)
        ensures
            points(entries@) == self@,
    {
        &self.config
    }

    /// Removes every entry whose address is `address`; says whether there was one.
    pub fn remove_entry(&mut self, address: &String) -> (removed: bool)
        ensures
            final(self)@ == without_address(old(self)@, address@),
            removed == has_address(old(self)@, address@),
            is_sorted_ring(final(self)@),
    {
        proof {
            use_type_invariant(&*self);
        }
        let mut rest: Vec<ConfigVal> = Vec::new();
        std::mem::swap(&mut rest, &mut self.config);
        let ghost all = points(rest@);
        let ghost n = rest@.len() as int;
        let mut kept: Vec<ConfigVal> = Vec::new();
        let mut removed = false;
        while rest.len() > 0
            invariant
                n == all.len(),
                rest@.len() <= n,
                points(rest@) == all.subrange(n - rest@.len(), n),
                points(kept@) == without_address(all.subrange(0, n - rest@.len()), address@),
                removed == has_address(all.subrange(0, n - rest@.len()), address@),
            decreases rest@.len(),
        {
            let ghost k = n - rest@.len();
            let ghost before = rest@;
            let entry = rest.remove(0);
            assert(point(entry) == all[k]) by {
                assert(points(before)[0] == point(before[0]));
            }
            assert(points(rest@) =~= all.subrange(k + 1, n)) by {
                assert(rest@ =~= before.subrange(1, before.len() as int));
                assert forall|i: int| 0 <= i < rest@.len() implies points(rest@)[i] == all[k + 1 + i] by {
                    assert(points(rest@)[i] == point(rest@[i]));
                    assert(points(before)[i + 1] == point(before[i + 1]));
                    assert(all.subrange(k, n)[i + 1] == all[k + 1 + i]);
                }
            }
            let ghost pre = all.subrange(0, k);
            let ghost post = all.subrange(0, k + 1);
            assert(post.drop_last() =~= pre);
            assert(post.last() == all[k]);
            assert(has_address(post, address@) == (has_address(pre, address@) || all[k].1 == address@)) by {
                if has_address(pre, address@) {
                    let i = choose|i: int| 0 <= i < pre.len() && (#[trigger] pre[i]).1 == address@;
                    assert(post[i] == pre[i]);
                }
                if has_address(post, address@) {
                    let i = choose|i: int| 0 <= i < post.len() && (#[trigger] post[i]).1 == address@;
                    if i < k {
                        assert(pre[i] == post[i]);
                    }
                }
                if all[k].1 == address@ {
                    assert(post[k] == all[k]);
                }
            }
            if entry.address == *address {
                removed = true;
            } else {
                let ghost kept_before = kept@;
                kept.push(entry);
                assert(points(kept@) =~= points(kept_before).push(point(entry)));
            }
        }
        assert(all.subrange(0, n) =~= all);
        proof {
            lemma_without_address(all, address@);
        }
        self.config = kept;
        removed
    }

    /// The distinct server addresses, in the order they first appear on the ring.
    pub fn get_unique_addresses(&self) -> (addresses: Vec<String>)
        ensures
            addresses@.map_values(|a: String| a@) == unique_addresses(self@),
            forall|i: int, j: int| 0 <= i < j < addresses@.len() ==> addresses@[i]@ != addresses@[j]@,
            forall|a: Seq<char>| (exists|i: int| 0 <= i < addresses@.len() && #[trigger] addresses@[i]@ == a)
                <==> has_address(self@, a),
    {
        let mut out: Vec<String> = Vec::new();
        let mut i: usize = 0;
        while i < self.config.len()
            invariant
                i <= self.config@.len(),
                out@.map_values(|a: String| a@) == unique_addresses(points(self.config@).subrange(0, i as int)),
            decreases self.config@.len() - i,
        {
            let ghost pre = points(self.config@).subrange(0, i as int);
            let ghost post = points(self.config@).subrange(0, i + 1);
            assert(post.drop_last() =~= pre);
            assert(post.last() == point(self.config@[i as int]));
            let address = &self.config[i].address;
            let mut seen = false;
            let mut j: usize = 0;
            while j < out.len()
                invariant
                    j <= out@.len(),
                    seen == exists|m: int| 0 <= m < j && out@[m]@ == address@,
                decreases out@.len() - j,
            {
                if out[j] == *address {
                    seen = true;
                }
                j = j + 1;
            }
            let ghost u = out@.map_values(|a: String| a@);
            assert(seen == u.contains(address@)) by {
                if seen {
                    let m = choose|m: int| 0 <= m < out@.len() && out@[m]@ == address@;
                    assert(u[m] == address@);
                }
                if u.contains(address@) {
                    let m = choose|m: int| 0 <= m < u.len() && u[m] == address@;
                    assert(out@[m]@ == address@);
                }
            }
            if !seen {
                out.push(address.clone());
                assert(out@.map_values(|a: String| a@) =~= u.push(address@));
            }
            i = i + 1;
        }
        assert(points(self.config@).subrange(0, self.config@.len() as int) =~= points(self.config@));
        proof {
            let u = out@.map_values(|a: String| a@);
            lemma_unique_addresses(self@);
            assert forall|i: int, j: int| 0 <= i < j < out@.len() implies out@[i]@ != out@[j]@ by {
                assert(u[i] == out@[i]@);
                assert(u[j] == out@[j]@);
            }
            assert forall|a: Seq<char>| (exists|i: int| 0 <= i < out@.len() && #[trigger] out@[i]@ == a)
                <==> has_address(self@, a) by {
                if exists|i: int| 0 <= i < out@.len() && #[trigger] out@[i]@ == a {
                    let i = choose|i: int| 0 <= i < out@.len() && #[trigger] out@[i]@ == a;
                    assert(u[i] == a);
                }
                if has_address(self@, a) {
                    assert(u.contains(a));
                    let k = choose|k: int| 0 <= k < u.len() && u[k] == a;
                    assert(out@[k]@ == a);
                }
            }
        }
        out
    }

    /// The address of the server that serves a key with the given tick: the
    /// first server whose tick is at least the key's, wrapping around to the
    /// first server of the ring. `None` when the ring is empty.
    pub fn find_nearest(&self, key_tick_value: u64) -> (nearest: Option<&str>)
        ensures
            nearest is None <==> self@.len() == 0,
            nearest matches Some(address) ==> address@ == self@[successor(self@, key_tick_value)].1,
    {
        proof {
            use_type_invariant(self);
        }
        if self.config.len() == 0 {
            return None;
        }
        let idx = partition_point_below(&self.config, key_tick_value);
        proof {
            lemma_first_at_least(points(self.config@), key_tick_value);
        }
        let actual_idx = if idx == self.config.len() {
            0
        } else {
            idx
        };
        assert(self@[actual_idx as int] == point(self.config@[actual_idx as int]));
        Some(self.config[actual_idx].address.as_str())
    }
}


/// The process-wide configuration store: empty until it is initialised once,
/// then it holds the ring for the rest of the program.
pub struct ConfigStore {
    config: Option<Config>,
}

impl View for ConfigStore {
    type V = Option<Seq<(u64, Seq<char>)>>;

    closed spec fn view(&self) -> Option<Seq<(u64, Seq<char>)>> {
        match self.config {
            Some(c) => Some(c@),
            None => None,
        }
    }
}

impl ConfigStore {
    /// An empty store.
    pub fn new() -> (store: ConfigStore)
        ensures
            store@ is None,
    {
        ConfigStore { config: None }
    }

    /// Whether the store holds a ring yet.
    pub fn is_initialized(&self) -> (initialized: bool)
        ensures
            initialized == self@ is Some,
    {
        self.config.is_some()
    }

    /// The ring, for changing it; `None` before initialisation.
    pub(crate) fn config_mut(&mut self) -> (config: Option<&mut Config>)
        ensures
            config is None <==> old(self)@ is None,
            config is None ==> final(self)@ is None,
            config matches Some(c) ==> old(self)@ == Some(c@) && final(self)@ == Some(final(c)@),
    {
        match &mut self.config {
            Some(c) => Some(c),
            None => None,
        }
    }
}

/// Stores the ring built from the given server addresses. The store must not
/// have been initialised before.
pub fn init_config_store(store: &mut ConfigStore, addresses: Vec<String>)
    requires
        old(store)@ is None,
    ensures
        final(store)@ == Some(sort_ring(address_points(addresses@))),
{
    let config = Config::from_addresses(addresses);
    store.config = Some(config);
}

/// Stores the ring built from the addresses when the store is still empty,
/// and says whether it did. A store that already holds a ring keeps it: the
/// ring of the first initialisation stays for good.
pub fn try_init_config_store(store: &mut ConfigStore, addresses: Vec<String>) -> (stored: bool)
    ensures
        stored == (old(store)@ is None),
        stored ==> final(store)@ == Some(sort_ring(address_points(addresses@))),
        !stored ==> final(store)@ == old(store)@,
{
    if store.is_initialized() {
        return false;
    }
    init_config_store(store, addresses);
    true
}

/// The stored ring; `None` when the store was never initialised.
pub fn get_config_store(store: &ConfigStore) -> (config: Option<&Config>)
    ensures
        match config {
            Some(c) => store@ == Some(c@),
            None => store@ is None,
        },
{
    match &store.config {
        Some(c) => Some(c),
        None => None,
    }
}

} // verus!
