//! Vector clocks: for each device (by its 32-byte id), the number of
//! operations it has made. Entries are kept in ascending key order, the
//! order in which the record encodes them and the digest reads them.
use vstd::prelude::*;
use vstd::bytes::*;
use crate::bytes::{push_slice, push_u32_le, push_u64_le};
use crate::error::VartaError;

verus! {

broadcast use vstd::seq_lib::group_seq_properties;

/// One clock entry: a device id and its counter.
pub type ClockEntry = ([u8; 32], u64);

/// `a` comes before `b` in lexicographic byte order (the order std gives arrays).
pub open spec fn key_lt(a: [u8; 32], b: [u8; 32]) -> bool {
    exists|i: int|
        #![trigger a@[i], b@[i]]
        0 <= i < 32 && a@[i] < b@[i] && forall|j: int| 0 <= j < i ==> a@[j] == b@[j]
}

pub proof fn lemma_key_lt_irreflexive(a: [u8; 32])
    ensures
        !key_lt(a, a),
{
}

pub proof fn lemma_key_lt_asymmetric(a: [u8; 32], b: [u8; 32])
    requires
        key_lt(a, b),
    ensures
        !key_lt(b, a),
{
    let i = choose|i: int|
        #![trigger a@[i], b@[i]]
        0 <= i < 32 && a@[i] < b@[i] && forall|j: int| 0 <= j < i ==> a@[j] == b@[j];
    if key_lt(b, a) {
        let k = choose|k: int|
            #![trigger b@[k], a@[k]]
            0 <= k < 32 && b@[k] < a@[k] && forall|j: int| 0 <= j < k ==> b@[j] == a@[j];
        if i < k {
            assert(b@[i] == a@[i]);
        } else if k < i {
            assert(a@[k] == b@[k]);
        }
    }
}

pub proof fn lemma_key_lt_transitive(a: [u8; 32], b: [u8; 32], c: [u8; 32])
    requires
        key_lt(a, b),
        key_lt(b, c),
    ensures
        key_lt(a, c),
{
    let i = choose|i: int|
        #![trigger a@[i], b@[i]]
        0 <= i < 32 && a@[i] < b@[i] && forall|j: int| 0 <= j < i ==> a@[j] == b@[j];
    let k = choose|k: int|
        #![trigger b@[k], c@[k]]
        0 <= k < 32 && b@[k] < c@[k] && forall|j: int| 0 <= j < k ==> b@[j] == c@[j];
    if i <= k {
        assert(a@[i] < c@[i]);
        assert(forall|j: int| 0 <= j < i ==> a@[j] == c@[j]);
    } else {
        assert(a@[k] < c@[k]);
        assert(forall|j: int| 0 <= j < k ==> a@[j] == c@[j]);
    }
}

proof fn lemma_first_difference(a: [u8; 32], b: [u8; 32], i: int)
    requires
        0 <= i <= 32,
        forall|j: int| 0 <= j < i ==> a@[j] == b@[j],
        exists|j: int| i <= j < 32 && a@[j] != b@[j],
    ensures
        key_lt(a, b) || key_lt(b, a),
    decreases 32 - i,
{
    if a@[i] != b@[i] {
        if a@[i] < b@[i] {
            assert(a@[i] < b@[i]);
        } else {
            assert(b@[i] < a@[i]);
        }
    } else {
        lemma_first_difference(a, b, i + 1);
    }
}

pub proof fn lemma_key_lt_total(a: [u8; 32], b: [u8; 32])
    requires
        a != b,
    ensures
        key_lt(a, b) || key_lt(b, a),
{
    if forall|j: int| 0 <= j < 32 ==> a@[j] == b@[j] {
        assert(a@ =~= b@);
        assert(a == b);
    }
    lemma_first_difference(a, b, 0);
}

/// Whether `a` comes before `b`.
pub fn key_less(a: &[u8; 32], b: &[u8; 32]) -> (r: bool)
    ensures
        r == key_lt(*a, *b),
{
    let mut i: usize = 0;
    while i < 32
        invariant
            0 <= i <= 32,
            forall|j: int| 0 <= j < i ==> a@[j] == b@[j],
        decreases 32 - i,
    {
        if a[i] != b[i] {
            let r = a[i] < b[i];
            proof {
                if !r {
                    if key_lt(*a, *b) {
                        let k = choose|k: int|
                            #![trigger a@[k], b@[k]]
                            0 <= k < 32 && a@[k] < b@[k] && forall|j: int| 0 <= j < k ==> a@[j] == b@[j];
                        if k > i as int {
                            assert(a@[i as int] == b@[i as int]);
                        }
                    }
                } else {
                    assert(a@[i as int] < b@[i as int]);
                }
            }
            return r;
        }
        i = i + 1;
    }
    false
}

/// Entries in strictly ascending key order (so no key occurs twice).
pub open spec fn clock_sorted<V>(s: Seq<([u8; 32], V)>) -> bool {
    forall|i: int, j: int| 0 <= i < j < s.len() ==> key_lt(#[trigger] s[i].0, #[trigger] s[j].0)
}

/// The counter of `k`, 0 where `k` has none.
pub open spec fn clock_get(s: Seq<ClockEntry>, k: [u8; 32]) -> u64 {
    if exists|i: int| 0 <= i < s.len() && s[i].0 == k {
        s[choose|i: int| 0 <= i < s.len() && s[i].0 == k].1
    } else {
        0
    }
}

/// The map from device id to counter that the entries stand for.
pub open spec fn clock_map(s: Seq<ClockEntry>) -> Map<[u8; 32], u64> {
    Map::new(|k: [u8; 32]| exists|i: int| 0 <= i < s.len() && s[i].0 == k, |k: [u8; 32]| clock_get(s, k))
}

/// Where `k` belongs among sorted entries: every entry before it has a
/// smaller key, none from it on does.
pub open spec fn is_slot<V>(s: Seq<([u8; 32], V)>, k: [u8; 32], p: int) -> bool {
    &&& 0 <= p <= s.len()
    &&& forall|i: int| 0 <= i < p ==> key_lt(#[trigger] s[i].0, k)
    &&& forall|i: int| p <= i < s.len() ==> !key_lt(#[trigger] s[i].0, k)
}

pub open spec fn slot<V>(s: Seq<([u8; 32], V)>, k: [u8; 32]) -> int {
    choose|p: int| is_slot(s, k, p)
}

/// The entries with `k` set to `v`: replaced where `k` is present, inserted
/// at its place in key order where it is not.
pub open spec fn clock_set<V>(s: Seq<([u8; 32], V)>, k: [u8; 32], v: V) -> Seq<([u8; 32], V)> {
    let p = slot(s, k);
    if p < s.len() && s[p].0 == k {
        s.update(p, (k, v))
    } else {
        s.insert(p, (k, v))
    }
}

/// The clock that a list of entries builds when they are set one after the
/// other (a later entry for a key overrides an earlier one).
pub open spec fn clock_of(pairs: Seq<ClockEntry>) -> Seq<ClockEntry>
    decreases pairs.len(),
{
    if pairs.len() == 0 {
        Seq::empty()
    } else {
        let last = pairs.last();
        clock_set(clock_of(pairs.drop_last()), last.0, last.1)
    }
}

/// The counters in key order, each as 8 little-endian bytes.
pub open spec fn clock_values_bytes(s: Seq<ClockEntry>) -> Seq<u8>
    decreases s.len(),
{
    if s.len() == 0 {
        Seq::empty()
    } else {
        clock_values_bytes(s.drop_last()) + spec_u64_to_le_bytes(s.last().1)
    }
}

/// The entries in the record layout: key, then counter (64-bit LE).
pub open spec fn clock_entries_bytes(s: Seq<ClockEntry>) -> Seq<u8>
    decreases s.len(),
{
    if s.len() == 0 {
        Seq::empty()
    } else {
        clock_entries_bytes(s.drop_last()) + s.last().0@ + spec_u64_to_le_bytes(s.last().1)
    }
}

/// The clock's record: a 32-bit entry count, then the entries.
pub open spec fn clock_bytes(s: Seq<ClockEntry>) -> Seq<u8> {
    spec_u32_to_le_bytes(s.len() as u32) + clock_entries_bytes(s)
}

/// The `n` entries laid out from `pos` on, as read from `data`.
pub open spec fn entries_at(data: Seq<u8>, pos: int, n: nat) -> Seq<ClockEntry>
    decreases n,
{
    if n == 0 {
        Seq::empty()
    } else {
        let q = pos + 40 * (n - 1);
        entries_at(data, pos, (n - 1) as nat).push((
            choose|a: [u8; 32]| a@ == data.subrange(q, q + 32),
            spec_u64_from_le_bytes(data.subrange(q + 32, q + 40)),
        ))
    }
}

/// The clock whose record starts at `pos`, and the position after it.
pub open spec fn clock_at(data: Seq<u8>, pos: int) -> Option<(Seq<ClockEntry>, int)> {
    if 0 <= pos && pos + 4 <= data.len() {
        let n = spec_u32_from_le_bytes(data.subrange(pos, pos + 4)) as nat;
        if pos + 4 + 40 * n <= data.len() {
            Some((clock_of(entries_at(data, pos + 4, n)), pos + 4 + 40 * n))
        } else {
            None
        }
    } else {
        None
    }
}

proof fn lemma_slot_unique<V>(s: Seq<([u8; 32], V)>, k: [u8; 32], p: int, q: int)
    requires
        is_slot(s, k, p),
        is_slot(s, k, q),
    ensures
        p == q,
{
    if p < q {
        assert(!key_lt(s[p].0, k));
    } else if q < p {
        assert(!key_lt(s[q].0, k));
    }
}

/// A sorted clock has a slot for every key.
proof fn lemma_slot_exists<V>(s: Seq<([u8; 32], V)>, k: [u8; 32])
    requires
        clock_sorted(s),
    ensures
        is_slot(s, k, slot(s, k)),
    decreases s.len(),
{
    if s.len() == 0 {
        assert(is_slot(s, k, 0));
    } else {
        let t = s.drop_last();
        assert(clock_sorted(t));
        lemma_slot_exists(t, k);
        let p = slot(t, k);
        if key_lt(s.last().0, k) {
            assert forall|i: int| 0 <= i < s.len() implies key_lt(#[trigger] s[i].0, k) by {
                if i < s.len() - 1 {
                    lemma_key_lt_transitive(s[i].0, s.last().0, k);
                }
            }
            assert(is_slot(s, k, s.len() as int));
        } else {
            assert forall|i: int| p <= i < s.len() implies !key_lt(#[trigger] s[i].0, k) by {
                if i < t.len() {
                    assert(s[i] == t[i]);
                }
            }
            assert forall|i: int| 0 <= i < p implies key_lt(#[trigger] s[i].0, k) by {
                assert(s[i] == t[i]);
            }
            assert(is_slot(s, k, p));
        }
    }
}

/// Setting a key keeps the entries sorted.
pub proof fn lemma_clock_set_sorted<V>(s: Seq<([u8; 32], V)>, k: [u8; 32], v: V)
    requires
        clock_sorted(s),
    ensures
        clock_sorted(clock_set(s, k, v)),
        clock_set(s, k, v).len() <= s.len() + 1,
{
    lemma_slot_exists(s, k);
    let p = slot(s, k);
    let r = clock_set(s, k, v);
    if p < s.len() && s[p].0 == k {
        assert forall|i: int, j: int| 0 <= i < j < r.len() implies key_lt(#[trigger] r[i].0, #[trigger] r[j].0) by {
            assert(key_lt(s[i].0, s[j].0));
        }
    } else {
        if p < s.len() {
            lemma_key_lt_total(s[p].0, k);
        }
        assert forall|i: int, j: int| 0 <= i < j < r.len() implies key_lt(#[trigger] r[i].0, #[trigger] r[j].0) by {
            if j < p {
                assert(key_lt(s[i].0, s[j].0));
            } else if j == p {
                assert(key_lt(s[i].0, k));
            } else if i == p {
                if j - 1 > p {
                    lemma_key_lt_transitive(k, s[p].0, s[j - 1].0);
                }
            } else if i < p {
                assert(key_lt(s[i].0, k));
                if j - 1 > p {
                    lemma_key_lt_transitive(k, s[p].0, s[j - 1].0);
                }
                lemma_key_lt_transitive(s[i].0, k, s[j - 1].0);
            } else {
                assert(key_lt(s[i - 1].0, s[j - 1].0));
            }
        }
    }
}

/// In a sorted clock, a key occurs at one position only.
proof fn lemma_sorted_key_unique<V>(s: Seq<([u8; 32], V)>, i: int, j: int)
    requires
        clock_sorted(s),
        0 <= i < s.len(),
        0 <= j < s.len(),
        s[i].0 == s[j].0,
    ensures
        i == j,
{
    if i < j {
        assert(key_lt(s[i].0, s[j].0));
    } else if j < i {
        assert(key_lt(s[j].0, s[i].0));
    }
}

/// In a sorted clock, the counter of the key at `i` is the one at `i`.
pub proof fn lemma_clock_get_at(s: Seq<ClockEntry>, i: int)
    requires
        clock_sorted(s),
        0 <= i < s.len(),
    ensures
        clock_get(s, s[i].0) == s[i].1,
{
    let k = s[i].0;
    assert(exists|j: int| 0 <= j < s.len() && s[j].0 == k);
    let j = choose|j: int| 0 <= j < s.len() && s[j].0 == k;
    lemma_sorted_key_unique(s, i, j);
}

/// Setting `k` to `v` in a sorted clock sets it in the map it stands for,
/// and leaves every other key as it was.
pub proof fn lemma_clock_set_map(s: Seq<ClockEntry>, k: [u8; 32], v: u64)
    requires
        clock_sorted(s),
    ensures
        clock_map(clock_set(s, k, v)) == clock_map(s).insert(k, v),
{
    lemma_slot_exists(s, k);
    lemma_clock_set_sorted(s, k, v);
    let p = slot(s, k);
    let r = clock_set(s, k, v);
    let (found, at) = if p < s.len() && s[p].0 == k { (true, p) } else { (false, p) };
    assert(r[at] == (k, v));
    assert forall|x: [u8; 32]| #[trigger] clock_map(r).contains_key(x) <==> clock_map(s).insert(k, v).contains_key(x) by {
        if x != k {
            if exists|i: int| 0 <= i < s.len() && s[i].0 == x {
                let i = choose|i: int| 0 <= i < s.len() && s[i].0 == x;
                if found || i < p {
                    assert(r[i].0 == x);
                } else {
                    assert(r[i + 1].0 == x);
                }
            }
            if exists|i: int| 0 <= i < r.len() && r[i].0 == x {
                let i = choose|i: int| 0 <= i < r.len() && r[i].0 == x;
                if found || i < p {
                    assert(s[i].0 == x);
                } else {
                    assert(s[i - 1].0 == x);
                }
            }
        } else {
            assert(r[at].0 == x);
        }
    }
    assert forall|x: [u8; 32]| #[trigger] clock_map(r).contains_key(x) implies clock_map(r)[x] == clock_map(s).insert(k, v)[x] by {
        let i = choose|i: int| 0 <= i < r.len() && r[i].0 == x;
        lemma_clock_get_at(r, i);
        if x == k {
            lemma_sorted_key_unique(r, i, at);
        } else if found || i < p {
            lemma_clock_get_at(s, i);
        } else {
            lemma_clock_get_at(s, i - 1);
        }
    }
    assert(clock_map(r) =~= clock_map(s).insert(k, v));
}

/// The map from key to value that keyed entries with distinct keys stand for.
pub open spec fn keyed_map<V>(s: Seq<([u8; 32], V)>) -> Map<[u8; 32], V> {
    Map::new(
        |k: [u8; 32]| exists|i: int| 0 <= i < s.len() && s[i].0 == k,
        |k: [u8; 32]| s[choose|i: int| 0 <= i < s.len() && s[i].0 == k].1,
    )
}

/// In sorted entries, the value of the key at `i` is the one at `i`.
proof fn lemma_keyed_map_at<V>(s: Seq<([u8; 32], V)>, i: int)
    requires
        clock_sorted(s),
        0 <= i < s.len(),
    ensures
        keyed_map(s).contains_key(s[i].0),
        keyed_map(s)[s[i].0] == s[i].1,
{
    let k = s[i].0;
    assert(exists|j: int| 0 <= j < s.len() && s[j].0 == k);
    let j = choose|j: int| 0 <= j < s.len() && s[j].0 == k;
    lemma_sorted_key_unique(s, i, j);
}

/// Setting a key in sorted entries sets it in the map they stand for.
pub proof fn lemma_keyed_set_map<V>(s: Seq<([u8; 32], V)>, k: [u8; 32], v: V)
    requires
        clock_sorted(s),
    ensures
        keyed_map(clock_set(s, k, v)) == keyed_map(s).insert(k, v),
        !keyed_map(s).contains_key(k) ==> clock_set(s, k, v).len() == s.len() + 1,
{
    lemma_slot_exists(s, k);
    lemma_clock_set_sorted(s, k, v);
    let p = slot(s, k);
    let r = clock_set(s, k, v);
    let found = p < s.len() && s[p].0 == k;
    assert(r[p] == (k, v));
    assert forall|x: [u8; 32]| #[trigger] keyed_map(r).contains_key(x) <==> keyed_map(s).insert(k, v).contains_key(x) by {
        if x != k {
            if exists|i: int| 0 <= i < s.len() && s[i].0 == x {
                let i = choose|i: int| 0 <= i < s.len() && s[i].0 == x;
                if found || i < p {
                    assert(r[i].0 == x);
                } else {
                    assert(r[i + 1].0 == x);
                }
            }
            if exists|i: int| 0 <= i < r.len() && r[i].0 == x {
                let i = choose|i: int| 0 <= i < r.len() && r[i].0 == x;
                if found || i < p {
                    assert(s[i].0 == x);
                } else {
                    assert(s[i - 1].0 == x);
                }
            }
        } else {
            assert(r[p].0 == x);
        }
    }
    assert forall|x: [u8; 32]| #[trigger] keyed_map(r).contains_key(x) implies keyed_map(r)[x] == keyed_map(s).insert(k, v)[x] by {
        let i = choose|i: int| 0 <= i < r.len() && r[i].0 == x;
        lemma_keyed_map_at(r, i);
        if x == k {
            lemma_sorted_key_unique(r, i, p);
        } else if found || i < p {
            lemma_keyed_map_at(s, i);
        } else {
            lemma_keyed_map_at(s, i - 1);
        }
    }
    assert(keyed_map(r) =~= keyed_map(s).insert(k, v));
    if !keyed_map(s).contains_key(k) {
        assert(!found);
    }
}

/// Every finite map from keys has its entries in ascending key order.
pub proof fn lemma_sorted_keys_exist<V>(m: Map<[u8; 32], V>)
    requires
        m.dom().finite(),
    ensures
        exists|s: Seq<([u8; 32], V)>| clock_sorted(s) && keyed_map(s) == m && s.len() == m.dom().len(),
    decreases m.dom().len(),
{
    if m.dom().len() == 0 {
        let s = Seq::<([u8; 32], V)>::empty();
        m.dom().lemma_len0_is_empty();
        assert(keyed_map(s) =~= m);
        assert(clock_sorted(s) && keyed_map(s) == m && s.len() == m.dom().len());
    } else {
        let k = m.dom().choose();
        let m2 = m.remove(k);
        assert(m2.dom() =~= m.dom().remove(k));
        lemma_sorted_keys_exist(m2);
        let s2 = choose|s: Seq<([u8; 32], V)>| clock_sorted(s) && keyed_map(s) == m2 && s.len() == m2.dom().len();
        let s = clock_set(s2, k, m[k]);
        lemma_clock_set_sorted(s2, k, m[k]);
        lemma_keyed_set_map(s2, k, m[k]);
        assert(m2.insert(k, m[k]) =~= m);
        assert(clock_sorted(s) && keyed_map(s) == m && s.len() == m.dom().len());
    }
}

/// Building a clock from its own entries gives them back.
pub proof fn lemma_clock_of_sorted(s: Seq<ClockEntry>)
    requires
        clock_sorted(s),
    ensures
        clock_of(s) == s,
    decreases s.len(),
{
    if s.len() > 0 {
        let t = s.drop_last();
        assert(clock_sorted(t));
        lemma_clock_of_sorted(t);
        let k = s.last().0;
        assert(is_slot(t, k, t.len() as int));
        lemma_slot_exists(t, k);
        lemma_slot_unique(t, k, slot(t, k), t.len() as int);
        assert(clock_set(t, k, s.last().1) =~= s);
    }
}

/// Every clock built from entries is sorted.
pub proof fn lemma_clock_of_is_sorted(pairs: Seq<ClockEntry>)
    ensures
        clock_sorted(clock_of(pairs)),
        clock_of(pairs).len() <= pairs.len(),
    decreases pairs.len(),
{
    if pairs.len() > 0 {
        lemma_clock_of_is_sorted(pairs.drop_last());
        lemma_clock_set_sorted(clock_of(pairs.drop_last()), pairs.last().0, pairs.last().1);
    }
}

pub proof fn lemma_clock_entries_bytes_len(s: Seq<ClockEntry>)
    ensures
        clock_entries_bytes(s).len() == 40 * s.len(),
    decreases s.len(),
{
    lemma_auto_spec_u64_to_from_le_bytes();
    if s.len() > 0 {
        lemma_clock_entries_bytes_len(s.drop_last());
    }
}

/// The entries laid out by `clock_entries_bytes` are read back by `entries_at`.
pub proof fn lemma_entries_at_bytes(data: Seq<u8>, pos: int, s: Seq<ClockEntry>)
    requires
        0 <= pos,
        pos + 40 * s.len() <= data.len(),
        data.subrange(pos, pos + 40 * s.len()) == clock_entries_bytes(s),
    ensures
        entries_at(data, pos, s.len()) == s,
    decreases s.len(),
{
    lemma_auto_spec_u64_to_from_le_bytes();
    if s.len() > 0 {
        let t = s.drop_last();
        lemma_clock_entries_bytes_len(t);
        lemma_clock_entries_bytes_len(s);
        let q = pos + 40 * t.len();
        let m: int = 40 * t.len() as int;
        let b = clock_entries_bytes(s);
        assert(b == clock_entries_bytes(t) + s.last().0@ + spec_u64_to_le_bytes(s.last().1));
        assert(s.last().0@.len() == 32);
        assert(data.subrange(pos, q) =~= b.subrange(0, m));
        assert(b.subrange(0, m) =~= clock_entries_bytes(t));
        lemma_entries_at_bytes(data, pos, t);
        assert(data.subrange(q, q + 32) =~= b.subrange(m, m + 32));
        assert(b.subrange(m, m + 32) =~= s.last().0@);
        assert(data.subrange(q + 32, q + 40) =~= b.subrange(m + 32, m + 40));
        assert(b.subrange(m + 32, m + 40) =~= spec_u64_to_le_bytes(s.last().1));
        let a = choose|a: [u8; 32]| a@ == data.subrange(q, q + 32);
        assert(a@ == s.last().0@);
        assert(a == s.last().0);
        assert(entries_at(data, pos, s.len()) =~= s);
    }
}

/// A clock's record is read back as that clock.
pub proof fn lemma_clock_at_bytes(data: Seq<u8>, pos: int, s: Seq<ClockEntry>)
    requires
        clock_sorted(s),
        s.len() <= u32::MAX,
        0 <= pos,
        pos + 4 + 40 * s.len() <= data.len(),
        data.subrange(pos, pos + 4 + 40 * s.len()) == clock_bytes(s),
    ensures
        clock_at(data, pos) == Some((s, pos + 4 + 40 * s.len())),
{
    lemma_auto_spec_u32_to_from_le_bytes();
    lemma_clock_entries_bytes_len(s);
    let m: int = 40 * s.len() as int;
    assert(data.subrange(pos, pos + 4) =~= clock_bytes(s).subrange(0, 4));
    assert(clock_bytes(s).subrange(0, 4) =~= spec_u32_to_le_bytes(s.len() as u32));
    assert(data.subrange(pos + 4, pos + 4 + m) =~= clock_bytes(s).subrange(4, 4 + m));
    assert(clock_bytes(s).subrange(4, 4 + m) =~= clock_entries_bytes(s));
    lemma_entries_at_bytes(data, pos + 4, s);
    lemma_clock_of_sorted(s);
}

pub struct VectorClock {
    entries: Vec<ClockEntry>,
}

impl View for VectorClock {
    type V = Seq<ClockEntry>;

    closed spec fn view(&self) -> Seq<ClockEntry> {
        self.entries@
    }
}

impl VectorClock {
    #[verifier::type_invariant]
    spec fn entries_sorted(self) -> bool {
        clock_sorted(self.entries@)
    }

    /// Every clock keeps its entries in ascending key order.
    pub fn check_sorted(&self)
        ensures
            clock_sorted(self@),
    {
        proof {
            use_type_invariant(self);
        }
    }

    /// The empty clock.
    pub fn new() -> (c: Self)
        ensures
            c@ == Seq::<ClockEntry>::empty(),
            clock_sorted(c@),
    {
        VectorClock { entries: Vec::new() }
    }

    /// The counter of `k`, if it has one.
    pub fn get(&self, k: &[u8; 32]) -> (r: Option<u64>)
        ensures
            r == (if clock_map(self@).contains_key(*k) { Some(clock_map(self@)[*k]) } else { None }),
    {
        proof {
            use_type_invariant(self);
        }
        let mut i: usize = 0;
        while i < self.entries.len()
            invariant
                0 <= i <= self.entries@.len(),
                clock_sorted(self.entries@),
                forall|j: int| 0 <= j < i ==> self.entries@[j].0 != *k,
            decreases self.entries@.len() - i,
        {
            if crate::bytes::arrays32_equal(&self.entries[i].0, k) {
                proof {
                    lemma_clock_get_at(self.entries@, i as int);
                }
                return Some(self.entries[i].1);
            }
            i = i + 1;
        }
        None
    }

    /// The position where `k` belongs.
    fn find_slot(&self, k: &[u8; 32]) -> (p: usize)
        ensures
            is_slot(self@, *k, p as int),
            p as int == slot(self@, *k),
    {
        proof {
            use_type_invariant(self);
        }
        let mut i: usize = 0;
        while i < self.entries.len() && key_less(&self.entries[i].0, k)
            invariant
                0 <= i <= self.entries@.len(),
                clock_sorted(self.entries@),
                forall|j: int| 0 <= j < i ==> key_lt(#[trigger] self.entries@[j].0, *k),
            decreases self.entries@.len() - i,
        {
            i = i + 1;
        }
        proof {
            let s = self.entries@;
            assert forall|j: int| i <= j < s.len() implies !key_lt(#[trigger] s[j].0, *k) by {
                if j > i && key_lt(s[j].0, *k) {
                    lemma_key_lt_transitive(s[i as int].0, s[j].0, *k);
                }
            }
            lemma_slot_exists(s, *k);
            lemma_slot_unique(s, *k, i as int, slot(s, *k));
        }
        i
    }

    /// Sets the counter of `k` to `v`.
    pub fn set(&mut self, k: [u8; 32], v: u64)
        ensures
            final(self)@ == clock_set(old(self)@, k, v),
            clock_sorted(final(self)@),
    {
        proof {
            use_type_invariant(&*self);
            lemma_clock_set_sorted(self.entries@, k, v);
        }
        let p = self.find_slot(&k);
        let mut entries: Vec<ClockEntry> = Vec::new();
        std::mem::swap(&mut entries, &mut self.entries);
        if p < entries.len() && crate::bytes::arrays32_equal(&entries[p].0, &k) {
            entries.set(p, (k, v));
        } else {
            entries.insert(p, (k, v));
        }
        self.entries = entries;
    }

    /// The counter of `k` (0 where it has none).
    pub fn counter(&self, k: &[u8; 32]) -> (r: u64)
        ensures
            r == clock_get(self@, *k),
    {
        match self.get(k) {
            Some(v) => v,
            None => 0,
        }
    }

    /// A copy of the clock.
    pub fn duplicate(&self) -> (c: Self)
        ensures
            c@ == self@,
            clock_sorted(c@),
    {
        proof {
            use_type_invariant(self);
        }
        let mut entries: Vec<ClockEntry> = Vec::new();
        let mut i: usize = 0;
        while i < self.entries.len()
            invariant
                0 <= i <= self.entries@.len(),
                entries@ == self.entries@.subrange(0, i as int),
            decreases self.entries@.len() - i,
        {
            entries.push(self.entries[i]);
            i = i + 1;
        }
        assert(entries@ =~= self.entries@);
        VectorClock { entries }
    }

    /// Appends the counters in key order, 8 little-endian bytes each.
    pub fn push_values(&self, out: &mut Vec<u8>)
        ensures
            final(out)@ == old(out)@ + clock_values_bytes(self@),
    {
        let mut i: usize = 0;
        while i < self.entries.len()
            invariant
                0 <= i <= self.entries@.len(),
                out@ == old(out)@ + clock_values_bytes(self.entries@.subrange(0, i as int)),
            decreases self.entries@.len() - i,
        {
            push_u64_le(out, self.entries[i].1);
            proof {
                let t = self.entries@.subrange(0, i + 1);
                assert(t.drop_last() =~= self.entries@.subrange(0, i as int));
            }
            i = i + 1;
        }
        assert(self.entries@.subrange(0, i as int) =~= self.entries@);
    }

    /// Appends the clock's record; fails when it has more entries than a
    /// 32-bit count can say.
    pub fn push_record(&self, out: &mut Vec<u8>) -> (r: Result<(), VartaError>)
        ensures
            r is Ok <==> self@.len() <= u32::MAX,
            r is Ok ==> final(out)@ == old(out)@ + clock_bytes(self@),
            r matches Err(e) ==> e is RecordTooLarge && final(out)@ == old(out)@,
    {
        if self.entries.len() > u32::MAX as usize {
            return Err(VartaError::RecordTooLarge);
        }
        push_u32_le(out, self.entries.len() as u32);
        let ghost head = out@;
        let mut i: usize = 0;
        while i < self.entries.len()
            invariant
                0 <= i <= self.entries@.len(),
                out@ == head + clock_entries_bytes(self.entries@.subrange(0, i as int)),
            decreases self.entries@.len() - i,
        {
            push_slice(out, &self.entries[i].0);
            push_u64_le(out, self.entries[i].1);
            proof {
                let t = self.entries@.subrange(0, i + 1);
                assert(t.drop_last() =~= self.entries@.subrange(0, i as int));
            }
            i = i + 1;
        }
        assert(self.entries@.subrange(0, i as int) =~= self.entries@);
        Ok(())
    }

    /// Reads a clock record at `pos`: the entries are set in the order they
    /// come, so a later entry for a key overrides an earlier one.
    pub fn read_record(data: &[u8], pos: usize) -> (r: Option<(Self, usize)>)
        ensures
            r matches Some((c, np)) ==> clock_at(data@, pos as int) == Some((c@, np as int)) && clock_sorted(c@),
            r is None ==> clock_at(data@, pos as int) is None,
    {
        if !(pos <= data.len() && 4 <= data.len() - pos) {
            return None;
        }
        let n = crate::bytes::read_u32_le(data, pos);
        let start = pos + 4;
        if (n as usize) > (data.len() - start) / 40 {
            proof {
                assert(40 * (n as int) > data.len() - start) by (nonlinear_arith)
                    requires
                        n as int > (data.len() - start) / 40,
                        data.len() - start >= 0,
                ;
            }
            return None;
        }
        proof {
            assert(40 * (n as int) <= data.len() - start) by (nonlinear_arith)
                requires
                    n as int <= (data.len() - start) / 40,
                    data.len() - start >= 0,
            ;
        }
        let len = data.len();
        let mut clock = VectorClock::new();
        let mut i: usize = 0;
        while i < n as usize
            invariant
                0 <= i <= n,
                start + 40 * n <= data@.len(),
                len == data@.len(),
                start == pos + 4,
                clock@ == clock_of(entries_at(data@, start as int, i as nat)),
                clock_sorted(clock@),
            decreases n - i,
        {
            assert(40 * i + 40 <= 40 * n);
            let q = start + 40 * i;
            let mut key = [0u8; 32];
            crate::bytes::fill_from(&mut key, data, q);
            let v = crate::bytes::read_u64_le(data, q + 32);
            proof {
                let e = entries_at(data@, start as int, (i + 1) as nat);
                assert(e.drop_last() =~= entries_at(data@, start as int, i as nat));
                let a = choose|a: [u8; 32]| a@ == data@.subrange(q as int, q + 32);
                assert(key@ == data@.subrange(q as int, q + 32));
                assert(a@ == key@);
                assert(a == key);
            }
            clock.set(key, v);
            i = i + 1;
        }
        Some((clock, start + 40 * n as usize))
    }
}

} // verus!
