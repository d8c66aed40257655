//! The block index: for each 32-byte key, the offset and length of its block
//! in the storage file. On disk it occupies a fixed 12 KiB block, holding the
//! borsh encoding of the map followed by zero padding.
use vstd::prelude::*;
use std::collections::HashMap;
use crate::bytes::push_slice;
use crate::error::VartaError;
use crate::crypto::primitives::{sha256, sha256_digest};
use crate::clock::{clock_sorted, keyed_map, key_lt, lemma_key_lt_irreflexive, lemma_sorted_keys_exist};
use vstd::bytes::*;

verus! {

broadcast use vstd::seq_lib::group_seq_properties;

/// Size of the index block on disk.
pub const INDEX_BLOCK_SIZE: usize = 12288;

/// One index entry: key, then (offset, length).
pub type IndexEntry = ([u8; 32], (u64, u64));

/// The keys of a list of entries, in order.
pub open spec fn entry_keys(s: Seq<IndexEntry>) -> Seq<[u8; 32]> {
    s.map_values(|e: IndexEntry| e.0)
}

/// Where `k` stands among the entries (any such position).
pub open spec fn entry_position(s: Seq<IndexEntry>, k: [u8; 32]) -> int {
    choose|i: int| 0 <= i < s.len() && s[i].0 == k
}

/// The map that a list of entries with distinct keys stands for.
pub open spec fn entries_map(s: Seq<IndexEntry>) -> Map<[u8; 32], (u64, u64)> {
    Map::new(
        |k: [u8; 32]| exists|i: int| 0 <= i < s.len() && s[i].0 == k,
        |k: [u8; 32]| s[entry_position(s, k)].1,
    )
}

/// The layout of index entries, one after the other: the key, then the
/// offset and the length (64-bit LE each).
pub open spec fn entries_layout(s: Seq<IndexEntry>) -> Seq<u8>
    decreases s.len(),
{
    if s.len() == 0 {
        Seq::empty()
    } else {
        entries_layout(s.drop_last()) + s.last().0@ + spec_u64_to_le_bytes(s.last().1.0) + spec_u64_to_le_bytes(
            s.last().1.1,
        )
    }
}

/// The entries of `m` in ascending key order.
pub open spec fn sorted_entries(m: Map<[u8; 32], (u64, u64)>) -> Seq<IndexEntry> {
    choose|s: Seq<IndexEntry>| clock_sorted(s) && keyed_map(s) == m && s.len() == m.dom().len()
}

/// The borsh encoding of the map (as a `HashMap`): the number of entries
/// (32-bit LE), then the entries in ascending key order.
pub open spec fn borsh_index_encoding(m: Map<[u8; 32], (u64, u64)>) -> Seq<u8> {
    spec_u32_to_le_bytes(m.dom().len() as u32) + entries_layout(sorted_entries(m))
}

/// The `n` entries laid out from `pos` on, as read from `data`.
pub open spec fn index_entries_at(data: Seq<u8>, pos: int, n: nat) -> Seq<IndexEntry>
    decreases n,
{
    if n == 0 {
        Seq::empty()
    } else {
        let q = pos + 48 * (n - 1);
        index_entries_at(data, pos, (n - 1) as nat).push(
            (
                choose|a: [u8; 32]| a@ == data.subrange(q, q + 32),
                (
                    spec_u64_from_le_bytes(data.subrange(q + 32, q + 40)),
                    spec_u64_from_le_bytes(data.subrange(q + 40, q + 48)),
                ),
            ),
        )
    }
}

/// The map that entries build when each is inserted in turn (a later entry
/// for a key overrides an earlier one).
pub open spec fn pairs_map(s: Seq<IndexEntry>) -> Map<[u8; 32], (u64, u64)>
    decreases s.len(),
{
    if s.len() == 0 {
        Map::empty()
    } else {
        pairs_map(s.drop_last()).insert(s.last().0, s.last().1)
    }
}

/// The map that borsh decodes (as a `HashMap`) from `bytes`: a 32-bit count
/// `n`, then `n` entries of 48 bytes, and nothing after them; `None` for any
/// other length.
pub open spec fn borsh_index_decoding(bytes: Seq<u8>) -> Option<Map<[u8; 32], (u64, u64)>> {
    if bytes.len() < 4 {
        None
    } else {
        let n = spec_u32_from_le_bytes(bytes.subrange(0, 4)) as nat;
        if bytes.len() == 4 + 48 * n {
            Some(pairs_map(index_entries_at(bytes, 4, n)))
        } else {
            None
        }
    }
}

proof fn lemma_entries_layout_len(s: Seq<IndexEntry>)
    ensures
        entries_layout(s).len() == 48 * s.len(),
    decreases s.len(),
{
    lemma_auto_spec_u64_to_from_le_bytes();
    if s.len() > 0 {
        lemma_entries_layout_len(s.drop_last());
    }
}

/// Entries laid out by `entries_layout` are read back by `index_entries_at`.
proof fn lemma_index_entries_at_layout(data: Seq<u8>, pos: int, s: Seq<IndexEntry>)
    requires
        0 <= pos,
        pos + 48 * s.len() <= data.len(),
        data.subrange(pos, pos + 48 * s.len()) == entries_layout(s),
    ensures
        index_entries_at(data, pos, s.len()) == s,
    decreases s.len(),
{
    lemma_auto_spec_u64_to_from_le_bytes();
    if s.len() > 0 {
        let t = s.drop_last();
        lemma_entries_layout_len(t);
        lemma_entries_layout_len(s);
        let m: int = 48 * t.len() as int;
        let q = pos + m;
        let b = entries_layout(s);
        assert(b == entries_layout(t) + s.last().0@ + spec_u64_to_le_bytes(s.last().1.0) + spec_u64_to_le_bytes(
            s.last().1.1,
        ));
        assert(s.last().0@.len() == 32);
        assert(data.subrange(pos, q) =~= b.subrange(0, m));
        assert(b.subrange(0, m) =~= entries_layout(t));
        lemma_index_entries_at_layout(data, pos, t);
        assert(data.subrange(q, q + 32) =~= b.subrange(m, m + 32));
        assert(b.subrange(m, m + 32) =~= s.last().0@);
        assert(data.subrange(q + 32, q + 40) =~= b.subrange(m + 32, m + 40));
        assert(b.subrange(m + 32, m + 40) =~= spec_u64_to_le_bytes(s.last().1.0));
        assert(data.subrange(q + 40, q + 48) =~= b.subrange(m + 40, m + 48));
        assert(b.subrange(m + 40, m + 48) =~= spec_u64_to_le_bytes(s.last().1.1));
        let a = choose|a: [u8; 32]| a@ == data.subrange(q, q + 32);
        assert(a@ == s.last().0@);
        assert(a == s.last().0);
        assert(index_entries_at(data, pos, s.len()) =~= s);
    }
}

/// For entries in ascending key order, inserting them in turn builds the map they stand for.
proof fn lemma_pairs_map_sorted(s: Seq<IndexEntry>)
    requires
        clock_sorted(s),
    ensures
        pairs_map(s) == keyed_map(s),
    decreases s.len(),
{
    if s.len() == 0 {
        assert(keyed_map(s) =~= Map::<[u8; 32], (u64, u64)>::empty());
    } else {
        let t = s.drop_last();
        assert(clock_sorted(t));
        lemma_pairs_map_sorted(t);
        let k = s.last().0;
        assert(!keyed_map(t).contains_key(k)) by {
            if keyed_map(t).contains_key(k) {
                let i = choose|i: int| 0 <= i < t.len() && t[i].0 == k;
                assert(key_lt(s[i].0, s[s.len() - 1].0));
                lemma_key_lt_irreflexive(k);
            }
        }
        assert(t.push(s.last()) =~= s);
        assert forall|x: [u8; 32]| #[trigger] keyed_map(s).contains_key(x) <==> keyed_map(t).insert(k, s.last().1).contains_key(x) by {
            if keyed_map(s).contains_key(x) && x != k {
                let i = choose|i: int| 0 <= i < s.len() && s[i].0 == x;
                assert(t[i].0 == x);
            }
            if x == k {
                assert(s[s.len() - 1].0 == x);
            }
            if keyed_map(t).contains_key(x) {
                let i = choose|i: int| 0 <= i < t.len() && t[i].0 == x;
                assert(s[i].0 == x);
            }
        }
        assert forall|x: [u8; 32]| #[trigger] keyed_map(s).contains_key(x) implies keyed_map(s)[x] == keyed_map(t).insert(
            k,
            s.last().1,
        )[x] by {
            let i = choose|i: int| 0 <= i < s.len() && s[i].0 == x;
            let j = choose|j: int| 0 <= j < s.len() && s[j].0 == x;
            if i != j {
                if i < j {
                    assert(key_lt(s[i].0, s[j].0));
                } else {
                    assert(key_lt(s[j].0, s[i].0));
                }
                lemma_key_lt_irreflexive(x);
            }
            if x != k {
                let i2 = choose|i2: int| 0 <= i2 < t.len() && t[i2].0 == x;
                assert(s[i2].0 == x);
                let j2 = choose|j2: int| 0 <= j2 < s.len() && s[j2].0 == x;
                if i2 != j2 {
                    if i2 < j2 {
                        assert(key_lt(s[i2].0, s[j2].0));
                    } else {
                        assert(key_lt(s[j2].0, s[i2].0));
                    }
                    lemma_key_lt_irreflexive(x);
                }
            } else {
                if i != s.len() - 1 {
                    assert(key_lt(s[i].0, s[s.len() - 1].0));
                    lemma_key_lt_irreflexive(x);
                }
            }
        }
        assert(keyed_map(s) =~= keyed_map(t).insert(k, s.last().1));
    }
}

/// Decoding the encoding of a map gives the map back.
pub proof fn lemma_index_encoding_roundtrip(m: Map<[u8; 32], (u64, u64)>)
    requires
        m.dom().finite(),
        m.dom().len() <= u32::MAX,
    ensures
        borsh_index_decoding(borsh_index_encoding(m)) == Some(m),
        borsh_index_encoding(m).len() == 4 + 48 * m.dom().len(),
{
    lemma_auto_spec_u32_to_from_le_bytes();
    lemma_sorted_keys_exist(m);
    let s = sorted_entries(m);
    let enc = borsh_index_encoding(m);
    let n: int = m.dom().len() as int;
    lemma_entries_layout_len(s);
    assert(enc.subrange(0, 4) =~= spec_u32_to_le_bytes(n as u32));
    assert(enc.subrange(4, 4 + 48 * n) =~= entries_layout(s));
    lemma_index_entries_at_layout(enc, 4, s);
    lemma_pairs_map_sorted(s);
}

pub struct Index {
    entries: Vec<IndexEntry>,
}

impl View for Index {
    type V = Map<[u8; 32], (u64, u64)>;

    closed spec fn view(&self) -> Map<[u8; 32], (u64, u64)> {
        entries_map(self.entries@)
    }
}

/// With distinct keys, the entry at `i` is what the map holds for its key.
proof fn lemma_entries_map_at(s: Seq<IndexEntry>, i: int)
    requires
        entry_keys(s).no_duplicates(),
        0 <= i < s.len(),
    ensures
        entries_map(s).dom().contains(s[i].0),
        entries_map(s)[s[i].0] == s[i].1,
{
    let k = s[i].0;
    assert(exists|j: int| 0 <= j < s.len() && s[j].0 == k);
    let j = entry_position(s, k);
    if j != i {
        assert(entry_keys(s)[i] == entry_keys(s)[j]);
    }
    assert(j == i);
    assert(entries_map(s).dom().contains(k));
    assert(entries_map(s)[k] == s[j].1);
}

/// With distinct keys, the map has as many keys as there are entries.
proof fn lemma_entries_map_len(s: Seq<IndexEntry>)
    requires
        entry_keys(s).no_duplicates(),
    ensures
        entries_map(s).dom() == entry_keys(s).to_set(),
        entries_map(s).dom().finite(),
        entries_map(s).dom().len() == s.len(),
{
    assert forall|k: [u8; 32]| entries_map(s).dom().contains(k) <==> entry_keys(s).to_set().contains(k) by {
        if entries_map(s).dom().contains(k) {
            let i = choose|i: int| 0 <= i < s.len() && s[i].0 == k;
            assert(entry_keys(s)[i] == k);
        }
        if entry_keys(s).to_set().contains(k) {
            let i = choose|i: int| 0 <= i < entry_keys(s).len() && entry_keys(s)[i] == k;
            assert(s[i].0 == k);
        }
    }
    assert(entries_map(s).dom() =~= entry_keys(s).to_set());
    entry_keys(s).unique_seq_to_set();
}

/// Compares two keys byte by byte.
fn keys_equal(a: &[u8; 32], b: &[u8; 32]) -> (r: bool)
    ensures
        r == (*a == *b),
{
    let mut i: usize = 0;
    while i < 32
        invariant
            i <= 32,
            forall|j: int| 0 <= j < i ==> a@[j] == b@[j],
        decreases 32 - i,
    {
        if a[i] != b[i] {
            return false;
        }
        i = i + 1;
    }
    assert(*a =~= *b);
    true
}

/// `borsh::to_vec` of the index as a `HashMap<[u8; 32], (u64, u64)>`: borsh
/// sorts the entries by key and writes their count and then each of them.
/// It fails only when the map has more entries than a 32-bit count holds.
#[verifier::external_body]
fn borsh_encode_index(index: &Index) -> (r: Option<Vec<u8>>)
    ensures
        r matches Some(b) ==> b@ == borsh_index_encoding(index@),
        index@.dom().len() <= u32::MAX ==> r is Some,
{
    let map: HashMap<[u8; 32], (u64, u64)> = index.entries.iter().cloned().collect();
    borsh::to_vec(&map).ok()
}

/// `borsh::from_slice::<HashMap<[u8; 32], (u64, u64)>>`, with the map handed
/// back as a list of its entries: borsh reads the count and the entries,
/// inserts them in turn, and fails where bytes are missing or left over.
#[verifier::external_body]
fn borsh_decode_index(bytes: &[u8]) -> (r: Option<Vec<IndexEntry>>)
    ensures
        r is Some <==> borsh_index_decoding(bytes@) is Some,
        r matches Some(v) ==> entry_keys(v@).no_duplicates() && entries_map(v@)
            == borsh_index_decoding(bytes@)->0,
{
    match borsh::from_slice::<HashMap<[u8; 32], (u64, u64)>>(bytes) {
        Ok(map) => Some(map.into_iter().collect()),
        Err(_) => None,
    }
}

impl Index {
    #[verifier::type_invariant]
    spec fn keys_distinct(self) -> bool {
        entry_keys(self.entries@).no_duplicates()
    }

    /// Drops every entry.
    pub fn wipe(&mut self)
        ensures
            final(self)@ == Map::<[u8; 32], (u64, u64)>::empty(),
    {
        self.entries = Vec::new();
        assert(self@ =~= Map::<[u8; 32], (u64, u64)>::empty());
    }

    /// An empty index.
    pub fn new() -> (idx: Self)
        ensures
            idx@ == Map::<[u8; 32], (u64, u64)>::empty(),
    {
        let idx = Self { entries: Vec::new() };
        assert(idx@ =~= Map::<[u8; 32], (u64, u64)>::empty());
        idx
    }

    /// The index that `data` holds: empty for no data or empty data, else the
    /// borsh decoding of the bytes.
    pub fn from_data(data: Option<&[u8]>) -> (r: Result<Self, VartaError>)
        ensures
            match data {
                Some(bytes) if bytes@.len() > 0 => match borsh_index_decoding(bytes@) {
                    Some(m) => r matches Ok(idx) && idx@ == m,
                    None => r matches Err(VartaError::IndexDecodeFailed),
                },
                _ => r matches Ok(idx) && idx@ == Map::<[u8; 32], (u64, u64)>::empty(),
            },
            forall|m: Map<[u8; 32], (u64, u64)>|
                #![trigger borsh_index_encoding(m)]
                (data matches Some(bytes) && bytes@.len() > 0 && bytes@ == borsh_index_encoding(m)
                    && m.dom().finite() && m.dom().len() <= u32::MAX) ==> (r matches Ok(idx) && idx@ == m),
    {
        proof {
            assert forall|m: Map<[u8; 32], (u64, u64)>|
                #![trigger borsh_index_encoding(m)]
                m.dom().finite() && m.dom().len() <= u32::MAX implies borsh_index_decoding(borsh_index_encoding(m))
                    == Some(m) by {
                lemma_index_encoding_roundtrip(m);
            }
        }
        match data {
            Some(bytes) => {
                if bytes.len() == 0 {
                    return Ok(Self::new());
                }
                match borsh_decode_index(bytes) {
                    Some(entries) => Ok(Self { entries }),
                    None => Err(VartaError::IndexDecodeFailed),
                }
            },
            None => Ok(Self::new()),
        }
    }

    /// The borsh encoding of the index.
    pub fn to_bytes(&self) -> (r: Result<Vec<u8>, VartaError>)
        ensures
            r matches Ok(b) ==> b@ == borsh_index_encoding(self@),
            r matches Ok(b) ==> b@.len() == 4 + 48 * self@.dom().len(),
            r is Ok <==> self@.dom().len() <= u32::MAX,
            !(r is Ok) ==> r matches Err(VartaError::IndexEncodeFailed),
            self@.dom().finite(),
    {
        proof {
            use_type_invariant(self);
            lemma_entries_map_len(self.entries@);
        }
        if self.entries.len() > u32::MAX as usize {
            return Err(VartaError::IndexEncodeFailed);
        }
        proof {
            lemma_index_encoding_roundtrip(self@);
        }
        match borsh_encode_index(self) {
            Some(b) => Ok(b),
            None => Err(VartaError::IndexEncodeFailed),
        }
    }

    /// Position of `key` among the entries, if present.
    fn find(&self, key: &[u8; 32]) -> (r: Option<usize>)
        ensures
            r matches Some(i) ==> i < self.entries@.len() && self.entries@[i as int].0 == *key,
            r is None ==> !self@.dom().contains(*key),
    {
        let mut i: usize = 0;
        while i < self.entries.len()
            invariant
                i <= self.entries@.len(),
                forall|j: int| 0 <= j < i ==> self.entries@[j].0 != *key,
            decreases self.entries@.len() - i,
        {
            if keys_equal(&self.entries[i].0, key) {
                return Some(i);
            }
            i = i + 1;
        }
        None
    }

    /// The (offset, length) stored under `key`.
    pub fn get(&self, key: &[u8; 32]) -> (r: Option<&(u64, u64)>)
        ensures
            self@.dom().contains(*key) ==> (r matches Some(v) && *v == self@[*key]),
            !self@.dom().contains(*key) ==> r is None,
    {
        proof {
            use_type_invariant(self);
        }
        match self.find(key) {
            Some(i) => {
                proof {
                    lemma_entries_map_at(self.entries@, i as int);
                }
                Some(&self.entries[i].1)
            },
            None => None,
        }
    }

    /// Stores (offset, length) under `key`, replacing what was there.
    pub fn insert(&mut self, key: [u8; 32], offset: u64, length: u64)
        ensures
            final(self)@ == old(self)@.insert(key, (offset, length)),
    {
        proof {
            use_type_invariant(&*self);
        }
        let ghost old_entries = self.entries@;
        match self.find(&key) {
            Some(i) => {
                let mut entries: Vec<IndexEntry> = Vec::new();
                std::mem::swap(&mut entries, &mut self.entries);
                entries.set(i, (key, (offset, length)));
                proof {
                    let s = entries@;
                    assert(entry_keys(s) =~= entry_keys(old_entries));
                    let m_new = entries_map(s);
                    let m_old = entries_map(old_entries).insert(key, (offset, length));
                    assert forall|k: [u8; 32]| m_new.dom().contains(k) <==> m_old.dom().contains(k) by {
                        if m_new.dom().contains(k) {
                            let j = entry_position(s, k);
                            if j != i {
                                assert(old_entries[j].0 == k);
                            }
                        }
                        if m_old.dom().contains(k) && k != key {
                            let j = entry_position(old_entries, k);
                            assert(s[j].0 == k);
                        }
                        if k == key {
                            assert(s[i as int].0 == k);
                        }
                    }
                    assert forall|k: [u8; 32]| m_new.dom().contains(k) implies m_new[k] == m_old[k] by {
                        let j = entry_position(s, k);
                        lemma_entries_map_at(s, j);
                        if j != i {
                            assert(entry_keys(s)[j] != entry_keys(s)[i as int]);
                            lemma_entries_map_at(old_entries, j);
                        }
                    }
                    assert(m_new =~= m_old);
                }
                self.entries = entries;
            },
            None => {
                let mut entries: Vec<IndexEntry> = Vec::new();
                std::mem::swap(&mut entries, &mut self.entries);
                entries.push((key, (offset, length)));
                proof {
                    let s = entries@;
                    assert(entry_keys(s) =~= entry_keys(old_entries).push(key));
                    assert(!entry_keys(old_entries).contains(key)) by {
                        if entry_keys(old_entries).contains(key) {
                            let j = choose|j: int| 0 <= j < old_entries.len() && entry_keys(old_entries)[j] == key;
                            assert(old_entries[j].0 == key);
                        }
                    }
                    assert forall|k: [u8; 32]| entries_map(s).dom().contains(k) implies entries_map(s)[k]
                        == entries_map(old_entries).insert(key, (offset, length))[k] by {
                        let j = choose|j: int| 0 <= j < s.len() && s[j].0 == k;
                        lemma_entries_map_at(s, j);
                        if j < old_entries.len() {
                            lemma_entries_map_at(old_entries, j);
                        }
                    }
                    assert forall|k: [u8; 32]| entries_map(old_entries).dom().contains(k) implies entries_map(s).dom().contains(k) by {
                        let j = choose|j: int| 0 <= j < old_entries.len() && old_entries[j].0 == k;
                        assert(s[j].0 == k);
                    }
                    assert(s[old_entries.len() as int].0 == key);
                    assert(entries_map(s) =~= entries_map(old_entries).insert(key, (offset, length)));
                }
                self.entries = entries;
            },
        }
    }

    /// Removes `key`, handing back what it held.
    pub fn remove(&mut self, key: &[u8; 32]) -> (r: Option<(u64, u64)>)
        ensures
            final(self)@ == old(self)@.remove(*key),
            old(self)@.dom().contains(*key) ==> r == Some(old(self)@[*key]),
            !old(self)@.dom().contains(*key) ==> r is None,
    {
        proof {
            use_type_invariant(&*self);
        }
        let ghost old_entries = self.entries@;
        match self.find(key) {
            Some(i) => {
                proof {
                    lemma_entries_map_at(old_entries, i as int);
                }
                let mut entries: Vec<IndexEntry> = Vec::new();
                std::mem::swap(&mut entries, &mut self.entries);
                let removed = entries.remove(i);
                proof {
                    let s = entries@;
                    assert(entry_keys(s) =~= entry_keys(old_entries).remove(i as int));
                    let m_new = entries_map(s);
                    let m_old = entries_map(old_entries).remove(*key);
                    assert forall|k: [u8; 32]| m_new.dom().contains(k) <==> m_old.dom().contains(k) by {
                        if m_new.dom().contains(k) {
                            let j = entry_position(s, k);
                            if j < i {
                                assert(old_entries[j].0 == k);
                                assert(entry_keys(old_entries)[j] != entry_keys(old_entries)[i as int]);
                            } else {
                                assert(old_entries[j + 1].0 == k);
                                assert(entry_keys(old_entries)[j + 1] != entry_keys(old_entries)[i as int]);
                            }
                        }
                        if m_old.dom().contains(k) {
                            let j = entry_position(old_entries, k);
                            assert(j != i);
                            if j < i {
                                assert(s[j].0 == k);
                            } else {
                                assert(s[j - 1].0 == k);
                            }
                        }
                    }
                    assert forall|k: [u8; 32]| m_new.dom().contains(k) implies m_new[k] == m_old[k] by {
                        let j = entry_position(s, k);
                        lemma_entries_map_at(s, j);
                        if j < i {
                            lemma_entries_map_at(old_entries, j);
                        } else {
                            lemma_entries_map_at(old_entries, j + 1);
                        }
                    }
                    assert(m_new =~= m_old);
                }
                self.entries = entries;
                Some(removed.1)
            },
            None => {
                assert(self@ =~= old(self)@.remove(*key));
                None
            },
        }
    }

    pub fn contains_key(&self, key: &[u8; 32]) -> (b: bool)
        ensures
            b == self@.dom().contains(*key),
    {
        proof {
            use_type_invariant(self);
        }
        match self.find(key) {
            Some(i) => {
                proof {
                    lemma_entries_map_at(self.entries@, i as int);
                }
                true
            },
            None => false,
        }
    }

    /// Every key once, in the order the index keeps them.
    pub fn keys(&self) -> (ks: Vec<&[u8; 32]>)
        ensures
            ks@.len() == self@.dom().len(),
            forall|i: int| 0 <= i < ks@.len() ==> self@.dom().contains(*ks@[i]),
            forall|k: [u8; 32]| self@.dom().contains(k) ==> exists|i: int| 0 <= i < ks@.len() && *ks@[i] == k,
            forall|i: int, j: int| 0 <= i < j < ks@.len() ==> *ks@[i] != *ks@[j],
    {
        proof {
            use_type_invariant(self);
            lemma_entries_map_len(self.entries@);
        }
        let mut ks: Vec<&[u8; 32]> = Vec::new();
        let mut i: usize = 0;
        while i < self.entries.len()
            invariant
                i <= self.entries@.len(),
                ks@.len() == i,
                entry_keys(self.entries@).no_duplicates(),
                forall|j: int| 0 <= j < i ==> *ks@[j] == self.entries@[j].0,
            decreases self.entries@.len() - i,
        {
            ks.push(&self.entries[i].0);
            i = i + 1;
        }
        proof {
            assert forall|j: int| 0 <= j < ks@.len() implies self@.dom().contains(*ks@[j]) by {
                lemma_entries_map_at(self.entries@, j);
            }
            assert forall|k: [u8; 32]| self@.dom().contains(k) implies exists|j: int| 0 <= j < ks@.len() && *ks@[j] == k by {
                let j = entry_position(self.entries@, k);
                assert(*ks@[j] == k);
            }
            assert forall|a: int, b: int| 0 <= a < b < ks@.len() implies *ks@[a] != *ks@[b] by {
                assert(entry_keys(self.entries@)[a] != entry_keys(self.entries@)[b]);
            }
        }
        ks
    }

    /// Number of keys.
    pub fn len(&self) -> (n: usize)
        ensures
            n == self@.dom().len(),
            self@.dom().finite(),
    {
        proof {
            use_type_invariant(self);
            lemma_entries_map_len(self.entries@);
        }
        self.entries.len()
    }

    /// Size of the index block on disk.
    pub fn size(&self) -> (n: usize)
        ensures
            n == INDEX_BLOCK_SIZE,
    {
        INDEX_BLOCK_SIZE
    }

    pub fn is_empty(&self) -> (b: bool)
        ensures
            b == (self@.dom().len() == 0),
            b == (self@ == Map::<[u8; 32], (u64, u64)>::empty()),
    {
        proof {
            use_type_invariant(self);
            lemma_entries_map_len(self.entries@);
            if self.entries@.len() > 0 {
                lemma_entries_map_at(self.entries@, 0);
                assert(!(self@ =~= Map::<[u8; 32], (u64, u64)>::empty()));
            } else {
                assert(self@ =~= Map::<[u8; 32], (u64, u64)>::empty());
            }
        }
        self.entries.len() == 0
    }

    /// The index key of a name: its SHA-256 digest.
    pub fn index_hash(data: &[u8]) -> (hash: [u8; 32])
        ensures
            hash@ == sha256(data@),
    {
        sha256_digest(data)
    }
}

/// Reads the index block at the start of `data`: the first `index_size` bytes
/// of the 12 KiB block hold the encoded index, the rest is padding; a size of
/// 0 means an empty index.
pub fn read_index(data: &[u8], index_size: u32) -> (r: Result<Index, VartaError>)
    requires
        index_size <= INDEX_BLOCK_SIZE,
    ensures
        data@.len() < INDEX_BLOCK_SIZE ==> r matches Err(VartaError::UnexpectedEof),
        data@.len() >= INDEX_BLOCK_SIZE && index_size == 0 ==> (r matches Ok(idx) && idx@ == Map::<
            [u8; 32],
            (u64, u64),
        >::empty()),
        data@.len() >= INDEX_BLOCK_SIZE && index_size > 0 ==> match borsh_index_decoding(
            data@.subrange(0, index_size as int),
        ) {
            Some(m) => r matches Ok(idx) && idx@ == m,
            None => r matches Err(VartaError::IndexDecodeFailed),
        },
        forall|m: Map<[u8; 32], (u64, u64)>|
            #![trigger borsh_index_encoding(m)]
            (data@.len() >= INDEX_BLOCK_SIZE && index_size > 0 && data@.subrange(0, index_size as int)
                == borsh_index_encoding(m) && m.dom().finite() && m.dom().len() <= u32::MAX) ==> (r matches Ok(
                idx,
            ) && idx@ == m),
{
    if data.len() < INDEX_BLOCK_SIZE {
        return Err(VartaError::UnexpectedEof);
    }
    if index_size == 0 {
        return Ok(Index::new());
    }
    let index_data = &data[0..index_size as usize];
    Index::from_data(Some(index_data))
}

/// Appends the index block: the encoded index followed by zeros up to 12 KiB.
/// Fails, appending nothing, when the encoding does not fit.
pub fn write_index(out: &mut Vec<u8>, index: &Index) -> (r: Result<(), VartaError>)
    ensures
        index@.dom().len() > u32::MAX ==> (r matches Err(VartaError::IndexEncodeFailed) && final(out)@ == old(out)@),
        index@.dom().len() <= u32::MAX && borsh_index_encoding(index@).len() > INDEX_BLOCK_SIZE ==> (
        r matches Err(VartaError::IndexTooLarge(n)) && n == borsh_index_encoding(index@).len() && final(out)@ == old(out)@),
        r is Ok <==> (index@.dom().len() <= u32::MAX && borsh_index_encoding(index@).len() <= INDEX_BLOCK_SIZE),
        r is Ok ==> final(out)@ == old(out)@ + index_block(index@),
{
    let bytes = match index.to_bytes() {
        Ok(b) => b,
        Err(e) => {
            return Err(e);
        },
    };
    if bytes.len() > INDEX_BLOCK_SIZE {
        return Err(VartaError::IndexTooLarge(bytes.len()));
    }
    let ghost start = out@;
    push_slice(out, bytes.as_slice());
    let padding = INDEX_BLOCK_SIZE - bytes.len();
    let mut i: usize = 0;
    while i < padding
        invariant
            i <= padding,
            padding == INDEX_BLOCK_SIZE - bytes@.len(),
            out@ == start + bytes@ + Seq::new(i as nat, |j: int| 0u8),
        decreases padding - i,
    {
        out.push(0u8);
        i = i + 1;
        assert(out@ =~= start + bytes@ + Seq::new(i as nat, |j: int| 0u8));
    }
    Ok(())
}

/// The 12 KiB index block of an index whose encoding fits: the encoding, then zeros.
pub open spec fn index_block(m: Map<[u8; 32], (u64, u64)>) -> Seq<u8> {
    borsh_index_encoding(m) + Seq::new((INDEX_BLOCK_SIZE - borsh_index_encoding(m).len()) as nat, |j: int| 0u8)
}

} // verus!
