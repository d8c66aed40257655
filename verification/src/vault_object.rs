//! A vault object: a named secret value with its status, timestamps and a
//! SHA-256 digest over its contents, and its record encoding.
use vstd::prelude::*;
use vstd::bytes::*;
use vstd::utf8::{encode_utf8, decode_utf8, valid_utf8, encode_utf8_valid_utf8, encode_utf8_decode_utf8, decode_utf8_encode_utf8};
use crate::bytes::{push_slice, push_u64_le};
use crate::record::{bytes_field, field_at, lemma_field_at_bytes_field, push_bytes_field, read_u8, read_u64, read_array32, read_bytes_field};
use crate::error::VartaError;
use crate::config::VERSION;
use crate::crypto::primitives::{sha256, sha256_digest, unix_time_now};
use crate::sys::string_from_utf8;

verus! {

broadcast use vstd::seq_lib::group_seq_properties;

/// What a vault object holds.
pub struct ObjectView {
    pub version: u8,
    pub key: Seq<char>,
    pub value: Seq<u8>,
    pub status: u64,
    pub digest: Seq<u8>,
    pub created_at: u64,
    pub updated_at: u64,
}

#[derive(Clone)]
pub struct VaultObject {
    version: u8,
    key: String,
    value: Vec<u8>,
    status: u64,
    digest: [u8; 32],
    created_at: u64,
    updated_at: u64,
}

impl View for VaultObject {
    type V = ObjectView;

    closed spec fn view(&self) -> ObjectView {
        ObjectView {
            version: self.version,
            key: self.key@,
            value: self.value@,
            status: self.status,
            digest: self.digest@,
            created_at: self.created_at,
            updated_at: self.updated_at,
        }
    }
}

/// The bytes that an object's digest is taken over: the key's UTF-8 bytes,
/// the value, then status, creation and update times (64-bit LE).
pub open spec fn object_hash_input(key: Seq<char>, value: Seq<u8>, status: u64, created_at: u64, updated_at: u64) -> Seq<u8> {
    encode_utf8(key) + value + spec_u64_to_le_bytes(status) + spec_u64_to_le_bytes(created_at)
        + spec_u64_to_le_bytes(updated_at)
}

/// The digest an object with these contents carries.
pub open spec fn object_digest(key: Seq<char>, value: Seq<u8>, status: u64, created_at: u64, updated_at: u64) -> Seq<u8> {
    sha256(object_hash_input(key, value, status, created_at, updated_at))
}

/// The digest of `o`'s current contents.
pub open spec fn digest_of(o: ObjectView) -> Seq<u8> {
    object_digest(o.key, o.value, o.status, o.created_at, o.updated_at)
}

/// An object whose record can be written: key and value each fit a 32-bit length.
pub open spec fn object_fits(o: ObjectView) -> bool {
    &&& encode_utf8(o.key).len() <= u32::MAX
    &&& o.value.len() <= u32::MAX
}

/// The record of an object: version, key and value as length-prefixed
/// fields, status, digest, creation and update times.
pub open spec fn object_bytes(o: ObjectView) -> Seq<u8> {
    seq![o.version] + bytes_field(encode_utf8(o.key)) + bytes_field(o.value) + spec_u64_to_le_bytes(o.status)
        + o.digest + spec_u64_to_le_bytes(o.created_at) + spec_u64_to_le_bytes(o.updated_at)
}

/// The object a record holds: `None` where a field runs past the end, the key
/// is not UTF-8, or bytes are left over after the last field.
pub open spec fn parse_object(d: Seq<u8>) -> Option<ObjectView> {
    if d.len() < 1 {
        None
    } else {
        match field_at(d, 1) {
            None => None,
            Some((kb, p1)) => if !valid_utf8(kb) {
                None
            } else {
                match field_at(d, p1) {
                    None => None,
                    Some((val, p2)) => if p2 + 56 != d.len() {
                        None
                    } else {
                        Some(ObjectView {
                            version: d[0],
                            key: decode_utf8(kb),
                            value: val,
                            status: spec_u64_from_le_bytes(d.subrange(p2, p2 + 8)),
                            digest: d.subrange(p2 + 8, p2 + 40),
                            created_at: spec_u64_from_le_bytes(d.subrange(p2 + 40, p2 + 48)),
                            updated_at: spec_u64_from_le_bytes(d.subrange(p2 + 48, p2 + 56)),
                        })
                    },
                }
            },
        }
    }
}

/// Reading an object's record gives the object back.
pub proof fn lemma_object_roundtrip(o: ObjectView)
    requires
        object_fits(o),
        o.digest.len() == 32,
    ensures
        parse_object(object_bytes(o)) == Some(o),
{
    broadcast use {encode_utf8_valid_utf8, encode_utf8_decode_utf8};
    lemma_auto_spec_u64_to_from_le_bytes();
    lemma_auto_spec_u32_to_from_le_bytes();
    let d = object_bytes(o);
    let kb = encode_utf8(o.key);
    let p1: int = 5 + kb.len() as int;
    let p2: int = p1 + 4 + o.value.len();
    assert(d.subrange(1, p1) =~= bytes_field(kb));
    lemma_field_at_bytes_field(d, 1, kb);
    assert(d.subrange(p1, p2) =~= bytes_field(o.value));
    lemma_field_at_bytes_field(d, p1, o.value);
    assert(d.subrange(p2, p2 + 8) =~= spec_u64_to_le_bytes(o.status));
    assert(d.subrange(p2 + 8, p2 + 40) =~= o.digest);
    assert(d.subrange(p2 + 40, p2 + 48) =~= spec_u64_to_le_bytes(o.created_at));
    assert(d.subrange(p2 + 48, p2 + 56) =~= spec_u64_to_le_bytes(o.updated_at));
    let r = parse_object(d).unwrap();
    assert(r.key == o.key);
    assert(r.value =~= o.value);
    assert(r.digest =~= o.digest);
}

/// A record that reads as an object is exactly that object's record: no two
/// records hold the same object.
pub proof fn lemma_object_canonical(d: Seq<u8>)
    requires
        parse_object(d) is Some,
    ensures
        object_bytes(parse_object(d).unwrap()) == d,
        object_fits(parse_object(d).unwrap()),
        parse_object(d).unwrap().digest.len() == 32,
{
    broadcast use decode_utf8_encode_utf8;
    lemma_auto_spec_u64_to_from_le_bytes();
    lemma_auto_spec_u32_to_from_le_bytes();
    let o = parse_object(d).unwrap();
    let (kb, p1) = field_at(d, 1).unwrap();
    let (val, p2) = field_at(d, p1).unwrap();
    assert(encode_utf8(o.key) == kb);
    assert(d.subrange(1, 5) =~= spec_u32_to_le_bytes(kb.len() as u32));
    assert(d.subrange(p1, p1 + 4) =~= spec_u32_to_le_bytes(val.len() as u32));
    assert(d.subrange(1, p1) =~= bytes_field(kb));
    assert(d.subrange(p1, p2) =~= bytes_field(val));
    assert(d =~= seq![d[0]] + d.subrange(1, p1) + d.subrange(p1, p2) + d.subrange(p2, p2 + 8)
        + d.subrange(p2 + 8, p2 + 40) + d.subrange(p2 + 40, p2 + 48) + d.subrange(p2 + 48, p2 + 56));
    assert(object_bytes(o) =~= d);
}

/// Appends the digest input of these contents to `out`.
fn push_hash_input(out: &mut Vec<u8>, key: &String, value: &Vec<u8>, status: u64, created_at: u64, updated_at: u64)
    ensures
        final(out)@ == old(out)@ + object_hash_input(key@, value@, status, created_at, updated_at),
{
    push_slice(out, key.as_str().as_bytes());
    push_slice(out, value.as_slice());
    push_u64_le(out, status);
    push_u64_le(out, created_at);
    push_u64_le(out, updated_at);
    assert(final(out)@ =~= old(out)@ + object_hash_input(key@, value@, status, created_at, updated_at));
}

impl VaultObject {
    /// A new object with status 0, created and updated at `now`, carrying the
    /// digest of its contents.
    pub fn new_at(key: String, value: Vec<u8>, now: u64) -> (o: Self)
        ensures
            o@.version == VERSION,
            o@.key == key@,
            o@.value == value@,
            o@.status == 0,
            o@.created_at == now,
            o@.updated_at == now,
            o@.digest == digest_of(o@),
            o@.digest.len() == 32,
    {
        let mut obj = VaultObject {
            version: VERSION,
            key,
            value,
            status: 0,
            digest: [0u8; 32],
            created_at: now,
            updated_at: now,
        };
        obj.digest = obj.hash();
        obj
    }

    /// A new object stamped with the current time.
    pub fn new(key: String, value: Vec<u8>) -> (o: Self)
        ensures
            o@.version == VERSION,
            o@.key == key@,
            o@.value == value@,
            o@.status == 0,
            o@.created_at == o@.updated_at,
            o@.digest == digest_of(o@),
            o@.digest.len() == 32,
    {
        let now = unix_time_now();
        VaultObject::new_at(key, value, now)
    }

    /// The record of this object; fails when the key or the value is longer
    /// than a 32-bit length can say.
    pub fn to_bytes(&self) -> (r: Result<Vec<u8>, VartaError>)
        ensures
            r is Ok <==> object_fits(self@),
            r matches Ok(b) ==> b@ == object_bytes(self@),
            r matches Err(e) ==> e is RecordTooLarge,
    {
        let mut out: Vec<u8> = Vec::new();
        out.push(self.version);
        match push_bytes_field(&mut out, self.key.as_str().as_bytes()) {
            Ok(()) => {},
            Err(e) => return Err(e),
        }
        match push_bytes_field(&mut out, self.value.as_slice()) {
            Ok(()) => {},
            Err(e) => return Err(e),
        }
        push_u64_le(&mut out, self.status);
        push_slice(&mut out, &self.digest);
        push_u64_le(&mut out, self.created_at);
        push_u64_le(&mut out, self.updated_at);
        assert(out@ =~= object_bytes(self@));
        Ok(out)
    }

    /// The object that `data` holds as a record.
    pub fn from_bytes(data: &[u8]) -> (r: Result<Self, VartaError>)
        ensures
            r matches Ok(o) ==> parse_object(data@) == Some(o@),
            r is Err <==> parse_object(data@) is None,
            r matches Err(e) ==> e is RecordDecodeFailed,
    {
        let (version, p0) = match read_u8(data, 0) {
            Some(x) => x,
            None => return Err(VartaError::RecordDecodeFailed),
        };
        let (kb, p1) = match read_bytes_field(data, p0) {
            Some(x) => x,
            None => return Err(VartaError::RecordDecodeFailed),
        };
        let ghost kbv = kb@;
        let key = match string_from_utf8(kb) {
            Some(s) => s,
            None => return Err(VartaError::RecordDecodeFailed),
        };
        let (value, p2) = match read_bytes_field(data, p1) {
            Some(x) => x,
            None => return Err(VartaError::RecordDecodeFailed),
        };
        if !(p2 <= data.len() && data.len() - p2 == 56) {
            return Err(VartaError::RecordDecodeFailed);
        }
        let (status, p3) = match read_u64(data, p2) {
            Some(x) => x,
            None => return Err(VartaError::RecordDecodeFailed),
        };
        let (digest, p4) = match read_array32(data, p3) {
            Some(x) => x,
            None => return Err(VartaError::RecordDecodeFailed),
        };
        let (created_at, p5) = match read_u64(data, p4) {
            Some(x) => x,
            None => return Err(VartaError::RecordDecodeFailed),
        };
        let (updated_at, _p6) = match read_u64(data, p5) {
            Some(x) => x,
            None => return Err(VartaError::RecordDecodeFailed),
        };
        let obj = VaultObject { version, key, value, status, digest, created_at, updated_at };
        assert(parse_object(data@) == Some(obj@)) by {
            let o = parse_object(data@).unwrap();
            assert(o.key == obj@.key);
            assert(o.value =~= obj@.value);
            assert(o.digest =~= obj@.digest);
        }
        Ok(obj)
    }

    /// The SHA-256 digest of the object's key bytes, value, status, creation
    /// and update times.
    pub fn hash(&self) -> (h: [u8; 32])
        ensures
            h@ == digest_of(self@),
    {
        let mut buf: Vec<u8> = Vec::new();
        push_hash_input(&mut buf, &self.key, &self.value, self.status, self.created_at, self.updated_at);
        assert(buf@ =~= object_hash_input(self.key@, self.value@, self.status, self.created_at, self.updated_at));
        sha256_digest(buf.as_slice())
    }

    pub fn key(&self) -> (k: &str)
        ensures
            k@ == self@.key,
    {
        self.key.as_str()
    }

    pub fn value(&self) -> (v: &[u8])
        ensures
            v@ == self@.value,
    {
        self.value.as_slice()
    }

    pub fn digest(&self) -> (d: &[u8; 32])
        ensures
            d@ == self@.digest,
    {
        &self.digest
    }

    pub fn created_at(&self) -> (t: u64)
        ensures
            t == self@.created_at,
    {
        self.created_at
    }

    pub fn updated_at(&self) -> (t: u64)
        ensures
            t == self@.updated_at,
    {
        self.updated_at
    }

    pub fn status(&self) -> (s: u64)
        ensures
            s == self@.status,
    {
        self.status
    }

    /// Replaces the value, stamps the update time `now` and renews the digest.
    pub fn update_at(&mut self, new_value: Vec<u8>, now: u64)
        ensures
            final(self)@ == (ObjectView {
                value: new_value@,
                updated_at: now,
                digest: final(self)@.digest,
                ..old(self)@
            }),
            final(self)@.digest == digest_of(final(self)@),
            final(self)@.digest.len() == 32,
    {
        self.value = new_value;
        self.updated_at = now;
        self.digest = self.hash();
    }

    /// Replaces the value, stamps the current time and renews the digest.
    pub fn update(&mut self, new_value: Vec<u8>)
        ensures
            final(self)@ == (ObjectView {
                value: new_value@,
                updated_at: final(self)@.updated_at,
                digest: final(self)@.digest,
                ..old(self)@
            }),
            final(self)@.digest == digest_of(final(self)@),
            final(self)@.digest.len() == 32,
    {
        let now = unix_time_now();
        self.update_at(new_value, now);
    }

    /// Sets the status and renews the digest.
    pub fn set_status(&mut self, status: u64)
        ensures
            final(self)@ == (ObjectView { status, digest: final(self)@.digest, ..old(self)@ }),
            final(self)@.digest == digest_of(final(self)@),
            final(self)@.digest.len() == 32,
    {
        self.status = status;
        self.digest = self.hash();
    }
}

} // verus!
