//! Operations: the signed, hash-chained entries of a vault's audit log. Each
//! operation names the device and agent that made it, the object it touched,
//! and carries the device's vector clock, the digest of the operation before
//! it, its own digest, their chained digest and the device's signature.
use vstd::prelude::*;
use vstd::bytes::*;
use vstd::utf8::{encode_utf8, decode_utf8, valid_utf8, encode_utf8_valid_utf8, encode_utf8_decode_utf8};
use crate::bytes::{push_slice, push_u64_le};
use crate::record::{bytes_field, field_at, lemma_field_at_bytes_field, push_bytes_field, read_u64, read_array32, read_bytes_field};
use crate::clock::{
    ClockEntry, VectorClock, clock_sorted, clock_get, clock_set, clock_map, clock_bytes, clock_at,
    clock_values_bytes, lemma_clock_at_bytes, lemma_clock_set_map, lemma_clock_set_sorted,
};
use crate::error::VartaError;
use crate::config::OP_INITIAL;
use crate::crypto::primitives::{sha256, sha256_digest, unix_time_now};
use crate::crypto::sign::{ED25519_SIG_LEN, ed25519_signature};
use crate::device::{Device, device_id_of};
use crate::sys::string_from_utf8;
use crate::vault_object::{VaultObject, ObjectView, digest_of};
use crate::vault::Vault;

verus! {

broadcast use vstd::seq_lib::group_seq_properties;

/// What an operation holds.
pub struct OperationView {
    pub device_id: Seq<u8>,
    pub agent_id: Seq<u8>,
    pub vault_name: Seq<char>,
    pub device_clock: u64,
    pub vector_clock: Seq<ClockEntry>,
    pub timestamp: u64,
    pub operation_type: Seq<char>,
    pub value_key: Seq<u8>,
    pub value_hash: Seq<u8>,
    pub vault_digest: Seq<u8>,
    pub prev_op_hash: Seq<u8>,
    pub op_hash: Seq<u8>,
    pub op_iter_hash: Seq<u8>,
    pub signature: Seq<u8>,
}

pub struct Operation {
    device_id: [u8; 32],
    agent_id: [u8; 32],
    vault_name: String,
    device_clock: u64,
    vector_clock: VectorClock,
    timestamp: u64,
    operation_type: String,
    value_key: Vec<u8>,
    value_hash: [u8; 32],
    vault_digest: [u8; 32],
    prev_op_hash: [u8; 32],
    pub op_hash: [u8; 32],
    op_iter_hash: [u8; 32],
    signature: Vec<u8>,
}

impl View for Operation {
    type V = OperationView;

    closed spec fn view(&self) -> OperationView {
        OperationView {
            device_id: self.device_id@,
            agent_id: self.agent_id@,
            vault_name: self.vault_name@,
            device_clock: self.device_clock,
            vector_clock: self.vector_clock@,
            timestamp: self.timestamp,
            operation_type: self.operation_type@,
            value_key: self.value_key@,
            value_hash: self.value_hash@,
            vault_digest: self.vault_digest@,
            prev_op_hash: self.prev_op_hash@,
            op_hash: self.op_hash@,
            op_iter_hash: self.op_iter_hash@,
            signature: self.signature@,
        }
    }
}

/// The bytes an operation's digest is taken over: device and agent ids, the
/// device counter and the time (64-bit LE), the operation type's UTF-8 bytes,
/// the object key, the object digest, the vault digest, the previous
/// operation's digest, then the clock's counters in key order.
pub open spec fn op_hash_input(o: OperationView) -> Seq<u8> {
    o.device_id + o.agent_id + spec_u64_to_le_bytes(o.device_clock) + spec_u64_to_le_bytes(o.timestamp) + encode_utf8(
        o.operation_type,
    ) + o.value_key + o.value_hash + o.vault_digest + o.prev_op_hash + clock_values_bytes(o.vector_clock)
}

/// The digest an operation with these contents carries.
pub open spec fn op_digest(o: OperationView) -> Seq<u8> {
    sha256(op_hash_input(o))
}

/// The chained digest: the previous operation's digest and this one's, hashed together.
pub open spec fn op_chain_digest(prev_op_hash: Seq<u8>, op_hash: Seq<u8>) -> Seq<u8> {
    sha256(prev_op_hash + op_hash)
}

/// An operation whose digests are those of its contents and whose signature
/// is the signature under `device_key` of its chained digest.
pub open spec fn op_sealed(o: OperationView, device_key: Seq<u8>) -> bool {
    &&& o.op_hash == op_digest(o)
    &&& o.op_iter_hash == op_chain_digest(o.prev_op_hash, o.op_hash)
    &&& o.signature == ed25519_signature(device_key, o.op_iter_hash)
}

/// An operation whose record can be written: its byte strings and its clock
/// each fit a 32-bit length.
pub open spec fn op_fits(o: OperationView) -> bool {
    &&& encode_utf8(o.vault_name).len() <= u32::MAX
    &&& o.vector_clock.len() <= u32::MAX
    &&& encode_utf8(o.operation_type).len() <= u32::MAX
    &&& o.value_key.len() <= u32::MAX
    &&& o.signature.len() <= u32::MAX
}

/// An operation whose fixed-size fields have their sizes and whose clock is in key order.
pub open spec fn op_well_formed(o: OperationView) -> bool {
    &&& o.device_id.len() == 32
    &&& o.agent_id.len() == 32
    &&& o.value_hash.len() == 32
    &&& o.vault_digest.len() == 32
    &&& o.prev_op_hash.len() == 32
    &&& o.op_hash.len() == 32
    &&& o.op_iter_hash.len() == 32
    &&& clock_sorted(o.vector_clock)
}

/// The record of an operation (borsh's layout of its fields, in order).
pub open spec fn op_bytes(o: OperationView) -> Seq<u8> {
    o.device_id + o.agent_id + bytes_field(encode_utf8(o.vault_name)) + spec_u64_to_le_bytes(o.device_clock)
        + clock_bytes(o.vector_clock) + spec_u64_to_le_bytes(o.timestamp) + bytes_field(encode_utf8(o.operation_type))
        + bytes_field(o.value_key) + o.value_hash + o.vault_digest + o.prev_op_hash + o.op_hash + o.op_iter_hash
        + bytes_field(o.signature)
}

/// The length of the record of an operation whose vault name, clock,
/// operation type and object key take these many bytes and entries, signed
/// with an Ed25519 signature.
pub open spec fn op_record_len(name_len: int, clock_len: int, type_len: int, key_len: int) -> int {
    324 + name_len + 40 * clock_len + type_len + key_len
}

/// How long the record of a well-formed, Ed25519-signed operation is.
pub proof fn lemma_op_bytes_len(o: OperationView)
    requires
        op_well_formed(o),
        o.signature.len() == ED25519_SIG_LEN,
    ensures
        op_bytes(o).len() == op_record_len(
            encode_utf8(o.vault_name).len() as int,
            o.vector_clock.len() as int,
            encode_utf8(o.operation_type).len() as int,
            o.value_key.len() as int,
        ),
{
    lemma_auto_spec_u64_to_from_le_bytes();
    lemma_auto_spec_u32_to_from_le_bytes();
    crate::clock::lemma_clock_entries_bytes_len(o.vector_clock);
}

/// The operation a record holds: `None` where a field runs past the end, a
/// string is not UTF-8, or bytes are left over. The clock's entries are set
/// in the order they come, a later entry for a key overriding an earlier one.
pub open spec fn parse_operation(d: Seq<u8>) -> Option<OperationView> {
    if d.len() < 64 {
        None
    } else {
        match field_at(d, 64) {
            None => None,
            Some((nb, p1)) => if !valid_utf8(nb) || p1 + 8 > d.len() {
                None
            } else {
                match clock_at(d, p1 + 8) {
                    None => None,
                    Some((vc, p2)) => if p2 + 8 > d.len() {
                        None
                    } else {
                        match field_at(d, p2 + 8) {
                            None => None,
                            Some((tb, p3)) => if !valid_utf8(tb) {
                                None
                            } else {
                                match field_at(d, p3) {
                                    None => None,
                                    Some((vk, p4)) => if p4 + 160 > d.len() {
                                        None
                                    } else {
                                        match field_at(d, p4 + 160) {
                                            None => None,
                                            Some((sig, p5)) => if p5 != d.len() {
                                                None
                                            } else {
                                                Some(
                                                    OperationView {
                                                        device_id: d.subrange(0, 32),
                                                        agent_id: d.subrange(32, 64),
                                                        vault_name: decode_utf8(nb),
                                                        device_clock: spec_u64_from_le_bytes(d.subrange(p1, p1 + 8)),
                                                        vector_clock: vc,
                                                        timestamp: spec_u64_from_le_bytes(d.subrange(p2, p2 + 8)),
                                                        operation_type: decode_utf8(tb),
                                                        value_key: vk,
                                                        value_hash: d.subrange(p4, p4 + 32),
                                                        vault_digest: d.subrange(p4 + 32, p4 + 64),
                                                        prev_op_hash: d.subrange(p4 + 64, p4 + 96),
                                                        op_hash: d.subrange(p4 + 96, p4 + 128),
                                                        op_iter_hash: d.subrange(p4 + 128, p4 + 160),
                                                        signature: sig,
                                                    },
                                                )
                                            },
                                        }
                                    },
                                }
                            },
                        }
                    },
                }
            },
        }
    }
}

/// A window of a window is a window.
proof fn lemma_window(d: Seq<u8>, off: int, x: Seq<u8>, i: int, j: int)
    requires
        0 <= off,
        off + x.len() <= d.len(),
        d.subrange(off, off + x.len()) == x,
        0 <= i <= j <= x.len(),
    ensures
        d.subrange(off + i, off + j) == x.subrange(i, j),
{
    assert(d.subrange(off + i, off + j) =~= x.subrange(i, j));
}

/// Reading an operation's record gives the operation back.
#[verifier::rlimit(40)]
pub proof fn lemma_operation_roundtrip(o: OperationView)
    requires
        op_fits(o),
        op_well_formed(o),
    ensures
        parse_operation(op_bytes(o)) == Some(o),
{
    broadcast use {encode_utf8_valid_utf8, encode_utf8_decode_utf8};
    lemma_auto_spec_u64_to_from_le_bytes();
    lemma_auto_spec_u32_to_from_le_bytes();
    crate::clock::lemma_clock_entries_bytes_len(o.vector_clock);
    let d = op_bytes(o);
    let nb = encode_utf8(o.vault_name);
    let tb = encode_utf8(o.operation_type);
    let a = o.device_id + o.agent_id + bytes_field(nb) + spec_u64_to_le_bytes(o.device_clock);
    let b = clock_bytes(o.vector_clock) + spec_u64_to_le_bytes(o.timestamp) + bytes_field(tb) + bytes_field(o.value_key);
    let c = o.value_hash + o.vault_digest + o.prev_op_hash + o.op_hash + o.op_iter_hash + bytes_field(o.signature);
    assert(d =~= a + b + c);
    let la: int = a.len() as int;
    let lb: int = b.len() as int;
    let p1: int = la - 8;
    let p2: int = la + 4 + 40 * o.vector_clock.len() as int;
    let p3: int = p2 + 8 + 4 + tb.len() as int;
    let p4: int = la + lb;
    let p5: int = d.len() as int;
    assert(d.subrange(0, la) =~= a);
    assert(d.subrange(la, la + lb) =~= b);
    assert(d.subrange(p4, p4 + c.len()) =~= c);
    // the head: ids, vault name, device counter
    lemma_window(d, 0, a, 0, 32);
    assert(a.subrange(0, 32) =~= o.device_id);
    lemma_window(d, 0, a, 32, 64);
    assert(a.subrange(32, 64) =~= o.agent_id);
    lemma_window(d, 0, a, 64, p1);
    assert(a.subrange(64, p1) =~= bytes_field(nb));
    lemma_field_at_bytes_field(d, 64, nb);
    lemma_window(d, 0, a, p1, la);
    assert(a.subrange(p1, la) =~= spec_u64_to_le_bytes(o.device_clock));
    // the middle: clock, time, operation type, object key
    lemma_window(d, la, b, 0, p2 - la);
    assert(b.subrange(0, p2 - la) =~= clock_bytes(o.vector_clock));
    lemma_clock_at_bytes(d, la, o.vector_clock);
    lemma_window(d, la, b, p2 - la, p2 - la + 8);
    assert(b.subrange(p2 - la, p2 - la + 8) =~= spec_u64_to_le_bytes(o.timestamp));
    lemma_window(d, la, b, p2 - la + 8, p3 - la);
    assert(b.subrange(p2 - la + 8, p3 - la) =~= bytes_field(tb));
    lemma_field_at_bytes_field(d, p2 + 8, tb);
    lemma_window(d, la, b, p3 - la, lb);
    assert(b.subrange(p3 - la, lb) =~= bytes_field(o.value_key));
    lemma_field_at_bytes_field(d, p3, o.value_key);
    // the tail: the five digests and the signature
    lemma_window(d, p4, c, 0, 32);
    assert(c.subrange(0, 32) =~= o.value_hash);
    lemma_window(d, p4, c, 32, 64);
    assert(c.subrange(32, 64) =~= o.vault_digest);
    lemma_window(d, p4, c, 64, 96);
    assert(c.subrange(64, 96) =~= o.prev_op_hash);
    lemma_window(d, p4, c, 96, 128);
    assert(c.subrange(96, 128) =~= o.op_hash);
    lemma_window(d, p4, c, 128, 160);
    assert(c.subrange(128, 160) =~= o.op_iter_hash);
    lemma_window(d, p4, c, 160, c.len() as int);
    assert(c.subrange(160, c.len() as int) =~= bytes_field(o.signature));
    lemma_field_at_bytes_field(d, p4 + 160, o.signature);
}

/// `op` is the operation that follows `prev`, made at time `now` by the
/// device with id `dev` and key `device_key` on the object `obj`: the device's
/// counter goes up by one (from 0 where it had none) and nothing else in the
/// clock changes, the chain links to `prev`'s digest, and the operation is
/// sealed by the device.
pub open spec fn op_follows(
    op: OperationView,
    prev: OperationView,
    dev: [u8; 32],
    device_key: Seq<u8>,
    agent_id: Seq<u8>,
    vault_name: Seq<char>,
    vault_digest: Seq<u8>,
    obj: ObjectView,
    operation_type: Seq<char>,
    now: u64,
) -> bool {
    let count = (clock_get(prev.vector_clock, dev) + 1) as u64;
    &&& op.device_id == dev@
    &&& op.agent_id == agent_id
    &&& op.vault_name == vault_name
    &&& op.device_clock == count
    &&& op.vector_clock == clock_set(prev.vector_clock, dev, count)
    &&& clock_map(op.vector_clock) == clock_map(prev.vector_clock).insert(dev, count)
    &&& op.timestamp == now
    &&& op.operation_type == operation_type
    &&& op.value_key == encode_utf8(obj.key)
    &&& op.value_hash == digest_of(obj)
    &&& op.vault_digest == vault_digest
    &&& op.prev_op_hash == prev.op_hash
    &&& op_sealed(op, device_key)
    &&& op.signature.len() == ED25519_SIG_LEN
    &&& op_well_formed(op)
}

impl Operation {
    /// The operation that follows `prev_op` in `vault`'s log, made now by
    /// `device` on the object `obj` (see `new_at`).
    pub fn new(vault: &Vault, obj: &VaultObject, operation_type: &str, prev_op: &Operation, device: &Device) -> (r: Result<
        Self,
        VartaError,
    >)
        ensures
            r is Err <==> clock_get(prev_op@.vector_clock, device.spec_id()) == u64::MAX,
            r matches Err(e) ==> e is CounterOverflow,
            r matches Ok(op) ==> op_follows(
                op@,
                prev_op@,
                device.spec_id(),
                device.spec_key(),
                vault.spec_agent_id(),
                vault.spec_name(),
                vault.spec_state_hash(),
                obj@,
                operation_type@,
                op@.timestamp,
            ),
    {
        let now = unix_time_now();
        Operation::new_at(
            device,
            vault.get_agent_id(),
            vault.get_name(),
            vault.state_hash(),
            obj,
            operation_type,
            prev_op,
            now,
        )
    }

    /// The record of this operation; fails when a byte string or the clock is
    /// longer than a 32-bit length can say.
    pub fn to_bytes(&self) -> (r: Result<Vec<u8>, VartaError>)
        ensures
            r is Ok <==> op_fits(self@),
            r matches Ok(b) ==> b@ == op_bytes(self@),
            r matches Err(e) ==> e is RecordTooLarge,
    {
        let mut out: Vec<u8> = Vec::new();
        push_slice(&mut out, &self.device_id);
        push_slice(&mut out, &self.agent_id);
        match push_bytes_field(&mut out, self.vault_name.as_str().as_bytes()) {
            Ok(()) => {},
            Err(e) => return Err(e),
        }
        push_u64_le(&mut out, self.device_clock);
        match self.vector_clock.push_record(&mut out) {
            Ok(()) => {},
            Err(e) => return Err(e),
        }
        push_u64_le(&mut out, self.timestamp);
        match push_bytes_field(&mut out, self.operation_type.as_str().as_bytes()) {
            Ok(()) => {},
            Err(e) => return Err(e),
        }
        match push_bytes_field(&mut out, self.value_key.as_slice()) {
            Ok(()) => {},
            Err(e) => return Err(e),
        }
        push_slice(&mut out, &self.value_hash);
        push_slice(&mut out, &self.vault_digest);
        push_slice(&mut out, &self.prev_op_hash);
        push_slice(&mut out, &self.op_hash);
        push_slice(&mut out, &self.op_iter_hash);
        match push_bytes_field(&mut out, self.signature.as_slice()) {
            Ok(()) => {},
            Err(e) => return Err(e),
        }
        assert(out@ =~= op_bytes(self@));
        Ok(out)
    }

    /// The operation that `bytes` hold as a record.
    pub fn from_bytes(bytes: &[u8]) -> (r: Result<Self, VartaError>)
        ensures
            r matches Ok(o) ==> parse_operation(bytes@) == Some(o@) && op_well_formed(o@),
            r is Err <==> parse_operation(bytes@) is None,
            r matches Err(e) ==> e is RecordDecodeFailed,
    {
        let blen = bytes.len();
        let (device_id, q0) = match read_array32(bytes, 0) {
            Some(x) => x,
            None => return Err(VartaError::RecordDecodeFailed),
        };
        let (agent_id, q1) = match read_array32(bytes, q0) {
            Some(x) => x,
            None => return Err(VartaError::RecordDecodeFailed),
        };
        let (nb, p1) = match read_bytes_field(bytes, q1) {
            Some(x) => x,
            None => return Err(VartaError::RecordDecodeFailed),
        };
        let vault_name = match string_from_utf8(nb) {
            Some(s) => s,
            None => return Err(VartaError::RecordDecodeFailed),
        };
        let (device_clock, q2) = match read_u64(bytes, p1) {
            Some(x) => x,
            None => return Err(VartaError::RecordDecodeFailed),
        };
        assert(blen == bytes@.len());
        let (vector_clock, p2) = match VectorClock::read_record(bytes, q2) {
            Some(x) => x,
            None => return Err(VartaError::RecordDecodeFailed),
        };
        let (timestamp, q3) = match read_u64(bytes, p2) {
            Some(x) => x,
            None => return Err(VartaError::RecordDecodeFailed),
        };
        let (tb, p3) = match read_bytes_field(bytes, q3) {
            Some(x) => x,
            None => return Err(VartaError::RecordDecodeFailed),
        };
        let operation_type = match string_from_utf8(tb) {
            Some(s) => s,
            None => return Err(VartaError::RecordDecodeFailed),
        };
        let (value_key, p4) = match read_bytes_field(bytes, p3) {
            Some(x) => x,
            None => return Err(VartaError::RecordDecodeFailed),
        };
        let (value_hash, q5) = match read_array32(bytes, p4) {
            Some(x) => x,
            None => return Err(VartaError::RecordDecodeFailed),
        };
        let (vault_digest, q6) = match read_array32(bytes, q5) {
            Some(x) => x,
            None => return Err(VartaError::RecordDecodeFailed),
        };
        let (prev_op_hash, q7) = match read_array32(bytes, q6) {
            Some(x) => x,
            None => return Err(VartaError::RecordDecodeFailed),
        };
        let (op_hash, q8) = match read_array32(bytes, q7) {
            Some(x) => x,
            None => return Err(VartaError::RecordDecodeFailed),
        };
        let (op_iter_hash, q9) = match read_array32(bytes, q8) {
            Some(x) => x,
            None => return Err(VartaError::RecordDecodeFailed),
        };
        let (signature, p5) = match read_bytes_field(bytes, q9) {
            Some(x) => x,
            None => return Err(VartaError::RecordDecodeFailed),
        };
        if p5 != bytes.len() {
            return Err(VartaError::RecordDecodeFailed);
        }
        let op = Operation {
            device_id,
            agent_id,
            vault_name,
            device_clock,
            vector_clock,
            timestamp,
            operation_type,
            value_key,
            value_hash,
            vault_digest,
            prev_op_hash,
            op_hash,
            op_iter_hash,
            signature,
        };
        assert(parse_operation(bytes@) == Some(op@)) by {
            let o = parse_operation(bytes@)->0;
            assert(o.device_id =~= op@.device_id);
            assert(o.agent_id =~= op@.agent_id);
            assert(o.value_hash =~= op@.value_hash);
            assert(o.vault_digest =~= op@.vault_digest);
            assert(o.prev_op_hash =~= op@.prev_op_hash);
            assert(o.op_hash =~= op@.op_hash);
            assert(o.op_iter_hash =~= op@.op_iter_hash);
        }
        Ok(op)
    }

    /// Sets the operation's digest to the digest of its contents.
    pub fn hash(&mut self)
        ensures
            final(self)@ == (OperationView { op_hash: op_digest(old(self)@), ..old(self)@ }),
    {
        let mut buf: Vec<u8> = Vec::new();
        push_slice(&mut buf, &self.device_id);
        push_slice(&mut buf, &self.agent_id);
        push_u64_le(&mut buf, self.device_clock);
        push_u64_le(&mut buf, self.timestamp);
        push_slice(&mut buf, self.operation_type.as_str().as_bytes());
        push_slice(&mut buf, self.value_key.as_slice());
        push_slice(&mut buf, &self.value_hash);
        push_slice(&mut buf, &self.vault_digest);
        push_slice(&mut buf, &self.prev_op_hash);
        self.vector_clock.push_values(&mut buf);
        assert(buf@ =~= op_hash_input(self@));
        self.op_hash = sha256_digest(buf.as_slice());
    }

    /// Sets the chained digest: the previous operation's digest and this
    /// one's, hashed together.
    pub fn hash_iter(&mut self)
        ensures
            final(self)@ == (OperationView {
                op_iter_hash: op_chain_digest(old(self)@.prev_op_hash, old(self)@.op_hash),
                ..old(self)@
            }),
    {
        let mut buf: Vec<u8> = Vec::new();
        push_slice(&mut buf, &self.prev_op_hash);
        push_slice(&mut buf, &self.op_hash);
        self.op_iter_hash = sha256_digest(buf.as_slice());
    }

    /// Signs the chained digest with the device key.
    pub fn sign(&mut self, device: &Device)
        ensures
            final(self)@ == (OperationView {
                signature: ed25519_signature(device.spec_key(), old(self)@.op_iter_hash),
                ..old(self)@
            }),
            final(self)@.signature.len() == ED25519_SIG_LEN,
    {
        let signature = device.sign(&self.op_iter_hash);
        let mut v: Vec<u8> = Vec::new();
        push_slice(&mut v, &signature);
        self.signature = v;
    }

    /// Computes both digests and the signature, in that order.
    fn seal(&mut self, device: &Device)
        ensures
            op_sealed(final(self)@, device.spec_key()),
            final(self)@.signature.len() == ED25519_SIG_LEN,
            final(self)@ == (OperationView {
                op_hash: final(self)@.op_hash,
                op_iter_hash: final(self)@.op_iter_hash,
                signature: final(self)@.signature,
                ..old(self)@
            }),
    {
        self.hash();
        self.hash_iter();
        self.sign(device);
    }

    /// The first operation of a vault's log, made by `device` at time `now`:
    /// counter 0, an empty clock, no object, all digests of the chain zero
    /// before sealing.
    pub fn initial_at(agent_id: [u8; 32], vault_name: &str, device: &Device, now: u64) -> (op: Self)
        ensures
            op@.device_id == device_id_of(device.spec_key()),
            op@.agent_id == agent_id@,
            op@.vault_name == vault_name@,
            op@.device_clock == 0,
            op@.vector_clock == Seq::<ClockEntry>::empty(),
            op@.timestamp == now,
            op@.operation_type == OP_INITIAL@,
            op@.value_key == Seq::<u8>::empty(),
            op@.value_hash == Seq::new(32, |i: int| 0u8),
            op@.vault_digest == Seq::new(32, |i: int| 0u8),
            op@.prev_op_hash == Seq::new(32, |i: int| 0u8),
            op_sealed(op@, device.spec_key()),
            op@.signature.len() == ED25519_SIG_LEN,
            op_well_formed(op@),
    {
        let device_id = device.get_id();
        let mut op = Operation {
            device_id,
            agent_id,
            vault_name: vault_name.to_string(),
            device_clock: 0,
            vector_clock: VectorClock::new(),
            timestamp: now,
            operation_type: OP_INITIAL.to_string(),
            value_key: Vec::new(),
            value_hash: [0u8; 32],
            vault_digest: [0u8; 32],
            prev_op_hash: [0u8; 32],
            op_hash: [0u8; 32],
            op_iter_hash: [0u8; 32],
            signature: Vec::new(),
        };
        op.seal(device);
        op
    }

    /// The first operation of a vault's log, stamped with the current time.
    pub fn initial(agent_id: [u8; 32], vault_name: &str, device: &Device) -> (op: Self)
        ensures
            op@.device_id == device_id_of(device.spec_key()),
            op@.agent_id == agent_id@,
            op@.vault_name == vault_name@,
            op@.device_clock == 0,
            op@.vector_clock == Seq::<ClockEntry>::empty(),
            op@.operation_type == OP_INITIAL@,
            op@.value_key == Seq::<u8>::empty(),
            op@.prev_op_hash == Seq::new(32, |i: int| 0u8),
            op_sealed(op@, device.spec_key()),
            op@.signature.len() == ED25519_SIG_LEN,
            op_well_formed(op@),
    {
        Operation::initial_at(agent_id, vault_name, device, unix_time_now())
    }

    /// The operation that follows `prev_op`, made by `device` at time `now` on
    /// the object `obj`: the device's counter in the clock goes up by one (from
    /// 0 where it had none), and the chain links to `prev_op`'s digest. Fails
    /// when the counter is already at its largest value.
    pub fn new_at(
        device: &Device,
        agent_id: [u8; 32],
        vault_name: &str,
        vault_digest: [u8; 32],
        obj: &VaultObject,
        operation_type: &str,
        prev_op: &Operation,
        now: u64,
    ) -> (r: Result<Self, VartaError>)
        ensures
            r is Err <==> clock_get(prev_op@.vector_clock, device.spec_id()) == u64::MAX,
            r matches Err(e) ==> e is CounterOverflow,
            r matches Ok(op) ==> op_follows(
                op@,
                prev_op@,
                device.spec_id(),
                device.spec_key(),
                agent_id@,
                vault_name@,
                vault_digest@,
                obj@,
                operation_type@,
                now,
            ),
    {
        prev_op.vector_clock.check_sorted();
        let device_id = device.get_id();
        let mut vector_clock = prev_op.vector_clock.duplicate();
        let current = vector_clock.counter(&device_id);
        if current == u64::MAX {
            return Err(VartaError::CounterOverflow);
        }
        let count = current + 1;
        vector_clock.set(device_id, count);
        proof {
            lemma_clock_set_map(prev_op@.vector_clock, device_id, count);
            lemma_clock_set_sorted(prev_op@.vector_clock, device_id, count);
        }
        let mut value_key: Vec<u8> = Vec::new();
        push_slice(&mut value_key, obj.key().as_bytes());
        let mut op = Operation {
            device_id,
            agent_id,
            vault_name: vault_name.to_string(),
            device_clock: count,
            vector_clock,
            timestamp: now,
            operation_type: operation_type.to_string(),
            value_key,
            value_hash: obj.hash(),
            vault_digest,
            prev_op_hash: prev_op.op_hash,
            op_hash: [0u8; 32],
            op_iter_hash: [0u8; 32],
            signature: Vec::new(),
        };
        op.seal(device);
        Ok(op)
    }

    /// The operation's digest.
    pub fn op_hash(&self) -> (h: [u8; 32])
        ensures
            h@ == self@.op_hash,
    {
        self.op_hash
    }

    /// The chained digest.
    pub fn op_iter_hash(&self) -> (h: [u8; 32])
        ensures
            h@ == self@.op_iter_hash,
    {
        self.op_iter_hash
    }

    /// The device counter.
    pub fn device_clock(&self) -> (c: u64)
        ensures
            c == self@.device_clock,
    {
        self.device_clock
    }
}

} // verus!
