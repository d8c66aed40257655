//! The field layout of the object and operation records (borsh's layout):
//! integers little-endian, fixed-size arrays as they are, and byte strings
//! and UTF-8 strings as a 32-bit little-endian length followed by the bytes.
use vstd::prelude::*;
use vstd::bytes::*;
use crate::bytes::{push_slice, push_u32_le, push_u64_le, read_u32_le, read_u64_le, fill_from};
use crate::error::VartaError;

verus! {

broadcast use vstd::seq_lib::group_seq_properties;

/// A byte string as a record field: its length (LE, 32 bits), then its bytes.
pub open spec fn bytes_field(v: Seq<u8>) -> Seq<u8> {
    spec_u32_to_le_bytes(v.len() as u32) + v
}

/// Appends `v` as a length-prefixed field. Fails, appending nothing, when `v`
/// is longer than a 32-bit length can say.
pub fn push_bytes_field(out: &mut Vec<u8>, v: &[u8]) -> (r: Result<(), VartaError>)
    ensures
        r is Ok <==> v@.len() <= u32::MAX,
        r is Ok ==> final(out)@ == old(out)@ + bytes_field(v@),
        !(r is Ok) ==> (r matches Err(VartaError::RecordTooLarge) && final(out)@ == old(out)@),
{
    if v.len() > u32::MAX as usize {
        return Err(VartaError::RecordTooLarge);
    }
    push_u32_le(out, v.len() as u32);
    push_slice(out, v);
    Ok(())
}

/// The byte at `pos`, and the position after it.
pub fn read_u8(data: &[u8], pos: usize) -> (r: Option<(u8, usize)>)
    ensures
        pos < data@.len() ==> r == Some((data@[pos as int], (pos + 1) as usize)),
        pos >= data@.len() ==> r is None,
{
    if pos < data.len() {
        Some((data[pos], pos + 1))
    } else {
        None
    }
}

/// The little-endian `u64` at `pos`, and the position after it.
pub fn read_u64(data: &[u8], pos: usize) -> (r: Option<(u64, usize)>)
    ensures
        pos + 8 <= data@.len() ==> r == Some((spec_u64_from_le_bytes(data@.subrange(pos as int, pos + 8)), (pos + 8) as usize)),
        pos + 8 > data@.len() ==> r is None,
{
    if pos <= data.len() && 8 <= data.len() - pos {
        Some((read_u64_le(data, pos), pos + 8))
    } else {
        None
    }
}

/// The 32 bytes at `pos`, and the position after them.
pub fn read_array32(data: &[u8], pos: usize) -> (r: Option<([u8; 32], usize)>)
    ensures
        pos + 32 <= data@.len() ==> (r matches Some((a, np)) && a@ == data@.subrange(pos as int, pos + 32) && np == pos + 32),
        pos + 32 > data@.len() ==> r is None,
{
    if pos <= data.len() && 32 <= data.len() - pos {
        let mut a = [0u8; 32];
        fill_from(&mut a, data, pos);
        Some((a, pos + 32))
    } else {
        None
    }
}

/// What a length-prefixed field at `pos` holds, and the position after it;
/// `None` where the length or the bytes it announces run past the end.
pub open spec fn field_at(data: Seq<u8>, pos: int) -> Option<(Seq<u8>, int)> {
    if 0 <= pos && pos + 4 <= data.len() {
        let n = spec_u32_from_le_bytes(data.subrange(pos, pos + 4)) as int;
        if pos + 4 + n <= data.len() {
            Some((data.subrange(pos + 4, pos + 4 + n), pos + 4 + n))
        } else {
            None
        }
    } else {
        None
    }
}

/// A field written by `bytes_field` is read back whole by `field_at`.
pub proof fn lemma_field_at_bytes_field(data: Seq<u8>, pos: int, v: Seq<u8>)
    requires
        v.len() <= u32::MAX,
        0 <= pos,
        pos + 4 + v.len() <= data.len(),
        data.subrange(pos, pos + 4 + v.len()) == bytes_field(v),
    ensures
        field_at(data, pos) == Some((v, pos + 4 + v.len())),
{
    lemma_auto_spec_u32_to_from_le_bytes();
    assert(data.subrange(pos, pos + 4) =~= bytes_field(v).subrange(0, 4));
    assert(bytes_field(v).subrange(0, 4) =~= spec_u32_to_le_bytes(v.len() as u32));
    assert(data.subrange(pos + 4, pos + 4 + v.len()) =~= bytes_field(v).subrange(4, 4 + v.len() as int));
    assert(bytes_field(v).subrange(4, 4 + v.len() as int) =~= v);
}

/// The length-prefixed field at `pos`, and the position after it.
pub fn read_bytes_field(data: &[u8], pos: usize) -> (r: Option<(Vec<u8>, usize)>)
    ensures
        r matches Some((v, np)) ==> field_at(data@, pos as int) == Some((v@, np as int)),
        r is None ==> field_at(data@, pos as int) is None,
{
    if !(pos <= data.len() && 4 <= data.len() - pos) {
        return None;
    }
    let n = read_u32_le(data, pos);
    let start = pos + 4;
    if n as usize > data.len() - start {
        return None;
    }
    let mut v: Vec<u8> = Vec::new();
    push_slice(&mut v, &data[start..start + n as usize]);
    Some((v, start + n as usize))
}

} // verus!
