//! Little-endian integers and fixed-size byte fields, as the vault formats lay them out.
use vstd::prelude::*;
use vstd::bytes::*;

verus! {

broadcast use vstd::seq_lib::group_seq_properties;

/// Appends `src` to `out`.
pub fn push_slice(out: &mut Vec<u8>, src: &[u8])
    ensures
        final(out)@ == old(out)@ + src@,
{
    let ghost start = out@;
    let mut i: usize = 0;
    while i < src.len()
        invariant
            i <= src@.len(),
            out@ == start + src@.subrange(0, i as int),
        decreases src@.len() - i,
    {
        out.push(src[i]);
        i = i + 1;
        assert(out@ =~= start + src@.subrange(0, i as int));
    }
    assert(src@.subrange(0, src@.len() as int) =~= src@);
}

/// Appends the little-endian bytes of `x`.
pub fn push_u16_le(out: &mut Vec<u8>, x: u16)
    ensures
        final(out)@ == old(out)@ + spec_u16_to_le_bytes(x),
{
    let b = u16_to_le_bytes(x);
    push_slice(out, b.as_slice());
}

/// Appends the little-endian bytes of `x`.
pub fn push_u32_le(out: &mut Vec<u8>, x: u32)
    ensures
        final(out)@ == old(out)@ + spec_u32_to_le_bytes(x),
{
    let b = u32_to_le_bytes(x);
    push_slice(out, b.as_slice());
}

/// Appends the little-endian bytes of `x`.
pub fn push_u64_le(out: &mut Vec<u8>, x: u64)
    ensures
        final(out)@ == old(out)@ + spec_u64_to_le_bytes(x),
{
    let b = u64_to_le_bytes(x);
    push_slice(out, b.as_slice());
}

/// Reads the little-endian `u16` at `off`.
pub fn read_u16_le(data: &[u8], off: usize) -> (x: u16)
    requires
        off + 2 <= data@.len(),
    ensures
        x == spec_u16_from_le_bytes(data@.subrange(off as int, off + 2)),
{
    let _len = data.len();
    u16_from_le_bytes(&data[off..off + 2])
}

/// Reads the little-endian `u32` at `off`.
pub fn read_u32_le(data: &[u8], off: usize) -> (x: u32)
    requires
        off + 4 <= data@.len(),
    ensures
        x == spec_u32_from_le_bytes(data@.subrange(off as int, off + 4)),
{
    let _len = data.len();
    u32_from_le_bytes(&data[off..off + 4])
}

/// Reads the little-endian `u64` at `off`.
pub fn read_u64_le(data: &[u8], off: usize) -> (x: u64)
    requires
        off + 8 <= data@.len(),
    ensures
        x == spec_u64_from_le_bytes(data@.subrange(off as int, off + 8)),
{
    let _len = data.len();
    u64_from_le_bytes(&data[off..off + 8])
}

/// Overwrites the whole array `a` with the `N` bytes of `data` that start at `off`.
pub fn fill_from<const N: usize>(a: &mut [u8; N], data: &[u8], off: usize)
    requires
        off + N <= data@.len(),
    ensures
        final(a)@ == data@.subrange(off as int, off + N),
{
    let len = data.len();
    let mut i: usize = 0;
    while i < N
        invariant
            i <= N,
            len == data@.len(),
            off + N <= data@.len(),
            a@.len() == N,
            forall|j: int| 0 <= j < i ==> a@[j] == data@[off + j],
        decreases N - i,
    {
        a[i] = data[off + i];
        i = i + 1;
    }
    assert(a@ =~= data@.subrange(off as int, off + N));
}

/// Compares two 32-byte arrays byte by byte.
pub fn arrays32_equal(a: &[u8; 32], b: &[u8; 32]) -> (r: bool)
    ensures
        r == (a@ == b@),
        r == (*a == *b),
{
    let mut i: usize = 0;
    while i < 32
        invariant
            i <= 32,
            forall|j: int| 0 <= j < i ==> a@[j] == b@[j],
        decreases 32 - i,
    {
        if a[i] != b[i] {
            return false;
        }
        i = i + 1;
    }
    assert(*a =~= *b);
    assert(a@ =~= b@);
    true
}

/// A vector of `n` copies of `byte`.
pub fn filled(byte: u8, n: usize) -> (v: Vec<u8>)
    ensures
        v@ == Seq::new(n as nat, |i: int| byte),
{
    let mut v: Vec<u8> = Vec::new();
    let mut i: usize = 0;
    while i < n
        invariant
            i <= n,
            v@ == Seq::new(i as nat, |j: int| byte),
        decreases n - i,
    {
        v.push(byte);
        i = i + 1;
        assert(v@ =~= Seq::new(i as nat, |j: int| byte));
    }
    v
}

} // verus!
