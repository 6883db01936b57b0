use byteorder::{ByteOrder, LittleEndian};
use vstd::bytes::{
    spec_u16_from_le_bytes, spec_u32_from_le_bytes, spec_u32_to_le_bytes, spec_u64_from_le_bytes,
};
use vstd::prelude::*;

verus! {

/// The little-endian `u16` stored in the first two bytes of `s`.
pub open spec fn le_u16(s: Seq<u8>) -> u16 {
    spec_u16_from_le_bytes(s.subrange(0, 2))
}

/// The little-endian `u32` stored in the first four bytes of `s`.
pub open spec fn le_u32(s: Seq<u8>) -> u32 {
    spec_u32_from_le_bytes(s.subrange(0, 4))
}

/// The little-endian `u64` stored in the first eight bytes of `s`.
pub open spec fn le_u64(s: Seq<u8>) -> u64 {
    spec_u64_from_le_bytes(s.subrange(0, 8))
}

/// The four little-endian bytes of `n`.
pub open spec fn le_bytes_u32(n: u32) -> Seq<u8> {
    spec_u32_to_le_bytes(n)
}

/// `byteorder::LittleEndian::read_u16`: decodes the first two bytes of
/// `buf` as a little-endian `u16` (it panics on a shorter buffer, which the
/// precondition rules out).
#[verifier::external_body]
pub(crate) fn read_u16_le(buf: &[u8]) -> (res: u16)
    requires
        buf@.len() >= 2,
    ensures
        res == le_u16(buf@),
{
    LittleEndian::read_u16(buf)
}

/// `byteorder::LittleEndian::read_u32`: decodes the first four bytes of
/// `buf` as a little-endian `u32` (it panics on a shorter buffer).
#[verifier::external_body]
pub(crate) fn read_u32_le(buf: &[u8]) -> (res: u32)
    requires
        buf@.len() >= 4,
    ensures
        res == le_u32(buf@),
{
    LittleEndian::read_u32(buf)
}

/// `byteorder::LittleEndian::read_u64`: decodes the first eight bytes of
/// `buf` as a little-endian `u64` (it panics on a shorter buffer).
#[verifier::external_body]
pub(crate) fn read_u64_le(buf: &[u8]) -> (res: u64)
    requires
        buf@.len() >= 8,
    ensures
        res == le_u64(buf@),
{
    LittleEndian::read_u64(buf)
}

/// `byteorder::LittleEndian::write_u32` into a fresh four-byte array: the
/// array holds the little-endian bytes of `n`.
#[verifier::external_body]
pub(crate) fn write_u32_le(n: u32) -> (res: [u8; 4])
    ensures
        res@ == le_bytes_u32(n),
{
    let mut out = [0u8; 4];
    LittleEndian::write_u32(&mut out, n);
    out
}

/// Decoding the little-endian bytes of a value gives the value back, and
/// four bytes are the encoding of what they decode to.
pub proof fn lemma_le_u32_roundtrip(n: u32, s: Seq<u8>)
    ensures
        le_bytes_u32(n).len() == 4,
        le_u32(le_bytes_u32(n)) == n,
        s.len() == 4 ==> le_bytes_u32(le_u32(s)) == s,
{
    vstd::bytes::lemma_auto_spec_u32_to_from_le_bytes();
    assert(le_bytes_u32(n).subrange(0, 4) =~= le_bytes_u32(n));
    if s.len() == 4 {
        assert(s.subrange(0, 4) =~= s);
    }
}


/// A fresh vector holding the bytes of `s`.
pub fn bytes_to_vec(s: &[u8]) -> (res: Vec<u8>)
    ensures
        res@ == s@,
{
    let mut out: Vec<u8> = Vec::new();
    let mut i: usize = 0;
    while i < s.len()
        invariant
            i <= s@.len(),
            out@ == s@.take(i as int),
        decreases s@.len() - i,
    {
        out.push(s[i]);
        i = i + 1;
        assert(out@ =~= s@.take(i as int));
    }
    assert(s@.take(i as int) =~= s@);
    out
}

/// Appends the bytes of `src` to `dst`.
pub fn push_bytes(dst: &mut Vec<u8>, src: &[u8])
    ensures
        final(dst)@ == old(dst)@ + src@,
{
    let ghost start = dst@;
    let mut i: usize = 0;
    while i < src.len()
        invariant
            i <= src@.len(),
            dst@ == start + src@.take(i as int),
        decreases src@.len() - i,
    {
        dst.push(src[i]);
        i = i + 1;
        assert(dst@ =~= start + src@.take(i as int));
    }
    assert(src@.take(i as int) =~= src@);
}

} // verus!
