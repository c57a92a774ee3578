//! Little-endian byte encodings of integers.

use vstd::prelude::*;

verus! {

/// The two little-endian bytes of `v`.
pub open spec fn le16(v: u16) -> Seq<u8> {
    seq![(v & 0xFF) as u8, ((v >> 8u16) & 0xFF) as u8]
}

/// The four little-endian bytes of `v`.
pub open spec fn le32(v: u32) -> Seq<u8> {
    seq![(v & 0xFF) as u8, ((v >> 8u32) & 0xFF) as u8, ((v >> 16u32) & 0xFF) as u8, ((v >> 24u32) & 0xFF) as u8]
}

/// The eight little-endian bytes of `v`.
pub open spec fn le64(v: u64) -> Seq<u8> {
    le32((v & 0xFFFF_FFFF) as u32) + le32((v >> 32u64) as u32)
}

/// Little-endian value of four bytes.
pub open spec fn le32_value(b: Seq<u8>) -> u32 {
    (b[0] as u32) | ((b[1] as u32) << 8u32) | ((b[2] as u32) << 16u32) | ((b[3] as u32) << 24u32)
}

/// Read a little-endian `u32` from the first four bytes of `b`.
pub fn le_u32(b: &[u8]) -> (r: u32)
    requires
        b@.len() >= 4,
    ensures
        r == le32_value(b@),
{
    (b[0] as u32) | ((b[1] as u32) << 8u32) | ((b[2] as u32) << 16u32) | ((b[3] as u32) << 24u32)
}

/// Read a little-endian `u64` from the first eight bytes of `b`.
pub fn le_u64(b: &[u8]) -> (r: u64)
    requires
        b@.len() >= 8,
    ensures
        r == (le32_value(b@) as u64) | ((le32_value(b@.subrange(4, 8)) as u64) << 32u64),
{
    let lo = le_u32(b);
    let hi = (b[4] as u32) | ((b[5] as u32) << 8u32) | ((b[6] as u32) << 16u32) | ((b[7] as u32) << 24u32);
    assert(hi == le32_value(b@.subrange(4, 8)));
    (lo as u64) | ((hi as u64) << 32u64)
}

/// Reading back four encoded bytes gives the value.
pub proof fn lemma_le32_roundtrip(v: u32)
    ensures
        le32_value(le32(v)) == v,
{
    let b0 = (v & 0xFF) as u8;
    let b1 = ((v >> 8u32) & 0xFF) as u8;
    let b2 = ((v >> 16u32) & 0xFF) as u8;
    let b3 = ((v >> 24u32) & 0xFF) as u8;
    assert((b0 as u32) | ((b1 as u32) << 8u32) | ((b2 as u32) << 16u32) | ((b3 as u32) << 24u32) == v) by (bit_vector)
        requires
            b0 == (v & 0xFF) as u8,
            b1 == ((v >> 8u32) & 0xFF) as u8,
            b2 == ((v >> 16u32) & 0xFF) as u8,
            b3 == ((v >> 24u32) & 0xFF) as u8;
}

/// Reading back two encoded bytes gives the value.
pub proof fn lemma_le16_roundtrip(v: u16)
    ensures
        (le16(v)[0] as u16) | ((le16(v)[1] as u16) << 8u16) == v,
{
    let b0 = (v & 0xFF) as u8;
    let b1 = ((v >> 8u16) & 0xFF) as u8;
    assert((b0 as u16) | ((b1 as u16) << 8u16) == v) by (bit_vector)
        requires b0 == (v & 0xFF) as u8, b1 == ((v >> 8u16) & 0xFF) as u8;
}

/// Reading back eight encoded bytes gives the value.
pub proof fn lemma_le64_roundtrip(v: u64)
    ensures
        (le32_value(le64(v)) as u64) | ((le32_value(le64(v).subrange(4, 8)) as u64) << 32u64) == v,
{
    let lo = (v & 0xFFFF_FFFF) as u32;
    let hi = (v >> 32u64) as u32;
    lemma_le32_roundtrip(lo);
    lemma_le32_roundtrip(hi);
    assert(le64(v).subrange(4, 8) =~= le32(hi));
    assert(le64(v).subrange(0, 4) =~= le32(lo));
    assert(le32_value(le64(v)) == le32_value(le32(lo)));
    assert((lo as u64) | ((hi as u64) << 32u64) == v) by (bit_vector)
        requires lo == (v & 0xFFFF_FFFF) as u32, hi == (v >> 32u64) as u32;
}

} // verus!
