//! CRC-32 (IEEE 802.3, reflected polynomial 0xEDB88320), as used to protect
//! migration frame payloads.

use vstd::prelude::*;

verus! {

/// One bit step of the reflected CRC-32 register.
pub open spec fn crc_bit(s: u32) -> u32 {
    if s & 1 == 1 { (s >> 1u32) ^ 0xEDB8_8320 } else { s >> 1u32 }
}

/// `n` bit steps.
pub open spec fn crc_bits(s: u32, n: nat) -> u32
    decreases n,
{
    if n == 0 { s } else { crc_bit(crc_bits(s, (n - 1) as nat)) }
}

/// The register after absorbing byte `b`.
pub open spec fn crc_byte(s: u32, b: u8) -> u32 {
    crc_bits(s ^ (b as u32), 8)
}

/// The register after absorbing `data`, starting from register `s`.
pub open spec fn crc_fold(s: u32, data: Seq<u8>) -> u32
    decreases data.len(),
{
    if data.len() == 0 { s } else { crc_byte(crc_fold(s, data.drop_last()), data.last()) }
}

/// CRC-32 of `data` continuing from a previous CRC value `crc` (0 for a fresh CRC).
pub open spec fn crc32_spec(crc: u32, data: Seq<u8>) -> u32 {
    !crc_fold(!crc, data)
}

fn byte_step(s: u32, b: u8) -> (r: u32)
    ensures
        r == crc_byte(s, b),
{
    let mut x = s ^ (b as u32);
    let mut k: u32 = 0;
    while k < 8
        invariant
            k <= 8,
            x == crc_bits(s ^ (b as u32), k as nat),
        decreases 8 - k,
    {
        x = if x & 1 == 1 { (x >> 1u32) ^ 0xEDB8_8320u32 } else { x >> 1u32 };
        k = k + 1;
    }
    x
}

/// Continue a CRC-32 over `data`.
pub fn crc32_update(crc: u32, data: &[u8]) -> (r: u32)
    ensures
        r == crc32_spec(crc, data@),
{
    let mut s = !crc;
    let mut i: usize = 0;
    while i < data.len()
        invariant
            i <= data@.len(),
            s == crc_fold(!crc, data@.take(i as int)),
        decreases data@.len() - i,
    {
        proof { assert(data@.take(i + 1).drop_last() =~= data@.take(i as int)); }
        s = byte_step(s, data[i]);
        i = i + 1;
    }
    proof { assert(data@.take(data@.len() as int) =~= data@); }
    !s
}

/// CRC-32 of `data`.
pub fn crc32(data: &[u8]) -> (r: u32)
    ensures
        r == crc32_spec(0, data@),
{
    crc32_update(0, data)
}

} // verus!
