//! HPET discovery from its ACPI table and TSC calibration against it.

use vstd::prelude::*;
use crate::util::bytes::le32_value;

verus! {

/// Where the HPET is and how fast it ticks.
#[derive(Clone, Copy, Debug)]
pub struct HpetInfo {
    pub base_phys: u64,
    /// Femtoseconds per tick.
    pub period_fs: u32,
}

/// Offsets of the HPET registers.
pub const HPET_GENERAL_CAP_ID: usize = 0x000;
pub const HPET_GENERAL_CONFIG: usize = 0x010;
pub const HPET_MAIN_COUNTER: usize = 0x0F0;

/// Offset of the base address structure in the HPET table, and of its address field.
pub const HPET_GAS_OFF: usize = 40;
pub const HPET_ADDR_OFF: usize = 44;
/// Length of the HPET table fields read here.
pub const HPET_TABLE_MIN: usize = 52;

/// The 64-bit little-endian value at `off` in `b`.
pub open spec fn le64_at(b: Seq<u8>, off: int) -> u64 {
    (le32_value(b.subrange(off, off + 4)) as u64) | ((le32_value(b.subrange(off + 4, off + 8)) as u64) << 32u64)
}

/// HPET register base from the ACPI HPET table `tbl`: the base address
/// structure must be in system memory (space 0) with a non-zero address.
pub fn hpet_base_from_table(tbl: &[u8]) -> (r: Option<u64>)
    requires
        tbl@.len() >= HPET_TABLE_MIN,
    ensures
        r == if tbl@[HPET_GAS_OFF as int] != 0 || le64_at(tbl@, HPET_ADDR_OFF as int) == 0 {
            None
        } else {
            Some(le64_at(tbl@, HPET_ADDR_OFF as int))
        },
{
    if tbl[HPET_GAS_OFF] != 0 {
        return None;
    }
    let lo = (tbl[44] as u32) | ((tbl[45] as u32) << 8u32) | ((tbl[46] as u32) << 16u32) | ((tbl[47] as u32) << 24u32);
    let hi = (tbl[48] as u32) | ((tbl[49] as u32) << 8u32) | ((tbl[50] as u32) << 16u32) | ((tbl[51] as u32) << 24u32);
    let addr = (lo as u64) | ((hi as u64) << 32u64);
    assert(lo == le32_value(tbl@.subrange(44, 48)));
    assert(hi == le32_value(tbl@.subrange(48, 52)));
    if addr == 0 { None } else { Some(addr) }
}

/// HPET description from its base and its capabilities register `cap`, whose
/// upper half is the tick period; `None` when the period is zero.
pub fn locate_hpet(base_phys: u64, cap: u64) -> (r: Option<HpetInfo>)
    ensures
        r == if cap >> 32u64 == 0 {
            None
        } else {
            Some(HpetInfo { base_phys, period_fs: (cap >> 32u64) as u32 })
        },
{
    assert(cap >> 32u64 <= 0xFFFF_FFFF) by (bit_vector);
    let period_fs = (cap >> 32u64) as u32;
    if period_fs == 0 { None } else { Some(HpetInfo { base_phys, period_fs }) }
}

/// General configuration with the counter enable bit (bit 0) set.
pub fn enable_hpet_counter(prev_cfg: u64) -> (r: u64)
    ensures
        r == prev_cfg | 1,
{
    prev_cfg | 1
}

/// Femtoseconds in a second.
pub const FS_PER_SEC: u64 = 1_000_000_000_000_000;

/// HPET frequency in Hz for a tick period in femtoseconds; 0 for a zero period.
pub fn hpet_hz_from_period(period_fs: u32) -> (hz: u64)
    ensures
        hz == if period_fs == 0 { 0 } else { FS_PER_SEC / period_fs as u64 },
{
    if period_fs == 0 {
        return 0;
    }
    FS_PER_SEC / (period_fs as u64)
}

/// TSC frequency from a sampling window against the HPET: TSC ticks
/// `tsc1 - tsc0` over HPET ticks `h1 - h0` (both wrapping) at the HPET's
/// frequency, the 128-bit quotient truncated to 64 bits. `None` when the
/// period or the HPET frequency is zero, or no HPET tick passed.
pub fn calibrate_tsc_via_hpet(info: HpetInfo, tsc0: u64, tsc1: u64, h0: u64, h1: u64) -> (r: Option<u64>)
    ensures
        ({
            let hz = if info.period_fs == 0 { 0 } else { FS_PER_SEC / info.period_fs as u64 };
            let dh = vstd::wrapping::u64_specs::wrapping_sub(h1, h0);
            let dt = vstd::wrapping::u64_specs::wrapping_sub(tsc1, tsc0);
            r == if info.period_fs == 0 || hz == 0 || dh == 0 {
                None
            } else {
                Some(((dt as int * hz as int / dh as int) % 0x1_0000_0000_0000_0000) as u64)
            }
        }),
{
    if info.period_fs == 0 {
        return None;
    }
    let hpet_hz = hpet_hz_from_period(info.period_fs);
    if hpet_hz == 0 {
        return None;
    }
    let dh = h1.wrapping_sub(h0);
    let dt = tsc1.wrapping_sub(tsc0);
    if dh == 0 {
        return None;
    }
    assert((dt as int) * (hpet_hz as int) <= 0xFFFF_FFFF_FFFF_FFFF_FFFF_FFFF_FFFF_FFFFint) by (nonlinear_arith)
        requires 0 <= dt <= 0xFFFF_FFFF_FFFF_FFFFint, 0 <= hpet_hz <= 0xFFFF_FFFF_FFFF_FFFFint;
    let prod: u128 = (dt as u128) * (hpet_hz as u128);
    assert(prod == dt as int * hpet_hz as int);
    let q: u128 = prod / (dh as u128);
    let r = (q % 0x1_0000_0000_0000_0000u128) as u64;
    Some(r)
}

/// Whether the HPET, read `h0` at the start and `now` at present, has
/// advanced by at least `ticks` (wrapping).
pub fn hpet_sample_done(h0: u64, now: u64, ticks: u64) -> (b: bool)
    ensures
        b == (vstd::wrapping::u64_specs::wrapping_sub(now, h0) >= ticks),
{
    now.wrapping_sub(h0) >= ticks
}

} // verus!
