//! Local APIC register values and the INIT/SIPI sequences for AP bring-up.
//!
//! The register accesses themselves are performed by the caller: these
//! functions compute the values read back and the ordered list of register
//! writes each operation consists of.

use vstd::prelude::*;
use crate::arch::x86::cpuid::{CpuidResult, bit_set, has_x2apic};

verus! {

/// Local APIC ID register offset.
pub const LAPIC_ID: usize = 0x020;
/// End-of-interrupt register offset.
pub const LAPIC_EOI: usize = 0x0B0;
/// Spurious interrupt vector register offset.
pub const LAPIC_SVR: usize = 0x0F0;
/// Interrupt command register, low half.
pub const LAPIC_ICR_LOW: usize = 0x300;
/// Interrupt command register, high half (destination).
pub const LAPIC_ICR_HIGH: usize = 0x310;
/// IA32_APIC_BASE MSR.
pub const MSR_APIC_BASE: u32 = 0x1B;
/// x2APIC interrupt command register MSR.
pub const MSR_X2APIC_ICR: u32 = 0x830;
/// ICR low for INIT: delivery mode INIT (5 << 8) with level assert (bit 14).
pub const ICR_INIT: u32 = 0x4500;
/// ICR low for STARTUP: delivery mode 6 << 8; the vector goes in bits 0..7.
pub const ICR_STARTUP: u32 = 0x600;

/// One register write of an IPI sequence.
#[derive(Clone, Copy, Debug)]
pub enum RegWrite {
    /// 32-bit store to the memory-mapped register at `addr`.
    Mmio { addr: usize, value32: u32 },
    /// Write of model-specific register `index`.
    Msr { index: u32, value64: u64 },
}

/// The xAPIC writes that send an IPI with ICR low `low` to `apic_id`:
/// destination into ICR high first, then ICR low, which triggers delivery.
pub open spec fn xapic_ipi(lapic_base: usize, apic_id: u32, low: u32) -> Seq<RegWrite> {
    seq![
        RegWrite::Mmio { addr: (lapic_base + LAPIC_ICR_HIGH) as usize, value32: apic_id << 24u32 },
        RegWrite::Mmio { addr: (lapic_base + LAPIC_ICR_LOW) as usize, value32: low },
    ]
}

/// The x2APIC write that sends an IPI: destination in bits 32..63 of the ICR MSR.
pub open spec fn x2apic_ipi(apic_id: u32, low: u32) -> Seq<RegWrite> {
    seq![RegWrite::Msr { index: MSR_X2APIC_ICR, value64: ((apic_id as u64) << 32u64) | (low as u64) }]
}

/// An IPI through the xAPIC is two stores: the destination APIC ID into bits
/// 24..31 of ICR high (offset 0x310) first, then the command into ICR low
/// (offset 0x300), whose write sends it. Through the x2APIC it is one write
/// of the ICR MSR (0x830) with the destination in bits 32..63 and the command
/// below.
pub proof fn law_ipi_writes(lapic_base: usize, apic_id: u32, low: u32)
    requires
        lapic_base + 0x310 <= usize::MAX,
    ensures
        xapic_ipi(lapic_base, apic_id, low).len() == 2,
        xapic_ipi(lapic_base, apic_id, low)[0] == (RegWrite::Mmio { addr: (lapic_base + 0x310) as usize, value32: apic_id << 24u32 }),
        xapic_ipi(lapic_base, apic_id, low)[1] == (RegWrite::Mmio { addr: (lapic_base + 0x300) as usize, value32: low }),
        x2apic_ipi(apic_id, low).len() == 1,
        x2apic_ipi(apic_id, low)[0] == (RegWrite::Msr { index: 0x830, value64: ((apic_id as u64) << 32u64) | (low as u64) }),
{
}

fn send_ipi(lapic_base: usize, apic_id: u32, icr_low: u32) -> (w: Vec<RegWrite>)
    requires
        lapic_base + LAPIC_ICR_HIGH <= usize::MAX,
    ensures
        w@ == xapic_ipi(lapic_base, apic_id, icr_low),
{
    let w = vec![
        RegWrite::Mmio { addr: lapic_base + LAPIC_ICR_HIGH, value32: apic_id << 24u32 },
        RegWrite::Mmio { addr: lapic_base + LAPIC_ICR_LOW, value32: icr_low },
    ];
    assert(w@ =~= xapic_ipi(lapic_base, apic_id, icr_low));
    w
}

/// INIT IPI to `apic_id` through the xAPIC at `lapic_base`.
pub fn send_init(lapic_base: usize, apic_id: u32) -> (w: Vec<RegWrite>)
    requires
        lapic_base + LAPIC_ICR_HIGH <= usize::MAX,
    ensures
        w@ == xapic_ipi(lapic_base, apic_id, ICR_INIT),
{
    send_ipi(lapic_base, apic_id, ICR_INIT)
}

/// Startup IPI with `vector` (the start page number) to `apic_id` through the xAPIC.
pub fn send_sipi(lapic_base: usize, apic_id: u32, vector: u8) -> (w: Vec<RegWrite>)
    requires
        lapic_base + LAPIC_ICR_HIGH <= usize::MAX,
    ensures
        w@ == xapic_ipi(lapic_base, apic_id, ICR_STARTUP | (vector as u32)),
{
    send_ipi(lapic_base, apic_id, ICR_STARTUP | (vector as u32))
}

/// Whether IA32_APIC_BASE value `apic_base_msr` has x2APIC mode enabled (bit 10).
pub fn is_x2apic_enabled(apic_base_msr: u64) -> (b: bool)
    ensures
        b == (apic_base_msr & 0x400 != 0),
{
    apic_base_msr & 0x400 != 0
}

/// INIT IPI through x2APIC when IA32_APIC_BASE shows it enabled, else through the xAPIC.
pub fn send_init_auto(lapic_base: usize, apic_id: u32, apic_base_msr: u64) -> (w: Vec<RegWrite>)
    requires
        apic_base_msr & 0x400 == 0 ==> lapic_base + LAPIC_ICR_HIGH <= usize::MAX,
    ensures
        w@ == if apic_base_msr & 0x400 != 0 {
            x2apic_ipi(apic_id, ICR_INIT)
        } else {
            xapic_ipi(lapic_base, apic_id, ICR_INIT)
        },
{
    if is_x2apic_enabled(apic_base_msr) {
        let w = vec![RegWrite::Msr { index: MSR_X2APIC_ICR, value64: ((apic_id as u64) << 32u64) | (ICR_INIT as u64) }];
        assert(w@ =~= x2apic_ipi(apic_id, ICR_INIT));
        w
    } else {
        send_init(lapic_base, apic_id)
    }
}

/// Startup IPI through x2APIC when IA32_APIC_BASE shows it enabled, else through the xAPIC.
pub fn send_sipi_auto(lapic_base: usize, apic_id: u32, vector: u8, apic_base_msr: u64) -> (w: Vec<RegWrite>)
    requires
        apic_base_msr & 0x400 == 0 ==> lapic_base + LAPIC_ICR_HIGH <= usize::MAX,
    ensures
        w@ == if apic_base_msr & 0x400 != 0 {
            x2apic_ipi(apic_id, ICR_STARTUP | (vector as u32))
        } else {
            xapic_ipi(lapic_base, apic_id, ICR_STARTUP | (vector as u32))
        },
{
    if is_x2apic_enabled(apic_base_msr) {
        let low = ICR_STARTUP | (vector as u32);
        let w = vec![RegWrite::Msr { index: MSR_X2APIC_ICR, value64: ((apic_id as u64) << 32u64) | (low as u64) }];
        assert(w@ =~= x2apic_ipi(apic_id, low));
        w
    } else {
        send_sipi(lapic_base, apic_id, vector)
    }
}

/// The APIC ID field (bits 24..31) of the local APIC ID register value.
pub fn read_lapic_id(id_reg: u32) -> (r: u32)
    ensures
        r == (id_reg >> 24u32) & 0xFF,
        r < 256,
{
    let r = (id_reg >> 24u32) & 0xFF;
    assert((id_reg >> 24u32) & 0xFF < 256) by (bit_vector);
    r
}

/// New spurious-vector register value from `prev`: software enable (bit 8) set
/// and the vector field replaced by `vector`.
pub fn enable_svr(prev: u32, vector: u8) -> (r: u32)
    ensures
        r == ((prev | 0x100) & 0xFFFF_FF00) | (vector as u32),
        r & 0x100 != 0,
        r & 0xFF == vector,
        r & 0xFFFF_FE00 == prev & 0xFFFF_FE00,
{
    let r = ((prev | 0x100) & 0xFFFF_FF00) | (vector as u32);
    assert(r & 0x100 != 0 && r & 0xFF == vector as u32 && r & 0xFFFF_FE00 == prev & 0xFFFF_FE00) by (bit_vector)
        requires r == ((prev | 0x100) & 0xFFFF_FF00) | (vector as u32), vector < 256;
    r
}

/// Whether ICR low value `icr_low` still shows a send pending (delivery status, bit 12).
pub fn icr_delivery_pending(icr_low: u32) -> (b: bool)
    ensures
        b == bit_set(icr_low, 12),
{
    icr_low & (1u32 << 12u32) != 0
}

/// xAPIC MMIO base from IA32_APIC_BASE: `None` when the APIC is globally
/// disabled (bit 11 clear) or the base field (bits 12..31) is zero.
pub fn apic_base_via_msr(apic_base_msr: u64) -> (r: Option<usize>)
    ensures
        r == if apic_base_msr & 0x800 == 0 || apic_base_msr & 0xFFFF_F000 == 0 {
            None
        } else {
            Some((apic_base_msr & 0xFFFF_F000) as usize)
        },
{
    if apic_base_msr & 0x800 == 0 {
        return None;
    }
    let base = apic_base_msr & 0xFFFF_F000;
    assert(apic_base_msr & 0xFFFF_F000 <= 0xFFFF_F000) by (bit_vector);
    if base == 0 { None } else { Some(base as usize) }
}

/// The IA32_APIC_BASE value that enables x2APIC mode (bits 10 and 11 set), or
/// `None` when CPUID leaf 1 (`leaf1`) reports no x2APIC.
pub fn try_enable_x2apic(leaf1: CpuidResult, apic_base_msr: u64) -> (r: Option<u64>)
    ensures
        r == if bit_set(leaf1.ecx, 21) { Some(apic_base_msr | 0xC00) } else { None },
{
    if !has_x2apic(leaf1) {
        return None;
    }
    Some(apic_base_msr | 0xC00)
}

} // verus!
