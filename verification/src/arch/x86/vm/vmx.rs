//! Intel VMX availability, the fixed-bit adjustment of CR0/CR4, and the
//! checks around VMXON.

use vstd::prelude::*;
use crate::arch::x86::cpuid::{CpuidResult, bit_set, has_vmx};
use crate::util::format::{hex_digits, min_nat, overwrite_prefix, u64_hex};

verus! {

/// IA32_FEATURE_CONTROL MSR.
pub const IA32_FEATURE_CONTROL: u32 = 0x3A;
pub const IA32_VMX_CR0_FIXED0: u32 = 0x486;
pub const IA32_VMX_CR0_FIXED1: u32 = 0x487;
pub const IA32_VMX_CR4_FIXED0: u32 = 0x488;
pub const IA32_VMX_CR4_FIXED1: u32 = 0x489;
/// CR4.VMXE.
pub const CR4_VMXE: u64 = 0x2000;

/// VMX is available when CPUID leaf 1 (`leaf1`) reports it.
pub fn vmx_preflight_available(leaf1: CpuidResult) -> (b: bool)
    ensures
        b == bit_set(leaf1.ecx, 5),
{
    has_vmx(leaf1)
}

/// CR0 and CR4 adjusted to the VMX fixed bits: each fixed-0 MSR value's bits
/// set, then every bit outside the fixed-1 MSR value cleared.
pub fn vmx_adjust_cr0_cr4(cr0: u64, cr4: u64, cr0_fixed0: u64, cr0_fixed1: u64, cr4_fixed0: u64, cr4_fixed1: u64) -> (r: (u64, u64))
    ensures
        r.0 == (cr0 | cr0_fixed0) & cr0_fixed1,
        r.1 == (cr4 | cr4_fixed0) & cr4_fixed1,
        r.0 & !cr0_fixed1 == 0,
        r.0 & (cr0_fixed0 & cr0_fixed1) == cr0_fixed0 & cr0_fixed1,
        r.1 & !cr4_fixed1 == 0,
        r.1 & (cr4_fixed0 & cr4_fixed1) == cr4_fixed0 & cr4_fixed1,
{
    let c0 = (cr0 | cr0_fixed0) & cr0_fixed1;
    let c4 = (cr4 | cr4_fixed0) & cr4_fixed1;
    assert(c0 & !cr0_fixed1 == 0 && c0 & (cr0_fixed0 & cr0_fixed1) == cr0_fixed0 & cr0_fixed1) by (bit_vector)
        requires c0 == (cr0 | cr0_fixed0) & cr0_fixed1;
    assert(c4 & !cr4_fixed1 == 0 && c4 & (cr4_fixed0 & cr4_fixed1) == cr4_fixed0 & cr4_fixed1) by (bit_vector)
        requires c4 == (cr4 | cr4_fixed0) & cr4_fixed1;
    (c0, c4)
}

/// Readiness to enter VMX operation: an error when CPUID leaf 1 (`leaf1`) shows no VMX.
pub fn vmx_try_enable(leaf1: CpuidResult) -> (r: Result<(), &'static str>)
    ensures
        r is Ok <==> bit_set(leaf1.ecx, 5),
        r matches Err(e) ==> e@ == "VMX not available"@,
{
    if !vmx_preflight_available(leaf1) {
        return Err("VMX not available");
    }
    Ok(())
}

/// IA32_FEATURE_CONTROL value `fc` forbids VMXON when it is locked (bit 0)
/// without VMX outside SMX (bit 2).
pub fn feature_control_allows_vmx(fc: u64) -> (r: Result<(), &'static str>)
    ensures
        r is Err <==> (fc & 1 != 0 && fc & 4 == 0),
        r matches Err(e) ==> e@ == "IA32_FEATURE_CONTROL locked without VMX outside SMX"@,
{
    let lock = fc & 1 != 0;
    let vmx_outside_smx = fc & 4 != 0;
    if lock && !vmx_outside_smx {
        return Err("IA32_FEATURE_CONTROL locked without VMX outside SMX");
    }
    Ok(())
}

/// Whether a VMX instruction failed, from the RFLAGS it left: CF (VMfailInvalid)
/// or ZF (VMfailValid) set.
pub fn vmx_op_failed(rflags: u64) -> (b: bool)
    ensures
        b == (rflags & 1 != 0 || rflags & 0x40 != 0),
{
    rflags & 1 != 0 || rflags & 0x40 != 0
}

/// Upper-case hexadecimal of `v` without leading zeros, truncated to `out`.
pub fn u64_to_hex_buf(v: u64, out: &mut [u8]) -> (n: usize)
    ensures
        n == min_nat(hex_digits(v as nat).len(), old(out)@.len()),
        final(out)@ == overwrite_prefix(old(out)@, hex_digits(v as nat).take(n as int)),
{
    u64_hex(v, out)
}

} // verus!
