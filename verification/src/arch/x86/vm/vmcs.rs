//! VMX control-field capability decoding and the VMCS region image.

use vstd::prelude::*;

verus! {

/// IA32_VMX_* control MSR indices.
pub const IA32_VMX_PINBASED_CTLS: u32 = 0x481;
pub const IA32_VMX_PROCBASED_CTLS: u32 = 0x482;
pub const IA32_VMX_PROCBASED_CTLS2: u32 = 0x48B;
pub const IA32_VMX_EXIT_CTLS: u32 = 0x483;
pub const IA32_VMX_ENTRY_CTLS: u32 = 0x484;
/// IA32_VMX_BASIC MSR index.
pub const IA32_VMX_BASIC: u32 = 0x480;

/// Split a VMX control MSR value into its low (`allowed_0`) and high
/// (`allowed_1`) 32-bit halves.
pub fn control_msrs_masks(msr_val: u64) -> (r: (u32, u32))
    ensures
        r.0 == msr_val & 0xFFFF_FFFF,
        r.1 == msr_val >> 32u64,
{
    assert(msr_val >> 32u64 <= 0xFFFF_FFFF && msr_val & 0xFFFF_FFFF <= 0xFFFF_FFFF) by (bit_vector);
    let a0 = (msr_val & 0xFFFF_FFFF) as u32;
    let a1 = (msr_val >> 32u64) as u32;
    (a0, a1)
}

/// A control value from `desired`: every `allowed_1` bit added, then every bit
/// outside `allowed_0` cleared. The result sets no bit outside `allowed_0`,
/// sets every bit that both masks hold, and keeps every desired bit that
/// `allowed_0` permits. Here `allowed_1` is taken as the bits that must be one
/// and `allowed_0` as the bits that may be one. The processor manual names the
/// halves the other way round (the low half holds the bits that must be one,
/// the high half the bits that may be one). Read that way, this keeps only the
/// must-be-one bits and drops every optional desired bit.
pub fn satisfy_controls(desired: u32, allowed_0: u32, allowed_1: u32) -> (r: u32)
    ensures
        r == (desired | allowed_1) & allowed_0,
        r & !allowed_0 == 0,
        r & (allowed_0 & allowed_1) == allowed_0 & allowed_1,
        r & (desired & allowed_0) == desired & allowed_0,
{
    let r = (desired | allowed_1) & allowed_0;
    assert(r & !allowed_0 == 0 && r & (allowed_0 & allowed_1) == allowed_0 & allowed_1
        && r & (desired & allowed_0) == desired & allowed_0) by (bit_vector)
        requires r == (desired | allowed_1) & allowed_0;
    r
}

/// VMCS revision identifier: bits 0..30 of IA32_VMX_BASIC.
pub fn vmcs_revision_id(vmx_basic: u64) -> (r: u32)
    ensures
        r == vmx_basic & 0x7FFF_FFFF,
{
    assert(vmx_basic & 0x7FFF_FFFF <= 0x7FFF_FFFF) by (bit_vector);
    (vmx_basic & 0x7FFF_FFFF) as u32
}

/// The 4 KiB VMCS region: the revision identifier in the first four bytes
/// (little-endian), zero elsewhere.
pub fn vmcs_region_image(vmx_basic: u64) -> (img: Vec<u8>)
    ensures
        img@.len() == 4096,
        img@.subrange(0, 4) == crate::util::bytes::le32((vmx_basic & 0x7FFF_FFFF) as u32),
        forall|i: int| 4 <= i < 4096 ==> img@[i] == 0,
{
    let rev = vmcs_revision_id(vmx_basic);
    let mut img: Vec<u8> = vec![(rev & 0xFF) as u8, ((rev >> 8u32) & 0xFF) as u8,
        ((rev >> 16u32) & 0xFF) as u8, ((rev >> 24u32) & 0xFF) as u8];
    assert(img@.subrange(0, 4) =~= crate::util::bytes::le32(rev));
    while img.len() < 4096
        invariant
            4 <= img@.len() <= 4096,
            img@.subrange(0, 4) == crate::util::bytes::le32(rev),
            forall|i: int| 4 <= i < img@.len() ==> img@[i] == 0,
        decreases 4096 - img@.len(),
    {
        let ghost before = img@;
        img.push(0);
        assert(img@.subrange(0, 4) =~= before.subrange(0, 4));
    }
    img
}

} // verus!
