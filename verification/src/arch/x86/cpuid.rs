//! Decoding of the CPUID feature bits that matter to a hypervisor.
//!
//! The `cpuid` instruction itself runs outside this crate; these functions take
//! the register values it returned for the leaf named in each doc comment.

use vstd::prelude::*;

verus! {

/// Basic feature flags (EAX=1).
pub const LEAF_BASIC_FEATURES: u32 = 0x0000_0001;
/// AMD extended features (EAX=0x80000001).
pub const LEAF_AMD_EXT_FEATURES: u32 = 0x8000_0001;
/// AMD SVM features (EAX=0x8000000A).
pub const LEAF_AMD_SVM: u32 = 0x8000_000A;
/// Advanced power management information (EAX=0x80000007).
pub const LEAF_AMD_APM: u32 = 0x8000_0007;

/// Register values returned by one `cpuid` execution.
#[derive(Clone, Copy, Debug)]
pub struct CpuidResult {
    pub eax: u32,
    pub ebx: u32,
    pub ecx: u32,
    pub edx: u32,
}

/// Whether bit `bit` of `v` is set.
pub open spec fn bit_set(v: u32, bit: u32) -> bool {
    v & (1u32 << bit) != 0
}

/// Intel VMX: CPUID.1:ECX bit 5. `r` is the result of leaf 1.
pub fn has_vmx(r: CpuidResult) -> (b: bool)
    ensures
        b == bit_set(r.ecx, 5),
{
    r.ecx & (1u32 << 5u32) != 0
}

/// AMD SVM: CPUID.80000001:ECX bit 2. `r` is the result of leaf 0x80000001.
pub fn has_svm(r: CpuidResult) -> (b: bool)
    ensures
        b == bit_set(r.ecx, 2),
{
    r.ecx & (1u32 << 2u32) != 0
}

/// EPT has no CPUID bit of its own; it may be present whenever VMX is.
/// `r` is the result of leaf 1.
pub fn may_support_ept(r: CpuidResult) -> (b: bool)
    ensures
        b == bit_set(r.ecx, 5),
{
    has_vmx(r)
}

/// AMD nested paging: CPUID.8000000A:EDX bit 0. `r` is the result of leaf 0x8000000A.
pub fn has_npt(r: CpuidResult) -> (b: bool)
    ensures
        b == bit_set(r.edx, 0),
{
    r.edx & (1u32 << 0u32) != 0
}

/// Invariant TSC: CPUID.80000007:EDX bit 8. `r` is the result of leaf 0x80000007.
pub fn has_invariant_tsc(r: CpuidResult) -> (b: bool)
    ensures
        b == bit_set(r.edx, 8),
{
    r.edx & (1u32 << 8u32) != 0
}

/// x2APIC: CPUID.1:ECX bit 21. `r` is the result of leaf 1.
pub fn has_x2apic(r: CpuidResult) -> (b: bool)
    ensures
        b == bit_set(r.ecx, 21),
{
    r.ecx & (1u32 << 21u32) != 0
}

} // verus!
