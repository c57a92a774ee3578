//! Virtualization entry layer: vendor detection and the VMX/SVM checks.

pub mod svm;
pub mod vmcs;
pub mod vmx;
pub mod fields;

use vstd::prelude::*;
use crate::arch::x86::cpuid::CpuidResult;

verus! {

/// CPU vendor, as far as virtualization cares.
#[derive(Clone, Copy, Debug, PartialEq, Eq, Structural)]
pub enum Vendor {
    Intel,
    Amd,
    Unknown,
}

/// "Genu", "ineI", "ntel" as the little-endian words CPUID.0 returns in EBX, EDX, ECX.
pub const INTEL_EBX: u32 = 0x756E_6547;
pub const INTEL_EDX: u32 = 0x4965_6E69;
pub const INTEL_ECX: u32 = 0x6C65_746E;
/// "Auth", "enti", "cAMD" likewise.
pub const AMD_EBX: u32 = 0x6874_7541;
pub const AMD_EDX: u32 = 0x6974_6E65;
pub const AMD_ECX: u32 = 0x444D_4163;

/// Vendor from the CPUID leaf 0 result `r`, whose EBX, EDX, ECX spell the
/// vendor string "GenuineIntel" or "AuthenticAMD".
pub fn detect_vendor(r: CpuidResult) -> (v: Vendor)
    ensures
        v == if r.ebx == INTEL_EBX && r.edx == INTEL_EDX && r.ecx == INTEL_ECX {
            Vendor::Intel
        } else if r.ebx == AMD_EBX && r.edx == AMD_EDX && r.ecx == AMD_ECX {
            Vendor::Amd
        } else {
            Vendor::Unknown
        },
{
    if r.ebx == INTEL_EBX && r.edx == INTEL_EDX && r.ecx == INTEL_ECX {
        Vendor::Intel
    } else if r.ebx == AMD_EBX && r.edx == AMD_EDX && r.ecx == AMD_ECX {
        Vendor::Amd
    } else {
        Vendor::Unknown
    }
}

} // verus!
