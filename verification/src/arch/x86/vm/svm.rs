//! AMD SVM availability and nested page table preparation.

use vstd::prelude::*;
use crate::arch::x86::cpuid::{CpuidResult, bit_set, has_svm};
use crate::mm::pages::{PhysPages, translate, ADDR_MASK};
use crate::mm::identity::{LeafSize, layout, layout_ok};
use crate::mm::npt::{build_identity_2m, ncr3_from_pml4, NPT_DIR_FLAGS, NPT_LEAF_FLAGS};

verus! {

/// SVM is available when CPUID leaf 0x80000001 (`ext`) reports it.
pub fn svm_preflight_available(ext: CpuidResult) -> (b: bool)
    ensures
        b == bit_set(ext.ecx, 2),
{
    has_svm(ext)
}

/// Readiness to enable SVM: an error when CPUID leaf 0x80000001 (`ext`) shows no SVM.
pub fn svm_try_enable(ext: CpuidResult) -> (r: Result<(), &'static str>)
    ensures
        r is Ok <==> bit_set(ext.ecx, 2),
        r matches Err(e) ==> e@ == "SVM not available"@,
{
    if !svm_preflight_available(ext) {
        return Err("SVM not available");
    }
    Ok(())
}

/// Nested page tables identity-mapping `limit_bytes` with 2 MiB pages, built
/// in the table pages at `base`, with the nested CR3 that points at them.
/// `None` when `limit_bytes` is zero.
pub fn svm_prepare_npt(base: u64, limit_bytes: u64) -> (r: Option<(PhysPages, u64)>)
    requires
        limit_bytes == 0 || layout_ok(LeafSize::Large2M, base, limit_bytes),
    ensures
        limit_bytes == 0 <==> r is None,
        r matches Some((m, ncr3)) ==> {
            &&& m.wf() && m.base == base
            &&& m.words@ == layout(LeafSize::Large2M, base, limit_bytes, NPT_DIR_FLAGS, NPT_LEAF_FLAGS)
            &&& forall|a: u64| a < limit_bytes ==> translate(m, base, a) == Some(a)
            &&& ncr3 == base & ADDR_MASK
        },
{
    match build_identity_2m(base, limit_bytes) {
        None => None,
        Some(m) => {
            let ncr3 = ncr3_from_pml4(m.base);
            Some((m, ncr3))
        },
    }
}

} // verus!
