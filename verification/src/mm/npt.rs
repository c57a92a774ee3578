//! AMD nested page tables (NPT): identity-map builder and nested CR3.

use vstd::prelude::*;
use crate::mm::pages::{PhysPages, translate, ADDR_MASK};
use crate::mm::identity::{LeafSize, layout, layout_ok, build_layout, lemma_identity_2m};

verus! {

/// NPT table-pointer entry flags: read, write, execute.
pub const NPT_DIR_FLAGS: u64 = 7;
/// NPT 2 MiB leaf flags: read, write, execute, page size.
pub const NPT_LEAF_FLAGS: u64 = 0x87;

/// Build an NPT identity map of `limit_bytes` with 2 MiB leaves in the table
/// pages at physical `base`. `None` when `limit_bytes` is zero.
pub fn build_identity_2m(base: u64, limit_bytes: u64) -> (r: Option<PhysPages>)
    requires
        limit_bytes == 0 || layout_ok(LeafSize::Large2M, base, limit_bytes),
    ensures
        limit_bytes == 0 <==> r is None,
        r matches Some(m) ==> {
            &&& m.wf() && m.base == base
            &&& m.words@ == layout(LeafSize::Large2M, base, limit_bytes, NPT_DIR_FLAGS, NPT_LEAF_FLAGS)
            &&& forall|a: u64| a < limit_bytes ==> translate(m, base, a) == Some(a)
        },
{
    let r = build_layout(LeafSize::Large2M, base, limit_bytes, NPT_DIR_FLAGS, NPT_LEAF_FLAGS);
    let ghost gr = r;
    proof {
        assert(7u64 & 1 == 1 && 0x87u64 & 1 == 1 && 0x87u64 & 0x80 == 0x80) by (bit_vector);
        if let Some(m) = gr {
            assert forall|a: u64| a < limit_bytes implies translate(m, base, a) == Some(a) by {
                lemma_identity_2m(m, limit_bytes, NPT_DIR_FLAGS, NPT_LEAF_FLAGS, a);
            }
        }
    }
    r
}

/// Nested CR3 for a PML4 at `pml4_phys`: the 4 KiB-aligned address field.
pub fn ncr3_from_pml4(pml4_phys: u64) -> (r: u64)
    ensures
        r == pml4_phys & ADDR_MASK,
{
    pml4_phys & 0x000F_FFFF_FFFF_F000u64
}

} // verus!
