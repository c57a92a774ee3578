//! Native x86-64 paging: identity map with 2 MiB pages for long-mode CR3.

use vstd::prelude::*;
use crate::mm::pages::{PhysPages, translate};
use crate::mm::identity::{LeafSize, layout, layout_ok, build_layout, lemma_identity_2m};

verus! {

/// Table-pointer entry flags: present, writable.
pub const PT_DIR_FLAGS: u64 = 3;
/// 2 MiB leaf flags: present, writable, page size.
pub const PT_LEAF_FLAGS: u64 = 0x83;

/// Build identity-mapped page tables of `limit_bytes` with 2 MiB pages in the
/// table pages at physical `base`; the PML4 (the CR3 value) is at `base`.
/// `None` when `limit_bytes` is zero.
pub fn build_identity_2m(base: u64, limit_bytes: u64) -> (r: Option<PhysPages>)
    requires
        limit_bytes == 0 || layout_ok(LeafSize::Large2M, base, limit_bytes),
    ensures
        limit_bytes == 0 <==> r is None,
        r matches Some(m) ==> {
            &&& m.wf() && m.base == base
            &&& m.words@ == layout(LeafSize::Large2M, base, limit_bytes, PT_DIR_FLAGS, PT_LEAF_FLAGS)
            &&& forall|a: u64| a < limit_bytes ==> translate(m, base, a) == Some(a)
        },
{
    let r = build_layout(LeafSize::Large2M, base, limit_bytes, PT_DIR_FLAGS, PT_LEAF_FLAGS);
    let ghost gr = r;
    proof {
        assert(3u64 & 1 == 1 && 0x83u64 & 1 == 1 && 0x83u64 & 0x80 == 0x80) by (bit_vector);
        if let Some(m) = gr {
            assert forall|a: u64| a < limit_bytes implies translate(m, base, a) == Some(a) by {
                lemma_identity_2m(m, limit_bytes, PT_DIR_FLAGS, PT_LEAF_FLAGS, a);
            }
        }
    }
    r
}

} // verus!
