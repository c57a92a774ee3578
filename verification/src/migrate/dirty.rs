//! Dirty-page tracking: the per-VM tracker and its bitmap.

use vstd::prelude::*;
use crate::hv::vm::{Vm, HvVendor, ONE_GIB};

verus! {

/// Kind of nested translation a VM uses.
#[derive(Clone, Copy, Debug, PartialEq, Eq, Structural)]
pub enum TrackerKind {
    IntelEpt,
    AmdNpt,
    Unknown,
}

/// A tracker bound to a VM's identity map.
#[derive(Clone, Copy, Debug)]
pub struct DirtyTracker {
    pub vm_id: u64,
    /// Root (PML4) of the EPT/NPT.
    pub root_phys: u64,
    /// Bytes of guest-physical memory considered.
    pub memory_limit: u64,
    pub kind: TrackerKind,
}

/// The tracker for `vm`: `None` for an unknown vendor or a VM without tables.
/// Memory is counted as at least 1 GiB.
pub fn create_tracker_for_vm(vm: &Vm) -> (r: Option<DirtyTracker>)
    ensures
        r == if vm.vendor == HvVendor::Unknown || vm.pml4_phys == 0 {
            None
        } else {
            Some(DirtyTracker {
                vm_id: vm.id.0,
                root_phys: vm.pml4_phys,
                memory_limit: if vm.config.memory_bytes > ONE_GIB { vm.config.memory_bytes } else { ONE_GIB },
                kind: if vm.vendor == HvVendor::Intel { TrackerKind::IntelEpt } else { TrackerKind::AmdNpt },
            })
        },
{
    let kind = match vm.vendor {
        HvVendor::Intel => TrackerKind::IntelEpt,
        HvVendor::Amd => TrackerKind::AmdNpt,
        HvVendor::Unknown => TrackerKind::Unknown,
    };
    if kind == TrackerKind::Unknown {
        return None;
    }
    if vm.pml4_phys == 0 {
        return None;
    }
    let m = vm.config.memory_bytes;
    Some(DirtyTracker {
        vm_id: vm.id.0,
        root_phys: vm.pml4_phys,
        memory_limit: if m > ONE_GIB { m } else { ONE_GIB },
        kind,
    })
}

/// One bit per 4 KiB page.
pub struct DirtyBitmap {
    pub bits: Vec<u8>,
}

/// Whether bit `i` is set in the bytes `b`.
pub open spec fn bit_at(b: Seq<u8>, i: int) -> bool {
    0 <= i < b.len() * 8 && (b[i / 8] >> ((i % 8) as u8)) & 1 == 1
}

/// Indices of the set bits below `n`, ascending.
pub open spec fn set_below(b: Seq<u8>, n: int) -> Seq<u64>
    decreases n,
{
    if n <= 0 {
        Seq::empty()
    } else if bit_at(b, n - 1) {
        set_below(b, n - 1).push((n - 1) as u64)
    } else {
        set_below(b, n - 1)
    }
}

impl DirtyBitmap {
    /// The indices of the set bits, ascending.
    pub open spec fn set_indices(&self) -> Seq<u64> {
        set_below(self.bits@, (self.bits@.len() * 8) as int)
    }

    /// A cleared bitmap with room for `num_pages` bits (rounded up to whole bytes).
    pub fn allocate(num_pages: u64) -> (r: Option<DirtyBitmap>)
        requires
            num_pages + 7 <= usize::MAX,
        ensures
            r matches Some(b) && b.bits@.len() == (num_pages + 7) / 8
                && forall|i: int| 0 <= i < b.bits@.len() ==> b.bits@[i] == 0,
    {
        let bytes = ((num_pages as usize) + 7) / 8;
        let mut bits: Vec<u8> = Vec::new();
        while bits.len() < bytes
            invariant
                bits@.len() <= bytes,
                forall|i: int| 0 <= i < bits@.len() ==> bits@[i] == 0,
            decreases bytes - bits@.len(),
        {
            bits.push(0);
        }
        Some(DirtyBitmap { bits })
    }

    /// Clear every bit.
    pub fn clear_all(&mut self)
        ensures
            final(self).bits@.len() == old(self).bits@.len(),
            forall|i: int| 0 <= i < final(self).bits@.len() ==> final(self).bits@[i] == 0,
    {
        let mut i: usize = 0;
        while i < self.bits.len()
            invariant
                i <= self.bits@.len(),
                self.bits@.len() == old(self).bits@.len(),
                forall|j: int| 0 <= j < i ==> self.bits@[j] == 0,
            decreases self.bits@.len() - i,
        {
            self.bits.set(i, 0);
            i = i + 1;
        }
    }

    /// Set bit `index`; indices past the end are ignored.
    pub fn set_bit(&mut self, index: u64)
        ensures
            final(self).bits@.len() == old(self).bits@.len(),
            forall|i: int| 0 <= i < old(self).bits@.len() * 8 ==>
                bit_at(final(self).bits@, i) == (bit_at(old(self).bits@, i) || (i == index && index / 8 < old(self).bits@.len())),
    {
        let byte = index / 8;
        let bit = (index % 8) as u8;
        if byte < self.bits.len() as u64 {
            let b = byte as usize;
            let v = self.bits[b];
            let nv = v | (1u8 << bit);
            self.bits.set(b, nv);
            assert forall|i: int| 0 <= i < old(self).bits@.len() * 8 implies
                bit_at(self.bits@, i) == (bit_at(old(self).bits@, i) || (i == index && index / 8 < old(self).bits@.len())) by {
                let k = i / 8;
                let s = (i % 8) as u8;
                if k == b {
                    assert(((nv >> s) & 1 == 1) == (((v >> s) & 1 == 1) || s == bit)) by (bit_vector)
                        requires nv == v | (1u8 << bit), s < 8, bit < 8;
                    assert(i % 8 == index % 8 <==> i == index);
                }
            }
        }
    }

    /// Number of set bits.
    pub fn count_set(&self) -> (r: u64)
        requires
            self.bits@.len() * 8 <= u64::MAX,
        ensures
            r == self.set_indices().len(),
    {
        let ghost b = self.bits@;
        let mut total: u64 = 0;
        let mut i: usize = 0;
        let len = self.bits.len();
        proof { lemma_set_below_len(b, 0); }
        while i < len
            invariant
                len == b.len(),
                b == self.bits@,
                i <= len,
                total == set_below(b, i * 8).len(),
                b.len() * 8 <= u64::MAX,
                set_below(b, i * 8).len() <= i * 8,
            decreases len - i,
        {
            let v = self.bits[i];
            let mut k: u8 = 0;
            let mut c: u64 = total;
            while k < 8
                invariant
                    k <= 8,
                    v == b[i as int],
                    i < len,
                    len == b.len(),
                    c == set_below(b, i * 8 + k).len(),
                    b.len() * 8 <= u64::MAX,
                    set_below(b, i * 8 + k).len() <= i * 8 + k,
                decreases 8 - k,
            {
                proof {
                    assert((i * 8 + k) / 8 == i as int) by (nonlinear_arith) requires k < 8;
                    assert((i * 8 + k) % 8 == k as int) by (nonlinear_arith) requires k < 8;
                    assert(i * 8 + k < b.len() * 8) by (nonlinear_arith) requires i < b.len(), k < 8;
                }
                proof { lemma_set_below_len(b, i * 8 + k); }
                if (v >> k) & 1 == 1 {
                    c = c + 1;
                }
                k = k + 1;
            }
            total = c;
            i = i + 1;
        }
        total
    }

    /// The set bits' indices, ascending: the dirty pages, lowest first.
    pub fn for_each_set(&self) -> (r: Vec<u64>)
        requires
            self.bits@.len() * 8 <= u64::MAX,
        ensures
            r@ == self.set_indices(),
    {
        let ghost b = self.bits@;
        let mut out: Vec<u64> = Vec::new();
        let mut i: usize = 0;
        let len = self.bits.len();
        while i < len
            invariant
                len == b.len(),
                b == self.bits@,
                i <= len,
                out@ == set_below(b, i * 8),
                b.len() * 8 <= u64::MAX,
            decreases len - i,
        {
            let v = self.bits[i];
            let mut k: u8 = 0;
            while k < 8
                invariant
                    k <= 8,
                    v == b[i as int],
                    i < len,
                    len == b.len(),
                    out@ == set_below(b, i * 8 + k),
                    b.len() * 8 <= u64::MAX,
                decreases 8 - k,
            {
                proof {
                    assert((i * 8 + k) / 8 == i as int) by (nonlinear_arith) requires k < 8;
                    assert((i * 8 + k) % 8 == k as int) by (nonlinear_arith) requires k < 8;
                    assert(i * 8 + k < b.len() * 8) by (nonlinear_arith) requires i < b.len(), k < 8;
                    assert(i * 8 + k < b.len() * 8) by (nonlinear_arith) requires i < b.len(), k < 8;
                }
                if (v >> k) & 1 == 1 {
                    out.push((i as u64) * 8 + k as u64);
                }
                k = k + 1;
            }
            i = i + 1;
        }
        out
    }
}

proof fn lemma_set_below_len(b: Seq<u8>, n: int)
    ensures
        set_below(b, n).len() <= if n < 0 { 0 } else { n },
    decreases n,
{
    if n > 0 {
        lemma_set_below_len(b, n - 1);
    }
}

} // verus!
