//! The firmware memory map: descriptors in a byte buffer, and the searches
//! the loader makes over them.

use vstd::prelude::*;
use crate::firmware::acpi::{le32_at, le64_at, read_le32, read_le64};

verus! {

/// UEFI memory type of free memory (EfiConventionalMemory).
pub const CONVENTIONAL: u32 = 7;
/// Size of the descriptor fields read here.
pub const DESCRIPTOR_MIN: usize = 40;

/// The memory map as the firmware returned it.
pub struct MemoryMap {
    pub buffer: Vec<u8>,
    pub map_size: usize,
    pub descriptor_size: usize,
    pub descriptor_version: u32,
}

/// A memory descriptor's fields: type, physical start, page count.
#[derive(Clone, Copy, Debug, PartialEq, Eq, Structural)]
pub struct Descriptor {
    pub ty: u32,
    pub phys_start: u64,
    pub page_count: u64,
}

impl MemoryMap {
    /// A map ready to receive the firmware's descriptors: a zeroed buffer with
    /// room for two descriptors more than the reported size, since the map may
    /// grow between the query and the call.
    pub fn new(map_size: usize, descriptor_size: usize, descriptor_version: u32) -> (m: MemoryMap)
        requires
            map_size + 2 * descriptor_size <= usize::MAX,
        ensures
            m.buffer@.len() == map_size + 2 * descriptor_size,
            forall|i: int| 0 <= i < m.buffer@.len() ==> m.buffer@[i] == 0,
            m.map_size == map_size,
            m.descriptor_size == descriptor_size,
            m.descriptor_version == descriptor_version,
    {
        let total = map_size + 2 * descriptor_size;
        let mut buffer: Vec<u8> = Vec::new();
        while buffer.len() < total
            invariant
                buffer@.len() <= total,
                forall|i: int| 0 <= i < buffer@.len() ==> buffer@[i] == 0,
            decreases total - buffer@.len(),
        {
            buffer.push(0);
        }
        MemoryMap { buffer, map_size, descriptor_size, descriptor_version }
    }

    /// Descriptors are read from whole `descriptor_size` chunks of the buffer.
    pub open spec fn readable(&self) -> bool {
        self.descriptor_size >= DESCRIPTOR_MIN
    }

    /// Number of whole descriptors in the buffer.
    pub open spec fn count(&self) -> nat {
        self.buffer@.len() / (self.descriptor_size as nat)
    }

    /// Descriptor `i`: type at offset 0, physical start at 8, pages at 24.
    pub open spec fn desc(&self, i: int) -> Descriptor {
        let off = i * self.descriptor_size;
        Descriptor { ty: le32_at(self.buffer@, off), phys_start: le64_at(self.buffer@, off + 8), page_count: le64_at(self.buffer@, off + 24) }
    }

    /// Whether descriptor `i` is free memory of at least `size` bytes.
    pub open spec fn fits(&self, i: int, size: usize) -> bool {
        self.desc(i).ty == CONVENTIONAL && self.desc(i).page_count * 4096 >= size
    }

    /// Free memory in descriptors below `n`, in bytes.
    pub open spec fn conventional_bytes(&self, n: int) -> int
        decreases n,
    {
        if n <= 0 {
            0
        } else {
            self.conventional_bytes(n - 1)
                + if self.desc(n - 1).ty == CONVENTIONAL { self.desc(n - 1).page_count * 4096 } else { 0 }
        }
    }

    fn read_desc(&self, i: usize) -> (d: Descriptor)
        requires
            self.readable(),
            i < self.count(),
        ensures
            d == self.desc(i as int),
    {
        let size = self.descriptor_size;
        let blen = self.buffer.len();
        proof {
            assert((i + 1) * size <= blen) by (nonlinear_arith)
                requires i < (blen as nat) / (size as nat), size > 0;
            assert(i * size + DESCRIPTOR_MIN <= (i + 1) * size) by (nonlinear_arith)
                requires size >= DESCRIPTOR_MIN;
        }
        let off = i * size;
        let b = self.buffer.as_slice();
        Descriptor { ty: read_le32(b, off), phys_start: read_le64(b, off + 8), page_count: read_le64(b, off + 24) }
    }

    /// Physical start of the first free region of at least `size` bytes.
    pub fn find_hypervisor_region(&self, size: usize) -> (r: Option<u64>)
        requires
            self.readable(),
            forall|i: int| 0 <= i < self.count() && #[trigger] self.desc(i).ty == CONVENTIONAL
                && (forall|j: int| 0 <= j < i ==> !self.fits(j, size))
                ==> self.desc(i).page_count * 4096 <= usize::MAX,
        ensures
            r matches Some(p) ==> exists|i: int| 0 <= i < self.count() && self.fits(i, size)
                && self.desc(i).phys_start == p && forall|j: int| 0 <= j < i ==> !self.fits(j, size),
            r is None ==> forall|i: int| 0 <= i < self.count() ==> !self.fits(i, size),
    {
        let n = self.buffer.len() / self.descriptor_size;
        let mut i: usize = 0;
        while i < n
            invariant
                self.readable(),
                n == self.count(),
                i <= n,
                forall|j: int| 0 <= j < i ==> !self.fits(j, size),
                forall|i: int| 0 <= i < self.count() && #[trigger] self.desc(i).ty == CONVENTIONAL
                    && (forall|j: int| 0 <= j < i ==> !self.fits(j, size))
                    ==> self.desc(i).page_count * 4096 <= usize::MAX,
            decreases n - i,
        {
            let d = self.read_desc(i);
            if d.ty == CONVENTIONAL {
                assert(self.desc(i as int).ty == CONVENTIONAL);
                let bytes = (d.page_count as usize) * 4096;
                if bytes >= size {
                    assert(self.fits(i as int, size));
                    return Some(d.phys_start);
                }
            }
            i = i + 1;
        }
        None
    }

    /// Total free memory in bytes.
    pub fn total_memory(&self) -> (r: u64)
        requires
            self.readable(),
            forall|n: int| 0 <= n <= self.count() ==> #[trigger] self.conventional_bytes(n) <= u64::MAX,
        ensures
            r == self.conventional_bytes(self.count() as int),
    {
        let n = self.buffer.len() / self.descriptor_size;
        let mut total: u64 = 0;
        let mut i: usize = 0;
        proof { lemma_conventional_nonneg(self, 0); }
        while i < n
            invariant
                self.readable(),
                n == self.count(),
                i <= n,
                total == self.conventional_bytes(i as int),
                forall|n: int| 0 <= n <= self.count() ==> #[trigger] self.conventional_bytes(n) <= u64::MAX,
            decreases n - i,
        {
            let d = self.read_desc(i);
            proof {
                assert(self.conventional_bytes(i + 1) <= u64::MAX);
                lemma_conventional_nonneg(self, i as int);
            }
            if d.ty == CONVENTIONAL {
                total = total + d.page_count * 4096;
            }
            i = i + 1;
        }
        total
    }
}

proof fn lemma_conventional_nonneg(m: &MemoryMap, n: int)
    ensures
        m.conventional_bytes(n) >= 0,
    decreases n,
{
    if n > 0 {
        lemma_conventional_nonneg(m, n - 1);
    }
}

} // verus!
