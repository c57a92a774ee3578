//! A model of the physical pages that hold a 4-level x86-64 style page table,
//! and the walks that the hardware (MMU, EPT, NPT, VT-d) performs over them.

use vstd::prelude::*;
use vstd::arithmetic::div_mod::lemma_fundamental_div_mod_converse;

verus! {

/// Size of one page table page in bytes.
pub const PAGE_BYTES: u64 = 4096;
/// Number of 64-bit entries in one page table page.
pub const ENTRIES: u64 = 512;
/// Physical addresses of table pages must stay below this bound (52-bit MAXPHYADDR).
pub const PHYS_LIMIT: u64 = 0x10_0000_0000_0000;
/// 4 KiB-aligned physical address field of a table or page entry.
pub const ADDR_MASK: u64 = 0x000F_FFFF_FFFF_F000;
/// Physical address field of a 2 MiB leaf.
pub const MASK_2M: u64 = 0x000F_FFFF_FFE0_0000;
/// Physical address field of a 1 GiB leaf.
pub const MASK_1G: u64 = 0x000F_FFFF_C000_0000;
/// Present (x86 paging, NPT) or Read (EPT) permission bit.
pub const BIT_PRESENT: u64 = 1;
/// Page-size bit marking a large leaf in a PDPTE or PDE.
pub const BIT_PS: u64 = 0x80;
/// Size of the region a PML4 entry covers.
pub const SPAN_512G: u64 = 0x80_0000_0000;
pub const SPAN_1G: u64 = 0x4000_0000;
pub const SPAN_2M: u64 = 0x20_0000;

/// A run of physically contiguous, page-aligned table pages starting at `base`.
/// Page `k` lives at physical address `base + k * 4096` and holds
/// `words[k * 512 .. (k + 1) * 512]`.
pub struct PhysPages {
    pub base: u64,
    pub words: Vec<u64>,
}

pub open spec fn l4_index(a: u64) -> u64 { (a >> 39u64) & 0x1FF }
pub open spec fn l3_index(a: u64) -> u64 { (a >> 30u64) & 0x1FF }
pub open spec fn l2_index(a: u64) -> u64 { (a >> 21u64) & 0x1FF }
pub open spec fn l1_index(a: u64) -> u64 { (a >> 12u64) & 0x1FF }

impl PhysPages {
    /// Well-formed: aligned base, whole pages, every address below the physical limit.
    pub open spec fn wf(&self) -> bool {
        &&& self.base % PAGE_BYTES == 0
        &&& self.words@.len() % 512 == 0
        &&& self.base + self.words@.len() * 8 <= PHYS_LIMIT
    }

    /// Number of table pages.
    pub open spec fn page_count(&self) -> nat {
        self.words@.len() / 512
    }

    /// The entry `idx` of the table page at physical address `table`.
    /// Memory outside these pages reads as zero (a non-present entry).
    pub open spec fn word_at(&self, table: u64, idx: u64) -> u64 {
        if self.base <= table && (table - self.base) % 4096 == 0
            && (table - self.base) / 4096 < self.words@.len() / 512 && idx < 512 {
            self.words@[((table - self.base) / 4096) * 512 + idx]
        } else {
            0
        }
    }

    /// Read entry `idx` of the table at physical address `table`.
    pub fn read_entry(&self, table: u64, idx: u64) -> (r: u64)
        requires
            idx < 512,
        ensures
            r == self.word_at(table, idx),
    {
        if table < self.base {
            return 0;
        }
        let off = table - self.base;
        if off % 4096 != 0 {
            return 0;
        }
        let k = off / 4096;
        let npages = (self.words.len() / 512) as u64;
        if k >= npages {
            return 0;
        }
        proof {
            assert(k * 512 + idx < self.words@.len()) by (nonlinear_arith)
                requires k < npages, npages == self.words@.len() / 512, idx < 512;
        }
        self.words[(k * 512 + idx) as usize]
    }

    /// Overwrite entry `idx` of the table at `table`; writes outside these pages are dropped.
    pub fn write_entry(&mut self, table: u64, idx: u64, v: u64)
        requires
            idx < 512,
        ensures
            final(self).base == old(self).base,
            final(self).words@.len() == old(self).words@.len(),
            ({
                let o = old(self);
                if o.base <= table && (table - o.base) % 4096 == 0
                    && (table - o.base) / 4096 < o.words@.len() / 512 {
                    final(self).words@ == o.words@.update(((table - o.base) / 4096) * 512 + idx, v)
                } else {
                    final(self).words@ == o.words@
                }
            }),
    {
        if table < self.base {
            return;
        }
        let off = table - self.base;
        if off % 4096 != 0 {
            return;
        }
        let k = off / 4096;
        let npages = (self.words.len() / 512) as u64;
        if k >= npages {
            return;
        }
        proof {
            assert(k * 512 + idx < self.words@.len()) by (nonlinear_arith)
                requires k < npages, npages == self.words@.len() / 512, idx < 512;
        }
        self.words.set((k * 512 + idx) as usize, v);
    }
}

/// Entry `i` of the table at `t` in pages `w` starting at `base` (zero
/// outside them), as `PhysPages::word_at` reads it.
pub open spec fn w_at(w: Seq<u64>, base: u64, t: u64, i: u64) -> u64 {
    if base <= t && (t - base) % 4096 == 0 && (t - base) / 4096 < w.len() / 512 && i < 512 {
        w[((t - base) / 4096) * 512 + i]
    } else {
        0
    }
}

/// The pages after `PhysPages::write_entry` of `v` at entry `i` of table `t`.
pub open spec fn w_set(w: Seq<u64>, base: u64, t: u64, i: u64, v: u64) -> Seq<u64> {
    if base <= t && (t - base) % 4096 == 0 && (t - base) / 4096 < w.len() / 512 {
        w.update(((t - base) / 4096) * 512 + i, v)
    } else {
        w
    }
}

/// The address an x86-64 4-level walk (with 1 GiB and 2 MiB leaves, present in bit 0)
/// produces for `addr` starting at table `root`; `None` on a non-present entry.
/// This is the translation an EPT (read permission in bit 0), an AMD NPT or the
/// native MMU performs on these tables.
pub open spec fn translate(mem: PhysPages, root: u64, addr: u64) -> Option<u64> {
    let e4 = mem.word_at(root & ADDR_MASK, l4_index(addr));
    if e4 & BIT_PRESENT == 0 {
        None
    } else {
        let e3 = mem.word_at(e4 & ADDR_MASK, l3_index(addr));
        if e3 & BIT_PRESENT == 0 {
            None
        } else if e3 & BIT_PS != 0 {
            Some((e3 & MASK_1G) | (addr & 0x3FFF_FFFF))
        } else {
            let e2 = mem.word_at(e3 & ADDR_MASK, l2_index(addr));
            if e2 & BIT_PRESENT == 0 {
                None
            } else if e2 & BIT_PS != 0 {
                Some((e2 & MASK_2M) | (addr & 0x1F_FFFF))
            } else {
                let e1 = mem.word_at(e2 & ADDR_MASK, l1_index(addr));
                if e1 & BIT_PRESENT == 0 {
                    None
                } else {
                    Some((e1 & ADDR_MASK) | (addr & 0xFFF))
                }
            }
        }
    }
}

// ---------------------------------------------------------------------------
// Bit-level facts about entries and indices.

pub proof fn lemma_index_bounds(a: u64)
    ensures
        l4_index(a) < 512,
        l3_index(a) < 512,
        l2_index(a) < 512,
        l1_index(a) < 512,
{
    assert(((a >> 39u64) & 0x1FF < 512)
        && ((a >> 30u64) & 0x1FF < 512)
        && ((a >> 21u64) & 0x1FF < 512)
        && ((a >> 12u64) & 0x1FF < 512)) by (bit_vector);
}

/// An address below 512 GiB decomposes into its 1 GiB, 2 MiB and 4 KiB indices.
pub proof fn lemma_low_address_indices(a: u64)
    requires
        a < SPAN_512G,
    ensures
        l4_index(a) == 0,
        l3_index(a) == a / SPAN_1G,
        l3_index(a) * SPAN_1G + l2_index(a) * SPAN_2M == a - a % SPAN_2M,
        l3_index(a) * SPAN_1G + l2_index(a) * SPAN_2M + l1_index(a) * 4096 == a - a % 4096,
        l3_index(a) * SPAN_1G == a - a % SPAN_1G,
{
    assert(((a >> 39u64) & 0x1FF == 0)
        && ((a >> 30u64) & 0x1FF == a / 0x4000_0000)
        && (((a >> 30u64) & 0x1FF) * 0x4000_0000 + ((a >> 21u64) & 0x1FF) * 0x20_0000 == a - a % 0x20_0000)
        && (((a >> 30u64) & 0x1FF) * 0x4000_0000 + ((a >> 21u64) & 0x1FF) * 0x20_0000 + ((a >> 12u64) & 0x1FF) * 4096 == a - a % 4096)
        && (((a >> 30u64) & 0x1FF) * 0x4000_0000 == a - a % 0x4000_0000)) by (bit_vector)
        requires a < 0x80_0000_0000u64;
}

/// An aligned table address survives the address mask.
pub proof fn lemma_aligned_addr(x: u64)
    requires
        x % 4096 == 0,
        x < PHYS_LIMIT,
    ensures
        x & ADDR_MASK == x,
        x & 0xFFFF_FFFF_FFFF_F000 == x,
{
    assert((x & 0x000F_FFFF_FFFF_F000 == x)
        && (x & 0xFFFF_FFFF_FFFF_F000 == x)) by (bit_vector)
        requires x % 4096 == 0, x < 0x10_0000_0000_0000u64;
}

/// A table pointer entry: an aligned address with low flag bits.
pub proof fn lemma_dir_entry(x: u64, f: u64)
    requires
        x % 4096 == 0,
        x < PHYS_LIMIT,
        f < 0x80,
        f & 1 == 1,
    ensures
        (x | f) & BIT_PRESENT == 1,
        (x | f) & BIT_PS == 0,
        (x | f) & ADDR_MASK == x,
        (x | f) & 0xFFFF_FFFF_FFFF_F000 == x,
{
    assert(((x | f) & 0xFFFF_FFFF_FFFF_F000 == x)
        && ((x | f) & 1 == 1)
        && ((x | f) & 0x80 == 0)
        && ((x | f) & 0x000F_FFFF_FFFF_F000 == x)) by (bit_vector)
        requires x % 4096 == 0, f < 0x80, f & 1 == 1, x < 0x10_0000_0000_0000u64;
}

/// A 4 KiB leaf: an aligned frame address with low flag bits.
pub proof fn lemma_leaf_4k(p: u64, f: u64, a: u64)
    requires
        p % 4096 == 0,
        p < PHYS_LIMIT,
        f < 0x1000,
        f & 1 == 1,
        p == a - a % 4096,
    ensures
        (p | f) & BIT_PRESENT == 1,
        ((p | f) & ADDR_MASK) | (a & 0xFFF) == a,
{
    assert(((p | f) & 1 == 1)
        && ((p | f) & 0x000F_FFFF_FFFF_F000 == p)
        && (p | (a & 0xFFF) == a)) by (bit_vector)
        requires f & 1 == 1, p % 4096 == 0, p < 0x10_0000_0000_0000u64, f < 0x1000, p == a - a % 4096;
}

/// A 2 MiB leaf: a 2 MiB-aligned frame address with the page-size bit set.
pub proof fn lemma_leaf_2m(p: u64, f: u64, a: u64)
    requires
        p % 0x20_0000 == 0,
        p < PHYS_LIMIT,
        f < 0x1000,
        f & 1 == 1,
        f & 0x80 == 0x80,
        p == a - a % 0x20_0000,
    ensures
        (p | f) & BIT_PRESENT == 1,
        (p | f) & BIT_PS != 0,
        ((p | f) & MASK_2M) | (a & 0x1F_FFFF) == a,
        ((p | f) & 0xFFFF_FFFF_FFE0_0000) | (a & 0x1F_FFFF) == a,
{
    assert(((p | f) & 1 == 1)
        && ((p | f) & 0x80 != 0)
        && ((p | f) & 0x000F_FFFF_FFE0_0000 == p)
        && ((p | f) & 0xFFFF_FFFF_FFE0_0000 == p)
        && (p | (a & 0x1F_FFFF) == a)) by (bit_vector)
        requires f & 1 == 1, f & 0x80 == 0x80, p % 0x20_0000 == 0, p < 0x10_0000_0000_0000u64, f < 0x1000, p == a - a % 0x20_0000;
}

/// A 1 GiB leaf: a 1 GiB-aligned frame address with the page-size bit set.
pub proof fn lemma_leaf_1g(p: u64, f: u64, a: u64)
    requires
        p % 0x4000_0000 == 0,
        p < PHYS_LIMIT,
        f < 0x1000,
        f & 1 == 1,
        f & 0x80 == 0x80,
        p == a - a % 0x4000_0000,
    ensures
        (p | f) & BIT_PRESENT == 1,
        (p | f) & BIT_PS != 0,
        ((p | f) & MASK_1G) | (a & 0x3FFF_FFFF) == a,
{
    assert(((p | f) & 1 == 1)
        && ((p | f) & 0x80 != 0)
        && ((p | f) & 0x000F_FFFF_C000_0000 == p)
        && (p | (a & 0x3FFF_FFFF) == a)) by (bit_vector)
        requires f & 1 == 1, f & 0x80 == 0x80, p % 0x4000_0000 == 0, p < 0x10_0000_0000_0000u64, f < 0x1000, p == a - a % 0x4000_0000;
}

/// Reading page `k`, slot `s` of pages whose words are given by position.
pub proof fn lemma_word_at_page(mem: PhysPages, k: nat, s: u64)
    requires
        mem.wf(),
        k < mem.page_count(),
        s < 512,
    ensures
        mem.base + k * 4096 <= u64::MAX,
        mem.word_at((mem.base + k * 4096) as u64, s) == mem.words@[k * 512 + s],
        (k * 512 + s) / 512 == k,
        (k * 512 + s) % 512 == s,
{
    let n = mem.words@.len();
    assert(k * 512 + s < n && k * 4096 <= n * 8) by (nonlinear_arith)
        requires k < n / 512, s < 512;
    let t = (mem.base + k * 4096) as u64;
    assert(t - mem.base == k * 4096);
    lemma_fundamental_div_mod_converse((k * 4096) as int, 4096, k as int, 0);
    lemma_fundamental_div_mod_converse((k * 512 + s) as int, 512, k as int, s as int);
}

} // verus!
