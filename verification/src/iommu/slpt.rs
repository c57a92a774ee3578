//! Writing VT-d second-level tables: mapping and unmapping IOVA ranges with
//! 4 KiB or 2 MiB pages, new table pages taken from a pool.

use vstd::prelude::*;
use crate::obs::Obs;
use crate::obs::trace::Event;
use crate::mm::pages::{PhysPages, w_at, w_set, l4_index, l3_index, l2_index, l1_index, lemma_index_bounds};
use crate::mm::identity::{LeafSize, layout, gb_count, lemma_counts};
use crate::mm::paging::{build_identity_2m, PT_DIR_FLAGS, PT_LEAF_FLAGS};
use crate::iommu::state::{IommuState, Mapping, used_mappings, list_mappings};
use crate::iommu::vtd::{DomainSlpt, SLPT_LIMIT, slpt_slot, get_domain_slptptr, lemma_slot_mask_pub};

verus! {

/// Entry bits of second-level tables: present, writable, page size, no-execute.
pub const SL_P: u64 = 1;
pub const SL_RW: u64 = 2;
pub const SL_PS: u64 = 0x80;
pub const SL_NX: u64 = 0x8000_0000_0000_0000;
/// Address bits of a table pointer or 4 KiB leaf, and of a 2 MiB leaf.
pub const SL_MASK: u64 = 0xFFFF_FFFF_FFFF_F000;
pub const SL_MASK_2M: u64 = 0xFFFF_FFFF_FFE0_0000;

/// Second-level table pages: the first `used` pages of `mem` hold tables,
/// the others are free for new ones.
pub struct TablePool {
    pub mem: PhysPages,
    pub used: u64,
}

impl TablePool {
    pub open spec fn wf(&self) -> bool {
        &&& self.mem.wf()
        &&& self.used <= self.mem.page_count()
    }
}

/// Page `k` of `w` set to zero.
pub open spec fn zero_page(w: Seq<u64>, k: int) -> Seq<u64> {
    Seq::new(w.len(), |j: int| if k * 512 <= j < k * 512 + 512 { 0u64 } else { w[j] })
}

/// Address of page `k` of pages at `base`.
pub open spec fn page_addr(base: u64, k: int) -> u64 {
    (base + k * 4096) as u64
}

/// Make sure entry `i` of table `t` points to a table: a non-present entry
/// gets a new zeroed page from the pool (present, writable), while pages
/// last. Gives the pages, the pages in use and the table the entry points to
/// afterwards (its address bits).
pub open spec fn ensure_spec(w: Seq<u64>, base: u64, used: nat, t: u64, i: u64) -> (Seq<u64>, nat, u64) {
    let v = w_at(w, base, t, i);
    if v & SL_P == 0 && used < w.len() / 512 {
        let n = page_addr(base, used as int);
        let w1 = w_set(zero_page(w, used as int), base, t, i, n | SL_P | SL_RW);
        (w1, used + 1, w_at(w1, base, t, i) & SL_MASK)
    } else {
        (w, used, v & SL_MASK)
    }
}

/// Take a zeroed page from the pool.
fn alloc_table(pool: &mut TablePool) -> (r: Option<u64>)
    requires
        old(pool).wf(),
    ensures
        final(pool).wf(),
        final(pool).mem.base == old(pool).mem.base,
        old(pool).used < old(pool).mem.page_count() ==> {
            &&& r == Some(page_addr(old(pool).mem.base, old(pool).used as int))
            &&& final(pool).used == old(pool).used + 1
            &&& final(pool).mem.words@ == zero_page(old(pool).mem.words@, old(pool).used as int)
        },
        old(pool).used >= old(pool).mem.page_count() ==> r is None && *final(pool) == *old(pool),
{
    let npages = (pool.mem.words.len() / 512) as u64;
    if pool.used >= npages {
        return None;
    }
    let k = pool.used;
    let ghost w0 = pool.mem.words@;
    let ghost base = pool.mem.base;
    proof {
        assert(k * 512 + 512 <= w0.len() && k * 4096 <= w0.len() * 8) by (nonlinear_arith)
            requires k < npages, npages == w0.len() / 512;
    }
    let addr = pool.mem.base + k * 4096;
    proof {
        assert(addr - base == k * 4096);
        vstd::arithmetic::div_mod::lemma_fundamental_div_mod_converse((k * 4096) as int, 4096, k as int, 0);
    }
    let mut i: u64 = 0;
    while i < 512
        invariant
            i <= 512,
            pool.mem.base == base,
            pool.mem.words@.len() == w0.len(),
            k * 512 + 512 <= w0.len(),
            addr == base + k * 4096,
            (addr - base) % 4096 == 0,
            (addr - base) / 4096 == k,
            k < w0.len() / 512,
            forall|j: int| 0 <= j < w0.len() ==> #[trigger] pool.mem.words@[j] == (
                if k * 512 <= j < k * 512 + i { 0u64 } else { w0[j] }),
        decreases 512 - i,
    {
        pool.mem.write_entry(addr, i, 0);
        i = i + 1;
    }
    assert(pool.mem.words@ =~= zero_page(w0, k as int));
    pool.used = k + 1;
    Some(addr)
}

/// Make sure entry `idx` of table `table` points to a table (see
/// [`ensure_spec`]) and give that table's address.
pub fn ensure_table_entry(pool: &mut TablePool, table: u64, idx: u64) -> (r: u64)
    requires
        old(pool).wf(),
        idx < 512,
    ensures
        final(pool).wf(),
        final(pool).mem.base == old(pool).mem.base,
        ({
            let s = ensure_spec(old(pool).mem.words@, old(pool).mem.base, old(pool).used as nat, table, idx);
            &&& final(pool).mem.words@ == s.0
            &&& final(pool).used == s.1
            &&& r == s.2
        }),
{
    let v = pool.mem.read_entry(table, idx);
    if v & SL_P == 0 {
        if let Some(p) = alloc_table(pool) {
            pool.mem.write_entry(table, idx, p | SL_P | SL_RW);
        }
    }
    pool.mem.read_entry(table, idx) & SL_MASK
}

/// Leaf flags: present, writable with `w`, no-execute without `x`.
pub open spec fn leaf_flags(w: bool, x: bool) -> u64 {
    SL_P | (if w { SL_RW } else { 0 }) | (if x { 0 } else { SL_NX })
}

fn leaf_flags_exec(w: bool, x: bool) -> (f: u64)
    ensures
        f == leaf_flags(w, x),
{
    SL_P | (if w { SL_RW } else { 0 }) | (if x { 0 } else { SL_NX })
}

/// Map the 4 KiB page of `gpa` to `hpa` in the tables at `cr3`, creating
/// the missing tables on the way.
pub open spec fn map_page_4k_spec(w: Seq<u64>, base: u64, used: nat, cr3: u64, gpa: u64, hpa: u64, flags: u64) -> (Seq<u64>, nat) {
    let s4 = ensure_spec(w, base, used, cr3, l4_index(gpa));
    let s3 = ensure_spec(s4.0, base, s4.1, s4.2, l3_index(gpa));
    let s2 = ensure_spec(s3.0, base, s3.1, s3.2, l2_index(gpa));
    (w_set(s2.0, base, s2.2, l1_index(gpa), (hpa & SL_MASK) | flags), s2.1)
}

fn map_page_4k(pool: &mut TablePool, cr3: u64, gpa: u64, hpa: u64, flags: u64)
    requires
        old(pool).wf(),
    ensures
        final(pool).wf(),
        final(pool).mem.base == old(pool).mem.base,
        ({
            let s = map_page_4k_spec(old(pool).mem.words@, old(pool).mem.base, old(pool).used as nat, cr3, gpa, hpa, flags);
            final(pool).mem.words@ == s.0 && final(pool).used == s.1
        }),
{
    proof { lemma_index_bounds(gpa); }
    let pdpt = ensure_table_entry(pool, cr3, (gpa >> 39u64) & 0x1FF);
    let pd = ensure_table_entry(pool, pdpt, (gpa >> 30u64) & 0x1FF);
    let pt = ensure_table_entry(pool, pd, (gpa >> 21u64) & 0x1FF);
    pool.mem.write_entry(pt, (gpa >> 12u64) & 0x1FF, (hpa & SL_MASK) | flags);
}

/// The 4 KiB pages from `off` up to `len` of a range mapping, one after the other.
pub open spec fn map_4k_from(w: Seq<u64>, base: u64, used: nat, cr3: u64, iova: u64, pa: u64, len: u64, flags: u64, off: int) -> (Seq<u64>, nat)
    decreases len + 4096 - off,
{
    if off < 0 || off >= len {
        (w, used)
    } else {
        let s = map_page_4k_spec(w, base, used, cr3,
            vstd::wrapping::u64_specs::wrapping_add(iova, off as u64),
            vstd::wrapping::u64_specs::wrapping_add(pa, off as u64), flags);
        map_4k_from(s.0, base, s.1, cr3, iova, pa, len, flags, off + 4096)
    }
}

/// Map `len` bytes at `iova` to `pa` with 4 KiB pages, page by page from the
/// start (both addresses wrapping); nothing when `cr3` or `len` is zero.
pub fn map_range_4k(pool: &mut TablePool, cr3: u64, iova: u64, pa: u64, len: u64, r: bool, w: bool, x: bool)
    requires
        old(pool).wf(),
        len <= u64::MAX - 4095,
    ensures
        final(pool).wf(),
        final(pool).mem.base == old(pool).mem.base,
        cr3 == 0 || len == 0 ==> *final(pool) == *old(pool),
        cr3 != 0 ==> ({
            let s = map_4k_from(old(pool).mem.words@, old(pool).mem.base, old(pool).used as nat, cr3, iova, pa, len, leaf_flags(w, x), 0);
            final(pool).mem.words@ == s.0 && final(pool).used == s.1
        }),
{
    if cr3 == 0 || len == 0 {
        return;
    }
    let flags = leaf_flags_exec(w, x);
    let ghost w0 = pool.mem.words@;
    let ghost u0 = pool.used as nat;
    let ghost base = pool.mem.base;
    let mut off: u64 = 0;
    while off < len
        invariant
            pool.wf(),
            pool.mem.base == base,
            len <= u64::MAX - 4095,
            off <= len + 4095,
            map_4k_from(pool.mem.words@, base, pool.used as nat, cr3, iova, pa, len, flags, off as int)
                == map_4k_from(w0, base, u0, cr3, iova, pa, len, flags, 0),
        decreases len + 4096 - off,
    {
        let gpa = iova.wrapping_add(off);
        let hpa = pa.wrapping_add(off);
        map_page_4k(pool, cr3, gpa, hpa, flags);
        off = off + 4096;
    }
}

/// Map the 2 MiB page of `gpa` to `hpa` in the tables at `cr3`: a large
/// leaf in the page directory, creating the missing tables above it.
pub open spec fn map_page_2m_spec(w: Seq<u64>, base: u64, used: nat, cr3: u64, gpa: u64, hpa: u64, flags: u64) -> (Seq<u64>, nat) {
    let s4 = ensure_spec(w, base, used, cr3, l4_index(gpa));
    let s3 = ensure_spec(s4.0, base, s4.1, s4.2, l3_index(gpa));
    (w_set(s3.0, base, s3.2, l2_index(gpa), (hpa & SL_MASK_2M) | flags | SL_PS), s3.1)
}

fn map_page_2m(pool: &mut TablePool, cr3: u64, gpa: u64, hpa: u64, flags: u64)
    requires
        old(pool).wf(),
    ensures
        final(pool).wf(),
        final(pool).mem.base == old(pool).mem.base,
        ({
            let s = map_page_2m_spec(old(pool).mem.words@, old(pool).mem.base, old(pool).used as nat, cr3, gpa, hpa, flags);
            final(pool).mem.words@ == s.0 && final(pool).used == s.1
        }),
{
    proof { lemma_index_bounds(gpa); }
    let pdpt = ensure_table_entry(pool, cr3, (gpa >> 39u64) & 0x1FF);
    let pd = ensure_table_entry(pool, pdpt, (gpa >> 30u64) & 0x1FF);
    pool.mem.write_entry(pd, (gpa >> 21u64) & 0x1FF, (hpa & SL_MASK_2M) | flags | SL_PS);
}

/// The 2 MiB pages from `off` up to `len` of a range mapping.
pub open spec fn map_2m_from(w: Seq<u64>, base: u64, used: nat, cr3: u64, iova: u64, pa: u64, len: u64, flags: u64, off: int) -> (Seq<u64>, nat)
    decreases len + 0x20_0000 - off,
{
    if off < 0 || off >= len {
        (w, used)
    } else {
        let s = map_page_2m_spec(w, base, used, cr3,
            vstd::wrapping::u64_specs::wrapping_add(iova, off as u64),
            vstd::wrapping::u64_specs::wrapping_add(pa, off as u64), flags);
        map_2m_from(s.0, base, s.1, cr3, iova, pa, len, flags, off + 0x20_0000)
    }
}

/// Map `len` bytes at `iova` to `pa` with 2 MiB pages, from the start;
/// nothing when `cr3` or `len` is zero.
pub fn map_range_2m(pool: &mut TablePool, cr3: u64, iova: u64, pa: u64, len: u64, r: bool, w: bool, x: bool)
    requires
        old(pool).wf(),
        len <= u64::MAX - 0x1F_FFFF,
    ensures
        final(pool).wf(),
        final(pool).mem.base == old(pool).mem.base,
        cr3 == 0 || len == 0 ==> *final(pool) == *old(pool),
        cr3 != 0 ==> ({
            let s = map_2m_from(old(pool).mem.words@, old(pool).mem.base, old(pool).used as nat, cr3, iova, pa, len, leaf_flags(w, x), 0);
            final(pool).mem.words@ == s.0 && final(pool).used == s.1
        }),
{
    if cr3 == 0 || len == 0 {
        return;
    }
    let flags = leaf_flags_exec(w, x);
    let ghost w0 = pool.mem.words@;
    let ghost u0 = pool.used as nat;
    let ghost base = pool.mem.base;
    let mut off: u64 = 0;
    while off < len
        invariant
            pool.wf(),
            pool.mem.base == base,
            len <= u64::MAX - 0x1F_FFFF,
            off <= len + 0x1F_FFFF,
            map_2m_from(pool.mem.words@, base, pool.used as nat, cr3, iova, pa, len, flags, off as int)
                == map_2m_from(w0, base, u0, cr3, iova, pa, len, flags, 0),
        decreases len + 0x20_0000 - off,
    {
        let gpa = iova.wrapping_add(off);
        let hpa = pa.wrapping_add(off);
        map_page_2m(pool, cr3, gpa, hpa, flags);
        off = off + 0x20_0000;
    }
}

/// Clear the 4 KiB leaf of `gpa`, when the walk reaches one: nothing is
/// written where an upper entry is missing or a 2 MiB leaf stands.
pub open spec fn unmap_page_4k_spec(w: Seq<u64>, base: u64, cr3: u64, gpa: u64) -> Seq<u64> {
    let v4 = w_at(w, base, cr3, l4_index(gpa));
    let v3 = w_at(w, base, v4 & SL_MASK, l3_index(gpa));
    let v2 = w_at(w, base, v3 & SL_MASK, l2_index(gpa));
    if v4 & SL_P == 0 || v3 & SL_P == 0 || v2 & SL_P == 0 || v2 & SL_PS != 0 {
        w
    } else {
        w_set(w, base, v2 & SL_MASK, l1_index(gpa), 0)
    }
}

fn unmap_page_4k(mem: &mut PhysPages, cr3: u64, gpa: u64)
    ensures
        final(mem).base == old(mem).base,
        final(mem).words@.len() == old(mem).words@.len(),
        final(mem).words@ == unmap_page_4k_spec(old(mem).words@, old(mem).base, cr3, gpa),
{
    proof { lemma_index_bounds(gpa); }
    let v4 = mem.read_entry(cr3, (gpa >> 39u64) & 0x1FF);
    if v4 & SL_P == 0 {
        return;
    }
    let v3 = mem.read_entry(v4 & SL_MASK, (gpa >> 30u64) & 0x1FF);
    if v3 & SL_P == 0 {
        return;
    }
    let v2 = mem.read_entry(v3 & SL_MASK, (gpa >> 21u64) & 0x1FF);
    if v2 & SL_P == 0 || v2 & SL_PS != 0 {
        return;
    }
    mem.write_entry(v2 & SL_MASK, (gpa >> 12u64) & 0x1FF, 0);
}

/// The 4 KiB pages from `off` up to `len` of a range unmapping.
pub open spec fn unmap_4k_from(w: Seq<u64>, base: u64, cr3: u64, iova: u64, len: u64, off: int) -> Seq<u64>
    decreases len + 4096 - off,
{
    if off < 0 || off >= len {
        w
    } else {
        unmap_4k_from(unmap_page_4k_spec(w, base, cr3, vstd::wrapping::u64_specs::wrapping_add(iova, off as u64)),
            base, cr3, iova, len, off + 4096)
    }
}

/// Clear the 4 KiB leaves of `len` bytes at `iova`; nothing when `cr3` or
/// `len` is zero.
pub fn unmap_range_4k(mem: &mut PhysPages, cr3: u64, iova: u64, len: u64)
    requires
        len <= u64::MAX - 4095,
    ensures
        final(mem).base == old(mem).base,
        final(mem).words@.len() == old(mem).words@.len(),
        cr3 == 0 || len == 0 ==> *final(mem) == *old(mem),
        cr3 != 0 ==> final(mem).words@ == unmap_4k_from(old(mem).words@, old(mem).base, cr3, iova, len, 0),
        cr3 != 0 ==> forall|o: u64| #![trigger vstd::wrapping::u64_specs::wrapping_add(iova, o)]
            o < len && o % 4096 == 0 ==> {
                let a = vstd::wrapping::u64_specs::wrapping_add(iova, o);
                walk_pages(final(mem).words@, final(mem).base, cr3, a) is None
                    || covered_2m(final(mem).words@, final(mem).base, cr3, a)
            },
{
    if cr3 == 0 || len == 0 {
        return;
    }
    let ghost w0 = mem.words@;
    let ghost base = mem.base;
    let mut off: u64 = 0;
    while off < len
        invariant
            mem.base == base,
            mem.words@.len() == w0.len(),
            len <= u64::MAX - 4095,
            off <= len + 4095,
            unmap_4k_from(mem.words@, base, cr3, iova, len, off as int) == unmap_4k_from(w0, base, cr3, iova, len, 0),
            off % 4096 == 0,
            forall|o: u64| #![trigger vstd::wrapping::u64_specs::wrapping_add(iova, o)]
                o < off && o < len && o % 4096 == 0 ==> {
                    let a = vstd::wrapping::u64_specs::wrapping_add(iova, o);
                    walk_pages(mem.words@, base, cr3, a) is None || covered_2m(mem.words@, base, cr3, a)
                },
        decreases len + 4096 - off,
    {
        let ghost wb = mem.words@;
        let gpa = iova.wrapping_add(off);
        unmap_page_4k(mem, cr3, gpa);
        proof {
            lemma_unmap_page_walk(wb, base, cr3, gpa);
            assert forall|o: u64| #![trigger vstd::wrapping::u64_specs::wrapping_add(iova, o)]
                o < off + 4096 && o < len && o % 4096 == 0 implies {
                    let a = vstd::wrapping::u64_specs::wrapping_add(iova, o);
                    walk_pages(mem.words@, base, cr3, a) is None || covered_2m(mem.words@, base, cr3, a)
                } by {
                if o < off {
                    lemma_unmap_keeps_unmapped(wb, base, cr3, gpa, vstd::wrapping::u64_specs::wrapping_add(iova, o));
                } else {
                    assert(o == off);
                }
            }
        }
        off = off + 4096;
    }
}

// ---------------------------------------------------------------------------
// Domain tables and the mapping list

/// Pages `w` with `img` placed from page `k` on.
pub open spec fn install(w: Seq<u64>, k: int, img: Seq<u64>) -> Seq<u64> {
    Seq::new(w.len(), |p: int| if k * 512 <= p < k * 512 + img.len() { img[p - k * 512] } else { w[p] })
}

/// Pages a domain's bootstrap tables take.
pub const DOMAIN_TABLE_PAGES: u64 = 3;

/// The table root of domain `domid`; a domain without one gets the identity
/// map of the first GiB with 2 MiB pages, in the next free pages of the pool
/// (nothing when they are not there). Gives the slots, the pages, the pages
/// in use.
pub open spec fn provision_spec(slots: Seq<Option<u64>>, w: Seq<u64>, base: u64, used: nat, domid: u16)
    -> (Seq<Option<u64>>, Seq<u64>, nat)
{
    if slots[slpt_slot(domid)] is None && used + DOMAIN_TABLE_PAGES <= w.len() / 512 {
        let b = page_addr(base, used as int);
        (slots.update(slpt_slot(domid), Some(b)),
            install(w, used as int, layout(LeafSize::Large2M, b, SLPT_LIMIT, PT_DIR_FLAGS, PT_LEAF_FLAGS)),
            (used + DOMAIN_TABLE_PAGES) as nat)
    } else {
        (slots, w, used)
    }
}

/// Give the table root of domain `domid` (see [`provision_spec`]).
pub fn provision_domain(ds: &mut DomainSlpt, pool: &mut TablePool, domid: u16) -> (r: Option<u64>)
    requires
        old(ds).wf(),
        old(pool).wf(),
    ensures
        final(ds).wf(),
        final(pool).wf(),
        final(pool).mem.base == old(pool).mem.base,
        ({
            let s = provision_spec(old(ds).ptrs@, old(pool).mem.words@, old(pool).mem.base, old(pool).used as nat, domid);
            &&& final(ds).ptrs@ == s.0
            &&& final(pool).mem.words@ == s.1
            &&& final(pool).used == s.2
            &&& r == s.0[slpt_slot(domid)]
        }),
{
    let cur = get_domain_slptptr(ds, domid);
    if cur.is_some() {
        return cur;
    }
    let npages = (pool.mem.words.len() / 512) as u64;
    if pool.used > npages || npages - pool.used < DOMAIN_TABLE_PAGES {
        return None;
    }
    let k = pool.used;
    let ghost w0 = pool.mem.words@;
    let ghost base = pool.mem.base;
    proof {
        lemma_page_addr(base, npages as nat, k as nat);
        assert(k * 4096 + 3 * 4096 <= npages * 4096) by (nonlinear_arith) requires k + 3 <= npages;
        assert(npages * 4096 <= w0.len() * 8) by (nonlinear_arith) requires npages == w0.len() / 512;
        lemma_counts(SLPT_LIMIT);
        assert(gb_count(SLPT_LIMIT) == 1);
        assert(k * 512 + 1536 <= w0.len()) by (nonlinear_arith) requires k + 3 <= npages, npages == w0.len() / 512;
    }
    let b = pool.mem.base + k * 4096;
    let img = build_identity_2m(b, SLPT_LIMIT);
    match img {
        None => { return None; }
        Some(m) => {
            let n = m.words.len();
            assert(n == 1536);
            let start = (k * 512) as usize;
            let total = pool.mem.words.len();
            let mut j: usize = 0;
            while j < n
                invariant
                    total == w0.len(),
                    j <= n,
                    n == m.words@.len(),
                    start == k * 512,
                    start + n <= w0.len(),
                    pool.mem.base == base,
                    pool.used == k,
                    pool.mem.words@.len() == w0.len(),
                    forall|p: int| 0 <= p < w0.len() ==> #[trigger] pool.mem.words@[p] == (
                        if start <= p < start + j { m.words@[p - start] } else { w0[p] }),
                decreases n - j,
            {
                pool.mem.words.set(start + j, m.words[j]);
                j = j + 1;
            }
            assert(pool.mem.words@ =~= install(w0, k as int, m.words@));
            pool.used = k + DOMAIN_TABLE_PAGES;
            let idx = (domid as usize) & 0xF;
            proof { lemma_slot_mask_pub(domid as usize); }
            ds.ptrs.set(idx, Some(b));
            Some(b)
        }
    }
}

/// Map one entry of the mapping list into its domain's tables: with 2 MiB
/// pages when IOVA, address and length are all 2 MiB multiples, with 4 KiB
/// pages otherwise.
pub open spec fn apply_mapping_spec(slots: Seq<Option<u64>>, w: Seq<u64>, base: u64, used: nat, m: Mapping)
    -> (Seq<Option<u64>>, Seq<u64>, nat)
{
    let p = provision_spec(slots, w, base, used, m.domid);
    match p.0[slpt_slot(m.domid)] {
        None => p,
        Some(cr3) => {
            let r = if (m.iova | m.pa | m.len) & 0x1F_FFFF == 0 {
                if cr3 == 0 || m.len == 0 { (p.1, p.2) } else { map_2m_from(p.1, base, p.2, cr3, m.iova, m.pa, m.len, leaf_flags(m.perm_w, m.perm_x), 0) }
            } else {
                if cr3 == 0 || m.len == 0 { (p.1, p.2) } else { map_4k_from(p.1, base, p.2, cr3, m.iova, m.pa, m.len, leaf_flags(m.perm_w, m.perm_x), 0) }
            };
            (p.0, r.0, r.1)
        },
    }
}

/// All entries of the mapping list, in order.
pub open spec fn apply_mappings_spec(maps: Seq<Mapping>, slots: Seq<Option<u64>>, w: Seq<u64>, base: u64, used: nat)
    -> (Seq<Option<u64>>, Seq<u64>, nat)
    decreases maps.len(),
{
    if maps.len() == 0 {
        (slots, w, used)
    } else {
        let p = apply_mappings_spec(maps.drop_last(), slots, w, base, used);
        apply_mapping_spec(p.0, p.1, base, p.2, maps.last())
    }
}

/// Mapping lengths the page loops can step through.
pub open spec fn lengths_ok(maps: Seq<Mapping>) -> bool {
    forall|i: int| 0 <= i < maps.len() ==> #[trigger] maps[i].len <= u64::MAX - 0x1F_FFFF
}

pub fn apply_mapping(ds: &mut DomainSlpt, pool: &mut TablePool, m: &Mapping)
    requires
        old(ds).wf(),
        old(pool).wf(),
        m.len <= u64::MAX - 0x1F_FFFF,
    ensures
        final(ds).wf(),
        final(pool).wf(),
        final(pool).mem.base == old(pool).mem.base,
        ({
            let s = apply_mapping_spec(old(ds).ptrs@, old(pool).mem.words@, old(pool).mem.base, old(pool).used as nat, *m);
            final(ds).ptrs@ == s.0 && final(pool).mem.words@ == s.1 && final(pool).used == s.2
        }),
{
    if let Some(cr3) = provision_domain(ds, pool, m.domid) {
        if (m.iova | m.pa | m.len) & 0x1F_FFFF == 0 {
            map_range_2m(pool, cr3, m.iova, m.pa, m.len, m.perm_r, m.perm_w, m.perm_x);
        } else {
            map_range_4k(pool, cr3, m.iova, m.pa, m.len, m.perm_r, m.perm_w, m.perm_x);
        }
    }
}

/// Whether every mapping's length can be stepped through (what
/// [`apply_mappings`] needs).
pub fn mapping_lengths_ok(st: &IommuState) -> (r: bool)
    requires
        st.wf(),
    ensures
        r == lengths_ok(used_mappings(st.mappings@)),
{
    let maps = list_mappings(st);
    let mut i: usize = 0;
    while i < maps.len()
        invariant
            i <= maps@.len(),
            maps@ == used_mappings(st.mappings@),
            forall|k: int| 0 <= k < i ==> #[trigger] maps@[k].len <= u64::MAX - 0x1F_FFFF,
        decreases maps@.len() - i,
    {
        if maps[i].len > u64::MAX - 0x1F_FFFF {
            return false;
        }
        i = i + 1;
    }
    true
}

/// Write every mapping of the registry into its domain's second-level
/// tables, and trace it (domain 0: the trace covers every mapping).
pub fn apply_mappings(st: &IommuState, ds: &mut DomainSlpt, pool: &mut TablePool, obs: &mut Obs)
    requires
        st.wf(),
        old(ds).wf(),
        old(pool).wf(),
        lengths_ok(used_mappings(st.mappings@)),
        old(obs).wf(),
        old(obs).room(1),
    ensures
        final(obs).wf(),
        final(obs).metrics == old(obs).metrics,
        final(obs).audit == old(obs).audit,
        final(obs).trace.hist@ == old(obs).trace.hist@.push(Event::IommuMapAdded(0)),
        final(ds).wf(),
        final(pool).wf(),
        final(pool).mem.base == old(pool).mem.base,
        ({
            let s = apply_mappings_spec(used_mappings(st.mappings@), old(ds).ptrs@, old(pool).mem.words@,
                old(pool).mem.base, old(pool).used as nat);
            final(ds).ptrs@ == s.0 && final(pool).mem.words@ == s.1 && final(pool).used == s.2
        }),
{
    obs.trace.record(Event::IommuMapAdded(0));
    let maps = list_mappings(st);
    let ghost s0 = ds.ptrs@;
    let ghost w0 = pool.mem.words@;
    let ghost u0 = pool.used as nat;
    let ghost base = pool.mem.base;
    let mut i: usize = 0;
    while i < maps.len()
        invariant
            i <= maps@.len(),
            maps@ == used_mappings(st.mappings@),
            lengths_ok(maps@),
            ds.wf(),
            pool.wf(),
            pool.mem.base == base,
            ({
                let s = apply_mappings_spec(maps@.take(i as int), s0, w0, base, u0);
                ds.ptrs@ == s.0 && pool.mem.words@ == s.1 && pool.used == s.2
            }),
        decreases maps@.len() - i,
    {
        assert(maps@.take(i + 1).drop_last() =~= maps@.take(i as int));
        assert(maps@.take(i + 1).last() == maps@[i as int]);
        assert(maps@[i as int].len <= u64::MAX - 0x1F_FFFF);
        apply_mapping(ds, pool, &maps[i]);
        i = i + 1;
    }
    assert(maps@.take(maps@.len() as int) =~= maps@);
}

/// Clear the 4 KiB leaves of `len` bytes at `iova` in domain `dom`'s tables,
/// when it has tables, and trace the removal.
pub fn unmap_range(ds: &DomainSlpt, pool: &mut TablePool, dom: u16, iova: u64, len: u64, obs: &mut Obs)
    requires
        ds.wf(),
        old(pool).wf(),
        len <= u64::MAX - 4095,
        old(obs).wf(),
        old(obs).room(1),
    ensures
        final(obs).wf(),
        final(obs).metrics == old(obs).metrics,
        final(obs).audit == old(obs).audit,
        final(obs).trace.hist@ == old(obs).trace.hist@.push(Event::IommuMapRemoved(dom)),
        final(pool).wf(),
        final(pool).mem.base == old(pool).mem.base,
        final(pool).used == old(pool).used,
        match ds.ptrs@[slpt_slot(dom)] {
            Some(cr3) => cr3 != 0 ==> final(pool).mem.words@ == unmap_4k_from(old(pool).mem.words@, old(pool).mem.base, cr3, iova, len, 0),
            None => true,
        },
        match ds.ptrs@[slpt_slot(dom)] {
            Some(cr3) => cr3 == 0 ==> *final(pool) == *old(pool),
            None => *final(pool) == *old(pool),
        },
{
    if let Some(cr3) = get_domain_slptptr(ds, dom) {
        unmap_range_4k(&mut pool.mem, cr3, iova, len);
    }
    obs.trace.record(Event::IommuMapRemoved(dom));
}

// ---------------------------------------------------------------------------
// Reading back what was mapped

/// `t` is one of the first `used` pages at `base`.
pub open spec fn in_use(base: u64, used: nat, t: u64) -> bool {
    base <= t && (t - base) % 4096 == 0 && (t - base) / 4096 < used
}

/// The second-level walk of `iova` from `cr3` over pages `w` at `base`
/// (what `walk_second_level` gives for such pages).
pub open spec fn walk_pages(w: Seq<u64>, base: u64, cr3: u64, iova: u64) -> Option<u64> {
    if cr3 == 0 {
        None
    } else {
        let v4 = w_at(w, base, cr3, l4_index(iova));
        if v4 & 1 == 0 {
            None
        } else {
            let v3 = w_at(w, base, v4 & SL_MASK, l3_index(iova));
            if v3 & 1 == 0 {
                None
            } else {
                let v2 = w_at(w, base, v3 & SL_MASK, l2_index(iova));
                if v2 & 1 == 0 {
                    None
                } else if v2 & 0x80 != 0 {
                    Some((v2 & SL_MASK_2M) | (iova & 0x1F_FFFF))
                } else {
                    let v1 = w_at(w, base, v2 & SL_MASK, l1_index(iova));
                    if v1 & 1 == 0 {
                        None
                    } else {
                        Some((v1 & SL_MASK) | (iova & 0xFFF))
                    }
                }
            }
        }
    }
}

/// The tables on the way to `gpa` from `cr3` are tables in use, each a page
/// of its own, and no 2 MiB leaf stands where the 4 KiB page goes.
pub open spec fn path_ok_4k(w: Seq<u64>, base: u64, used: nat, cr3: u64, gpa: u64) -> bool {
    let v4 = w_at(w, base, cr3, l4_index(gpa));
    let pdpt = v4 & SL_MASK;
    let v3 = w_at(w, base, pdpt, l3_index(gpa));
    let pd = v3 & SL_MASK;
    let v2 = w_at(w, base, pd, l2_index(gpa));
    let pt = v2 & SL_MASK;
    &&& cr3 != 0 && in_use(base, used, cr3)
    &&& v4 & SL_P != 0 ==> {
        &&& in_use(base, used, pdpt) && pdpt != cr3
        &&& v3 & SL_P != 0 ==> {
            &&& in_use(base, used, pd) && pd != cr3 && pd != pdpt
            &&& v2 & SL_P != 0 ==> v2 & SL_PS == 0 && in_use(base, used, pt) && pt != cr3 && pt != pdpt && pt != pd
        }
    }
}

/// What the walk gives for `gpa` once its 4 KiB page is mapped to `hpa`.
pub open spec fn mapped_4k(hpa: u64, flags: u64, gpa: u64) -> u64 {
    (((hpa & SL_MASK) | flags) & SL_MASK) | (gpa & 0xFFF)
}

proof fn lemma_page_index(base: u64, t: u64)
    requires
        base <= t,
        (t - base) % 4096 == 0,
    ensures
        t == base + ((t - base) / 4096) * 4096,
{
    vstd::arithmetic::div_mod::lemma_fundamental_div_mod((t - base) as int, 4096);
}

/// Different entries of pages in the pool are different words.
pub proof fn lemma_pos_distinct(base: u64, t1: u64, i1: u64, t2: u64, i2: u64)
    requires
        base <= t1, (t1 - base) % 4096 == 0,
        base <= t2, (t2 - base) % 4096 == 0,
        i1 < 512, i2 < 512,
        t1 != t2 || i1 != i2,
    ensures
        ((t1 - base) / 4096) * 512 + i1 != ((t2 - base) / 4096) * 512 + i2,
{
    lemma_page_index(base, t1);
    lemma_page_index(base, t2);
    let k1 = (t1 - base) / 4096;
    let k2 = (t2 - base) / 4096;
    if k1 == k2 {
        assert(t1 == t2);
    } else {
        assert(k1 * 512 + i1 != k2 * 512 + i2) by (nonlinear_arith)
            requires k1 != k2, i1 < 512, i2 < 512, k1 >= 0, k2 >= 0;
    }
}

/// A write changes only its own entry.
pub proof fn lemma_w_set_frame(w: Seq<u64>, base: u64, t: u64, i: u64, v: u64, t2: u64, i2: u64)
    requires
        i < 512,
        i2 < 512,
        base <= t2 && (t2 - base) % 4096 == 0 && (t2 - base) / 4096 < w.len() / 512,
        t != t2 || i != i2,
    ensures
        w_at(w_set(w, base, t, i, v), base, t2, i2) == w_at(w, base, t2, i2),
{
    if base <= t && (t - base) % 4096 == 0 && (t - base) / 4096 < w.len() / 512 {
        lemma_pos_distinct(base, t, i, t2, i2);
        let k2 = (t2 - base) / 4096;
        assert(k2 * 512 + i2 < w.len()) by (nonlinear_arith)
            requires k2 < w.len() / 512, i2 < 512, k2 >= 0;
        let k = (t - base) / 4096;
        assert(k * 512 + i < w.len()) by (nonlinear_arith)
            requires k < w.len() / 512, i < 512, k >= 0;
    }
}

/// A write to an entry in the pool reads back.
pub proof fn lemma_w_set_same(w: Seq<u64>, base: u64, t: u64, i: u64, v: u64)
    requires
        i < 512,
        base <= t && (t - base) % 4096 == 0 && (t - base) / 4096 < w.len() / 512,
    ensures
        w_at(w_set(w, base, t, i, v), base, t, i) == v,
{
    let k = (t - base) / 4096;
    assert(k * 512 + i < w.len()) by (nonlinear_arith)
        requires k < w.len() / 512, i < 512, k >= 0;
}

/// Zeroing page `k` leaves the other pages alone and reads back zero.
proof fn lemma_zero_frame(w: Seq<u64>, base: u64, k: nat, t: u64, i: u64)
    requires
        i < 512,
        base <= t && (t - base) % 4096 == 0 && (t - base) / 4096 < w.len() / 512,
    ensures
        (t - base) / 4096 != k ==> w_at(zero_page(w, k as int), base, t, i) == w_at(w, base, t, i),
        (t - base) / 4096 == k ==> w_at(zero_page(w, k as int), base, t, i) == 0,
{
    let kt = (t - base) / 4096;
    assert(kt * 512 + i < w.len()) by (nonlinear_arith)
        requires kt < w.len() / 512, i < 512, kt >= 0;
    if kt != k {
        assert(!(k * 512 <= kt * 512 + i < k * 512 + 512)) by (nonlinear_arith)
            requires kt != k, i < 512, kt >= 0, k >= 0;
    } else {
        assert(k * 512 <= kt * 512 + i < k * 512 + 512);
    }
}

/// Page `k` of the pool is at `page_addr(base, k)`.
proof fn lemma_page_addr(base: u64, n: nat, k: nat)
    requires
        base % 4096 == 0,
        base + n * 4096 <= crate::mm::pages::PHYS_LIMIT,
        k < n,
    ensures
        base <= page_addr(base, k as int),
        (page_addr(base, k as int) - base) % 4096 == 0,
        (page_addr(base, k as int) - base) / 4096 == k,
        page_addr(base, k as int) % 4096 == 0,
        page_addr(base, k as int) < crate::mm::pages::PHYS_LIMIT,
{
    assert(k * 4096 < n * 4096) by (nonlinear_arith) requires k < n;
    let t = page_addr(base, k as int);
    assert(t - base == k * 4096);
    vstd::arithmetic::div_mod::lemma_fundamental_div_mod_converse((k * 4096) as int, 4096, k as int, 0);
    assert(t % 4096 == 0) by (nonlinear_arith) requires t == base + k * 4096, base % 4096 == 0;
}

/// A new table entry: present, not a large page, pointing at the page.
proof fn lemma_table_entry_bits(n: u64)
    requires
        n % 4096 == 0,
    ensures
        (n | SL_P | SL_RW) & SL_P != 0,
        (n | SL_P | SL_RW) & SL_PS == 0,
        (n | SL_P | SL_RW) & SL_MASK == n,
{
    assert(((n | 1 | 2) & 1 != 0) && ((n | 1 | 2) & 0x80 == 0) && ((n | 1 | 2) & 0xFFFF_FFFF_FFFF_F000 == n)) by (bit_vector)
        requires n % 4096 == 0;
}

/// One `ensure_spec` step on the way down: the entry afterwards points to a
/// table in use, other than `t` and the tables in `excl`; entries of the
/// tables in use other than this one are untouched; a table taken from the
/// pool reads as zero.
pub(crate) proof fn lemma_ensure_step(w: Seq<u64>, base: u64, used: nat, t: u64, i: u64, excl: Seq<u64>, leaf_level: bool)
    requires
        w.len() % 512 == 0,
        base % 4096 == 0,
        base + w.len() * 8 <= crate::mm::pages::PHYS_LIMIT,
        used < w.len() / 512,
        i < 512,
        in_use(base, used, t),
        forall|q: int| 0 <= q < excl.len() ==> in_use(base, used, #[trigger] excl[q]),
        w_at(w, base, t, i) & SL_P != 0 ==> {
            let c = w_at(w, base, t, i) & SL_MASK;
            &&& in_use(base, used, c) && c != t
            &&& forall|q: int| 0 <= q < excl.len() ==> #[trigger] excl[q] != c
            &&& leaf_level ==> w_at(w, base, t, i) & SL_PS == 0
        },
    ensures
        ({
            let s = ensure_spec(w, base, used, t, i);
            &&& s.0.len() == w.len()
            &&& s.1 == used || s.1 == used + 1
            &&& in_use(base, s.1, s.2) && s.2 != t
            &&& forall|q: int| 0 <= q < excl.len() ==> #[trigger] excl[q] != s.2
            &&& w_at(s.0, base, t, i) & SL_P != 0
            &&& w_at(s.0, base, t, i) & SL_MASK == s.2
            &&& leaf_level ==> w_at(s.0, base, t, i) & SL_PS == 0
            &&& forall|t2: u64, i2: u64| #![trigger w_at(s.0, base, t2, i2)]
                    in_use(base, used, t2) && i2 < 512 && (t2 != t || i2 != i) ==> w_at(s.0, base, t2, i2) == w_at(w, base, t2, i2)
            &&& s.1 == used + 1 ==> !in_use(base, used, s.2) && forall|j: u64| j < 512 ==> #[trigger] w_at(s.0, base, s.2, j) == 0
            &&& s.1 == used ==> s.0 == w && s.2 == w_at(w, base, t, i) & SL_MASK
        }),
{
    let n_pages = w.len() / 512;
    assert(w.len() == n_pages * 512);
    assert(base + n_pages * 4096 <= crate::mm::pages::PHYS_LIMIT);
    let v = w_at(w, base, t, i);
    if v & SL_P == 0 {
        let n = page_addr(base, used as int);
        lemma_page_addr(base, n_pages, used);
        let z = zero_page(w, used as int);
        let w1 = w_set(z, base, t, i, n | SL_P | SL_RW);
        assert((t - base) / 4096 < n_pages);
        lemma_zero_frame(w, base, used, t, i);
        lemma_w_set_same(z, base, t, i, n | SL_P | SL_RW);
        lemma_table_entry_bits(n);
        assert forall|t2: u64, i2: u64| #![trigger w_at(w1, base, t2, i2)]
            in_use(base, used, t2) && i2 < 512 && (t2 != t || i2 != i) implies w_at(w1, base, t2, i2) == w_at(w, base, t2, i2) by {
            lemma_w_set_frame(z, base, t, i, n | SL_P | SL_RW, t2, i2);
            lemma_zero_frame(w, base, used, t2, i2);
        }
        assert forall|j: u64| j < 512 implies #[trigger] w_at(w1, base, n, j) == 0 by {
            if n != t || j != i {
                lemma_w_set_frame(z, base, t, i, n | SL_P | SL_RW, n, j);
            }
            lemma_zero_frame(w, base, used, n, j);
        }
        assert forall|q: int| 0 <= q < excl.len() implies #[trigger] excl[q] != n by {
            assert(in_use(base, used, excl[q]));
        }
    }
}

/// A zero entry is not present and points nowhere.
pub proof fn lemma_zero_entry()
    by (bit_vector)
    ensures
        0u64 & SL_P == 0,
        0u64 & 1 == 0,
        0u64 & SL_MASK == 0,
{
}

/// A leaf written with the present bit reads as present.
proof fn lemma_leaf_bits(hpa: u64, flags: u64)
    requires
        flags & SL_P != 0,
    ensures
        ((hpa & SL_MASK) | flags) & 1 != 0,
{
    assert(((hpa & 0xFFFF_FFFF_FFFF_F000) | flags) & 1 != 0) by (bit_vector)
        requires flags & 1 != 0;
}

/// Mapping one 4 KiB page: the walk of its address then gives the new page.
pub proof fn lemma_map_page_4k_walk(w: Seq<u64>, base: u64, used: nat, cr3: u64, gpa: u64, hpa: u64, flags: u64)
    requires
        w.len() % 512 == 0,
        base % 4096 == 0,
        base + w.len() * 8 <= crate::mm::pages::PHYS_LIMIT,
        used + 3 <= w.len() / 512,
        path_ok_4k(w, base, used, cr3, gpa),
        flags & SL_P != 0,
    ensures
        walk_pages(map_page_4k_spec(w, base, used, cr3, gpa, hpa, flags).0, base, cr3, gpa) == Some(mapped_4k(hpa, flags, gpa)),
{
    lemma_index_bounds(gpa);
    let i4 = l4_index(gpa);
    let i3 = l3_index(gpa);
    let i2 = l2_index(gpa);
    let i1 = l1_index(gpa);
    let s4 = ensure_spec(w, base, used, cr3, i4);
    lemma_ensure_step(w, base, used, cr3, i4, seq![], false);
    let pdpt = s4.2;
    // The next level, from the state after the first step.
    let e1: Seq<u64> = seq![cr3];
    assert(e1.len() == 1 && e1[0] == cr3);
    if s4.1 == used {
        assert(s4.0 == w);
        assert(pdpt == w_at(w, base, cr3, i4) & SL_MASK);
    } else {
        assert(w_at(s4.0, base, pdpt, i3) == 0);
        lemma_zero_entry();
    }
    lemma_ensure_step(s4.0, base, s4.1, pdpt, i3, e1, false);
    let s3 = ensure_spec(s4.0, base, s4.1, pdpt, i3);
    let pd = s3.2;
    let e2: Seq<u64> = seq![cr3, pdpt];
    assert(e2.len() == 2 && e2[0] == cr3 && e2[1] == pdpt);
    if s3.1 == s4.1 {
        assert(s3.0 == s4.0);
        if s4.1 == used {
            assert(pd == w_at(w, base, pdpt, i3) & SL_MASK);
        } else {
            assert(w_at(s4.0, base, pdpt, i3) == 0);
            lemma_zero_entry();
        }
    } else {
        assert(w_at(s3.0, base, pd, i2) == 0);
        lemma_zero_entry();
    }
    assert(in_use(base, s3.1, cr3) && in_use(base, s3.1, pdpt));
    lemma_ensure_step(s3.0, base, s3.1, pd, i2, e2, true);
    let s2 = ensure_spec(s3.0, base, s3.1, pd, i2);
    let pt = s2.2;
    let leaf = (hpa & SL_MASK) | flags;
    let wf = w_set(s2.0, base, pt, i1, leaf);
    // The pointers on the path survive the later steps and the leaf write.
    assert(w_at(s3.0, base, cr3, i4) == w_at(s4.0, base, cr3, i4));
    assert(w_at(s2.0, base, cr3, i4) == w_at(s3.0, base, cr3, i4));
    assert(w_at(s2.0, base, pdpt, i3) == w_at(s3.0, base, pdpt, i3));
    let n_pages = w.len() / 512;
    assert(s2.1 <= n_pages);
    assert((pt - base) / 4096 < s2.0.len() / 512);
    lemma_w_set_frame(s2.0, base, pt, i1, leaf, cr3, i4);
    lemma_w_set_frame(s2.0, base, pt, i1, leaf, pdpt, i3);
    lemma_w_set_frame(s2.0, base, pt, i1, leaf, pd, i2);
    lemma_w_set_same(s2.0, base, pt, i1, leaf);
    lemma_leaf_bits(hpa, flags);
    assert(map_page_4k_spec(w, base, used, cr3, gpa, hpa, flags).0 == wf);
}

/// A write leaves every entry either as it was or holding the value written.
pub proof fn lemma_w_set_read(w: Seq<u64>, base: u64, t: u64, i: u64, v: u64, t2: u64, i2: u64)
    requires
        i < 512,
        i2 < 512,
    ensures
        w_at(w_set(w, base, t, i, v), base, t2, i2) == w_at(w, base, t2, i2)
            || w_at(w_set(w, base, t, i, v), base, t2, i2) == v,
{
    if base <= t2 && (t2 - base) % 4096 == 0 && (t2 - base) / 4096 < w.len() / 512 {
        if t != t2 || i != i2 {
            lemma_w_set_frame(w, base, t, i, v, t2, i2);
        } else if base <= t && (t - base) % 4096 == 0 && (t - base) / 4096 < w.len() / 512 {
            lemma_w_set_same(w, base, t, i, v);
        }
    }
}

/// The walk of `a` ends in a 2 MiB leaf.
pub open spec fn covered_2m(w: Seq<u64>, base: u64, cr3: u64, a: u64) -> bool {
    let v4 = w_at(w, base, cr3, l4_index(a));
    let v3 = w_at(w, base, v4 & SL_MASK, l3_index(a));
    let v2 = w_at(w, base, v3 & SL_MASK, l2_index(a));
    cr3 != 0 && v4 & 1 != 0 && v3 & 1 != 0 && v2 & 1 != 0 && v2 & 0x80 != 0
}

/// Clearing an entry keeps an address unmapped, or under a large page.
proof fn lemma_clear_keeps_unmapped(w: Seq<u64>, base: u64, t: u64, i: u64, cr3: u64, a: u64)
    requires
        i < 512,
        walk_pages(w, base, cr3, a) is None || covered_2m(w, base, cr3, a),
    ensures
        walk_pages(w_set(w, base, t, i, 0), base, cr3, a) is None || covered_2m(w_set(w, base, t, i, 0), base, cr3, a),
{
    lemma_index_bounds(a);
    let w1 = w_set(w, base, t, i, 0);
    lemma_zero_entry();
    let v4 = w_at(w, base, cr3, l4_index(a));
    lemma_w_set_read(w, base, t, i, 0, cr3, l4_index(a));
    let v3 = w_at(w, base, v4 & SL_MASK, l3_index(a));
    lemma_w_set_read(w, base, t, i, 0, v4 & SL_MASK, l3_index(a));
    let v2 = w_at(w, base, v3 & SL_MASK, l2_index(a));
    lemma_w_set_read(w, base, t, i, 0, v3 & SL_MASK, l2_index(a));
    lemma_w_set_read(w, base, t, i, 0, v2 & SL_MASK, l1_index(a));
}

/// After clearing the 4 KiB page of `gpa`, its walk finds nothing, unless a
/// 2 MiB leaf covers it.
pub proof fn lemma_unmap_page_walk(w: Seq<u64>, base: u64, cr3: u64, gpa: u64)
    ensures
        walk_pages(unmap_page_4k_spec(w, base, cr3, gpa), base, cr3, gpa) is None
            || covered_2m(unmap_page_4k_spec(w, base, cr3, gpa), base, cr3, gpa),
{
    lemma_index_bounds(gpa);
    let v4 = w_at(w, base, cr3, l4_index(gpa));
    let v3 = w_at(w, base, v4 & SL_MASK, l3_index(gpa));
    let v2 = w_at(w, base, v3 & SL_MASK, l2_index(gpa));
    if !(v4 & SL_P == 0 || v3 & SL_P == 0 || v2 & SL_P == 0 || v2 & SL_PS != 0) {
        let pt = v2 & SL_MASK;
        let w1 = w_set(w, base, pt, l1_index(gpa), 0);
        lemma_zero_entry();
        lemma_w_set_read(w, base, pt, l1_index(gpa), 0, cr3, l4_index(gpa));
        lemma_w_set_read(w, base, pt, l1_index(gpa), 0, v4 & SL_MASK, l3_index(gpa));
        lemma_w_set_read(w, base, pt, l1_index(gpa), 0, v3 & SL_MASK, l2_index(gpa));
        if base <= pt && (pt - base) % 4096 == 0 && (pt - base) / 4096 < w.len() / 512 {
            lemma_w_set_same(w, base, pt, l1_index(gpa), 0);
        }
    }
}

/// Unmapping a page keeps the pages unmapped before unmapped.
proof fn lemma_unmap_keeps_unmapped(w: Seq<u64>, base: u64, cr3: u64, gpa: u64, a: u64)
    requires
        walk_pages(w, base, cr3, a) is None || covered_2m(w, base, cr3, a),
    ensures
        walk_pages(unmap_page_4k_spec(w, base, cr3, gpa), base, cr3, a) is None
            || covered_2m(unmap_page_4k_spec(w, base, cr3, gpa), base, cr3, a),
{
    lemma_index_bounds(gpa);
    let v4 = w_at(w, base, cr3, l4_index(gpa));
    let v3 = w_at(w, base, v4 & SL_MASK, l3_index(gpa));
    let v2 = w_at(w, base, v3 & SL_MASK, l2_index(gpa));
    if !(v4 & SL_P == 0 || v3 & SL_P == 0 || v2 & SL_P == 0 || v2 & SL_PS != 0) {
        lemma_clear_keeps_unmapped(w, base, v2 & SL_MASK, l1_index(gpa), cr3, a);
    }
}

/// The tables above the page directory entry of `gpa` are tables in use,
/// each a page of its own.
pub open spec fn path_ok_2m(w: Seq<u64>, base: u64, used: nat, cr3: u64, gpa: u64) -> bool {
    let v4 = w_at(w, base, cr3, l4_index(gpa));
    let pdpt = v4 & SL_MASK;
    let v3 = w_at(w, base, pdpt, l3_index(gpa));
    let pd = v3 & SL_MASK;
    &&& cr3 != 0 && in_use(base, used, cr3)
    &&& v4 & SL_P != 0 ==> {
        &&& in_use(base, used, pdpt) && pdpt != cr3
        &&& v3 & SL_P != 0 ==> in_use(base, used, pd) && pd != cr3 && pd != pdpt
    }
}

/// What the walk gives for `gpa` once its 2 MiB page is mapped to `hpa`.
pub open spec fn mapped_2m(hpa: u64, flags: u64, gpa: u64) -> u64 {
    (((hpa & SL_MASK_2M) | flags | SL_PS) & SL_MASK_2M) | (gpa & 0x1F_FFFF)
}

pub(crate) proof fn lemma_big_leaf_bits(hpa: u64, flags: u64)
    requires
        flags & SL_P != 0,
    ensures
        ((hpa & SL_MASK_2M) | flags | SL_PS) & 1 != 0,
        ((hpa & SL_MASK_2M) | flags | SL_PS) & 0x80 != 0,
{
    assert((((hpa & 0xFFFF_FFFF_FFE0_0000) | flags | 0x80) & 1 != 0)
        && (((hpa & 0xFFFF_FFFF_FFE0_0000) | flags | 0x80) & 0x80 != 0)) by (bit_vector)
        requires flags & 1 != 0;
}

/// Mapping one 2 MiB page: the walk of its address then gives the new page.
pub proof fn lemma_map_page_2m_walk(w: Seq<u64>, base: u64, used: nat, cr3: u64, gpa: u64, hpa: u64, flags: u64)
    requires
        w.len() % 512 == 0,
        base % 4096 == 0,
        base + w.len() * 8 <= crate::mm::pages::PHYS_LIMIT,
        used + 2 <= w.len() / 512,
        path_ok_2m(w, base, used, cr3, gpa),
        flags & SL_P != 0,
    ensures
        walk_pages(map_page_2m_spec(w, base, used, cr3, gpa, hpa, flags).0, base, cr3, gpa) == Some(mapped_2m(hpa, flags, gpa)),
{
    lemma_index_bounds(gpa);
    let i4 = l4_index(gpa);
    let i3 = l3_index(gpa);
    let i2 = l2_index(gpa);
    let s4 = ensure_spec(w, base, used, cr3, i4);
    lemma_ensure_step(w, base, used, cr3, i4, seq![], false);
    let pdpt = s4.2;
    let e1: Seq<u64> = seq![cr3];
    assert(e1.len() == 1 && e1[0] == cr3);
    if s4.1 == used {
        assert(s4.0 == w);
        assert(pdpt == w_at(w, base, cr3, i4) & SL_MASK);
    } else {
        assert(w_at(s4.0, base, pdpt, i3) == 0);
        lemma_zero_entry();
    }
    lemma_ensure_step(s4.0, base, s4.1, pdpt, i3, e1, false);
    let s3 = ensure_spec(s4.0, base, s4.1, pdpt, i3);
    let pd = s3.2;
    let leaf = (hpa & SL_MASK_2M) | flags | SL_PS;
    assert(w_at(s3.0, base, cr3, i4) == w_at(s4.0, base, cr3, i4));
    assert((pd - base) / 4096 < s3.0.len() / 512);
    lemma_w_set_frame(s3.0, base, pd, i2, leaf, cr3, i4);
    lemma_w_set_frame(s3.0, base, pd, i2, leaf, pdpt, i3);
    lemma_w_set_same(s3.0, base, pd, i2, leaf);
    lemma_big_leaf_bits(hpa, flags);
}

/// The walk over a pool's pages is the second-level walk of its memory.
pub proof fn lemma_walk_pages(mem: PhysPages, cr3: u64, iova: u64)
    ensures
        crate::iommu::vtd::walk_spec(mem, cr3, iova).0 == walk_pages(mem.words@, mem.base, cr3, iova),
{
}

} // verus!
