//! Dirty-page scanning of a VM's nested page tables (EPT or NPT): a walk of
//! guest-physical addresses below a limit that reports the pages whose
//! leaves carry the dirty flag, optionally clearing accessed and dirty.

use vstd::prelude::*;
use crate::mm::pages::{PhysPages, w_at, w_set, l4_index, l3_index, l2_index, l1_index, lemma_index_bounds};
use crate::migrate::dirty::{DirtyBitmap, bit_at};
use crate::mm::ept::{lemma_walk_bits, lemma_region_bits, lemma_next_boundary};

verus! {

/// Highest guest-physical address a 4-level walk distinguishes.
pub const WALK_LIMIT: u64 = 0x1_0000_0000_0000;
/// Table address mask.
pub const TABLE_MASK: u64 = 0x000F_FFFF_FFFF_F000;
/// Present (EPT: readable) and page-size bits, common to both formats.
pub const ENTRY_P: u64 = 1;
pub const ENTRY_PS: u64 = 0x80;
/// Pages in a 1 GiB and in a 2 MiB leaf.
pub const PAGES_1G: u64 = 0x4_0000;
pub const PAGES_2M: u64 = 0x200;

/// Dirty flag: EPT bit 9, NPT bit 6.
pub open spec fn dirty_flag(ept: bool) -> u64 {
    if ept { 0x200 } else { 0x40 }
}

/// Accessed and dirty flags: EPT bits 8-9, NPT bits 5-6.
pub open spec fn ad_flags(ept: bool) -> u64 {
    if ept { 0x300 } else { 0x60 }
}

pub open spec fn sat_add(a: u64, b: u64) -> u64 {
    if a + b > u64::MAX { u64::MAX } else { (a + b) as u64 }
}

/// One page-table page of the scan, from entry `i` at address `addr`: each
/// present dirty entry reports its page (and loses accessed/dirty when
/// `clear`); the run stops at the limit, at the table's end or after the
/// entry that ends a 2 MiB span. Gives the pages, the reports, their count
/// and the next address.
pub open spec fn pt_scan(w: Seq<u64>, base: u64, pt: u64, limit: u64, clear: bool, ept: bool, addr: u64, i: u64)
    -> (Seq<u64>, Seq<(u64, u64)>, nat, u64)
    decreases 512 - i,
{
    if !(addr < limit && i < 512) {
        (w, Seq::empty(), 0, addr)
    } else {
        let pte = w_at(w, base, pt, i);
        let hit = pte & ENTRY_P != 0 && pte & dirty_flag(ept) != 0;
        let w1 = if hit && clear { w_set(w, base, pt, i, pte & !ad_flags(ept)) } else { w };
        let m: Seq<(u64, u64)> = if hit { seq![(addr >> 12u64, 1u64)] } else { Seq::empty() };
        let c: nat = if hit { 1 } else { 0 };
        let a2 = sat_add(addr, 4096);
        if a2 & 0x1F_FFFF == 0 {
            (w1, m, c, a2)
        } else {
            let r = pt_scan(w1, base, pt, limit, clear, ept, a2, (i + 1) as u64);
            (r.0, m + r.1, c + r.2, r.3)
        }
    }
}

pub proof fn lemma_pt_scan_advances(w: Seq<u64>, base: u64, pt: u64, limit: u64, clear: bool, ept: bool, addr: u64, i: u64)
    requires
        addr < limit,
        i < 512,
    ensures
        pt_scan(w, base, pt, limit, clear, ept, addr, i).3 > addr,
    decreases 512 - i,
{
    let pte = w_at(w, base, pt, i);
    let hit = pte & ENTRY_P != 0 && pte & dirty_flag(ept) != 0;
    let w1 = if hit && clear { w_set(w, base, pt, i, pte & !ad_flags(ept)) } else { w };
    let a2 = sat_add(addr, 4096);
    if a2 & 0x1F_FFFF != 0 {
        if a2 < limit && i + 1 < 512 {
            lemma_pt_scan_advances(w1, base, pt, limit, clear, ept, a2, (i + 1) as u64);
        } else {
            assert(pt_scan(w1, base, pt, limit, clear, ept, a2, (i + 1) as u64).3 == a2);
        }
    }
}

/// The scan of guest-physical addresses from `addr` below `limit`, with
/// the tables rooted at `root`: a non-present entry skips its whole span; a
/// large leaf reports all its pages at once when dirty and moves on to the
/// next span; page-table pages go by [`pt_scan`]. Gives the pages, the
/// reports as (first page, count), and the number of pages reported.
pub open spec fn scan_walk(w: Seq<u64>, base: u64, root: u64, limit: u64, clear: bool, ept: bool, addr: u64)
    -> (Seq<u64>, Seq<(u64, u64)>, nat)
    decreases u64::MAX - addr,
{
    if addr >= limit {
        (w, Seq::empty(), 0)
    } else {
        let e4 = w_at(w, base, root & TABLE_MASK, l4_index(addr));
        if e4 & ENTRY_P == 0 {
            scan_walk(w, base, root, limit, clear, ept, sat_add(addr, 0x80_0000_0000))
        } else {
            let pdpt = e4 & TABLE_MASK;
            let e3 = w_at(w, base, pdpt, l3_index(addr));
            if e3 & ENTRY_P == 0 {
                scan_walk(w, base, root, limit, clear, ept, sat_add(addr, 0x4000_0000))
            } else if e3 & ENTRY_PS != 0 {
                let next: int = addr - addr % 0x4000_0000 + 0x4000_0000;
                if next > u64::MAX {
                    (w, Seq::empty(), 0)
                } else {
                    let hit = e3 & dirty_flag(ept) != 0;
                    let w1 = if hit && clear { w_set(w, base, pdpt, l3_index(addr), e3 & !ad_flags(ept)) } else { w };
                    let r = scan_walk(w1, base, root, limit, clear, ept, next as u64);
                    if hit {
                        (r.0, seq![(addr >> 12u64, PAGES_1G)] + r.1, r.2 + PAGES_1G as nat)
                    } else {
                        r
                    }
                }
            } else {
                let pd = e3 & TABLE_MASK;
                let e2 = w_at(w, base, pd, l2_index(addr));
                if e2 & ENTRY_P == 0 {
                    scan_walk(w, base, root, limit, clear, ept, sat_add(addr, 0x20_0000))
                } else if e2 & ENTRY_PS != 0 {
                    let next: int = addr - addr % 0x20_0000 + 0x20_0000;
                    if next > u64::MAX {
                        (w, Seq::empty(), 0)
                    } else {
                        let hit = e2 & dirty_flag(ept) != 0;
                        let w1 = if hit && clear { w_set(w, base, pd, l2_index(addr), e2 & !ad_flags(ept)) } else { w };
                        let r = scan_walk(w1, base, root, limit, clear, ept, next as u64);
                        if hit {
                            (r.0, seq![(addr >> 12u64, PAGES_2M)] + r.1, r.2 + PAGES_2M as nat)
                        } else {
                            r
                        }
                    }
                } else {
                    let pt = e2 & TABLE_MASK;
                    proof {
                        lemma_index_bounds(addr);
                        lemma_pt_scan_advances(w, base, pt, limit, clear, ept, addr, l1_index(addr));
                    }
                    let p = pt_scan(w, base, pt, limit, clear, ept, addr, l1_index(addr));
                    let r = scan_walk(p.0, base, root, limit, clear, ept, p.3);
                    (r.0, p.1 + r.1, p.2 + r.2)
                }
            }
        }
    }
}


fn sat_add_u64(a: u64, b: u64) -> (r: u64)
    ensures
        r == sat_add(a, b),
{
    if a > u64::MAX - b { u64::MAX } else { a + b }
}

proof fn lemma_count_step(count: u64, addr: u64, addr2: u64, n: u64)
    by (nonlinear_arith)
    requires
        count <= (addr / 4096) * PAGES_1G,
        addr % 4096 == 0,
        addr2 % 4096 == 0,
        addr2 > addr,
        n <= PAGES_1G,
    ensures
        count + n <= (addr2 / 4096) * PAGES_1G,
{
    assert(addr2 / 4096 >= addr / 4096 + 1);
}

/// One page-table page of the scan (see [`pt_scan`]), appending the reports.
fn scan_pt(mem: &mut PhysPages, pt: u64, limit: u64, clear: bool, ept: bool, addr: u64,
    marks: &mut Vec<(u64, u64)>, count: &mut u64) -> (a2: u64)
    requires
        addr < limit <= WALK_LIMIT,
        addr % 4096 == 0,
        *old(count) <= (addr / 4096) * PAGES_1G,
    ensures
        final(mem).base == old(mem).base,
        final(mem).words@.len() == old(mem).words@.len(),
        ({
            let p = pt_scan(old(mem).words@, old(mem).base, pt, limit, clear, ept, addr, l1_index(addr));
            &&& final(mem).words@ == p.0
            &&& final(marks)@ == old(marks)@ + p.1
            &&& *final(count) == *old(count) + p.2
            &&& a2 == p.3
        }),
        a2 > addr,
        a2 % 4096 == 0,
        a2 <= WALK_LIMIT,
        *final(count) <= (a2 / 4096) * PAGES_1G,
{
    let dflag: u64 = if ept { 0x200 } else { 0x40 };
    let adf: u64 = if ept { 0x300 } else { 0x60 };
    let ghost base = mem.base;
    let ghost wlen = mem.words@.len();
    proof { lemma_index_bounds(addr); }
    let mut i = (addr >> 12u64) & 0x1FF;
    let mut a = addr;
    let ghost p0 = pt_scan(mem.words@, base, pt, limit, clear, ept, addr, i);
    let ghost marks0 = marks@;
    let ghost count0 = *count as nat;
    let ghost mut inner: Seq<(u64, u64)> = Seq::empty();
    let ghost mut inner_count: nat = 0;
    proof { lemma_pt_scan_advances(mem.words@, base, pt, limit, clear, ept, addr, i); }
    let mut done = false;
    while !done && a < limit && i < 512
        invariant
            mem.base == base,
            mem.words@.len() == wlen,
            limit <= WALK_LIMIT,
            a % 4096 == 0,
            a <= WALK_LIMIT,
            a >= addr,
            *count <= (a / 4096) * PAGES_1G,
            dflag == dirty_flag(ept),
            adf == ad_flags(ept),
            marks@ == marks0 + inner,
            *count == count0 + inner_count,
            p0.0 == (if done { mem.words@ } else { pt_scan(mem.words@, base, pt, limit, clear, ept, a, i).0 }),
            p0.1 == inner + (if done { Seq::empty() } else { pt_scan(mem.words@, base, pt, limit, clear, ept, a, i).1 }),
            p0.2 == inner_count + (if done { 0nat } else { pt_scan(mem.words@, base, pt, limit, clear, ept, a, i).2 }),
            p0.3 == (if done { a } else { pt_scan(mem.words@, base, pt, limit, clear, ept, a, i).3 }),
        decreases 512 - i,
    {
        let pte = mem.read_entry(pt, i);
        let hit = pte & ENTRY_P != 0 && pte & dflag != 0;
        if hit {
            if clear {
                mem.write_entry(pt, i, pte & !adf);
            }
            proof { lemma_count_step(*count, a, (a + 4096) as u64, 1); }
            marks.push((a >> 12u64, 1u64));
            *count = *count + 1;
            proof {
                inner = inner + seq![(a >> 12u64, 1u64)];
                inner_count = inner_count + 1;
            }
        } else {
            proof { lemma_count_step(*count, a, (a + 4096) as u64, 0); }
        }
        let a2 = a + 4096;
        a = a2;
        i = i + 1;
        if a2 & 0x1F_FFFF == 0 {
            done = true;
        }
        proof {
            if !done {
                let after = pt_scan(mem.words@, base, pt, limit, clear, ept, a, i);
                assert(p0.1 == inner + after.1);
            }
        }
    }
    proof {
        if !done {
            assert(pt_scan(mem.words@, base, pt, limit, clear, ept, a, i).3 == a);
            assert(pt_scan(mem.words@, base, pt, limit, clear, ept, a, i).1 =~= Seq::<(u64, u64)>::empty());
        }
    }
    assert(marks@ =~= marks0 + p0.1);
    a
}

/// One step of the scan at `addr` (one top-level iteration of [`scan_walk`]).
#[verifier::rlimit(40)]
fn scan_step(mem: &mut PhysPages, root: u64, limit: u64, clear: bool, ept: bool, addr: u64,
    marks: &mut Vec<(u64, u64)>, count: &mut u64) -> (a2: u64)
    requires
        addr < limit <= WALK_LIMIT,
        addr % 4096 == 0,
        *old(count) <= (addr / 4096) * PAGES_1G,
    ensures
        final(mem).base == old(mem).base,
        final(mem).words@.len() == old(mem).words@.len(),
        ({
            let before = scan_walk(old(mem).words@, old(mem).base, root, limit, clear, ept, addr);
            let after = scan_walk(final(mem).words@, old(mem).base, root, limit, clear, ept, a2);
            &&& after.0 == before.0
            &&& final(marks)@ + after.1 == old(marks)@ + before.1
            &&& *final(count) + after.2 == *old(count) + before.2
        }),
        a2 > addr,
        a2 % 4096 == 0,
        a2 <= WALK_LIMIT + 0x80_0000_0000,
        *final(count) <= (a2 / 4096) * PAGES_1G,
{
    let dflag: u64 = if ept { 0x200 } else { 0x40 };
    let adf: u64 = if ept { 0x300 } else { 0x60 };
    let ghost base = mem.base;
    proof { lemma_index_bounds(addr); }
    let e4 = mem.read_entry(root & TABLE_MASK, (addr >> 39u64) & 0x1FF);
    if e4 & ENTRY_P == 0 {
        let a2 = sat_add_u64(addr, 0x80_0000_0000);
        proof { lemma_count_step(*count, addr, a2, 0); }
        return a2;
    }
    let pdpt = e4 & TABLE_MASK;
    let l3 = (addr >> 30u64) & 0x1FF;
    let e3 = mem.read_entry(pdpt, l3);
    if e3 & ENTRY_P == 0 {
        let a2 = sat_add_u64(addr, 0x4000_0000);
        proof { lemma_count_step(*count, addr, a2, 0); }
        return a2;
    }
    if e3 & ENTRY_PS != 0 {
        let next = addr - addr % 0x4000_0000 + 0x4000_0000;
        if e3 & dflag != 0 {
            if clear {
                mem.write_entry(pdpt, l3, e3 & !adf);
            }
            proof { lemma_count_step(*count, addr, next, PAGES_1G); }
            marks.push((addr >> 12u64, PAGES_1G));
            *count = *count + PAGES_1G;
            assert(marks@ =~= old(marks)@ + seq![(addr >> 12u64, PAGES_1G)]);
        } else {
            proof { lemma_count_step(*count, addr, next, 0); }
        }
        return next;
    }
    let pd = e3 & TABLE_MASK;
    let l2 = (addr >> 21u64) & 0x1FF;
    let e2 = mem.read_entry(pd, l2);
    if e2 & ENTRY_P == 0 {
        let a2 = sat_add_u64(addr, 0x20_0000);
        proof { lemma_count_step(*count, addr, a2, 0); }
        return a2;
    }
    if e2 & ENTRY_PS != 0 {
        let next = addr - addr % 0x20_0000 + 0x20_0000;
        if e2 & dflag != 0 {
            if clear {
                mem.write_entry(pd, l2, e2 & !adf);
            }
            proof { lemma_count_step(*count, addr, next, PAGES_2M); }
            marks.push((addr >> 12u64, PAGES_2M));
            *count = *count + PAGES_2M;
            assert(marks@ =~= old(marks)@ + seq![(addr >> 12u64, PAGES_2M)]);
        } else {
            proof { lemma_count_step(*count, addr, next, 0); }
        }
        return next;
    }
    let pt = e2 & TABLE_MASK;
    let ghost w = mem.words@;
    let ghost m0 = marks@;
    let a2 = scan_pt(mem, pt, limit, clear, ept, addr, marks, count);
    proof {
        let p = pt_scan(w, base, pt, limit, clear, ept, addr, l1_index(addr));
        let r = scan_walk(mem.words@, base, root, limit, clear, ept, a2);
        assert(marks@ + r.1 =~= m0 + (p.1 + r.1));
    }
    a2
}

/// Walk the tables rooted at `root` for guest-physical addresses below
/// `limit` (see [`scan_walk`]): the dirty reports as (first page, count), in
/// address order, and the number of pages reported. With `clear`, accessed
/// and dirty flags of the reported leaves are cleared in `mem`.
pub fn scan_tables(mem: &mut PhysPages, root: u64, limit: u64, clear: bool, ept: bool) -> (r: (Vec<(u64, u64)>, u64))
    requires
        limit <= WALK_LIMIT,
    ensures
        final(mem).base == old(mem).base,
        final(mem).words@.len() == old(mem).words@.len(),
        final(mem).words@ == scan_walk(old(mem).words@, old(mem).base, root, limit, clear, ept, 0).0,
        r.0@ == scan_walk(old(mem).words@, old(mem).base, root, limit, clear, ept, 0).1,
        r.1 == scan_walk(old(mem).words@, old(mem).base, root, limit, clear, ept, 0).2,
{
    let ghost base = mem.base;
    let ghost wlen = mem.words@.len();
    let ghost full = scan_walk(mem.words@, base, root, limit, clear, ept, 0);
    let mut marks: Vec<(u64, u64)> = Vec::new();
    let mut count: u64 = 0;
    let mut addr: u64 = 0;
    assert(marks@ + full.1 =~= full.1);
    while addr < limit
        invariant
            mem.base == base,
            mem.words@.len() == wlen,
            limit <= WALK_LIMIT,
            addr % 4096 == 0,
            count <= (addr / 4096) * PAGES_1G,
            full.0 == scan_walk(mem.words@, base, root, limit, clear, ept, addr).0,
            full.1 == marks@ + scan_walk(mem.words@, base, root, limit, clear, ept, addr).1,
            full.2 == count + scan_walk(mem.words@, base, root, limit, clear, ept, addr).2,
        decreases u64::MAX - addr,
    {
        addr = scan_step(mem, root, limit, clear, ept, addr, &mut marks, &mut count);
    }
    proof {
        let r = scan_walk(mem.words@, base, root, limit, clear, ept, addr);
        assert(r.1 =~= Seq::<(u64, u64)>::empty());
        assert(marks@ + r.1 =~= marks@);
    }
    (marks, count)
}


/// Page `i` lies in one of the reported runs.
pub open spec fn covered(marks: Seq<(u64, u64)>, i: int) -> bool {
    exists|k: int| 0 <= k < marks.len() && (#[trigger] marks[k]).0 <= i < marks[k].0 + marks[k].1
}

/// Set the bits of pages `start .. start + n`.
fn mark_run(bitmap: &mut DirtyBitmap, start: u64, n: u64)
    requires
        old(bitmap).bits@.len() * 8 <= u64::MAX,
    ensures
        final(bitmap).bits@.len() == old(bitmap).bits@.len(),
        forall|i: int| 0 <= i < old(bitmap).bits@.len() * 8 ==>
            bit_at(final(bitmap).bits@, i) == (bit_at(old(bitmap).bits@, i) || (start <= i < start + n)),
{
    let ghost b0 = bitmap.bits@;
    let mut j: u64 = 0;
    while j < n && start <= u64::MAX - j
        invariant
            j <= n,
            bitmap.bits@.len() == b0.len(),
            b0.len() * 8 <= u64::MAX,
            forall|i: int| 0 <= i < b0.len() * 8 ==>
                bit_at(bitmap.bits@, i) == (bit_at(b0, i) || (start <= i < start + j)),
        decreases n - j,
    {
        bitmap.set_bit(start + j);
        j = j + 1;
    }
}

/// Set the bits of every page in the reported runs.
pub fn mark_ranges(bitmap: &mut DirtyBitmap, marks: &Vec<(u64, u64)>)
    requires
        old(bitmap).bits@.len() * 8 <= u64::MAX,
    ensures
        final(bitmap).bits@.len() == old(bitmap).bits@.len(),
        forall|i: int| 0 <= i < old(bitmap).bits@.len() * 8 ==>
            #[trigger] bit_at(final(bitmap).bits@, i) == (bit_at(old(bitmap).bits@, i) || covered(marks@, i)),
{
    let ghost b0 = bitmap.bits@;
    let mut k: usize = 0;
    while k < marks.len()
        invariant
            k <= marks@.len(),
            bitmap.bits@.len() == b0.len(),
            b0.len() * 8 <= u64::MAX,
            forall|i: int| 0 <= i < b0.len() * 8 ==>
                #[trigger] bit_at(bitmap.bits@, i) == (bit_at(b0, i) || covered(marks@.take(k as int), i)),
        decreases marks@.len() - k,
    {
        let (start, n) = marks[k];
        let ghost bk = bitmap.bits@;
        mark_run(bitmap, start, n);
        proof {
            assert forall|i: int| 0 <= i < b0.len() * 8 implies
                bit_at(bitmap.bits@, i) == (bit_at(b0, i) || covered(marks@.take(k + 1), i)) by {
                let t0 = marks@.take(k as int);
                let t1 = marks@.take(k + 1);
                let in_new = start <= i && i < start + n;
                assert(bit_at(bitmap.bits@, i) == (bit_at(bk, i) || in_new));
                assert(bit_at(bk, i) == (bit_at(b0, i) || covered(t0, i)));
                assert(t1[k as int] == (start, n));
                if covered(t0, i) {
                    let q = choose|q: int| 0 <= q < t0.len() && (#[trigger] t0[q]).0 <= i < t0[q].0 + t0[q].1;
                    assert(t1[q] == t0[q]);
                    assert(covered(t1, i));
                }
                if in_new {
                    assert(covered(t1, i));
                }
                if covered(t1, i) {
                    let q = choose|q: int| 0 <= q < t1.len() && (#[trigger] t1[q]).0 <= i < t1[q].0 + t1[q].1;
                    if q < k {
                        assert(t0[q] == t1[q]);
                        assert(covered(t0, i));
                    } else {
                        assert(in_new);
                    }
                }
                assert(covered(t1, i) == (covered(t0, i) || in_new));
            }
        }
        k = k + 1;
    }
    assert(marks@.take(marks@.len() as int) =~= marks@);
}

/// The dirty pages of an EPT below `limit_bytes`, set in `bitmap`; nothing
/// when there are no tables (`pml4_phys` 0). Gives the number of pages found.
pub fn scan_ept(mem: &mut PhysPages, pml4_phys: u64, limit_bytes: u64, bitmap: &mut DirtyBitmap, clear_ad: bool) -> (dirty: u64)
    requires
        limit_bytes <= WALK_LIMIT,
        old(bitmap).bits@.len() * 8 <= u64::MAX,
    ensures
        final(mem).base == old(mem).base,
        final(bitmap).bits@.len() == old(bitmap).bits@.len(),
        pml4_phys == 0 ==> dirty == 0 && final(mem).words@ == old(mem).words@ && final(bitmap).bits@ == old(bitmap).bits@,
        pml4_phys != 0 ==> ({
            let s = scan_walk(old(mem).words@, old(mem).base, pml4_phys, limit_bytes, clear_ad, true, 0);
            &&& dirty == s.2
            &&& final(mem).words@ == s.0
            &&& forall|i: int| 0 <= i < old(bitmap).bits@.len() * 8 ==>
                    #[trigger] bit_at(final(bitmap).bits@, i) == (bit_at(old(bitmap).bits@, i) || covered(s.1, i))
        }),
        pml4_phys != 0 && !clear_ad ==> forall|a: u64| a < limit_bytes
            && #[trigger] scan_leaf_dirty(old(mem).words@, old(mem).base, pml4_phys, a, true)
            && (a >> 12u64) < old(bitmap).bits@.len() * 8 ==> bit_at(final(bitmap).bits@, (a >> 12u64) as int),
        pml4_phys != 0 && clear_ad ==> forall|a: u64| a < limit_bytes
            ==> !#[trigger] scan_leaf_dirty(final(mem).words@, old(mem).base, pml4_phys, a, true),
{
    if pml4_phys == 0 {
        return 0;
    }
    let ghost w0 = mem.words@;
    let ghost base0 = mem.base;
    let (marks, n) = scan_tables(mem, pml4_phys, limit_bytes, clear_ad, true);
    mark_ranges(bitmap, &marks);
    proof {
        if !clear_ad {
            law_scan_finds_dirty(w0, base0, pml4_phys, limit_bytes, true);
        }
        if clear_ad {
            law_scan_clears_dirty(w0, base0, pml4_phys, limit_bytes, true);
        }
    }
    n
}

/// The dirty pages of an AMD nested page table below `limit_bytes`, as [`scan_ept`].
pub fn scan_npt(mem: &mut PhysPages, pml4_phys: u64, limit_bytes: u64, bitmap: &mut DirtyBitmap, clear_ad: bool) -> (dirty: u64)
    requires
        limit_bytes <= WALK_LIMIT,
        old(bitmap).bits@.len() * 8 <= u64::MAX,
    ensures
        final(mem).base == old(mem).base,
        final(bitmap).bits@.len() == old(bitmap).bits@.len(),
        pml4_phys == 0 ==> dirty == 0 && final(mem).words@ == old(mem).words@ && final(bitmap).bits@ == old(bitmap).bits@,
        pml4_phys != 0 ==> ({
            let s = scan_walk(old(mem).words@, old(mem).base, pml4_phys, limit_bytes, clear_ad, false, 0);
            &&& dirty == s.2
            &&& final(mem).words@ == s.0
            &&& forall|i: int| 0 <= i < old(bitmap).bits@.len() * 8 ==>
                    #[trigger] bit_at(final(bitmap).bits@, i) == (bit_at(old(bitmap).bits@, i) || covered(s.1, i))
        }),
        pml4_phys != 0 && !clear_ad ==> forall|a: u64| a < limit_bytes
            && #[trigger] scan_leaf_dirty(old(mem).words@, old(mem).base, pml4_phys, a, false)
            && (a >> 12u64) < old(bitmap).bits@.len() * 8 ==> bit_at(final(bitmap).bits@, (a >> 12u64) as int),
        pml4_phys != 0 && clear_ad ==> forall|a: u64| a < limit_bytes
            ==> !#[trigger] scan_leaf_dirty(final(mem).words@, old(mem).base, pml4_phys, a, false),
{
    if pml4_phys == 0 {
        return 0;
    }
    let ghost w0 = mem.words@;
    let ghost base0 = mem.base;
    let (marks, n) = scan_tables(mem, pml4_phys, limit_bytes, clear_ad, false);
    mark_ranges(bitmap, &marks);
    proof {
        if !clear_ad {
            law_scan_finds_dirty(w0, base0, pml4_phys, limit_bytes, false);
        }
        if clear_ad {
            law_scan_clears_dirty(w0, base0, pml4_phys, limit_bytes, false);
        }
    }
    n
}

// ---------------------------------------------------------------------------
// No dirty page is missed

/// Whether the leaf entry that maps guest-physical `a` under the tables at
/// `root` is present and carries the dirty flag: a 1 GiB leaf in the PDPT, a
/// 2 MiB leaf in the PD, or the page-table entry, each reached through
/// present entries.
pub open spec fn scan_leaf_dirty(w: Seq<u64>, base: u64, root: u64, a: u64, ept: bool) -> bool {
    let e4 = w_at(w, base, root & TABLE_MASK, l4_index(a));
    let e3 = w_at(w, base, e4 & TABLE_MASK, l3_index(a));
    let e2 = w_at(w, base, e3 & TABLE_MASK, l2_index(a));
    let e1 = w_at(w, base, e2 & TABLE_MASK, l1_index(a));
    &&& e4 & ENTRY_P != 0
    &&& e3 & ENTRY_P != 0
    &&& if e3 & ENTRY_PS != 0 {
        e3 & dirty_flag(ept) != 0
    } else {
        &&& e2 & ENTRY_P != 0
        &&& if e2 & ENTRY_PS != 0 { e2 & dirty_flag(ept) != 0 } else { e1 & ENTRY_P != 0 && e1 & dirty_flag(ept) != 0 }
    }
}

/// Whether the scan at `a` meets no missing entry part-way into the region
/// that entry covers (the scan skips such a region whole from `a`).
pub open spec fn scan_aligned(w: Seq<u64>, base: u64, root: u64, a: u64) -> bool {
    let e4 = w_at(w, base, root & TABLE_MASK, l4_index(a));
    let e3 = w_at(w, base, e4 & TABLE_MASK, l3_index(a));
    let e2 = w_at(w, base, e3 & TABLE_MASK, l2_index(a));
    &&& (e4 & ENTRY_P == 0 ==> a % 0x80_0000_0000 == 0)
    &&& (e4 & ENTRY_P != 0 && e3 & ENTRY_P == 0 ==> a % 0x4000_0000 == 0)
    &&& (e4 & ENTRY_P != 0 && e3 & ENTRY_P != 0 && e3 & ENTRY_PS == 0 && e2 & ENTRY_P == 0 ==> a % 0x20_0000 == 0)
}

proof fn lemma_scan_bits(a: u64, x: u64)
    by (bit_vector)
    ensures
        x < 0x1_0000_0000_0000u64 && x <= a && a < (((x >> 30u64) + 1u64) as u64) << 30u64
            ==> x >> 12u64 <= a >> 12u64 && a >> 12u64 < (x >> 12u64) + 0x4_0000u64,
        x < 0x1_0000_0000_0000u64 && x <= a && a < (((x >> 21u64) + 1u64) as u64) << 21u64
            ==> x >> 12u64 <= a >> 12u64 && a >> 12u64 < (x >> 12u64) + 0x200u64,
        x % 4096 == 0 && x < 0x1_0000_0000_0000u64 && ((x + 4096u64) as u64) & 0x1F_FFFFu64 != 0
            ==> (((x + 4096u64) as u64) >> 12u64) & 0x1FFu64 == ((x >> 12u64) & 0x1FFu64) + 1
                && ((x + 4096u64) as u64) >> 21u64 == x >> 21u64,
        (x & 0x1F_FFFFu64 == 0) == (x % 0x20_0000u64 == 0),
{
}

proof fn lemma_covered_append(s1: Seq<(u64, u64)>, s2: Seq<(u64, u64)>, i: int)
    requires
        covered(s1, i) || covered(s2, i),
    ensures
        covered(s1 + s2, i),
{
    if covered(s1, i) {
        let k = choose|k: int| 0 <= k < s1.len() && (#[trigger] s1[k]).0 <= i < s1[k].0 + s1[k].1;
        assert((s1 + s2)[k] == s1[k]);
    } else {
        let k = choose|k: int| 0 <= k < s2.len() && (#[trigger] s2[k]).0 <= i < s2[k].0 + s2[k].1;
        assert((s1 + s2)[s1.len() + k] == s2[k]);
    }
}

/// A page-table run of the scan from the 4 KiB-aligned `addr` (entry `i`)
/// reports every present dirty entry it passes and stops after `addr`, at the
/// latest at the next 2 MiB boundary, and at such a boundary unless it
/// reached the limit.
proof fn lemma_pt_reports(w: Seq<u64>, base: u64, pt: u64, limit: u64, ept: bool, addr: u64, i: u64)
    requires
        addr % 4096 == 0,
        addr < limit <= WALK_LIMIT,
        i == l1_index(addr),
    ensures
        ({
            let p = pt_scan(w, base, pt, limit, false, ept, addr, i);
            &&& p.0 == w
            &&& addr < p.3 <= (((addr >> 21u64) + 1u64) as u64) << 21u64
            &&& p.3 % 4096 == 0
            &&& (p.3 < limit ==> p.3 % 0x20_0000 == 0)
            &&& forall|a: u64| addr <= a < p.3 && a < limit && #[trigger] w_at(w, base, pt, l1_index(a)) & ENTRY_P != 0
                && w_at(w, base, pt, l1_index(a)) & dirty_flag(ept) != 0 ==> covered(p.1, (a >> 12u64) as int)
        }),
    decreases 512 - i,
{
    let p = pt_scan(w, base, pt, limit, false, ept, addr, i);
    lemma_index_bounds(addr);
    lemma_walk_bits(addr, addr, 0);
    let pte = w_at(w, base, pt, i);
    let hit = pte & ENTRY_P != 0 && pte & dirty_flag(ept) != 0;
    let m: Seq<(u64, u64)> = if hit { seq![(addr >> 12u64, 1u64)] } else { Seq::empty() };
    let a2 = sat_add(addr, 4096);
    assert(a2 == addr + 4096);
    lemma_scan_bits(0, a2);
    lemma_scan_bits(0, addr);
    assert forall|a: u64| addr <= a < a2 && #[trigger] w_at(w, base, pt, l1_index(a)) & ENTRY_P != 0
        && w_at(w, base, pt, l1_index(a)) & dirty_flag(ept) != 0 implies covered(m, (a >> 12u64) as int) by {
        lemma_walk_bits(a, addr, 0);
        assert(m[0] == (addr >> 12u64, 1u64));
    }
    if a2 & 0x1F_FFFF != 0 {
        let r = pt_scan(w, base, pt, limit, false, ept, a2, (i + 1) as u64);
        if a2 < limit {
            lemma_pt_reports(w, base, pt, limit, ept, a2, (i + 1) as u64);
        }
        assert forall|a: u64| addr <= a < p.3 && a < limit && #[trigger] w_at(w, base, pt, l1_index(a)) & ENTRY_P != 0
            && w_at(w, base, pt, l1_index(a)) & dirty_flag(ept) != 0 implies covered(p.1, (a >> 12u64) as int) by {
            if a < a2 {
                lemma_covered_append(m, r.1, (a >> 12u64) as int);
            } else {
                lemma_covered_append(m, r.1, (a >> 12u64) as int);
            }
        }
    }
}

/// Where a step of the scan that passed a 2 MiB region (or a 1 GiB one,
/// `big`) under present entries ends, the scan meets no missing entry
/// part-way into its region.
proof fn lemma_scan_next_aligned(w: Seq<u64>, base: u64, root: u64, addr: u64, big: bool)
    requires
        addr < WALK_LIMIT,
        w_at(w, base, root & TABLE_MASK, l4_index(addr)) & ENTRY_P != 0,
        !big ==> ({
            let e4 = w_at(w, base, root & TABLE_MASK, l4_index(addr));
            let e3 = w_at(w, base, e4 & TABLE_MASK, l3_index(addr));
            e3 & ENTRY_P != 0
        }),
    ensures
        scan_aligned(w, base, root,
            if big { (((addr >> 30u64) + 1u64) as u64) << 30u64 } else { (((addr >> 21u64) + 1u64) as u64) << 21u64 }),
{
    let n = if big { (((addr >> 30u64) + 1u64) as u64) << 30u64 } else { (((addr >> 21u64) + 1u64) as u64) << 21u64 };
    lemma_region_bits(0, addr, 0);
    lemma_region_bits(0, n, 0);
    lemma_walk_bits(0, addr, 0);
    lemma_next_boundary(addr);
    if n >> 39u64 == addr >> 39u64 {
        assert(l4_index(n) == l4_index(addr));
    }
    if !big && n >> 30u64 == addr >> 30u64 {
        lemma_walk_bits(n, addr, 0);
        assert(l3_index(n) == l3_index(addr));
        assert(l4_index(n) == l4_index(addr));
    }
}

/// Without clearing, the scan from the 4 KiB-aligned `addr` (where it meets
/// no missing entry part-way into a region) reports every page from `addr`
/// below the limit whose leaf is present and dirty.
proof fn lemma_scan_reports(w: Seq<u64>, base: u64, root: u64, limit: u64, ept: bool, addr: u64)
    requires
        addr % 4096 == 0,
        limit <= WALK_LIMIT,
        addr < limit ==> scan_aligned(w, base, root, addr),
    ensures
        forall|a: u64| addr <= a < limit && #[trigger] scan_leaf_dirty(w, base, root, a, ept)
            ==> covered(scan_walk(w, base, root, limit, false, ept, addr).1, (a >> 12u64) as int),
    decreases u64::MAX - addr,
{
    if addr < limit {
        let s = scan_walk(w, base, root, limit, false, ept, addr);
        lemma_index_bounds(addr);
        lemma_next_boundary(addr);
        lemma_walk_bits(addr, addr, 0);
        lemma_region_bits(0, addr, 0);
        let e4 = w_at(w, base, root & TABLE_MASK, l4_index(addr));
        let pdpt = e4 & TABLE_MASK;
        let e3 = w_at(w, base, pdpt, l3_index(addr));
        let pd = e3 & TABLE_MASK;
        let e2 = w_at(w, base, pd, l2_index(addr));
        let n1 = (((addr >> 30u64) + 1u64) as u64) << 30u64;
        let n2 = (((addr >> 21u64) + 1u64) as u64) << 21u64;
        if e4 & ENTRY_P == 0 {
            let next = sat_add(addr, 0x80_0000_0000);
            assert(next == addr + 0x80_0000_0000);
            if next < limit {
                lemma_region_bits(0, next, 0);
            }
            lemma_scan_reports(w, base, root, limit, ept, next);
            assert forall|a: u64| addr <= a < limit && #[trigger] scan_leaf_dirty(w, base, root, a, ept)
                implies covered(s.1, (a >> 12u64) as int) by {
                if a < next {
                    lemma_region_bits(a, addr, 0);
                    assert(l4_index(a) == l4_index(addr));
                }
            }
        } else if e3 & ENTRY_P == 0 {
            let next = sat_add(addr, 0x4000_0000);
            assert(next == n1);
            lemma_scan_next_aligned(w, base, root, addr, true);
            lemma_scan_reports(w, base, root, limit, ept, next);
            assert forall|a: u64| addr <= a < limit && #[trigger] scan_leaf_dirty(w, base, root, a, ept)
                implies covered(s.1, (a >> 12u64) as int) by {
                if a < next {
                    lemma_walk_bits(a, addr, 0);
                    assert(l3_index(a) == l3_index(addr) && l4_index(a) == l4_index(addr));
                }
            }
        } else if e3 & ENTRY_PS != 0 {
            assert(n1 == addr - addr % 0x4000_0000 + 0x4000_0000);
            lemma_scan_next_aligned(w, base, root, addr, true);
            lemma_scan_reports(w, base, root, limit, ept, n1);
            let r = scan_walk(w, base, root, limit, false, ept, n1);
            let hit = e3 & dirty_flag(ept) != 0;
            assert forall|a: u64| addr <= a < limit && #[trigger] scan_leaf_dirty(w, base, root, a, ept)
                implies covered(s.1, (a >> 12u64) as int) by {
                if a < n1 {
                    lemma_walk_bits(a, addr, 0);
                    lemma_scan_bits(a, addr);
                    assert(l3_index(a) == l3_index(addr) && l4_index(a) == l4_index(addr));
                    let m: Seq<(u64, u64)> = seq![(addr >> 12u64, PAGES_1G)];
                    assert(m[0] == (addr >> 12u64, PAGES_1G));
                    assert(covered(m, (a >> 12u64) as int));
                    lemma_covered_append(m, r.1, (a >> 12u64) as int);
                } else if hit {
                    lemma_covered_append(seq![(addr >> 12u64, PAGES_1G)], r.1, (a >> 12u64) as int);
                }
            }
        } else if e2 & ENTRY_P == 0 {
            let next = sat_add(addr, 0x20_0000);
            assert(next == n2);
            lemma_scan_next_aligned(w, base, root, addr, false);
            lemma_scan_reports(w, base, root, limit, ept, next);
            assert forall|a: u64| addr <= a < limit && #[trigger] scan_leaf_dirty(w, base, root, a, ept)
                implies covered(s.1, (a >> 12u64) as int) by {
                if a < next {
                    lemma_walk_bits(a, addr, 0);
                    assert(l2_index(a) == l2_index(addr) && l3_index(a) == l3_index(addr) && l4_index(a) == l4_index(addr));
                }
            }
        } else if e2 & ENTRY_PS != 0 {
            assert(n2 == addr - addr % 0x20_0000 + 0x20_0000);
            lemma_scan_next_aligned(w, base, root, addr, false);
            lemma_scan_reports(w, base, root, limit, ept, n2);
            let r = scan_walk(w, base, root, limit, false, ept, n2);
            let hit = e2 & dirty_flag(ept) != 0;
            assert forall|a: u64| addr <= a < limit && #[trigger] scan_leaf_dirty(w, base, root, a, ept)
                implies covered(s.1, (a >> 12u64) as int) by {
                if a < n2 {
                    lemma_walk_bits(a, addr, 0);
                    lemma_scan_bits(a, addr);
                    assert(l2_index(a) == l2_index(addr) && l3_index(a) == l3_index(addr) && l4_index(a) == l4_index(addr));
                    let m: Seq<(u64, u64)> = seq![(addr >> 12u64, PAGES_2M)];
                    assert(m[0] == (addr >> 12u64, PAGES_2M));
                    assert(covered(m, (a >> 12u64) as int));
                    lemma_covered_append(m, r.1, (a >> 12u64) as int);
                } else if hit {
                    lemma_covered_append(seq![(addr >> 12u64, PAGES_2M)], r.1, (a >> 12u64) as int);
                }
            }
        } else {
            let pt = e2 & TABLE_MASK;
            lemma_pt_reports(w, base, pt, limit, ept, addr, l1_index(addr));
            lemma_pt_scan_advances(w, base, pt, limit, false, ept, addr, l1_index(addr));
            let p = pt_scan(w, base, pt, limit, false, ept, addr, l1_index(addr));
            if p.3 < limit {
                lemma_region_bits(0, addr, p.3);
                assert(p.3 == n2);
                lemma_scan_next_aligned(w, base, root, addr, false);
            }
            lemma_scan_reports(w, base, root, limit, ept, p.3);
            let r = scan_walk(w, base, root, limit, false, ept, p.3);
            assert forall|a: u64| addr <= a < limit && #[trigger] scan_leaf_dirty(w, base, root, a, ept)
                implies covered(s.1, (a >> 12u64) as int) by {
                if a < p.3 {
                    lemma_walk_bits(a, addr, 0);
                    assert(l2_index(a) == l2_index(addr) && l3_index(a) == l3_index(addr) && l4_index(a) == l4_index(addr));
                    assert(w_at(w, base, pt, l1_index(a)) & ENTRY_P != 0);
                }
                lemma_covered_append(p.1, r.1, (a >> 12u64) as int);
            }
        }
    }
}

/// The dirty-page scan misses no dirty page: without clearing, every page
/// below the limit whose leaf entry (4 KiB, 2 MiB or 1 GiB) is present and
/// carries the dirty flag lies in one of the reported runs.
pub proof fn law_scan_finds_dirty(w: Seq<u64>, base: u64, root: u64, limit: u64, ept: bool)
    requires
        limit <= WALK_LIMIT,
    ensures
        forall|a: u64| a < limit && #[trigger] scan_leaf_dirty(w, base, root, a, ept)
            ==> covered(scan_walk(w, base, root, limit, false, ept, 0).1, (a >> 12u64) as int),
{
    lemma_region_bits(0, 0, 0);
    lemma_scan_reports(w, base, root, limit, ept, 0);
}

// ---------------------------------------------------------------------------
// A clearing scan leaves no dirty page behind

/// Every word of `w` is the word of `w0`, or that word with its accessed and
/// dirty flags cleared.
pub open spec fn ad_cleared(w0: Seq<u64>, w: Seq<u64>, ept: bool) -> bool {
    &&& w.len() == w0.len()
    &&& forall|i: int| 0 <= i < w0.len() ==> (#[trigger] w[i] == w0[i] || w[i] == w0[i] & !ad_flags(ept))
}

proof fn lemma_ad_bits(e: u64)
    by (bit_vector)
    ensures
        (e & !0x300u64) & 1u64 == e & 1u64,
        (e & !0x300u64) & 0x80u64 == e & 0x80u64,
        (e & !0x300u64) & 0x000F_FFFF_FFFF_F000u64 == e & 0x000F_FFFF_FFFF_F000u64,
        (e & !0x300u64) & 0x200u64 == 0,
        (e & !0x300u64) & !0x300u64 == e & !0x300u64,
        (e & !0x60u64) & 1u64 == e & 1u64,
        (e & !0x60u64) & 0x80u64 == e & 0x80u64,
        (e & !0x60u64) & 0x000F_FFFF_FFFF_F000u64 == e & 0x000F_FFFF_FFFF_F000u64,
        (e & !0x60u64) & 0x40u64 == 0,
        (e & !0x60u64) & !0x60u64 == e & !0x60u64,
{
}

proof fn lemma_ad_trans(w0: Seq<u64>, w1: Seq<u64>, w2: Seq<u64>, ept: bool)
    requires
        ad_cleared(w0, w1, ept),
        ad_cleared(w1, w2, ept),
    ensures
        ad_cleared(w0, w2, ept),
{
    assert forall|i: int| 0 <= i < w0.len() implies (#[trigger] w2[i] == w0[i] || w2[i] == w0[i] & !ad_flags(ept)) by {
        lemma_ad_bits(w0[i]);
        assert(w1[i] == w0[i] || w1[i] == w0[i] & !ad_flags(ept));
        assert(w2[i] == w1[i] || w2[i] == w1[i] & !ad_flags(ept));
    }
}

/// After clearing, an entry is as it was or has lost its accessed and dirty flags.
proof fn lemma_w_at_cleared(w1: Seq<u64>, w2: Seq<u64>, base: u64, t: u64, i: u64, ept: bool)
    requires
        ad_cleared(w1, w2, ept),
    ensures
        ({
            let e = w_at(w1, base, t, i);
            let f = w_at(w2, base, t, i);
            &&& f & ENTRY_P == e & ENTRY_P
            &&& f & ENTRY_PS == e & ENTRY_PS
            &&& f & TABLE_MASK == e & TABLE_MASK
            &&& (f & dirty_flag(ept) != 0 ==> f == e)
            &&& (f == e || f == e & !ad_flags(ept))
        }),
{
    if base <= t && (t - base) % 4096 == 0 && (t - base) / 4096 < w1.len() / 512 && i < 512 {
        let j = ((t - base) / 4096) * 512 + i;
        assert(0 <= j < w1.len()) by (nonlinear_arith)
            requires base <= t, (t - base) / 4096 < w1.len() / 512, i < 512, j == ((t - base) / 4096) * 512 + i;
        assert(w2[j] == w1[j] || w2[j] == w1[j] & !ad_flags(ept));
    }
    lemma_ad_bits(w_at(w1, base, t, i));
}

/// Clearing flags changes no walk: the scan meets the same entries, and a
/// leaf that is dirty afterwards was dirty before.
proof fn lemma_scan_same_walk(w1: Seq<u64>, w2: Seq<u64>, base: u64, root: u64, ept: bool, a: u64)
    requires
        ad_cleared(w1, w2, ept),
    ensures
        scan_aligned(w2, base, root, a) == scan_aligned(w1, base, root, a),
        scan_leaf_dirty(w2, base, root, a, ept) ==> scan_leaf_dirty(w1, base, root, a, ept),
{
    let e4 = w_at(w1, base, root & TABLE_MASK, l4_index(a));
    lemma_w_at_cleared(w1, w2, base, root & TABLE_MASK, l4_index(a), ept);
    let e3 = w_at(w1, base, e4 & TABLE_MASK, l3_index(a));
    lemma_w_at_cleared(w1, w2, base, e4 & TABLE_MASK, l3_index(a), ept);
    let e2 = w_at(w1, base, e3 & TABLE_MASK, l2_index(a));
    lemma_w_at_cleared(w1, w2, base, e3 & TABLE_MASK, l2_index(a), ept);
    lemma_w_at_cleared(w1, w2, base, e2 & TABLE_MASK, l1_index(a), ept);
}

/// Clearing entry `i` of table `t` changes that entry alone, by clearing.
proof fn lemma_clear_entry(w: Seq<u64>, base: u64, t: u64, i: u64, ept: bool)
    requires
        i < 512,
    ensures
        ad_cleared(w, w_set(w, base, t, i, w_at(w, base, t, i) & !ad_flags(ept)), ept),
        ({
            let f = w_at(w_set(w, base, t, i, w_at(w, base, t, i) & !ad_flags(ept)), base, t, i);
            f & dirty_flag(ept) == 0 || f & ENTRY_P == 0
        }),
{
    let e = w_at(w, base, t, i);
    let w2 = w_set(w, base, t, i, e & !ad_flags(ept));
    lemma_ad_bits(e);
    lemma_walk_bits(0, 0, 0);
    if base <= t && (t - base) % 4096 == 0 && (t - base) / 4096 < w.len() / 512 {
        let j = ((t - base) / 4096) * 512 + i;
        assert(0 <= j < w.len()) by (nonlinear_arith)
            requires base <= t, (t - base) / 4096 < w.len() / 512, i < 512, j == ((t - base) / 4096) * 512 + i;
        assert forall|k: int| 0 <= k < w.len() implies (#[trigger] w2[k] == w[k] || w2[k] == w[k] & !ad_flags(ept)) by {}
        assert(w_at(w2, base, t, i) == e & !ad_flags(ept));
    } else {
        assert(w2 == w);
        assert forall|k: int| 0 <= k < w.len() implies (#[trigger] w2[k] == w[k] || w2[k] == w[k] & !ad_flags(ept)) by {}
    }
}

/// A clearing page-table run of the scan from the 4 KiB-aligned `addr`
/// (entry `i`) only clears flags, and leaves no present dirty entry among
/// those it passes.
proof fn lemma_pt_clears(w: Seq<u64>, base: u64, pt: u64, limit: u64, ept: bool, addr: u64, i: u64)
    requires
        addr % 4096 == 0,
        addr < limit <= WALK_LIMIT,
        i == l1_index(addr),
    ensures
        ({
            let p = pt_scan(w, base, pt, limit, true, ept, addr, i);
            &&& ad_cleared(w, p.0, ept)
            &&& addr < p.3 <= (((addr >> 21u64) + 1u64) as u64) << 21u64
            &&& p.3 % 4096 == 0
            &&& (p.3 < limit ==> p.3 % 0x20_0000 == 0)
            &&& forall|a: u64| addr <= a < p.3 && a < limit
                ==> !(#[trigger] w_at(p.0, base, pt, l1_index(a)) & ENTRY_P != 0
                    && w_at(p.0, base, pt, l1_index(a)) & dirty_flag(ept) != 0)
        }),
    decreases 512 - i,
{
    let p = pt_scan(w, base, pt, limit, true, ept, addr, i);
    lemma_index_bounds(addr);
    lemma_walk_bits(addr, addr, 0);
    let pte = w_at(w, base, pt, i);
    let hit = pte & ENTRY_P != 0 && pte & dirty_flag(ept) != 0;
    let w1 = if hit { w_set(w, base, pt, i, pte & !ad_flags(ept)) } else { w };
    if hit {
        lemma_clear_entry(w, base, pt, i, ept);
    } else {
        assert forall|k: int| 0 <= k < w.len() implies (#[trigger] w1[k] == w[k] || w1[k] == w[k] & !ad_flags(ept)) by {}
    }
    let a2 = sat_add(addr, 4096);
    assert(a2 == addr + 4096);
    lemma_scan_bits(0, a2);
    lemma_scan_bits(0, addr);
    if a2 & 0x1F_FFFF == 0 {
        assert forall|a: u64| addr <= a < p.3 && a < limit
            implies !(#[trigger] w_at(p.0, base, pt, l1_index(a)) & ENTRY_P != 0
                && w_at(p.0, base, pt, l1_index(a)) & dirty_flag(ept) != 0) by {
            lemma_walk_bits(a, addr, 0);
        }
    } else {
        let r = pt_scan(w1, base, pt, limit, true, ept, a2, (i + 1) as u64);
        if a2 < limit {
            lemma_pt_clears(w1, base, pt, limit, ept, a2, (i + 1) as u64);
        } else {
            assert forall|k: int| 0 <= k < w1.len() implies (#[trigger] r.0[k] == w1[k] || r.0[k] == w1[k] & !ad_flags(ept)) by {}
        }
        lemma_ad_trans(w, w1, r.0, ept);
        assert forall|a: u64| addr <= a < p.3 && a < limit
            implies !(#[trigger] w_at(p.0, base, pt, l1_index(a)) & ENTRY_P != 0
                && w_at(p.0, base, pt, l1_index(a)) & dirty_flag(ept) != 0) by {
            if a < a2 {
                lemma_walk_bits(a, addr, 0);
                lemma_w_at_cleared(w1, r.0, base, pt, i, ept);
                lemma_w_at_cleared(w, w1, base, pt, i, ept);
            }
        }
    }
}

/// The clearing scan from the 4 KiB-aligned `addr` (where it meets no
/// missing entry part-way into a region) only clears flags, and leaves no
/// page from `addr` below the limit with a present dirty leaf.
proof fn lemma_scan_clears(w: Seq<u64>, base: u64, root: u64, limit: u64, ept: bool, addr: u64)
    requires
        addr % 4096 == 0,
        limit <= WALK_LIMIT,
        addr < limit ==> scan_aligned(w, base, root, addr),
    ensures
        ad_cleared(w, scan_walk(w, base, root, limit, true, ept, addr).0, ept),
        forall|a: u64| addr <= a < limit
            ==> !#[trigger] scan_leaf_dirty(scan_walk(w, base, root, limit, true, ept, addr).0, base, root, a, ept),
    decreases u64::MAX - addr,
{
    let r = scan_walk(w, base, root, limit, true, ept, addr).0;
    if addr >= limit {
        assert forall|k: int| 0 <= k < w.len() implies (#[trigger] r[k] == w[k] || r[k] == w[k] & !ad_flags(ept)) by {}
    } else {
        lemma_index_bounds(addr);
        lemma_next_boundary(addr);
        lemma_walk_bits(addr, addr, 0);
        lemma_region_bits(0, addr, 0);
        let e4 = w_at(w, base, root & TABLE_MASK, l4_index(addr));
        let pdpt = e4 & TABLE_MASK;
        let e3 = w_at(w, base, pdpt, l3_index(addr));
        let pd = e3 & TABLE_MASK;
        let e2 = w_at(w, base, pd, l2_index(addr));
        let n1 = (((addr >> 30u64) + 1u64) as u64) << 30u64;
        let n2 = (((addr >> 21u64) + 1u64) as u64) << 21u64;
        if e4 & ENTRY_P == 0 {
            let next = sat_add(addr, 0x80_0000_0000);
            if next < limit {
                lemma_region_bits(0, next, 0);
            }
            lemma_scan_clears(w, base, root, limit, ept, next);
            assert forall|a: u64| addr <= a < limit implies !#[trigger] scan_leaf_dirty(r, base, root, a, ept) by {
                if a < next {
                    lemma_region_bits(a, addr, 0);
                    assert(l4_index(a) == l4_index(addr));
                    lemma_scan_same_walk(w, r, base, root, ept, a);
                }
            }
        } else if e3 & ENTRY_P == 0 {
            let next = sat_add(addr, 0x4000_0000);
            assert(next == n1);
            lemma_scan_next_aligned(w, base, root, addr, true);
            lemma_scan_clears(w, base, root, limit, ept, next);
            assert forall|a: u64| addr <= a < limit implies !#[trigger] scan_leaf_dirty(r, base, root, a, ept) by {
                if a < next {
                    lemma_walk_bits(a, addr, 0);
                    assert(l3_index(a) == l3_index(addr) && l4_index(a) == l4_index(addr));
                    lemma_scan_same_walk(w, r, base, root, ept, a);
                }
            }
        } else if e2 & ENTRY_P == 0 && e3 & ENTRY_PS == 0 {
            let next = sat_add(addr, 0x20_0000);
            assert(next == n2);
            lemma_scan_next_aligned(w, base, root, addr, false);
            lemma_scan_clears(w, base, root, limit, ept, next);
            assert forall|a: u64| addr <= a < limit implies !#[trigger] scan_leaf_dirty(r, base, root, a, ept) by {
                if a < next {
                    lemma_walk_bits(a, addr, 0);
                    assert(l2_index(a) == l2_index(addr) && l3_index(a) == l3_index(addr) && l4_index(a) == l4_index(addr));
                    lemma_scan_same_walk(w, r, base, root, ept, a);
                }
            }
        } else if e3 & ENTRY_PS != 0 || e2 & ENTRY_PS != 0 {
            let big = e3 & ENTRY_PS != 0;
            let (t, idx, e) = if big { (pdpt, l3_index(addr), e3) } else { (pd, l2_index(addr), e2) };
            let next = if big { n1 } else { n2 };
            assert(next == if big { addr - addr % 0x4000_0000 + 0x4000_0000 } else { addr - addr % 0x20_0000 + 0x20_0000 });
            let hit = e & dirty_flag(ept) != 0;
            let w1 = if hit { w_set(w, base, t, idx, e & !ad_flags(ept)) } else { w };
            if hit {
                lemma_clear_entry(w, base, t, idx, ept);
            } else {
                assert forall|k: int| 0 <= k < w.len() implies (#[trigger] w1[k] == w[k] || w1[k] == w[k] & !ad_flags(ept)) by {}
            }
            lemma_scan_next_aligned(w, base, root, addr, big);
            lemma_scan_same_walk(w, w1, base, root, ept, next);
            lemma_scan_clears(w1, base, root, limit, ept, next);
            assert(r == scan_walk(w1, base, root, limit, true, ept, next).0);
            lemma_ad_trans(w, w1, r, ept);
            assert forall|a: u64| addr <= a < limit implies !#[trigger] scan_leaf_dirty(r, base, root, a, ept) by {
                if a < next {
                    lemma_walk_bits(a, addr, 0);
                    assert(l3_index(a) == l3_index(addr) && l4_index(a) == l4_index(addr));
                    lemma_w_at_cleared(w, w1, base, root & TABLE_MASK, l4_index(a), ept);
                    lemma_w_at_cleared(w, w1, base, pdpt, l3_index(a), ept);
                    lemma_w_at_cleared(w, w1, base, pd, l2_index(a), ept);
                    assert(!scan_leaf_dirty(w1, base, root, a, ept));
                    lemma_scan_same_walk(w1, r, base, root, ept, a);
                }
            }
        } else {
            let pt = e2 & TABLE_MASK;
            lemma_pt_clears(w, base, pt, limit, ept, addr, l1_index(addr));
            let p = pt_scan(w, base, pt, limit, true, ept, addr, l1_index(addr));
            if p.3 < limit {
                lemma_region_bits(0, addr, p.3);
                assert(p.3 == n2);
                lemma_scan_next_aligned(w, base, root, addr, false);
                lemma_scan_same_walk(w, p.0, base, root, ept, p.3);
            }
            lemma_scan_clears(p.0, base, root, limit, ept, p.3);
            lemma_ad_trans(w, p.0, r, ept);
            assert forall|a: u64| addr <= a < limit implies !#[trigger] scan_leaf_dirty(r, base, root, a, ept) by {
                if a < p.3 {
                    lemma_walk_bits(a, addr, 0);
                    assert(l2_index(a) == l2_index(addr) && l3_index(a) == l3_index(addr) && l4_index(a) == l4_index(addr));
                    lemma_w_at_cleared(w, p.0, base, root & TABLE_MASK, l4_index(a), ept);
                    lemma_w_at_cleared(w, p.0, base, pdpt, l3_index(a), ept);
                    lemma_w_at_cleared(w, p.0, base, pd, l2_index(a), ept);
                    assert(!scan_leaf_dirty(p.0, base, root, a, ept));
                    lemma_scan_same_walk(p.0, r, base, root, ept, a);
                }
            }
        }
    }
}

/// A clearing scan leaves no dirty page below the limit: afterwards no page
/// there has a present leaf with the dirty flag, and the scan changed nothing
/// but accessed and dirty flags.
pub proof fn law_scan_clears_dirty(w: Seq<u64>, base: u64, root: u64, limit: u64, ept: bool)
    requires
        limit <= WALK_LIMIT,
    ensures
        ad_cleared(w, scan_walk(w, base, root, limit, true, ept, 0).0, ept),
        forall|a: u64| a < limit
            ==> !#[trigger] scan_leaf_dirty(scan_walk(w, base, root, limit, true, ept, 0).0, base, root, a, ept),
{
    lemma_region_bits(0, 0, 0);
    lemma_scan_clears(w, base, root, limit, ept, 0);
}

} // verus!
