//! Intel EPT identity-map builders and EPT pointer composition.

use vstd::prelude::*;
use crate::mm::pages::{
    PhysPages, translate, w_at, w_set, l1_index, l2_index, l3_index, l4_index, lemma_index_bounds, ADDR_MASK,
    SPAN_1G, SPAN_2M, SPAN_512G,
};
use crate::mm::identity::{
    LeafSize, layout, layout_ok, build_layout, layout_pages, lemma_identity_1g, lemma_identity_2m,
    lemma_identity_4k, lemma_counts_exec,
};

verus! {

/// EPT read, write and execute permissions.
pub const EPT_R: u64 = 1;
pub const EPT_W: u64 = 2;
pub const EPT_X: u64 = 4;
/// Write-back memory type in bits 5:3 of a leaf.
pub const EPT_MEMTYPE_WB: u64 = 0x30;
pub const EPT_IGNORE_PAT: u64 = 0x40;
pub const EPT_PAGE_SIZE: u64 = 0x80;

/// Options for building EPT identity maps and EPT pointers.
pub struct EptOptions {
    pub allow_execute: bool,
    pub enable_ad: bool,
}

impl EptOptions {
    /// Execute allowed, accessed/dirty flags disabled.
    pub fn default() -> (r: EptOptions)
        ensures
            r.allow_execute,
            !r.enable_ad,
    {
        EptOptions { allow_execute: true, enable_ad: false }
    }
}

/// EPT capability flags used to pick the leaf size.
pub struct EptCaps {
    pub large_page_2m: bool,
    pub large_page_1g: bool,
}

/// Flags of an EPT table-pointer entry.
pub open spec fn ept_dir_flags(allow_x: bool) -> u64 {
    if allow_x { 7 } else { 3 }
}

/// Flags of an EPT 1 GiB / 2 MiB leaf: RW(X), WB, ignore PAT, page size.
pub open spec fn ept_big_leaf_flags(allow_x: bool) -> u64 {
    if allow_x { 0xF7 } else { 0xF3 }
}

/// Flags of an EPT 4 KiB leaf: RW(X), WB, ignore PAT.
pub open spec fn ept_small_leaf_flags(allow_x: bool) -> u64 {
    if allow_x { 0x77 } else { 0x73 }
}

/// The leaf size chosen for the given capabilities: 1 GiB, else 2 MiB, else 4 KiB.
pub open spec fn best_size(caps: EptCaps) -> LeafSize {
    if caps.large_page_1g {
        LeafSize::Huge1G
    } else if caps.large_page_2m {
        LeafSize::Large2M
    } else {
        LeafSize::Small4K
    }
}

pub open spec fn leaf_flags_for(size: LeafSize, allow_x: bool) -> u64 {
    match size {
        LeafSize::Small4K => ept_small_leaf_flags(allow_x),
        _ => ept_big_leaf_flags(allow_x),
    }
}

proof fn lemma_flags(allow_x: bool)
    ensures
        crate::mm::identity::dir_flags_ok(ept_dir_flags(allow_x)),
        crate::mm::identity::big_leaf_flags_ok(ept_big_leaf_flags(allow_x)),
        crate::mm::identity::small_leaf_flags_ok(ept_small_leaf_flags(allow_x)),
{
    assert(7u64 & 1 == 1 && 3u64 & 1 == 1 && 0xF7u64 & 1 == 1 && 0xF7u64 & 0x80 == 0x80
        && 0xF3u64 & 1 == 1 && 0xF3u64 & 0x80 == 0x80 && 0x77u64 & 1 == 1 && 0x73u64 & 1 == 1) by (bit_vector);
}

/// Number of 4 KiB table pages the caller must provide for an identity map of
/// `limit_bytes` with the given leaf size.
pub fn table_pages(size: &LeafSize, limit_bytes: u64) -> (r: u64)
    requires
        0 < limit_bytes <= crate::mm::pages::SPAN_512G,
    ensures
        r == layout_pages(*size, limit_bytes),
{
    let (g, nw) = lemma_counts_exec(limit_bytes);
    match size {
        LeafSize::Huge1G => 2,
        LeafSize::Large2M => 2 + g,
        LeafSize::Small4K => 2 + g + nw,
    }
}

fn build_with(size: LeafSize, base: u64, limit_bytes: u64, allow_x: bool) -> (r: Option<PhysPages>)
    requires
        limit_bytes == 0 || layout_ok(size, base, limit_bytes),
    ensures
        limit_bytes == 0 <==> r is None,
        r matches Some(m) ==> {
            &&& m.wf()
            &&& m.base == base
            &&& m.words@ == layout(size, base, limit_bytes, ept_dir_flags(allow_x), leaf_flags_for(size, allow_x))
            &&& forall|a: u64| a < limit_bytes ==> translate(m, base, a) == Some(a)
        },
{
    let dir: u64 = if allow_x { 7 } else { 3 };
    let leaf: u64 = match size {
        LeafSize::Small4K => if allow_x { 0x77 } else { 0x73 },
        _ => if allow_x { 0xF7 } else { 0xF3 },
    };
    let ghost sz = size;
    let r = build_layout(size, base, limit_bytes, dir, leaf);
    let ghost gr = r;
    proof {
        lemma_flags(allow_x);
        if let Some(m) = gr {
            assert forall|a: u64| a < limit_bytes implies translate(m, base, a) == Some(a) by {
                match sz {
                    LeafSize::Huge1G => lemma_identity_1g(m, limit_bytes, dir, leaf, a),
                    LeafSize::Large2M => lemma_identity_2m(m, limit_bytes, dir, leaf, a),
                    LeafSize::Small4K => lemma_identity_4k(m, limit_bytes, dir, leaf, a),
                }
            }
        }
    }
    r
}

/// Build an EPT identity map of `limit_bytes` with 2 MiB leaves in the table
/// pages at physical `base`. `None` when `limit_bytes` is zero.
pub fn build_identity_2m(base: u64, limit_bytes: u64) -> (r: Option<PhysPages>)
    requires
        limit_bytes == 0 || layout_ok(LeafSize::Large2M, base, limit_bytes),
    ensures
        limit_bytes == 0 <==> r is None,
        r matches Some(m) ==> {
            &&& m.wf() && m.base == base
            &&& m.words@ == layout(LeafSize::Large2M, base, limit_bytes, 7, 0xF7)
            &&& forall|a: u64| a < limit_bytes ==> translate(m, base, a) == Some(a)
        },
{
    build_with(LeafSize::Large2M, base, limit_bytes, true)
}

/// Build an EPT identity map of `limit_bytes` with 1 GiB leaves.
pub fn build_identity_1g(base: u64, limit_bytes: u64) -> (r: Option<PhysPages>)
    requires
        limit_bytes == 0 || layout_ok(LeafSize::Huge1G, base, limit_bytes),
    ensures
        limit_bytes == 0 <==> r is None,
        r matches Some(m) ==> {
            &&& m.wf() && m.base == base
            &&& m.words@ == layout(LeafSize::Huge1G, base, limit_bytes, 7, 0xF7)
            &&& forall|a: u64| a < limit_bytes ==> translate(m, base, a) == Some(a)
        },
{
    build_with(LeafSize::Huge1G, base, limit_bytes, true)
}

/// Build an EPT identity map of `limit_bytes` with 4 KiB leaves.
pub fn build_identity_4k(base: u64, limit_bytes: u64) -> (r: Option<PhysPages>)
    requires
        limit_bytes == 0 || layout_ok(LeafSize::Small4K, base, limit_bytes),
    ensures
        limit_bytes == 0 <==> r is None,
        r matches Some(m) ==> {
            &&& m.wf() && m.base == base
            &&& m.words@ == layout(LeafSize::Small4K, base, limit_bytes, 7, 0x77)
            &&& forall|a: u64| a < limit_bytes ==> translate(m, base, a) == Some(a)
        },
{
    build_with(LeafSize::Small4K, base, limit_bytes, true)
}

/// Build an identity map with the largest leaf size the capabilities allow.
pub fn build_identity_best(base: u64, limit_bytes: u64, caps: EptCaps) -> (r: Option<PhysPages>)
    requires
        limit_bytes == 0 || layout_ok(best_size(caps), base, limit_bytes),
    ensures
        limit_bytes == 0 <==> r is None,
        r matches Some(m) ==> {
            &&& m.wf() && m.base == base
            &&& m.words@ == layout(best_size(caps), base, limit_bytes, 7, leaf_flags_for(best_size(caps), true))
            &&& forall|a: u64| a < limit_bytes ==> translate(m, base, a) == Some(a)
        },
{
    if caps.large_page_1g {
        return build_with(LeafSize::Huge1G, base, limit_bytes, true);
    }
    if caps.large_page_2m {
        return build_with(LeafSize::Large2M, base, limit_bytes, true);
    }
    build_with(LeafSize::Small4K, base, limit_bytes, true)
}

/// As `build_identity_best`, with execute permission granted only when
/// `opts.allow_execute`.
pub fn build_identity_best_with_opts(base: u64, limit_bytes: u64, caps: EptCaps, opts: EptOptions) -> (r: Option<PhysPages>)
    requires
        limit_bytes == 0 || layout_ok(best_size(caps), base, limit_bytes),
    ensures
        limit_bytes == 0 <==> r is None,
        r matches Some(m) ==> {
            &&& m.wf() && m.base == base
            &&& m.words@ == layout(best_size(caps), base, limit_bytes, ept_dir_flags(opts.allow_execute),
                leaf_flags_for(best_size(caps), opts.allow_execute))
            &&& forall|a: u64| a < limit_bytes ==> translate(m, base, a) == Some(a)
        },
{
    if caps.large_page_1g {
        return build_with(LeafSize::Huge1G, base, limit_bytes, opts.allow_execute);
    }
    if caps.large_page_2m {
        return build_with(LeafSize::Large2M, base, limit_bytes, opts.allow_execute);
    }
    build_with(LeafSize::Small4K, base, limit_bytes, opts.allow_execute)
}

/// EPT pointer for a PML4 at `pml4_phys`: write-back memory type (6), 4-level
/// walk (encoded 3 in bits 5:3), accessed/dirty flags disabled.
pub fn eptp_from_pml4(pml4_phys: u64) -> (r: u64)
    ensures
        r == (pml4_phys & ADDR_MASK) | 0x1E,
        r & 7 == 6,
        (r >> 3u64) & 7 == 3,
        r & 0x40 == 0,
        r & ADDR_MASK == pml4_phys & ADDR_MASK,
{
    let addr = pml4_phys & 0x000F_FFFF_FFFF_F000u64;
    let memtype_wb = 6u64;
    let walk_len = 3u64 << 3u64;
    let r = addr | memtype_wb | walk_len;
    assert(r == (pml4_phys & 0x000F_FFFF_FFFF_F000u64) | 0x1E
        && r & 7 == 6 && (r >> 3u64) & 7 == 3 && r & 0x40 == 0
        && r & 0x000F_FFFF_FFFF_F000u64 == pml4_phys & 0x000F_FFFF_FFFF_F000u64) by (bit_vector)
        requires addr == pml4_phys & 0x000F_FFFF_FFFF_F000u64, walk_len == 3u64 << 3u64, r == addr | 6u64 | walk_len;
    r
}

/// EPT pointer with options: as `eptp_from_pml4`, plus bit 6 when
/// accessed/dirty flags are enabled.
pub fn eptp_from_pml4_with_opts(pml4_phys: u64, opts: EptOptions) -> (r: u64)
    ensures
        opts.enable_ad ==> r == eptp_spec(pml4_phys) | 0x40,
        !opts.enable_ad ==> r == eptp_spec(pml4_phys),
{
    let mut e = eptp_from_pml4(pml4_phys);
    if opts.enable_ad {
        e = e | 0x40;
    }
    e
}

pub open spec fn eptp_spec(pml4_phys: u64) -> u64 {
    (pml4_phys & ADDR_MASK) | 0x1E
}

// ---------------------------------------------------------------------------
// Changing the execute permission over a guest-physical range

/// Ranges handled by `ept_toggle_exec` end at or below this address: the step
/// past a large leaf higher up would wrap around to zero.
pub const TOGGLE_LIMIT: u64 = 0xFFFF_FFFF_C000_0000;

/// `e` with its execute permission set (`exec`) or cleared.
pub open spec fn with_exec(e: u64, exec: bool) -> u64 {
    if exec { e | EPT_X } else { e & !EPT_X }
}

/// `addr + span`, saturating at `u64::MAX`.
pub open spec fn sat_step(addr: u64, span: u64) -> u64 {
    if addr > u64::MAX - span { u64::MAX } else { (addr + span) as u64 }
}

/// The first multiple of `span` above `addr`.
pub open spec fn next_boundary(addr: u64, span: u64) -> u64 {
    (addr - addr % span + span) as u64
}

/// Entry `i` of table `t` rewritten by `with_exec`, and 1 when that changed it.
pub open spec fn set_exec(w: Seq<u64>, base: u64, t: u64, i: u64, exec: bool) -> (Seq<u64>, nat) {
    let e = w_at(w, base, t, i);
    let n = with_exec(e, exec);
    if n != e { (w_set(w, base, t, i, n), 1) } else { (w, 0) }
}

/// The 4 KiB entries of table `t1` from `addr` on, up to `end` or the next
/// 2 MiB boundary: the pages after, the address reached and the changes made.
pub open spec fn toggle_run(w: Seq<u64>, base: u64, t1: u64, addr: u64, end: u64, exec: bool)
    -> (Seq<u64>, u64, nat)
    decreases end - addr,
{
    if addr >= end {
        (w, addr, 0)
    } else {
        let s = set_exec(w, base, t1, l1_index(addr), exec);
        let a2 = sat_step(addr, 4096);
        if a2 % SPAN_2M == 0 || a2 <= addr || a2 >= end {
            (s.0, a2, s.1)
        } else {
            let r = toggle_run(s.0, base, t1, a2, end, exec);
            (r.0, r.1, r.2 + s.1)
        }
    }
}

/// One step of the walk at `addr` under the PML4 at `root`: a missing PML4,
/// PDPT or PD entry skips 512 GiB, 1 GiB or 2 MiB from `addr`; a 1 GiB or
/// 2 MiB leaf is rewritten and the walk goes on at the next boundary; a page
/// table has its run of entries rewritten.
pub open spec fn toggle_step(w: Seq<u64>, base: u64, root: u64, addr: u64, end: u64, exec: bool)
    -> (Seq<u64>, u64, nat)
{
    let e4 = w_at(w, base, root & ADDR_MASK, l4_index(addr));
    if e4 & EPT_R == 0 {
        (w, sat_step(addr, SPAN_512G), 0)
    } else {
        let t3 = e4 & ADDR_MASK;
        let e3 = w_at(w, base, t3, l3_index(addr));
        if e3 & EPT_PAGE_SIZE != 0 {
            let s = set_exec(w, base, t3, l3_index(addr), exec);
            (s.0, next_boundary(addr, SPAN_1G), s.1)
        } else if e3 & EPT_R == 0 {
            (w, sat_step(addr, SPAN_1G), 0)
        } else {
            let t2 = e3 & ADDR_MASK;
            let e2 = w_at(w, base, t2, l2_index(addr));
            if e2 & EPT_PAGE_SIZE != 0 {
                let s = set_exec(w, base, t2, l2_index(addr), exec);
                (s.0, next_boundary(addr, SPAN_2M), s.1)
            } else if e2 & EPT_R == 0 {
                (w, sat_step(addr, SPAN_2M), 0)
            } else {
                toggle_run(w, base, e2 & ADDR_MASK, addr, end, exec)
            }
        }
    }
}

/// The walk from `addr` to `end`: the pages after and the changes made.
pub open spec fn toggle_walk(w: Seq<u64>, base: u64, root: u64, addr: u64, end: u64, exec: bool) -> (Seq<u64>, nat)
    decreases end - addr,
{
    if addr >= end {
        (w, 0)
    } else {
        let s = toggle_step(w, base, root, addr, end, exec);
        if s.1 <= addr || s.1 >= end {
            (s.0, s.2)
        } else {
            let r = toggle_walk(s.0, base, root, s.1, end, exec);
            (r.0, r.1 + s.2)
        }
    }
}

/// What `ept_toggle_exec` does to the pages and how many entries it changes:
/// nothing for an empty range, else the walk from the page holding `start`
/// to `start + length` (saturating).
pub open spec fn toggle_exec_spec(w: Seq<u64>, base: u64, root: u64, start: u64, length: u64, exec: bool)
    -> (Seq<u64>, nat)
{
    if length == 0 {
        (w, 0)
    } else {
        toggle_walk(w, base, root, (start - start % 4096) as u64, sat_step(start, length), exec)
    }
}

/// Every word of `w` is the word of `w0` or that word rewritten by `with_exec`.
pub open spec fn only_exec_changed(w0: Seq<u64>, w: Seq<u64>, exec: bool) -> bool {
    &&& w.len() == w0.len()
    &&& forall|i: int| 0 <= i < w0.len() ==> (#[trigger] w[i] == w0[i] || w[i] == with_exec(w0[i], exec))
}

proof fn lemma_exec_bits(a: u64, b: u64)
    by (bit_vector)
    ensures
        (a | 4u64) | 4u64 == a | 4u64,
        (a & !4u64) & !4u64 == a & !4u64,
        (a | 4u64) & !4u64 == a & !4u64,
        (a & !4u64) == b & !4u64 ==> (a & 1u64) == (b & 1u64) && (a & 0x80u64) == (b & 0x80u64)
            && (a & 0x000F_FFFF_FFFF_F000u64) == (b & 0x000F_FFFF_FFFF_F000u64)
            && (a & 0x000F_FFFF_C000_0000u64) == (b & 0x000F_FFFF_C000_0000u64)
            && (a & 0x000F_FFFF_FFE0_0000u64) == (b & 0x000F_FFFF_FFE0_0000u64),
{
}

pub(crate) proof fn lemma_next_boundary(addr: u64)
    by (bit_vector)
    requires
        addr < 0xFFFF_FFFF_C000_0000u64,
    ensures
        addr >> 30u64 < 0x3_FFFF_FFFFu64,
        addr >> 21u64 < 0x7FF_FFFF_FFFFu64,
        (((addr >> 30u64) + 1u64) as u64) << 30u64 == addr - addr % 0x4000_0000u64 + 0x4000_0000u64,
        (((addr >> 21u64) + 1u64) as u64) << 21u64 == addr - addr % 0x20_0000u64 + 0x20_0000u64,
{
}

proof fn lemma_only_exec_trans(w0: Seq<u64>, w1: Seq<u64>, w2: Seq<u64>, exec: bool)
    requires
        only_exec_changed(w0, w1, exec),
        only_exec_changed(w1, w2, exec),
    ensures
        only_exec_changed(w0, w2, exec),
{
    assert forall|i: int| 0 <= i < w0.len() implies (#[trigger] w2[i] == w0[i] || w2[i] == with_exec(w0[i], exec)) by {
        lemma_exec_bits(w0[i], 0);
        assert(w1[i] == w0[i] || w1[i] == with_exec(w0[i], exec));
        assert(w2[i] == w1[i] || w2[i] == with_exec(w1[i], exec));
    }
}

/// Rewrite entry `i` of table `t` by `with_exec`; 1 when it changed.
fn set_exec_entry(mem: &mut PhysPages, t: u64, i: u64, exec: bool) -> (d: u64)
    requires
        i < 512,
    ensures
        final(mem).base == old(mem).base,
        final(mem).words@ == set_exec(old(mem).words@, old(mem).base, t, i, exec).0,
        d == set_exec(old(mem).words@, old(mem).base, t, i, exec).1,
        only_exec_changed(old(mem).words@, final(mem).words@, exec),
{
    let ghost w0 = mem.words@;
    let e = mem.read_entry(t, i);
    let n = if exec { e | EPT_X } else { e & !EPT_X };
    if n != e {
        mem.write_entry(t, i, n);
        proof {
            let base = mem.base;
            if base <= t && (t - base) % 4096 == 0 && (t - base) / 4096 < w0.len() / 512 {
                let j = ((t - base) / 4096) * 512 + i;
                assert(0 <= j < w0.len()) by (nonlinear_arith)
                    requires base <= t, (t - base) / 4096 < w0.len() / 512, i < 512, j == ((t - base) / 4096) * 512 + i;
                assert(mem.words@[j] == with_exec(w0[j], exec));
            }
        }
        1
    } else {
        0
    }
}

/// The run of 4 KiB entries of table `t1` from `addr`, as `toggle_run`.
fn toggle_pte_run(mem: &mut PhysPages, t1: u64, addr: u64, end: u64, exec: bool) -> (r: (u64, u64))
    requires
        addr < end <= TOGGLE_LIMIT,
    ensures
        final(mem).base == old(mem).base,
        ({
            let s = toggle_run(old(mem).words@, old(mem).base, t1, addr, end, exec);
            final(mem).words@ == s.0 && r.0 == s.1 && r.1 == s.2
        }),
        r.0 > addr,
        r.1 <= r.0 - addr,
        only_exec_changed(old(mem).words@, final(mem).words@, exec),
{
    let ghost w0 = mem.words@;
    let ghost base = mem.base;
    let mut a = addr;
    let mut n: u64 = 0;
    loop
        invariant
            addr <= a < end <= TOGGLE_LIMIT,
            mem.base == base,
            base == old(mem).base,
            w0 == old(mem).words@,
            n <= a - addr,
            toggle_run(w0, base, t1, addr, end, exec) == ({
                let s = toggle_run(mem.words@, base, t1, a, end, exec);
                (s.0, s.1, (s.2 + n) as nat)
            }),
            only_exec_changed(w0, mem.words@, exec),
        decreases end - a,
    {
        proof { lemma_index_bounds(a); }
        let ghost wa = mem.words@;
        let d = set_exec_entry(mem, t1, (a >> 12u64) & 0x1FF, exec);
        proof { lemma_only_exec_trans(w0, wa, mem.words@, exec); }
        n = n + d;
        a = a + 4096;
        if a % SPAN_2M == 0 || a >= end {
            return (a, n);
        }
    }
}

/// One step of the walk, as `toggle_step`.
fn toggle_one(mem: &mut PhysPages, pml4_phys: u64, addr: u64, end: u64, exec: bool) -> (r: (u64, u64))
    requires
        addr < end <= TOGGLE_LIMIT,
    ensures
        final(mem).base == old(mem).base,
        ({
            let s = toggle_step(old(mem).words@, old(mem).base, pml4_phys, addr, end, exec);
            final(mem).words@ == s.0 && r.0 == s.1 && r.1 == s.2
        }),
        r.0 > addr,
        r.1 <= r.0 - addr,
        only_exec_changed(old(mem).words@, final(mem).words@, exec),
{
    proof {
        lemma_index_bounds(addr);
        lemma_next_boundary(addr);
    }
    let e4 = mem.read_entry(pml4_phys & ADDR_MASK, (addr >> 39u64) & 0x1FF);
    if e4 & EPT_R == 0 {
        return (if addr > u64::MAX - SPAN_512G { u64::MAX } else { addr + SPAN_512G }, 0);
    }
    let t3 = e4 & ADDR_MASK;
    let e3 = mem.read_entry(t3, (addr >> 30u64) & 0x1FF);
    if e3 & EPT_PAGE_SIZE != 0 {
        let d = set_exec_entry(mem, t3, (addr >> 30u64) & 0x1FF, exec);
        return (((addr >> 30u64) + 1) << 30u64, d);
    }
    if e3 & EPT_R == 0 {
        return (if addr > u64::MAX - SPAN_1G { u64::MAX } else { addr + SPAN_1G }, 0);
    }
    let t2 = e3 & ADDR_MASK;
    let e2 = mem.read_entry(t2, (addr >> 21u64) & 0x1FF);
    if e2 & EPT_PAGE_SIZE != 0 {
        let d = set_exec_entry(mem, t2, (addr >> 21u64) & 0x1FF, exec);
        return (((addr >> 21u64) + 1) << 21u64, d);
    }
    if e2 & EPT_R == 0 {
        return (if addr > u64::MAX - SPAN_2M { u64::MAX } else { addr + SPAN_2M }, 0);
    }
    toggle_pte_run(mem, e2 & ADDR_MASK, addr, end, exec)
}

/// Words of two page sets that differ at most in the execute bit give the same translations.
proof fn lemma_translate_same(m0: PhysPages, m1: PhysPages, exec: bool, root: u64, a: u64)
    requires
        m0.base == m1.base,
        only_exec_changed(m0.words@, m1.words@, exec),
    ensures
        translate(m1, root, a) == translate(m0, root, a),
{
    assert forall|t: u64, i: u64| #![trigger m1.word_at(t, i)]
        (m1.word_at(t, i) & !4u64) == (m0.word_at(t, i) & !4u64) by {
        if m0.base <= t && (t - m0.base) % 4096 == 0 && (t - m0.base) / 4096 < m0.words@.len() / 512 && i < 512 {
            let j = ((t - m0.base) / 4096) * 512 + i;
            assert(0 <= j < m0.words@.len()) by (nonlinear_arith)
                requires m0.base <= t, (t - m0.base) / 4096 < m0.words@.len() / 512, i < 512, j == ((t - m0.base) / 4096) * 512 + i;
            lemma_exec_bits(m0.words@[j], 0);
            assert(m1.words@[j] == m0.words@[j] || m1.words@[j] == with_exec(m0.words@[j], exec));
        }
    }
    let e4 = m0.word_at(root & ADDR_MASK, l4_index(a));
    let f4 = m1.word_at(root & ADDR_MASK, l4_index(a));
    lemma_exec_bits(f4, e4);
    let e3 = m0.word_at(e4 & ADDR_MASK, l3_index(a));
    let f3 = m1.word_at(e4 & ADDR_MASK, l3_index(a));
    lemma_exec_bits(f3, e3);
    let e2 = m0.word_at(e3 & ADDR_MASK, l2_index(a));
    let f2 = m1.word_at(e3 & ADDR_MASK, l2_index(a));
    lemma_exec_bits(f2, e2);
    let e1 = m0.word_at(e2 & ADDR_MASK, l1_index(a));
    let f1 = m1.word_at(e2 & ADDR_MASK, l1_index(a));
    lemma_exec_bits(f1, e1);
}

/// Set (`exec`) or clear the execute permission of every leaf entry that the
/// walk over `[start, start + length)` meets, under the PML4 at `pml4_phys`,
/// and count the entries that changed. The walk starts at the page holding
/// `start`; a missing PML4, PDPT or PD entry moves it on by 512 GiB, 1 GiB or
/// 2 MiB; a 1 GiB or 2 MiB leaf is rewritten whole. Only execute bits change,
/// so every translation stays as it was.
pub fn ept_toggle_exec(mem: &mut PhysPages, pml4_phys: u64, start: u64, length: u64, exec: bool) -> (changed: u64)
    requires
        length == 0 || sat_step(start, length) <= TOGGLE_LIMIT,
    ensures
        final(mem).base == old(mem).base,
        ({
            let r = toggle_exec_spec(old(mem).words@, old(mem).base, pml4_phys, start, length, exec);
            final(mem).words@ == r.0 && changed == r.1
        }),
        only_exec_changed(old(mem).words@, final(mem).words@, exec),
        forall|root: u64, a: u64| #[trigger] translate(*final(mem), root, a) == translate(*old(mem), root, a),
        length > 0 && ept_walk_aligned(old(mem).words@, old(mem).base, pml4_phys, (start - start % 4096) as u64)
            ==> forall|a: u64| start <= a < sat_step(start, length)
                && ept_walk_complete(old(mem).words@, old(mem).base, pml4_phys, a)
                && #[trigger] ept_leaf_present(old(mem).words@, old(mem).base, pml4_phys, a)
                ==> exec_bit(final(mem).words@, old(mem).base, ept_leaf(old(mem).words@, old(mem).base, pml4_phys, a).0,
                    ept_leaf(old(mem).words@, old(mem).base, pml4_phys, a).1) == exec,
        forall|j: int| 0 <= j < old(mem).words@.len() && #[trigger] final(mem).words@[j] != old(mem).words@[j]
            ==> leaf_of_range(old(mem).words@, old(mem).base, pml4_phys, (start - start % 4096) as u64, sat_step(start, length), j),
{
    let ghost m0 = *mem;
    proof {
        law_toggle_stays_in_range(m0.words@, m0.base, pml4_phys, start, length, exec);
    }
    if length == 0 {
        return 0;
    }
    let end: u64 = if start > u64::MAX - length { u64::MAX } else { start + length };
    let mut addr: u64 = start - start % 4096;
    let ghost addr0 = addr;
    let ghost base = mem.base;
    let mut changed: u64 = 0;
    while addr < end
        invariant
            addr0 <= addr,
            end <= TOGGLE_LIMIT,
            end == sat_step(start, length),
            addr0 == (start - start % 4096) as u64,
            mem.base == base,
            base == m0.base,
            changed <= addr,
            toggle_walk(m0.words@, base, pml4_phys, addr0, end, exec) == ({
                let r = toggle_walk(mem.words@, base, pml4_phys, addr, end, exec);
                (r.0, (r.1 + changed) as nat)
            }),
            only_exec_changed(m0.words@, mem.words@, exec),
        decreases u64::MAX - addr,
    {
        let ghost wa = mem.words@;
        let (next, d) = toggle_one(mem, pml4_phys, addr, end, exec);
        proof { lemma_only_exec_trans(m0.words@, wa, mem.words@, exec); }
        changed = changed + d;
        addr = next;
    }
    proof {
        assert forall|root: u64, a: u64| #[trigger] translate(*mem, root, a) == translate(m0, root, a) by {
            lemma_translate_same(m0, *mem, exec, root, a);
        }
        if ept_walk_aligned(m0.words@, m0.base, pml4_phys, (start - start % 4096) as u64) {
            law_toggle_sets_exec(m0.words@, m0.base, pml4_phys, start, length, exec);
        }
    }
    changed
}

// ---------------------------------------------------------------------------
// What the toggle leaves behind

/// Whether the walk for guest-physical `a` under the PML4 at `root` reaches a
/// leaf entry: a PML4 entry with read permission, then a 1 GiB leaf, or a
/// PDPT entry with read permission and then a 2 MiB leaf or a PD entry with
/// read permission over a page table.
pub open spec fn ept_walk_complete(w: Seq<u64>, base: u64, root: u64, a: u64) -> bool {
    let e4 = w_at(w, base, root & ADDR_MASK, l4_index(a));
    let e3 = w_at(w, base, e4 & ADDR_MASK, l3_index(a));
    let e2 = w_at(w, base, e3 & ADDR_MASK, l2_index(a));
    &&& e4 & EPT_R != 0
    &&& (e3 & EPT_PAGE_SIZE != 0 || (e3 & EPT_R != 0 && (e2 & EPT_PAGE_SIZE != 0 || e2 & EPT_R != 0)))
}

/// The table and index of the leaf entry that maps `a`: the PDPT entry of a
/// 1 GiB leaf, the PD entry of a 2 MiB leaf, or the page-table entry.
pub open spec fn ept_leaf(w: Seq<u64>, base: u64, root: u64, a: u64) -> (u64, u64) {
    let e4 = w_at(w, base, root & ADDR_MASK, l4_index(a));
    let e3 = w_at(w, base, e4 & ADDR_MASK, l3_index(a));
    let e2 = w_at(w, base, e3 & ADDR_MASK, l2_index(a));
    if e3 & EPT_PAGE_SIZE != 0 {
        (e4 & ADDR_MASK, l3_index(a))
    } else if e2 & EPT_PAGE_SIZE != 0 {
        (e3 & ADDR_MASK, l2_index(a))
    } else {
        (e2 & ADDR_MASK, l1_index(a))
    }
}

/// The leaf entry that maps `a` has read permission.
pub open spec fn ept_leaf_present(w: Seq<u64>, base: u64, root: u64, a: u64) -> bool {
    let l = ept_leaf(w, base, root, a);
    w_at(w, base, l.0, l.1) & EPT_R != 0
}

/// The execute permission of entry `i` of table `t`.
pub open spec fn exec_bit(w: Seq<u64>, base: u64, t: u64, i: u64) -> bool {
    w_at(w, base, t, i) & EPT_X != 0
}

pub(crate) proof fn lemma_walk_bits(a: u64, x: u64, e: u64)
    by (bit_vector)
    ensures
        a >> 21u64 == x >> 21u64 ==> a >> 30u64 == x >> 30u64 && a >> 39u64 == x >> 39u64,
        a >> 30u64 == x >> 30u64 ==> a >> 39u64 == x >> 39u64,
        x < 0xFFFF_FFFF_C000_0000u64 && x <= a && a < (((x >> 21u64) + 1u64) as u64) << 21u64
            ==> a >> 21u64 == x >> 21u64,
        x < 0xFFFF_FFFF_C000_0000u64 && x <= a && a < (((x >> 30u64) + 1u64) as u64) << 30u64
            ==> a >> 30u64 == x >> 30u64,
        x % 4096 == 0 && x <= a && a < x + 4096 ==> a >> 12u64 == x >> 12u64,
        x % 4096 == 0 && x < 0xFFFF_FFFF_C000_0000u64 && ((x + 4096u64) as u64) % 0x20_0000u64 != 0
            ==> ((x + 4096u64) as u64) >> 21u64 == x >> 21u64,
        x < 0xFFFF_FFFF_C000_0000u64 ==> ((((x >> 21u64) + 1u64) as u64) << 21u64) % 4096 == 0
            && ((((x >> 30u64) + 1u64) as u64) << 30u64) % 4096 == 0,
        x % 4096 == 0 && x < 0xFFFF_FFFF_C000_0000u64 ==> x + 4096 <= (((x >> 21u64) + 1u64) as u64) << 21u64,
        (e | 4u64) & 4u64 != 0,
        (e & !4u64) & 4u64 == 0,
        e & 1u64 != 0 ==> e != 0,
{
}

/// After changes to execute bits alone, an entry is as it was or rewritten by `with_exec`.
proof fn lemma_w_at_changed(w1: Seq<u64>, w2: Seq<u64>, base: u64, t: u64, i: u64, exec: bool)
    requires
        only_exec_changed(w1, w2, exec),
    ensures
        w_at(w2, base, t, i) == w_at(w1, base, t, i) || w_at(w2, base, t, i) == with_exec(w_at(w1, base, t, i), exec),
{
    if base <= t && (t - base) % 4096 == 0 && (t - base) / 4096 < w1.len() / 512 && i < 512 {
        let j = ((t - base) / 4096) * 512 + i;
        assert(0 <= j < w1.len()) by (nonlinear_arith)
            requires base <= t, (t - base) / 4096 < w1.len() / 512, i < 512, j == ((t - base) / 4096) * 512 + i;
        assert(w2[j] == w1[j] || w2[j] == with_exec(w1[j], exec));
    }
}

/// An entry whose execute bit is `exec` keeps it through changes to execute bits alone.
proof fn lemma_keep_exec(w1: Seq<u64>, w2: Seq<u64>, base: u64, t: u64, i: u64, exec: bool)
    requires
        only_exec_changed(w1, w2, exec),
        exec_bit(w1, base, t, i) == exec,
    ensures
        exec_bit(w2, base, t, i) == exec,
        w_at(w2, base, t, i) & EPT_R == w_at(w1, base, t, i) & EPT_R,
{
    lemma_w_at_changed(w1, w2, base, t, i, exec);
    let e = w_at(w1, base, t, i);
    lemma_walk_bits(0, 0, e);
    lemma_exec_bits(e, 0);
    lemma_exec_bits(with_exec(e, exec), e);
}

/// Changes to execute bits alone leave every walk, its leaf and the leaf's
/// read permission as they were.
proof fn lemma_same_walk(w1: Seq<u64>, w2: Seq<u64>, base: u64, root: u64, exec: bool, a: u64)
    requires
        only_exec_changed(w1, w2, exec),
    ensures
        ept_walk_complete(w2, base, root, a) == ept_walk_complete(w1, base, root, a),
        ept_leaf(w2, base, root, a) == ept_leaf(w1, base, root, a),
        ept_leaf_present(w2, base, root, a) == ept_leaf_present(w1, base, root, a),
        ept_walk_aligned(w2, base, root, a) == ept_walk_aligned(w1, base, root, a),
{
    let e4 = w_at(w1, base, root & ADDR_MASK, l4_index(a));
    let f4 = w_at(w2, base, root & ADDR_MASK, l4_index(a));
    lemma_w_at_changed(w1, w2, base, root & ADDR_MASK, l4_index(a), exec);
    lemma_exec_bits(e4, 0);
    lemma_exec_bits(f4, e4);
    let e3 = w_at(w1, base, e4 & ADDR_MASK, l3_index(a));
    let f3 = w_at(w2, base, e4 & ADDR_MASK, l3_index(a));
    lemma_w_at_changed(w1, w2, base, e4 & ADDR_MASK, l3_index(a), exec);
    lemma_exec_bits(e3, 0);
    lemma_exec_bits(f3, e3);
    let e2 = w_at(w1, base, e3 & ADDR_MASK, l2_index(a));
    let f2 = w_at(w2, base, e3 & ADDR_MASK, l2_index(a));
    lemma_w_at_changed(w1, w2, base, e3 & ADDR_MASK, l2_index(a), exec);
    lemma_exec_bits(e2, 0);
    lemma_exec_bits(f2, e2);
    let l = ept_leaf(w1, base, root, a);
    let e1 = w_at(w1, base, l.0, l.1);
    let f1 = w_at(w2, base, l.0, l.1);
    lemma_w_at_changed(w1, w2, base, l.0, l.1, exec);
    lemma_exec_bits(e1, 0);
    lemma_exec_bits(f1, e1);
}

/// Rewriting one entry changes execute bits alone, and leaves that entry,
/// when it has read permission, with execute permission `exec`.
proof fn lemma_set_exec(w: Seq<u64>, base: u64, t: u64, i: u64, exec: bool)
    requires
        i < 512,
    ensures
        only_exec_changed(w, set_exec(w, base, t, i, exec).0, exec),
        w_at(w, base, t, i) & EPT_R != 0 ==> exec_bit(set_exec(w, base, t, i, exec).0, base, t, i) == exec,
{
    let e = w_at(w, base, t, i);
    let n = with_exec(e, exec);
    lemma_walk_bits(0, 0, e);
    lemma_exec_bits(e, 0);
    if n != e && base <= t && (t - base) % 4096 == 0 && (t - base) / 4096 < w.len() / 512 {
        let j = ((t - base) / 4096) * 512 + i;
        assert(0 <= j < w.len()) by (nonlinear_arith)
            requires base <= t, (t - base) / 4096 < w.len() / 512, i < 512, j == ((t - base) / 4096) * 512 + i;
        let w2 = set_exec(w, base, t, i, exec).0;
        assert forall|k: int| 0 <= k < w.len() implies (#[trigger] w2[k] == w[k] || w2[k] == with_exec(w[k], exec)) by {}
        lemma_walk_bits(0, 0, n);
    }
}

/// A run of page-table entries from the 4 KiB-aligned `addr` ends after
/// `addr` and at most at the next 2 MiB boundary, changes execute bits alone,
/// and leaves every entry it passed that has read permission with execute
/// permission `exec`.
proof fn lemma_run(w: Seq<u64>, base: u64, t1: u64, addr: u64, end: u64, exec: bool)
    requires
        addr % 4096 == 0,
        addr < end <= TOGGLE_LIMIT,
    ensures
        ({
            let r = toggle_run(w, base, t1, addr, end, exec);
            &&& only_exec_changed(w, r.0, exec)
            &&& addr < r.1 <= (((addr >> 21u64) + 1u64) as u64) << 21u64
            &&& r.1 % 4096 == 0
            &&& (r.1 < end ==> r.1 % SPAN_2M == 0)
            &&& forall|a: u64| addr <= a < r.1 && a < end && #[trigger] w_at(w, base, t1, l1_index(a)) & EPT_R != 0
                ==> exec_bit(r.0, base, t1, l1_index(a)) == exec
        }),
    decreases end - addr,
{
    let r = toggle_run(w, base, t1, addr, end, exec);
    lemma_index_bounds(addr);
    lemma_walk_bits(addr, addr, 0);
    let s = set_exec(w, base, t1, l1_index(addr), exec);
    lemma_set_exec(w, base, t1, l1_index(addr), exec);
    let a2 = sat_step(addr, 4096);
    assert(a2 == addr + 4096);
    if a2 % SPAN_2M == 0 || a2 <= addr || a2 >= end {
        assert forall|a: u64| addr <= a < r.1 && a < end && #[trigger] w_at(w, base, t1, l1_index(a)) & EPT_R != 0
            implies exec_bit(r.0, base, t1, l1_index(a)) == exec by {
            lemma_walk_bits(a, addr, 0);
        }
    } else {
        lemma_run(s.0, base, t1, a2, end, exec);
        lemma_walk_bits(addr, addr, 0);
        lemma_only_exec_trans(w, s.0, r.0, exec);
        assert forall|a: u64| addr <= a < r.1 && a < end && #[trigger] w_at(w, base, t1, l1_index(a)) & EPT_R != 0
            implies exec_bit(r.0, base, t1, l1_index(a)) == exec by {
            if a < a2 {
                lemma_walk_bits(a, addr, 0);
                lemma_keep_exec(s.0, r.0, base, t1, l1_index(a), exec);
            } else {
                lemma_w_at_changed(w, s.0, base, t1, l1_index(a), exec);
                lemma_exec_bits(w_at(w, base, t1, l1_index(a)), 0);
                lemma_exec_bits(w_at(s.0, base, t1, l1_index(a)), w_at(w, base, t1, l1_index(a)));
                assert(w_at(s.0, base, t1, l1_index(a)) & EPT_R != 0);
            }
        }
    }
}


/// Whether the walk for `a` meets no missing entry part-way into the region
/// that entry covers: a PML4 entry without read permission only at a 512 GiB
/// boundary, a PDPT entry without it only at a 1 GiB boundary, a PD entry
/// without it only at a 2 MiB boundary.
pub open spec fn ept_walk_aligned(w: Seq<u64>, base: u64, root: u64, a: u64) -> bool {
    let e4 = w_at(w, base, root & ADDR_MASK, l4_index(a));
    let e3 = w_at(w, base, e4 & ADDR_MASK, l3_index(a));
    let e2 = w_at(w, base, e3 & ADDR_MASK, l2_index(a));
    &&& (e4 & EPT_R == 0 ==> a % SPAN_512G == 0)
    &&& (e4 & EPT_R != 0 && e3 & EPT_PAGE_SIZE == 0 && e3 & EPT_R == 0 ==> a % SPAN_1G == 0)
    &&& (e4 & EPT_R != 0 && e3 & EPT_PAGE_SIZE == 0 && e3 & EPT_R != 0 && e2 & EPT_PAGE_SIZE == 0
        && e2 & EPT_R == 0 ==> a % SPAN_2M == 0)
}

pub(crate) proof fn lemma_region_bits(a: u64, x: u64, y: u64)
    by (bit_vector)
    ensures
        x % 0x80_0000_0000u64 == 0 && x <= a && a < x + 0x80_0000_0000u64 ==> a >> 39u64 == x >> 39u64,
        x % 0x80_0000_0000u64 == 0 ==> x % 0x4000_0000u64 == 0,
        x % 0x4000_0000u64 == 0 ==> x % 0x20_0000u64 == 0,
        x % 0x20_0000u64 == 0 ==> x % 4096 == 0,
        x < 0xFFFF_FFFF_C000_0000u64 ==> ((((x >> 21u64) + 1u64) as u64) << 21u64) >> 30u64 == x >> 30u64
            || ((((x >> 21u64) + 1u64) as u64) << 21u64) % 0x4000_0000u64 == 0,
        x < 0xFFFF_FFFF_C000_0000u64 ==> ((((x >> 21u64) + 1u64) as u64) << 21u64) >> 39u64 == x >> 39u64
            || ((((x >> 21u64) + 1u64) as u64) << 21u64) % 0x80_0000_0000u64 == 0,
        x < 0xFFFF_FFFF_C000_0000u64 ==> ((((x >> 30u64) + 1u64) as u64) << 30u64) >> 39u64 == x >> 39u64
            || ((((x >> 30u64) + 1u64) as u64) << 30u64) % 0x80_0000_0000u64 == 0,
        x < 0xFFFF_FFFF_C000_0000u64 && x < y && y <= (((x >> 21u64) + 1u64) as u64) << 21u64
            && y % 0x20_0000u64 == 0 ==> y == (((x >> 21u64) + 1u64) as u64) << 21u64,
{
}

/// Where a step that passed a 2 MiB region (or a 1 GiB one, `big`) under
/// present PML4 and PDPT entries ends, the walk meets no missing entry
/// part-way into its region.
proof fn lemma_next_aligned(w: Seq<u64>, base: u64, root: u64, addr: u64, big: bool)
    requires
        addr < TOGGLE_LIMIT,
        w_at(w, base, root & ADDR_MASK, l4_index(addr)) & EPT_R != 0,
        !big ==> ({
            let e4 = w_at(w, base, root & ADDR_MASK, l4_index(addr));
            let e3 = w_at(w, base, e4 & ADDR_MASK, l3_index(addr));
            e3 & EPT_PAGE_SIZE == 0 && e3 & EPT_R != 0
        }),
    ensures
        ept_walk_aligned(w, base, root,
            if big { (((addr >> 30u64) + 1u64) as u64) << 30u64 } else { (((addr >> 21u64) + 1u64) as u64) << 21u64 }),
{
    let n = if big { (((addr >> 30u64) + 1u64) as u64) << 30u64 } else { (((addr >> 21u64) + 1u64) as u64) << 21u64 };
    lemma_region_bits(0, addr, 0);
    lemma_region_bits(0, n, 0);
    lemma_walk_bits(0, addr, 0);
    lemma_next_boundary(addr);
    if n >> 39u64 == addr >> 39u64 {
        assert(l4_index(n) == l4_index(addr));
    }
    if !big && n >> 30u64 == addr >> 30u64 {
        lemma_walk_bits(n, addr, 0);
        assert(l3_index(n) == l3_index(addr));
        assert(l4_index(n) == l4_index(addr));
    }
}

/// One step of the walk from the 4 KiB-aligned `addr`, when the walk for
/// `addr` meets no missing entry part-way into its region: it moves on,
/// changes execute bits alone, leaves every leaf with read permission that
/// maps an address it passed with execute permission `exec`, and the walk
/// where it stops again meets no missing entry part-way.
proof fn lemma_step(w: Seq<u64>, base: u64, root: u64, addr: u64, end: u64, exec: bool)
    requires
        addr % 4096 == 0,
        addr < end <= TOGGLE_LIMIT,
        ept_walk_aligned(w, base, root, addr),
    ensures
        ({
            let s = toggle_step(w, base, root, addr, end, exec);
            &&& only_exec_changed(w, s.0, exec)
            &&& addr < s.1
            &&& s.1 < end ==> s.1 % 4096 == 0 && ept_walk_aligned(w, base, root, s.1)
            &&& forall|a: u64| addr <= a < s.1 && a < end && ept_walk_complete(w, base, root, a)
                && #[trigger] ept_leaf_present(w, base, root, a)
                ==> exec_bit(s.0, base, ept_leaf(w, base, root, a).0, ept_leaf(w, base, root, a).1) == exec
        }),
{
    let s = toggle_step(w, base, root, addr, end, exec);
    lemma_index_bounds(addr);
    lemma_next_boundary(addr);
    lemma_walk_bits(addr, addr, 0);
    lemma_region_bits(0, addr, 0);
    let e4 = w_at(w, base, root & ADDR_MASK, l4_index(addr));
    let t3 = e4 & ADDR_MASK;
    let e3 = w_at(w, base, t3, l3_index(addr));
    let t2 = e3 & ADDR_MASK;
    let e2 = w_at(w, base, t2, l2_index(addr));
    let n1 = (((addr >> 30u64) + 1u64) as u64) << 30u64;
    let n2 = (((addr >> 21u64) + 1u64) as u64) << 21u64;
    if e4 & EPT_R == 0 {
        assert forall|i: int| 0 <= i < w.len() implies (#[trigger] s.0[i] == w[i] || s.0[i] == with_exec(w[i], exec)) by {}
        if s.1 < end {
            lemma_region_bits(0, s.1, 0);
        }
        assert forall|a: u64| addr <= a < s.1 && a < end && ept_walk_complete(w, base, root, a)
            && #[trigger] ept_leaf_present(w, base, root, a)
            implies exec_bit(s.0, base, ept_leaf(w, base, root, a).0, ept_leaf(w, base, root, a).1) == exec by {
            lemma_region_bits(a, addr, 0);
            assert(l4_index(a) == l4_index(addr));
        }
    } else if e3 & EPT_PAGE_SIZE != 0 {
        lemma_set_exec(w, base, t3, l3_index(addr), exec);
        lemma_next_aligned(w, base, root, addr, true);
        assert forall|a: u64| addr <= a < s.1 && a < end && ept_walk_complete(w, base, root, a)
            && #[trigger] ept_leaf_present(w, base, root, a)
            implies exec_bit(s.0, base, ept_leaf(w, base, root, a).0, ept_leaf(w, base, root, a).1) == exec by {
            lemma_walk_bits(a, addr, 0);
            assert(l3_index(a) == l3_index(addr) && l4_index(a) == l4_index(addr));
        }
    } else if e3 & EPT_R == 0 {
        assert forall|i: int| 0 <= i < w.len() implies (#[trigger] s.0[i] == w[i] || s.0[i] == with_exec(w[i], exec)) by {}
        assert(s.1 == n1);
        lemma_next_aligned(w, base, root, addr, true);
        assert forall|a: u64| addr <= a < s.1 && a < end && ept_walk_complete(w, base, root, a)
            && #[trigger] ept_leaf_present(w, base, root, a)
            implies exec_bit(s.0, base, ept_leaf(w, base, root, a).0, ept_leaf(w, base, root, a).1) == exec by {
            lemma_walk_bits(a, addr, 0);
            assert(l3_index(a) == l3_index(addr) && l4_index(a) == l4_index(addr));
        }
    } else if e2 & EPT_PAGE_SIZE != 0 {
        lemma_set_exec(w, base, t2, l2_index(addr), exec);
        lemma_next_aligned(w, base, root, addr, false);
        assert forall|a: u64| addr <= a < s.1 && a < end && ept_walk_complete(w, base, root, a)
            && #[trigger] ept_leaf_present(w, base, root, a)
            implies exec_bit(s.0, base, ept_leaf(w, base, root, a).0, ept_leaf(w, base, root, a).1) == exec by {
            lemma_walk_bits(a, addr, 0);
            assert(l2_index(a) == l2_index(addr) && l3_index(a) == l3_index(addr) && l4_index(a) == l4_index(addr));
        }
    } else if e2 & EPT_R == 0 {
        assert forall|i: int| 0 <= i < w.len() implies (#[trigger] s.0[i] == w[i] || s.0[i] == with_exec(w[i], exec)) by {}
        assert(s.1 == n2);
        lemma_next_aligned(w, base, root, addr, false);
        assert forall|a: u64| addr <= a < s.1 && a < end && ept_walk_complete(w, base, root, a)
            && #[trigger] ept_leaf_present(w, base, root, a)
            implies exec_bit(s.0, base, ept_leaf(w, base, root, a).0, ept_leaf(w, base, root, a).1) == exec by {
            lemma_walk_bits(a, addr, 0);
            assert(l2_index(a) == l2_index(addr) && l3_index(a) == l3_index(addr) && l4_index(a) == l4_index(addr));
        }
    } else {
        let t1 = e2 & ADDR_MASK;
        lemma_run(w, base, t1, addr, end, exec);
        if s.1 < end {
            lemma_region_bits(0, addr, s.1);
            assert(s.1 == n2);
            lemma_next_aligned(w, base, root, addr, false);
        }
        assert forall|a: u64| addr <= a < s.1 && a < end && ept_walk_complete(w, base, root, a)
            && #[trigger] ept_leaf_present(w, base, root, a)
            implies exec_bit(s.0, base, ept_leaf(w, base, root, a).0, ept_leaf(w, base, root, a).1) == exec by {
            lemma_walk_bits(a, addr, 0);
            assert(l2_index(a) == l2_index(addr) && l3_index(a) == l3_index(addr) && l4_index(a) == l4_index(addr));
            assert(ept_leaf(w, base, root, a) == (t1, l1_index(a)));
            assert(w_at(w, base, t1, l1_index(a)) & EPT_R != 0);
        }
    }
}

/// The walk from the 4 KiB-aligned `addr` to `end`, when the walk for `addr`
/// meets no missing entry part-way into its region: it changes execute bits
/// alone and leaves every leaf with read permission that maps an address in
/// `[addr, end)` with execute permission `exec`.
proof fn lemma_walk(w: Seq<u64>, base: u64, root: u64, addr: u64, end: u64, exec: bool)
    requires
        addr % 4096 == 0,
        addr <= end <= TOGGLE_LIMIT,
        addr < end ==> ept_walk_aligned(w, base, root, addr),
    ensures
        ({
            let r = toggle_walk(w, base, root, addr, end, exec);
            &&& only_exec_changed(w, r.0, exec)
            &&& forall|a: u64| addr <= a < end && ept_walk_complete(w, base, root, a)
                && #[trigger] ept_leaf_present(w, base, root, a)
                ==> exec_bit(r.0, base, ept_leaf(w, base, root, a).0, ept_leaf(w, base, root, a).1) == exec
        }),
    decreases end - addr,
{
    let r = toggle_walk(w, base, root, addr, end, exec);
    if addr >= end {
        assert forall|i: int| 0 <= i < w.len() implies (#[trigger] r.0[i] == w[i] || r.0[i] == with_exec(w[i], exec)) by {}
    } else {
        let s = toggle_step(w, base, root, addr, end, exec);
        lemma_step(w, base, root, addr, end, exec);
        if !(s.1 <= addr || s.1 >= end) {
            lemma_same_walk(w, s.0, base, root, exec, s.1);
            lemma_walk(s.0, base, root, s.1, end, exec);
            lemma_only_exec_trans(w, s.0, r.0, exec);
            assert forall|a: u64| addr <= a < end && ept_walk_complete(w, base, root, a)
                && #[trigger] ept_leaf_present(w, base, root, a)
                implies exec_bit(r.0, base, ept_leaf(w, base, root, a).0, ept_leaf(w, base, root, a).1) == exec by {
                lemma_same_walk(w, s.0, base, root, exec, a);
                if a < s.1 {
                    let l = ept_leaf(w, base, root, a);
                    lemma_keep_exec(s.0, r.0, base, l.0, l.1, exec);
                } else {
                    assert(ept_leaf_present(s.0, base, root, a));
                }
            }
        }
    }
}

/// Setting or clearing execute permission over `[start, start + length)`
/// reaches every leaf of the range: each leaf entry with read permission
/// (4 KiB, 2 MiB or 1 GiB) that maps an address of the range has execute
/// permission `exec` afterwards. A missing PML4, PDPT or PD entry makes the
/// walk move on by the size of the region it covers, so this holds when the
/// walk for the page holding `start` does not meet such an entry part-way
/// into its region; every later step of the walk starts at the boundary of
/// any region it skips.
pub proof fn law_toggle_sets_exec(w: Seq<u64>, base: u64, root: u64, start: u64, length: u64, exec: bool)
    requires
        length > 0,
        sat_step(start, length) <= TOGGLE_LIMIT,
        ept_walk_aligned(w, base, root, (start - start % 4096) as u64),
    ensures
        forall|a: u64| start <= a < sat_step(start, length) && ept_walk_complete(w, base, root, a)
            && #[trigger] ept_leaf_present(w, base, root, a)
            ==> exec_bit(toggle_exec_spec(w, base, root, start, length, exec).0, base,
                ept_leaf(w, base, root, a).0, ept_leaf(w, base, root, a).1) == exec,
{
    let addr0 = (start - start % 4096) as u64;
    lemma_walk(w, base, root, addr0, sat_step(start, length), exec);
}

/// The index in the pages of entry `i` of the table at `t`.
pub open spec fn entry_index(base: u64, t: u64, i: u64) -> int {
    ((t - base) / 4096) * 512 + i
}

/// Whether word `j` of the pages is the leaf entry of some address in `[lo, hi)`.
pub open spec fn leaf_of_range(w: Seq<u64>, base: u64, root: u64, lo: u64, hi: u64, j: int) -> bool {
    exists|a: u64| lo <= a < hi && #[trigger] entry_index(base, ept_leaf(w, base, root, a).0, ept_leaf(w, base, root, a).1) == j
}

/// Rewriting one entry changes no other word.
proof fn lemma_set_exec_local(w: Seq<u64>, base: u64, t: u64, i: u64, exec: bool)
    requires
        i < 512,
    ensures
        forall|j: int| 0 <= j < w.len() && #[trigger] set_exec(w, base, t, i, exec).0[j] != w[j]
            ==> j == entry_index(base, t, i),
{
    let e = w_at(w, base, t, i);
    let n = with_exec(e, exec);
    if n != e && base <= t && (t - base) % 4096 == 0 && (t - base) / 4096 < w.len() / 512 {
        let k = ((t - base) / 4096) * 512 + i;
        assert(0 <= k < w.len()) by (nonlinear_arith)
            requires base <= t, (t - base) / 4096 < w.len() / 512, i < 512, k == ((t - base) / 4096) * 512 + i;
        assert(set_exec(w, base, t, i, exec).0 == w.update(k, n));
    }
}

/// A run of page-table entries changes only the entries of the pages it
/// passes below `end`.
proof fn lemma_run_local(w: Seq<u64>, base: u64, t1: u64, addr: u64, end: u64, exec: bool)
    requires
        addr % 4096 == 0,
        addr < end <= TOGGLE_LIMIT,
    ensures
        forall|j: int| 0 <= j < w.len() && #[trigger] toggle_run(w, base, t1, addr, end, exec).0[j] != w[j]
            ==> exists|b: u64| addr <= b < end && b < toggle_run(w, base, t1, addr, end, exec).1
                && j == #[trigger] entry_index(base, t1, l1_index(b)),
    decreases end - addr,
{
    let r = toggle_run(w, base, t1, addr, end, exec);
    let s = set_exec(w, base, t1, l1_index(addr), exec);
    lemma_index_bounds(addr);
    lemma_set_exec_local(w, base, t1, l1_index(addr), exec);
    lemma_set_exec(w, base, t1, l1_index(addr), exec);
    let a2 = sat_step(addr, 4096);
    assert(a2 == addr + 4096);
    if a2 % SPAN_2M == 0 || a2 <= addr || a2 >= end {
        assert forall|j: int| 0 <= j < w.len() && #[trigger] r.0[j] != w[j]
            implies exists|b: u64| addr <= b < end && b < r.1 && j == #[trigger] entry_index(base, t1, l1_index(b)) by {
            assert(j == entry_index(base, t1, l1_index(addr)));
        }
    } else {
        lemma_run_local(s.0, base, t1, a2, end, exec);
        lemma_run(s.0, base, t1, a2, end, exec);
        assert forall|j: int| 0 <= j < w.len() && #[trigger] r.0[j] != w[j]
            implies exists|b: u64| addr <= b < end && b < r.1 && j == #[trigger] entry_index(base, t1, l1_index(b)) by {
            if s.0[j] != w[j] {
                assert(j == entry_index(base, t1, l1_index(addr)));
            } else {
                assert(r.0[j] != s.0[j]);
                let b = choose|b: u64| a2 <= b < end && b < r.1 && j == #[trigger] entry_index(base, t1, l1_index(b));
                assert(addr <= b);
            }
        }
    }
}

/// One step of the walk changes only leaf entries of addresses it passes
/// below `end`.
proof fn lemma_step_local(w: Seq<u64>, base: u64, root: u64, addr: u64, end: u64, exec: bool)
    requires
        addr % 4096 == 0,
        addr < end <= TOGGLE_LIMIT,
    ensures
        ({
            let s = toggle_step(w, base, root, addr, end, exec);
            &&& only_exec_changed(w, s.0, exec)
            &&& addr < s.1
            &&& s.1 < end ==> s.1 % 4096 == 0
            &&& forall|j: int| 0 <= j < w.len() && #[trigger] s.0[j] != w[j]
                ==> leaf_of_range(w, base, root, addr, end, j)
        }),
{
    let s = toggle_step(w, base, root, addr, end, exec);
    lemma_index_bounds(addr);
    lemma_next_boundary(addr);
    lemma_walk_bits(addr, addr, 0);
    let e4 = w_at(w, base, root & ADDR_MASK, l4_index(addr));
    let t3 = e4 & ADDR_MASK;
    let e3 = w_at(w, base, t3, l3_index(addr));
    let t2 = e3 & ADDR_MASK;
    let e2 = w_at(w, base, t2, l2_index(addr));
    if e4 & EPT_R == 0 || (e3 & EPT_PAGE_SIZE == 0 && e3 & EPT_R == 0)
        || (e3 & EPT_PAGE_SIZE == 0 && e2 & EPT_PAGE_SIZE == 0 && e2 & EPT_R == 0) {
        assert forall|i: int| 0 <= i < w.len() implies (#[trigger] s.0[i] == w[i] || s.0[i] == with_exec(w[i], exec)) by {}
        lemma_region_bits(0, addr, 0);
    } else if e3 & EPT_PAGE_SIZE != 0 {
        lemma_set_exec(w, base, t3, l3_index(addr), exec);
        lemma_set_exec_local(w, base, t3, l3_index(addr), exec);
        assert forall|j: int| 0 <= j < w.len() && #[trigger] s.0[j] != w[j]
            implies leaf_of_range(w, base, root, addr, end, j) by {
            assert(entry_index(base, ept_leaf(w, base, root, addr).0, ept_leaf(w, base, root, addr).1) == j);
        }
    } else if e2 & EPT_PAGE_SIZE != 0 {
        lemma_set_exec(w, base, t2, l2_index(addr), exec);
        lemma_set_exec_local(w, base, t2, l2_index(addr), exec);
        assert forall|j: int| 0 <= j < w.len() && #[trigger] s.0[j] != w[j]
            implies leaf_of_range(w, base, root, addr, end, j) by {
            assert(entry_index(base, ept_leaf(w, base, root, addr).0, ept_leaf(w, base, root, addr).1) == j);
        }
    } else {
        let t1 = e2 & ADDR_MASK;
        lemma_run(w, base, t1, addr, end, exec);
        lemma_run_local(w, base, t1, addr, end, exec);
        assert forall|j: int| 0 <= j < w.len() && #[trigger] s.0[j] != w[j]
            implies leaf_of_range(w, base, root, addr, end, j) by {
            let b = choose|b: u64| addr <= b < end && b < s.1 && j == #[trigger] entry_index(base, t1, l1_index(b));
            lemma_walk_bits(b, addr, 0);
            assert(l2_index(b) == l2_index(addr) && l3_index(b) == l3_index(addr) && l4_index(b) == l4_index(addr));
            assert(ept_leaf(w, base, root, b) == (t1, l1_index(b)));
            assert(entry_index(base, ept_leaf(w, base, root, b).0, ept_leaf(w, base, root, b).1) == j);
        }
    }
}

/// The walk from `addr` changes only leaf entries of addresses in `[addr, end)`.
proof fn lemma_walk_local(w: Seq<u64>, base: u64, root: u64, addr: u64, end: u64, exec: bool)
    requires
        addr % 4096 == 0,
        addr <= end <= TOGGLE_LIMIT,
    ensures
        ({
            let r = toggle_walk(w, base, root, addr, end, exec);
            &&& only_exec_changed(w, r.0, exec)
            &&& forall|j: int| 0 <= j < w.len() && #[trigger] r.0[j] != w[j]
                ==> leaf_of_range(w, base, root, addr, end, j)
        }),
    decreases end - addr,
{
    let r = toggle_walk(w, base, root, addr, end, exec);
    if addr >= end {
        assert forall|i: int| 0 <= i < w.len() implies (#[trigger] r.0[i] == w[i] || r.0[i] == with_exec(w[i], exec)) by {}
    } else {
        let s = toggle_step(w, base, root, addr, end, exec);
        lemma_step_local(w, base, root, addr, end, exec);
        if !(s.1 <= addr || s.1 >= end) {
            lemma_walk_local(s.0, base, root, s.1, end, exec);
            lemma_only_exec_trans(w, s.0, r.0, exec);
            assert forall|j: int| 0 <= j < w.len() && #[trigger] r.0[j] != w[j]
                implies leaf_of_range(w, base, root, addr, end, j) by {
                if s.0[j] != w[j] {
                } else {
                    assert(r.0[j] != s.0[j]);
                    let a = choose|a: u64| s.1 <= a < end
                        && #[trigger] entry_index(base, ept_leaf(s.0, base, root, a).0, ept_leaf(s.0, base, root, a).1) == j;
                    lemma_same_walk(w, s.0, base, root, exec, a);
                    assert(entry_index(base, ept_leaf(w, base, root, a).0, ept_leaf(w, base, root, a).1) == j);
                }
            }
        }
    }
}

/// Setting or clearing execute permission over `[start, start + length)`
/// touches nothing else: every word of the pages that changes is the leaf
/// entry (4 KiB, 2 MiB or 1 GiB) of an address from the page holding `start`
/// to the end of the range.
pub proof fn law_toggle_stays_in_range(w: Seq<u64>, base: u64, root: u64, start: u64, length: u64, exec: bool)
    requires
        length == 0 || sat_step(start, length) <= TOGGLE_LIMIT,
    ensures
        forall|j: int| 0 <= j < w.len() && #[trigger] toggle_exec_spec(w, base, root, start, length, exec).0[j] != w[j]
            ==> leaf_of_range(w, base, root, (start - start % 4096) as u64, sat_step(start, length), j),
{
    if length > 0 {
        lemma_walk_local(w, base, root, (start - start % 4096) as u64, sat_step(start, length), exec);
    }
}

} // verus!
