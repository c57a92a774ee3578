//! Identity-map page-table layouts (1 GiB, 2 MiB and 4 KiB leaves) shared by the
//! EPT, NPT and native paging builders, and the proof that they map every
//! address below the requested limit to itself.

use vstd::prelude::*;
use crate::mm::pages::{
    PhysPages, translate, l3_index, l2_index, l1_index, lemma_low_address_indices, lemma_index_bounds,
    lemma_aligned_addr, lemma_word_at_page, lemma_dir_entry, lemma_leaf_1g, lemma_leaf_2m, lemma_leaf_4k,
    PAGE_BYTES, PHYS_LIMIT, SPAN_1G, SPAN_2M, SPAN_512G,
};

verus! {

/// Number of 1 GiB regions needed to cover `limit` bytes.
pub open spec fn gb_count(limit: u64) -> nat {
    ((limit + SPAN_1G - 1) / (SPAN_1G as int)) as nat
}

/// Number of 2 MiB windows needed to cover `limit` bytes.
pub open spec fn win_count(limit: u64) -> nat {
    ((limit + SPAN_2M - 1) / (SPAN_2M as int)) as nat
}

/// The three leaf sizes the builders can use.
pub enum LeafSize {
    Huge1G,
    Large2M,
    Small4K,
}

/// Number of table pages each layout occupies.
pub open spec fn layout_pages(size: LeafSize, limit: u64) -> nat {
    match size {
        LeafSize::Huge1G => 2,
        LeafSize::Large2M => 2 + gb_count(limit),
        LeafSize::Small4K => 2 + gb_count(limit) + win_count(limit),
    }
}

/// Parameters under which a layout fits: an aligned base, a limit of at most
/// 512 GiB (one PML4 entry), and all table pages below the physical limit.
pub open spec fn layout_ok(size: LeafSize, base: u64, limit: u64) -> bool {
    &&& base % PAGE_BYTES == 0
    &&& 0 < limit <= SPAN_512G
    &&& base + layout_pages(size, limit) * 4096 <= PHYS_LIMIT
}

/// Flags of a table-pointer entry: present, no page-size bit.
pub open spec fn dir_flags_ok(f: u64) -> bool {
    f < 0x80 && f & 1 == 1
}

/// Flags of a 1 GiB or 2 MiB leaf: present and page-size bit.
pub open spec fn big_leaf_flags_ok(f: u64) -> bool {
    f < 0x1000 && f & 1 == 1 && f & 0x80 == 0x80
}

/// Flags of a 4 KiB leaf: present.
pub open spec fn small_leaf_flags_ok(f: u64) -> bool {
    f < 0x1000 && f & 1 == 1
}

/// The value of word `w` of an identity map with the given leaf size.
/// Page 0 is the PML4 (entry 0 points to page 1), page 1 the PDPT.
/// With 1 GiB leaves the PDPT maps each 1 GiB region below the limit.
/// With 2 MiB leaves pages 2.. are page directories, one per 1 GiB region,
/// mapping each 2 MiB window that starts below the limit.
/// With 4 KiB leaves the page directories point at page tables (pages
/// 2 + gb_count ..), one per 2 MiB window, mapping each 4 KiB page below the limit.
pub open spec fn layout_word(size: LeafSize, base: u64, limit: u64, dir: u64, leaf: u64, w: nat) -> u64 {
    let t = w / 512;
    let s = w % 512;
    let g = gb_count(limit);
    if t == 0 {
        if s == 0 { ((base + 4096) as u64) | dir } else { 0 }
    } else if t == 1 {
        match size {
            LeafSize::Huge1G => if s < g { ((s * SPAN_1G) as u64) | leaf } else { 0 },
            _ => if s < g { ((base + (2 + s) * 4096) as u64) | dir } else { 0 },
        }
    } else {
        match size {
            LeafSize::Huge1G => 0,
            LeafSize::Large2M => {
                let phys = (t - 2) * SPAN_1G + s * SPAN_2M;
                if phys < limit { (phys as u64) | leaf } else { 0 }
            },
            LeafSize::Small4K => {
                if t < 2 + g {
                    let q = (t - 2) * 512 + s;
                    if q < win_count(limit) { ((base + (2 + g + q) * 4096) as u64) | dir } else { 0 }
                } else {
                    let phys = (t - 2 - g) * SPAN_2M + s * 4096;
                    if phys < limit { (phys as u64) | leaf } else { 0 }
                }
            },
        }
    }
}

/// All words of a layout.
pub open spec fn layout(size: LeafSize, base: u64, limit: u64, dir: u64, leaf: u64) -> Seq<u64> {
    Seq::new(layout_pages(size, limit) * 512, |w: int| layout_word(size, base, limit, dir, leaf, w as nat))
}

pub proof fn lemma_counts(limit: u64)
    requires
        0 < limit <= SPAN_512G,
    ensures
        1 <= gb_count(limit) <= 512,
        1 <= win_count(limit) <= 512 * 512,
        gb_count(limit) * SPAN_1G >= limit,
        win_count(limit) * SPAN_2M >= limit,
{
    let l = limit as int;
    assert(1 <= (l + 0x4000_0000 - 1) / 0x4000_0000 <= 512) by (nonlinear_arith)
        requires 0 < l <= 0x80_0000_0000;
    assert(1 <= (l + 0x20_0000 - 1) / 0x20_0000 <= 512 * 512) by (nonlinear_arith)
        requires 0 < l <= 0x80_0000_0000;
    assert(((l + 0x4000_0000 - 1) / 0x4000_0000) * 0x4000_0000 >= l) by (nonlinear_arith)
        requires 0 < l;
    assert(((l + 0x20_0000 - 1) / 0x20_0000) * 0x20_0000 >= l) by (nonlinear_arith)
        requires 0 < l;
}

/// The 1 GiB region count and 2 MiB window count of `limit`.
pub fn lemma_counts_exec(limit: u64) -> (r: (u64, u64))
    requires
        0 < limit <= SPAN_512G,
    ensures
        r.0 == gb_count(limit),
        r.1 == win_count(limit),
        1 <= r.0 <= 512,
        1 <= r.1 <= 512 * 512,
{
    proof { lemma_counts(limit); }
    ((limit + (SPAN_1G - 1)) / SPAN_1G, (limit + (SPAN_2M - 1)) / SPAN_2M)
}

/// Executable form of `layout_word`.
fn layout_word_exec(size: &LeafSize, base: u64, limit: u64, dir: u64, leaf: u64, w: u64) -> (r: u64)
    requires
        layout_ok(*size, base, limit),
        w < layout_pages(*size, limit) * 512,
    ensures
        r == layout_word(*size, base, limit, dir, leaf, w as nat),
{
    proof { lemma_counts(limit); }
    let t = w / 512;
    let s = w % 512;
    let g = (limit + (SPAN_1G - 1)) / SPAN_1G;
    let nw = (limit + (SPAN_2M - 1)) / SPAN_2M;
    assert(g == gb_count(limit));
    assert(nw == win_count(limit));
    if t == 0 {
        if s == 0 { (base + 4096) | dir } else { 0 }
    } else if t == 1 {
        match size {
            LeafSize::Huge1G => if s < g { (s * SPAN_1G) | leaf } else { 0 },
            _ => {
                if s < g {
                    assert((2 + s) * 4096 <= layout_pages(*size, limit) * 4096) by (nonlinear_arith)
                        requires 2 + s <= layout_pages(*size, limit);
                    (base + (2 + s) * 4096) | dir
                } else {
                    0
                }
            },
        }
    } else {
        match size {
            LeafSize::Huge1G => 0,
            LeafSize::Large2M => {
                assert(t - 2 < g) by (nonlinear_arith)
                    requires t == w / 512, w < (2 + g) * 512, t >= 2;
                let phys = (t - 2) * SPAN_1G + s * SPAN_2M;
                if phys < limit { phys | leaf } else { 0 }
            },
            LeafSize::Small4K => {
                if t < 2 + g {
                    let q = (t - 2) * 512 + s;
                    if q < nw {
                        assert((2 + g + q) * 4096 <= layout_pages(*size, limit) * 4096) by (nonlinear_arith)
                            requires 2 + g + q <= layout_pages(*size, limit);
                        (base + (2 + g + q) * 4096) | dir
                    } else {
                        0
                    }
                } else {
                    assert(t - 2 - g < nw) by (nonlinear_arith)
                        requires t == w / 512, w < (2 + g + nw) * 512, t >= 2 + g;
                    let phys = (t - 2 - g) * SPAN_2M + s * 4096;
                    if phys < limit { phys | leaf } else { 0 }
                }
            },
        }
    }
}

/// Build the table pages of an identity map of `limit` bytes at physical `base`.
/// `None` when `limit` is zero.
pub fn build_layout(size: LeafSize, base: u64, limit: u64, dir: u64, leaf: u64) -> (r: Option<PhysPages>)
    requires
        limit == 0 || layout_ok(size, base, limit),
    ensures
        limit == 0 <==> r is None,
        r matches Some(m) ==> m.base == base && m.words@ == layout(size, base, limit, dir, leaf) && m.wf(),
{
    if limit == 0 {
        return None;
    }
    proof { lemma_counts(limit); }
    let g = (limit + (SPAN_1G - 1)) / SPAN_1G;
    let nw = (limit + (SPAN_2M - 1)) / SPAN_2M;
    let pages: u64 = match size {
        LeafSize::Huge1G => 2,
        LeafSize::Large2M => 2 + g,
        LeafSize::Small4K => 2 + g + nw,
    };
    assert(pages == layout_pages(size, limit));
    let n = pages * 512;
    let mut words: Vec<u64> = Vec::new();
    let mut w: u64 = 0;
    while w < n
        invariant
            layout_ok(size, base, limit),
            n == layout_pages(size, limit) * 512,
            w <= n,
            words@ =~= Seq::new(w as nat, |x: int| layout_word(size, base, limit, dir, leaf, x as nat)),
        decreases n - w,
    {
        let v = layout_word_exec(&size, base, limit, dir, leaf, w);
        words.push(v);
        w = w + 1;
    }
    let m = PhysPages { base, words };
    assert(m.words@ =~= layout(size, base, limit, dir, leaf));
    assert(m.words@.len() % 512 == 0 && m.words@.len() / 512 == pages) by (nonlinear_arith)
        requires m.words@.len() == pages * 512;
    Some(m)
}

/// A layout's pages are well-formed.
pub proof fn lemma_layout_wf(size: LeafSize, mem: PhysPages, limit: u64, dir: u64, leaf: u64)
    requires
        layout_ok(size, mem.base, limit),
        mem.words@ == layout(size, mem.base, limit, dir, leaf),
    ensures
        mem.wf(),
        mem.page_count() == layout_pages(size, limit),
{
    let p = layout_pages(size, limit);
    assert(mem.words@.len() % 512 == 0 && mem.words@.len() / 512 == p) by (nonlinear_arith)
        requires mem.words@.len() == p * 512;
}

/// Every address below the limit is translated to itself by a 2 MiB identity map.
pub proof fn lemma_identity_2m(mem: PhysPages, limit: u64, dir: u64, leaf: u64, a: u64)
    requires
        layout_ok(LeafSize::Large2M, mem.base, limit),
        dir_flags_ok(dir),
        big_leaf_flags_ok(leaf),
        mem.words@ == layout(LeafSize::Large2M, mem.base, limit, dir, leaf),
        a < limit,
    ensures
        translate(mem, mem.base, a) == Some(a),
{
    let base = mem.base;
    let size = LeafSize::Large2M;
    lemma_counts(limit);
    lemma_layout_wf(size, mem, limit, dir, leaf);
    lemma_low_address_indices(a);
    lemma_index_bounds(a);
    let g = gb_count(limit);
    let i = l3_index(a);
    let j = l2_index(a);
    // PML4
    lemma_aligned_addr(base);
    lemma_word_at_page(mem, 0, 0);
    let pdpt = (base + 4096) as u64;
    lemma_dir_entry(pdpt, dir);
    // PDPT
    assert(i < g) by (nonlinear_arith)
        requires i == a / 0x4000_0000, a < limit, g == (limit + 0x4000_0000 - 1) / 0x4000_0000;
    lemma_word_at_page(mem, 1, i);
    let pd = (base + (2 + i) * 4096) as u64;
    assert(pd % 4096 == 0) by (nonlinear_arith) requires base % 4096 == 0, pd == base + (2 + i) * 4096;
    assert(layout_word(size, base, limit, dir, leaf, (512 + i) as nat) == pd | dir);
    lemma_dir_entry(pd, dir);
    // PD
    lemma_word_at_page(mem, (2 + i) as nat, j);
    let phys = a - a % SPAN_2M;
    assert(phys % 0x20_0000 == 0) by (nonlinear_arith) requires phys == a - a % 0x20_0000;
    assert(layout_word(size, base, limit, dir, leaf, ((2 + i) * 512 + j) as nat) == (phys as u64) | leaf);
    lemma_leaf_2m(phys as u64, leaf, a);
}

/// Every address below the limit is translated to itself by a 1 GiB identity map.
pub proof fn lemma_identity_1g(mem: PhysPages, limit: u64, dir: u64, leaf: u64, a: u64)
    requires
        layout_ok(LeafSize::Huge1G, mem.base, limit),
        dir_flags_ok(dir),
        big_leaf_flags_ok(leaf),
        mem.words@ == layout(LeafSize::Huge1G, mem.base, limit, dir, leaf),
        a < limit,
    ensures
        translate(mem, mem.base, a) == Some(a),
{
    let base = mem.base;
    let size = LeafSize::Huge1G;
    lemma_counts(limit);
    lemma_layout_wf(size, mem, limit, dir, leaf);
    lemma_low_address_indices(a);
    lemma_index_bounds(a);
    let g = gb_count(limit);
    let i = l3_index(a);
    lemma_aligned_addr(base);
    lemma_word_at_page(mem, 0, 0);
    let pdpt = (base + 4096) as u64;
    lemma_dir_entry(pdpt, dir);
    assert(i < g) by (nonlinear_arith)
        requires i == a / 0x4000_0000, a < limit, g == (limit + 0x4000_0000 - 1) / 0x4000_0000;
    lemma_word_at_page(mem, 1, i);
    let phys = a - a % SPAN_1G;
    assert(phys % 0x4000_0000 == 0) by (nonlinear_arith) requires phys == a - a % 0x4000_0000;
    assert(layout_word(size, base, limit, dir, leaf, (512 + i) as nat) == (phys as u64) | leaf);
    lemma_leaf_1g(phys as u64, leaf, a);
}

/// Every address below the limit is translated to itself by a 4 KiB identity map.
pub proof fn lemma_identity_4k(mem: PhysPages, limit: u64, dir: u64, leaf: u64, a: u64)
    requires
        layout_ok(LeafSize::Small4K, mem.base, limit),
        dir_flags_ok(dir),
        small_leaf_flags_ok(leaf),
        mem.words@ == layout(LeafSize::Small4K, mem.base, limit, dir, leaf),
        a < limit,
    ensures
        translate(mem, mem.base, a) == Some(a),
{
    let base = mem.base;
    let size = LeafSize::Small4K;
    lemma_counts(limit);
    lemma_layout_wf(size, mem, limit, dir, leaf);
    lemma_low_address_indices(a);
    lemma_index_bounds(a);
    let g = gb_count(limit);
    let nw = win_count(limit);
    let i = l3_index(a);
    let j = l2_index(a);
    let k = l1_index(a);
    lemma_aligned_addr(base);
    lemma_word_at_page(mem, 0, 0);
    let pdpt = (base + 4096) as u64;
    lemma_dir_entry(pdpt, dir);
    assert(i < g) by (nonlinear_arith)
        requires i == a / 0x4000_0000, a < limit, g == (limit + 0x4000_0000 - 1) / 0x4000_0000;
    lemma_word_at_page(mem, 1, i);
    let pd = (base + (2 + i) * 4096) as u64;
    assert(pd % 4096 == 0) by (nonlinear_arith) requires base % 4096 == 0, pd == base + (2 + i) * 4096;
    assert(layout_word(size, base, limit, dir, leaf, (512 + i) as nat) == pd | dir);
    lemma_dir_entry(pd, dir);
    lemma_word_at_page(mem, (2 + i) as nat, j);
    let q = i * 512 + j;
    assert(q < nw) by (nonlinear_arith)
        requires i * 0x4000_0000 + j * 0x20_0000 == a - a % 0x20_0000, a < limit,
            nw == (limit + 0x20_0000 - 1) / 0x20_0000, q == i * 512 + j;
    let pt = (base + (2 + g + q) * 4096) as u64;
    assert(pt % 4096 == 0) by (nonlinear_arith) requires base % 4096 == 0, pt == base + (2 + g + q) * 4096;
    assert(layout_word(size, base, limit, dir, leaf, ((2 + i) * 512 + j) as nat) == pt | dir);
    lemma_dir_entry(pt, dir);
    lemma_word_at_page(mem, (2 + g + q) as nat, k);
    let phys = a - a % 4096;
    assert(phys % 4096 == 0) by (nonlinear_arith) requires phys == a - a % 4096;
    assert(q * 0x20_0000 + k * 4096 == phys);
    assert(layout_word(size, base, limit, dir, leaf, ((2 + g + q) * 512 + k) as nat) == (phys as u64) | leaf);
    lemma_leaf_4k(phys as u64, leaf, a);
}

} // verus!
