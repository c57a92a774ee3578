//! Reading back a mapped range: page tables that form a tree stay a tree
//! while pages are mapped into them, and every page mapped reads back.

use vstd::prelude::*;
use crate::mm::pages::{w_at, w_set, l4_index, l3_index, l2_index, l1_index, lemma_index_bounds, PHYS_LIMIT};
use crate::iommu::slpt::{
    ensure_spec, in_use, walk_pages, lemma_ensure_step, lemma_w_set_frame, lemma_zero_entry, map_page_4k_spec,
    mapped_4k, path_ok_4k, lemma_map_page_4k_walk, map_4k_from, map_page_2m_spec, map_2m_from, mapped_2m,
    path_ok_2m, lemma_big_leaf_bits, SL_P, SL_PS, SL_MASK, SL_MASK_2M,
};

verus! {

/// The page-directory-pointer, directory and page-table entries on the walk of `a` from `cr3`.
pub open spec fn e4(w: Seq<u64>, base: u64, cr3: u64, a: u64) -> u64 {
    w_at(w, base, cr3, l4_index(a))
}

pub open spec fn e3(w: Seq<u64>, base: u64, cr3: u64, a: u64) -> u64 {
    w_at(w, base, e4(w, base, cr3, a) & SL_MASK, l3_index(a))
}

pub open spec fn e2(w: Seq<u64>, base: u64, cr3: u64, a: u64) -> u64 {
    w_at(w, base, e3(w, base, cr3, a) & SL_MASK, l2_index(a))
}

/// The tables the walk of `a` passes through below `cr3`.
pub open spec fn pdpt_of(w: Seq<u64>, base: u64, cr3: u64, a: u64) -> u64 {
    e4(w, base, cr3, a) & SL_MASK
}

pub open spec fn pd_of(w: Seq<u64>, base: u64, cr3: u64, a: u64) -> u64 {
    e3(w, base, cr3, a) & SL_MASK
}

pub open spec fn pt_of(w: Seq<u64>, base: u64, cr3: u64, a: u64) -> u64 {
    e2(w, base, cr3, a) & SL_MASK
}

/// The walk of `a` reaches a page directory pointer table, a page
/// directory, a page table.
pub open spec fn live4(w: Seq<u64>, base: u64, cr3: u64, a: u64) -> bool {
    e4(w, base, cr3, a) & SL_P != 0
}

pub open spec fn live3(w: Seq<u64>, base: u64, cr3: u64, a: u64) -> bool {
    live4(w, base, cr3, a) && e3(w, base, cr3, a) & SL_P != 0
}

pub open spec fn live2(w: Seq<u64>, base: u64, cr3: u64, a: u64) -> bool {
    live3(w, base, cr3, a) && e2(w, base, cr3, a) & SL_P != 0
}

/// Pages `w` at `base` whose whole length lies below the physical limit.
pub open spec fn pages_ok(w: Seq<u64>, base: u64) -> bool {
    &&& w.len() % 512 == 0
    &&& base % 4096 == 0
    &&& base + w.len() * 8 <= PHYS_LIMIT
}

/// The tables reachable from `cr3` form a tree of tables in use: every
/// table sits at one place of it, below the root, and no directory entry is
/// a large page.
pub open spec fn tree_ok(w: Seq<u64>, base: u64, used: nat, cr3: u64) -> bool {
    &&& cr3 != 0 && in_use(base, used, cr3)
    &&& forall|a: u64| #![trigger pdpt_of(w, base, cr3, a)] live4(w, base, cr3, a)
        ==> in_use(base, used, pdpt_of(w, base, cr3, a)) && pdpt_of(w, base, cr3, a) != cr3
    &&& forall|a: u64| #![trigger pd_of(w, base, cr3, a)] live3(w, base, cr3, a)
        ==> in_use(base, used, pd_of(w, base, cr3, a)) && pd_of(w, base, cr3, a) != cr3
    &&& forall|a: u64| #![trigger pt_of(w, base, cr3, a)] live2(w, base, cr3, a)
        ==> in_use(base, used, pt_of(w, base, cr3, a)) && pt_of(w, base, cr3, a) != cr3
            && e2(w, base, cr3, a) & SL_PS == 0
    &&& forall|a: u64, b: u64| live4(w, base, cr3, a) && live4(w, base, cr3, b)
        && #[trigger] pdpt_of(w, base, cr3, a) == #[trigger] pdpt_of(w, base, cr3, b)
        ==> l4_index(a) == l4_index(b)
    &&& forall|a: u64, b: u64| live3(w, base, cr3, a) && live3(w, base, cr3, b)
        && #[trigger] pd_of(w, base, cr3, a) == #[trigger] pd_of(w, base, cr3, b)
        ==> l4_index(a) == l4_index(b) && l3_index(a) == l3_index(b)
    &&& forall|a: u64, b: u64| live2(w, base, cr3, a) && live2(w, base, cr3, b)
        && #[trigger] pt_of(w, base, cr3, a) == #[trigger] pt_of(w, base, cr3, b)
        ==> l4_index(a) == l4_index(b) && l3_index(a) == l3_index(b) && l2_index(a) == l2_index(b)
    &&& forall|a: u64, b: u64| live4(w, base, cr3, a) && live3(w, base, cr3, b)
        ==> #[trigger] pdpt_of(w, base, cr3, a) != #[trigger] pd_of(w, base, cr3, b)
    &&& forall|a: u64, b: u64| live4(w, base, cr3, a) && live2(w, base, cr3, b)
        ==> #[trigger] pdpt_of(w, base, cr3, a) != #[trigger] pt_of(w, base, cr3, b)
    &&& forall|a: u64, b: u64| live3(w, base, cr3, a) && live2(w, base, cr3, b)
        ==> #[trigger] pd_of(w, base, cr3, a) != #[trigger] pt_of(w, base, cr3, b)
}

/// Every address whose walk reached a page table in `w`, other than the
/// 4 KiB page of `g`, still does in `w2`, and walks to the same place.
pub open spec fn walks_kept(w: Seq<u64>, w2: Seq<u64>, base: u64, cr3: u64, g: u64) -> bool {
    forall|a: u64| #[trigger] live2(w, base, cr3, a)
        && (l4_index(a) != l4_index(g) || l3_index(a) != l3_index(g) || l2_index(a) != l2_index(g) || l1_index(a) != l1_index(g))
        ==> live2(w2, base, cr3, a) && walk_pages(w2, base, cr3, a) == walk_pages(w, base, cr3, a)
}

/// Making sure the PML4 entry of `g` points to a table keeps the tree a
/// tree, and every walk that reached a page table.
proof fn lemma_tree_ensure4(w: Seq<u64>, base: u64, used: nat, cr3: u64, g: u64)
    requires
        pages_ok(w, base),
        used < w.len() / 512,
        tree_ok(w, base, used, cr3),
    ensures
        ({
            let s = ensure_spec(w, base, used, cr3, l4_index(g));
            &&& s.0.len() == w.len()
            &&& s.1 == used || s.1 == used + 1
            &&& tree_ok(s.0, base, s.1, cr3)
            &&& live4(s.0, base, cr3, g)
            &&& pdpt_of(s.0, base, cr3, g) == s.2
            &&& walks_kept(w, s.0, base, cr3, g)
        }),
{
    lemma_index_bounds(g);
    let i4 = l4_index(g);
    assert(pdpt_of(w, base, cr3, g) == w_at(w, base, cr3, i4) & SL_MASK);
    lemma_ensure_step(w, base, used, cr3, i4, seq![], false);
    let s = ensure_spec(w, base, used, cr3, i4);
    if s.1 == used {
        return;
    }
    let w1 = s.0;
    let n = s.2;
    let u1 = s.1;
    // Walks away from the new entry see the same entries as before.
    assert forall|a: u64| l4_index(a) != i4 implies
        #[trigger] e4(w1, base, cr3, a) == e4(w, base, cr3, a)
        && (live4(w, base, cr3, a) ==> e3(w1, base, cr3, a) == e3(w, base, cr3, a))
        && (live3(w, base, cr3, a) ==> e2(w1, base, cr3, a) == e2(w, base, cr3, a))
        && (live2(w, base, cr3, a) ==> forall|j: u64| j < 512 ==> #[trigger] w_at(w1, base, pt_of(w, base, cr3, a), j) == w_at(w, base, pt_of(w, base, cr3, a), j))
    by {
        lemma_index_bounds(a);
        assert(w_at(w1, base, cr3, l4_index(a)) == w_at(w, base, cr3, l4_index(a)));
        if live4(w, base, cr3, a) {
            assert(in_use(base, used, pdpt_of(w, base, cr3, a)));
            assert(w_at(w1, base, pdpt_of(w, base, cr3, a), l3_index(a)) == w_at(w, base, pdpt_of(w, base, cr3, a), l3_index(a)));
        }
        if live3(w, base, cr3, a) {
            assert(in_use(base, used, pd_of(w, base, cr3, a)));
            assert(w_at(w1, base, pd_of(w, base, cr3, a), l2_index(a)) == w_at(w, base, pd_of(w, base, cr3, a), l2_index(a)));
        }
        if live2(w, base, cr3, a) {
            assert(in_use(base, used, pt_of(w, base, cr3, a)));
        }
    }
    // Walks through the new entry end at the new, empty table.
    assert forall|a: u64| l4_index(a) == i4 implies
        #[trigger] live4(w1, base, cr3, a) && pdpt_of(w1, base, cr3, a) == n && !live3(w1, base, cr3, a)
        && !live4(w, base, cr3, a)
    by {
        lemma_index_bounds(a);
        assert(w_at(w1, base, n, l3_index(a)) == 0);
        lemma_zero_entry();
    }
    assert(tree_ok(w1, base, u1, cr3)) by {
        assert forall|a: u64| #![trigger pdpt_of(w1, base, cr3, a)] live4(w1, base, cr3, a)
            implies in_use(base, u1, pdpt_of(w1, base, cr3, a)) && pdpt_of(w1, base, cr3, a) != cr3 by {
            if l4_index(a) != i4 {
                assert(e4(w1, base, cr3, a) == e4(w, base, cr3, a));
                assert(live4(w, base, cr3, a));
                assert(in_use(base, used, pdpt_of(w, base, cr3, a)));
            } else {
                assert(live4(w1, base, cr3, a));
            }
        }
        assert forall|a: u64| #![trigger pd_of(w1, base, cr3, a)] live3(w1, base, cr3, a)
            implies in_use(base, u1, pd_of(w1, base, cr3, a)) && pd_of(w1, base, cr3, a) != cr3 by {
            if l4_index(a) != i4 {
                assert(e4(w1, base, cr3, a) == e4(w, base, cr3, a));
                assert(live3(w, base, cr3, a));
                assert(in_use(base, used, pd_of(w, base, cr3, a)));
            } else {
                assert(live4(w1, base, cr3, a));
            }
        }
        assert forall|a: u64| #![trigger pt_of(w1, base, cr3, a)] live2(w1, base, cr3, a)
            implies in_use(base, u1, pt_of(w1, base, cr3, a)) && pt_of(w1, base, cr3, a) != cr3
                && e2(w1, base, cr3, a) & SL_PS == 0 by {
            if l4_index(a) != i4 {
                assert(e4(w1, base, cr3, a) == e4(w, base, cr3, a));
                assert(live2(w, base, cr3, a));
                assert(in_use(base, used, pt_of(w, base, cr3, a)));
            } else {
                assert(live4(w1, base, cr3, a));
            }
        }
        assert forall|a: u64, b: u64| live4(w1, base, cr3, a) && live4(w1, base, cr3, b)
            && #[trigger] pdpt_of(w1, base, cr3, a) == #[trigger] pdpt_of(w1, base, cr3, b)
            implies l4_index(a) == l4_index(b) by {
            if l4_index(a) != i4 {
                assert(e4(w1, base, cr3, a) == e4(w, base, cr3, a));
                assert(in_use(base, used, pdpt_of(w, base, cr3, a)));
            } else {
                assert(live4(w1, base, cr3, a));
            }
            if l4_index(b) != i4 {
                assert(e4(w1, base, cr3, b) == e4(w, base, cr3, b));
                assert(in_use(base, used, pdpt_of(w, base, cr3, b)));
            } else {
                assert(live4(w1, base, cr3, b));
            }
        }
        assert forall|a: u64, b: u64| live3(w1, base, cr3, a) && live3(w1, base, cr3, b)
            && #[trigger] pd_of(w1, base, cr3, a) == #[trigger] pd_of(w1, base, cr3, b)
            implies l4_index(a) == l4_index(b) && l3_index(a) == l3_index(b) by {
            if l4_index(a) == i4 { assert(live4(w1, base, cr3, a)); }
            if l4_index(b) == i4 { assert(live4(w1, base, cr3, b)); }
            assert(e4(w1, base, cr3, a) == e4(w, base, cr3, a));
            assert(e4(w1, base, cr3, b) == e4(w, base, cr3, b));
            assert(pd_of(w1, base, cr3, a) == pd_of(w, base, cr3, a));
            assert(pd_of(w1, base, cr3, b) == pd_of(w, base, cr3, b));
            assert(live3(w, base, cr3, a) && live3(w, base, cr3, b));
        }
        assert forall|a: u64, b: u64| live2(w1, base, cr3, a) && live2(w1, base, cr3, b)
            && #[trigger] pt_of(w1, base, cr3, a) == #[trigger] pt_of(w1, base, cr3, b)
            implies l4_index(a) == l4_index(b) && l3_index(a) == l3_index(b) && l2_index(a) == l2_index(b) by {
            if l4_index(a) == i4 { assert(live4(w1, base, cr3, a)); }
            if l4_index(b) == i4 { assert(live4(w1, base, cr3, b)); }
            assert(e4(w1, base, cr3, a) == e4(w, base, cr3, a));
            assert(e4(w1, base, cr3, b) == e4(w, base, cr3, b));
            assert(pt_of(w1, base, cr3, a) == pt_of(w, base, cr3, a));
            assert(pt_of(w1, base, cr3, b) == pt_of(w, base, cr3, b));
            assert(live2(w, base, cr3, a) && live2(w, base, cr3, b));
        }
        assert forall|a: u64, b: u64| live4(w1, base, cr3, a) && live3(w1, base, cr3, b)
            implies #[trigger] pdpt_of(w1, base, cr3, a) != #[trigger] pd_of(w1, base, cr3, b) by {
            if l4_index(b) == i4 { assert(live4(w1, base, cr3, b)); }
            assert(e4(w1, base, cr3, b) == e4(w, base, cr3, b));
            assert(pd_of(w1, base, cr3, b) == pd_of(w, base, cr3, b) && live3(w, base, cr3, b));
            assert(in_use(base, used, pd_of(w, base, cr3, b)));
            if l4_index(a) != i4 {
                assert(e4(w1, base, cr3, a) == e4(w, base, cr3, a));
                assert(pdpt_of(w1, base, cr3, a) == pdpt_of(w, base, cr3, a) && live4(w, base, cr3, a));
                assert(pdpt_of(w, base, cr3, a) != pd_of(w, base, cr3, b));
            } else {
                assert(live4(w1, base, cr3, a));
                assert(!in_use(base, used, n));
            }
        }
        assert forall|a: u64, b: u64| live4(w1, base, cr3, a) && live2(w1, base, cr3, b)
            implies #[trigger] pdpt_of(w1, base, cr3, a) != #[trigger] pt_of(w1, base, cr3, b) by {
            if l4_index(b) == i4 { assert(live4(w1, base, cr3, b)); }
            assert(e4(w1, base, cr3, b) == e4(w, base, cr3, b));
            assert(pt_of(w1, base, cr3, b) == pt_of(w, base, cr3, b) && live2(w, base, cr3, b));
            assert(in_use(base, used, pt_of(w, base, cr3, b)));
            if l4_index(a) != i4 {
                assert(e4(w1, base, cr3, a) == e4(w, base, cr3, a));
                assert(pdpt_of(w1, base, cr3, a) == pdpt_of(w, base, cr3, a) && live4(w, base, cr3, a));
                assert(pdpt_of(w, base, cr3, a) != pt_of(w, base, cr3, b));
            } else {
                assert(live4(w1, base, cr3, a));
                assert(!in_use(base, used, n));
            }
        }
        assert forall|a: u64, b: u64| live3(w1, base, cr3, a) && live2(w1, base, cr3, b)
            implies #[trigger] pd_of(w1, base, cr3, a) != #[trigger] pt_of(w1, base, cr3, b) by {
            if l4_index(a) == i4 { assert(live4(w1, base, cr3, a)); }
            if l4_index(b) == i4 { assert(live4(w1, base, cr3, b)); }
            assert(e4(w1, base, cr3, a) == e4(w, base, cr3, a));
            assert(e4(w1, base, cr3, b) == e4(w, base, cr3, b));
            assert(pd_of(w1, base, cr3, a) == pd_of(w, base, cr3, a) && live3(w, base, cr3, a));
            assert(pt_of(w1, base, cr3, b) == pt_of(w, base, cr3, b) && live2(w, base, cr3, b));
            assert(pd_of(w, base, cr3, a) != pt_of(w, base, cr3, b));
        }
    }
    assert forall|a: u64| #[trigger] live2(w, base, cr3, a)
        && (l4_index(a) != l4_index(g) || l3_index(a) != l3_index(g) || l2_index(a) != l2_index(g) || l1_index(a) != l1_index(g))
        implies live2(w1, base, cr3, a) && walk_pages(w1, base, cr3, a) == walk_pages(w, base, cr3, a) by {
        if l4_index(a) == i4 { assert(live4(w1, base, cr3, a)); }
        assert(e4(w1, base, cr3, a) == e4(w, base, cr3, a));
        lemma_index_bounds(a);
        assert(w_at(w1, base, pt_of(w, base, cr3, a), l1_index(a)) == w_at(w, base, pt_of(w, base, cr3, a), l1_index(a)));
    }
}

/// Making sure the page-directory-pointer entry of `g` points to a table
/// keeps the tree a tree, and every walk that reached a page table.
proof fn lemma_tree_ensure3(w: Seq<u64>, base: u64, used: nat, cr3: u64, g: u64)
    requires
        pages_ok(w, base),
        used < w.len() / 512,
        tree_ok(w, base, used, cr3),
        live4(w, base, cr3, g),
    ensures
        ({
            let s = ensure_spec(w, base, used, pdpt_of(w, base, cr3, g), l3_index(g));
            &&& s.0.len() == w.len()
            &&& s.1 == used || s.1 == used + 1
            &&& tree_ok(s.0, base, s.1, cr3)
            &&& live3(s.0, base, cr3, g)
            &&& pd_of(s.0, base, cr3, g) == s.2
            &&& walks_kept(w, s.0, base, cr3, g)
        }),
{
    lemma_index_bounds(g);
    let p = pdpt_of(w, base, cr3, g);
    let i3 = l3_index(g);
    assert(in_use(base, used, p) && p != cr3);
    assert(pd_of(w, base, cr3, g) == w_at(w, base, p, i3) & SL_MASK);
    if live3(w, base, cr3, g) {
        assert(pdpt_of(w, base, cr3, g) != pd_of(w, base, cr3, g));
    }
    let ex: Seq<u64> = seq![cr3];
    assert(ex.len() == 1 && ex[0] == cr3);
    lemma_ensure_step(w, base, used, p, i3, ex, false);
    let s = ensure_spec(w, base, used, p, i3);
    if s.1 == used {
        return;
    }
    let w1 = s.0;
    let n = s.2;
    let u1 = s.1;
    assert(!in_use(base, used, n));
    assert forall|a: u64| #![trigger e4(w1, base, cr3, a)]
        e4(w1, base, cr3, a) == e4(w, base, cr3, a)
        && (live4(w, base, cr3, a) && !(l4_index(a) == l4_index(g) && l3_index(a) == i3) ==> e3(w1, base, cr3, a) == e3(w, base, cr3, a))
        && (live3(w, base, cr3, a) ==> e2(w1, base, cr3, a) == e2(w, base, cr3, a))
        && (live2(w, base, cr3, a) ==> forall|j: u64| j < 512 ==> #[trigger] w_at(w1, base, pt_of(w, base, cr3, a), j) == w_at(w, base, pt_of(w, base, cr3, a), j))
        && (l4_index(a) == l4_index(g) && l3_index(a) == i3 ==> live3(w1, base, cr3, a) && pd_of(w1, base, cr3, a) == n
            && !live2(w1, base, cr3, a) && !live3(w, base, cr3, a))
    by {
        lemma_index_bounds(a);
        assert(w_at(w1, base, cr3, l4_index(a)) == w_at(w, base, cr3, l4_index(a)));
        if live4(w, base, cr3, a) {
            assert(in_use(base, used, pdpt_of(w, base, cr3, a)));
            if l4_index(a) != l4_index(g) {
                assert(pdpt_of(w, base, cr3, a) != p);
            }
            if !(l4_index(a) == l4_index(g) && l3_index(a) == i3) {
                assert(w_at(w1, base, pdpt_of(w, base, cr3, a), l3_index(a)) == w_at(w, base, pdpt_of(w, base, cr3, a), l3_index(a)));
            }
        }
        if live3(w, base, cr3, a) {
            assert(in_use(base, used, pd_of(w, base, cr3, a)));
            assert(pdpt_of(w, base, cr3, g) != pd_of(w, base, cr3, a));
            assert(w_at(w1, base, pd_of(w, base, cr3, a), l2_index(a)) == w_at(w, base, pd_of(w, base, cr3, a), l2_index(a)));
        }
        if live2(w, base, cr3, a) {
            assert(in_use(base, used, pt_of(w, base, cr3, a)));
            assert(pdpt_of(w, base, cr3, g) != pt_of(w, base, cr3, a));
        }
        if l4_index(a) == l4_index(g) && l3_index(a) == i3 {
            assert(w_at(w1, base, n, l2_index(a)) == 0);
            lemma_zero_entry();
        }
    }
    assert(tree_ok(w1, base, u1, cr3)) by {
        assert forall|a: u64| #![trigger pdpt_of(w1, base, cr3, a)] live4(w1, base, cr3, a)
            implies in_use(base, u1, pdpt_of(w1, base, cr3, a)) && pdpt_of(w1, base, cr3, a) != cr3 by {
            assert(e4(w1, base, cr3, a) == e4(w, base, cr3, a));
            assert(in_use(base, used, pdpt_of(w, base, cr3, a)));
        }
        assert forall|a: u64| #![trigger pd_of(w1, base, cr3, a)] live3(w1, base, cr3, a)
            implies in_use(base, u1, pd_of(w1, base, cr3, a)) && pd_of(w1, base, cr3, a) != cr3 by {
            assert(e4(w1, base, cr3, a) == e4(w, base, cr3, a));
            if !(l4_index(a) == l4_index(g) && l3_index(a) == i3) {
                assert(live3(w, base, cr3, a));
                assert(in_use(base, used, pd_of(w, base, cr3, a)));
            }
        }
        assert forall|a: u64| #![trigger pt_of(w1, base, cr3, a)] live2(w1, base, cr3, a)
            implies in_use(base, u1, pt_of(w1, base, cr3, a)) && pt_of(w1, base, cr3, a) != cr3
                && e2(w1, base, cr3, a) & SL_PS == 0 by {
            assert(e4(w1, base, cr3, a) == e4(w, base, cr3, a));
            assert(live2(w, base, cr3, a));
            assert(in_use(base, used, pt_of(w, base, cr3, a)));
        }
        assert forall|a: u64, b: u64| live4(w1, base, cr3, a) && live4(w1, base, cr3, b)
            && #[trigger] pdpt_of(w1, base, cr3, a) == #[trigger] pdpt_of(w1, base, cr3, b)
            implies l4_index(a) == l4_index(b) by {
            assert(e4(w1, base, cr3, a) == e4(w, base, cr3, a));
            assert(e4(w1, base, cr3, b) == e4(w, base, cr3, b));
            assert(pdpt_of(w, base, cr3, a) == pdpt_of(w, base, cr3, b));
        }
        assert forall|a: u64, b: u64| live3(w1, base, cr3, a) && live3(w1, base, cr3, b)
            && #[trigger] pd_of(w1, base, cr3, a) == #[trigger] pd_of(w1, base, cr3, b)
            implies l4_index(a) == l4_index(b) && l3_index(a) == l3_index(b) by {
            assert(e4(w1, base, cr3, a) == e4(w, base, cr3, a));
            assert(e4(w1, base, cr3, b) == e4(w, base, cr3, b));
            let na = l4_index(a) == l4_index(g) && l3_index(a) == i3;
            let nb = l4_index(b) == l4_index(g) && l3_index(b) == i3;
            if !na {
                assert(live3(w, base, cr3, a));
                assert(in_use(base, used, pd_of(w, base, cr3, a)));
            }
            if !nb {
                assert(live3(w, base, cr3, b));
                assert(in_use(base, used, pd_of(w, base, cr3, b)));
            }
            if !na && !nb {
                assert(pd_of(w, base, cr3, a) == pd_of(w, base, cr3, b));
            }
        }
        assert forall|a: u64, b: u64| live2(w1, base, cr3, a) && live2(w1, base, cr3, b)
            && #[trigger] pt_of(w1, base, cr3, a) == #[trigger] pt_of(w1, base, cr3, b)
            implies l4_index(a) == l4_index(b) && l3_index(a) == l3_index(b) && l2_index(a) == l2_index(b) by {
            assert(e4(w1, base, cr3, a) == e4(w, base, cr3, a));
            assert(e4(w1, base, cr3, b) == e4(w, base, cr3, b));
            assert(live2(w, base, cr3, a) && live2(w, base, cr3, b));
            assert(pt_of(w, base, cr3, a) == pt_of(w, base, cr3, b));
        }
        assert forall|a: u64, b: u64| live4(w1, base, cr3, a) && live3(w1, base, cr3, b)
            implies #[trigger] pdpt_of(w1, base, cr3, a) != #[trigger] pd_of(w1, base, cr3, b) by {
            assert(e4(w1, base, cr3, a) == e4(w, base, cr3, a));
            assert(e4(w1, base, cr3, b) == e4(w, base, cr3, b));
            assert(in_use(base, used, pdpt_of(w, base, cr3, a)));
            if !(l4_index(b) == l4_index(g) && l3_index(b) == i3) {
                assert(live3(w, base, cr3, b));
                assert(pdpt_of(w, base, cr3, a) != pd_of(w, base, cr3, b));
            }
        }
        assert forall|a: u64, b: u64| live4(w1, base, cr3, a) && live2(w1, base, cr3, b)
            implies #[trigger] pdpt_of(w1, base, cr3, a) != #[trigger] pt_of(w1, base, cr3, b) by {
            assert(e4(w1, base, cr3, a) == e4(w, base, cr3, a));
            assert(e4(w1, base, cr3, b) == e4(w, base, cr3, b));
            assert(live2(w, base, cr3, b));
            assert(pdpt_of(w, base, cr3, a) != pt_of(w, base, cr3, b));
        }
        assert forall|a: u64, b: u64| live3(w1, base, cr3, a) && live2(w1, base, cr3, b)
            implies #[trigger] pd_of(w1, base, cr3, a) != #[trigger] pt_of(w1, base, cr3, b) by {
            assert(e4(w1, base, cr3, a) == e4(w, base, cr3, a));
            assert(e4(w1, base, cr3, b) == e4(w, base, cr3, b));
            assert(live2(w, base, cr3, b));
            assert(in_use(base, used, pt_of(w, base, cr3, b)));
            if !(l4_index(a) == l4_index(g) && l3_index(a) == i3) {
                assert(live3(w, base, cr3, a));
                assert(pd_of(w, base, cr3, a) != pt_of(w, base, cr3, b));
            }
        }
    }
    assert forall|a: u64| #[trigger] live2(w, base, cr3, a)
        && (l4_index(a) != l4_index(g) || l3_index(a) != l3_index(g) || l2_index(a) != l2_index(g) || l1_index(a) != l1_index(g))
        implies live2(w1, base, cr3, a) && walk_pages(w1, base, cr3, a) == walk_pages(w, base, cr3, a) by {
        assert(e4(w1, base, cr3, a) == e4(w, base, cr3, a));
        lemma_index_bounds(a);
        assert(w_at(w1, base, pt_of(w, base, cr3, a), l1_index(a)) == w_at(w, base, pt_of(w, base, cr3, a), l1_index(a)));
    }
}

/// Making sure the page-directory entry of `g` points to a page table keeps
/// the tree a tree, and every walk that reached a page table.
proof fn lemma_tree_ensure2(w: Seq<u64>, base: u64, used: nat, cr3: u64, g: u64)
    requires
        pages_ok(w, base),
        used < w.len() / 512,
        tree_ok(w, base, used, cr3),
        live3(w, base, cr3, g),
    ensures
        ({
            let s = ensure_spec(w, base, used, pd_of(w, base, cr3, g), l2_index(g));
            &&& s.0.len() == w.len()
            &&& s.1 == used || s.1 == used + 1
            &&& tree_ok(s.0, base, s.1, cr3)
            &&& live2(s.0, base, cr3, g)
            &&& pt_of(s.0, base, cr3, g) == s.2
            &&& walks_kept(w, s.0, base, cr3, g)
        }),
{
    lemma_index_bounds(g);
    let p = pdpt_of(w, base, cr3, g);
    let d = pd_of(w, base, cr3, g);
    let i2 = l2_index(g);
    let same3 = |a: u64| l4_index(a) == l4_index(g) && l3_index(a) == l3_index(g) && l2_index(a) == i2;
    assert(in_use(base, used, p) && p != cr3);
    assert(in_use(base, used, d) && d != cr3);
    assert(p != d);
    assert(pt_of(w, base, cr3, g) == w_at(w, base, d, i2) & SL_MASK);
    if live2(w, base, cr3, g) {
        assert(pdpt_of(w, base, cr3, g) != pt_of(w, base, cr3, g));
        assert(pd_of(w, base, cr3, g) != pt_of(w, base, cr3, g));
    }
    let ex: Seq<u64> = seq![cr3, p];
    assert(ex.len() == 2 && ex[0] == cr3 && ex[1] == p);
    lemma_ensure_step(w, base, used, d, i2, ex, true);
    let s = ensure_spec(w, base, used, d, i2);
    if s.1 == used {
        return;
    }
    let w1 = s.0;
    let n = s.2;
    let u1 = s.1;
    assert(!in_use(base, used, n));
    assert forall|a: u64| #![trigger e4(w1, base, cr3, a)]
        e4(w1, base, cr3, a) == e4(w, base, cr3, a)
        && (live4(w, base, cr3, a) ==> e3(w1, base, cr3, a) == e3(w, base, cr3, a))
        && (live3(w, base, cr3, a) && !same3(a) ==> e2(w1, base, cr3, a) == e2(w, base, cr3, a))
        && (live2(w, base, cr3, a) ==> forall|j: u64| j < 512 ==> #[trigger] w_at(w1, base, pt_of(w, base, cr3, a), j) == w_at(w, base, pt_of(w, base, cr3, a), j))
        && (same3(a) ==> live2(w1, base, cr3, a) && pt_of(w1, base, cr3, a) == n && e2(w1, base, cr3, a) & SL_PS == 0
            && !live2(w, base, cr3, a))
    by {
        lemma_index_bounds(a);
        assert(w_at(w1, base, cr3, l4_index(a)) == w_at(w, base, cr3, l4_index(a)));
        if live4(w, base, cr3, a) {
            assert(in_use(base, used, pdpt_of(w, base, cr3, a)));
            assert(pdpt_of(w, base, cr3, a) != pd_of(w, base, cr3, g));
            assert(w_at(w1, base, pdpt_of(w, base, cr3, a), l3_index(a)) == w_at(w, base, pdpt_of(w, base, cr3, a), l3_index(a)));
        }
        if live3(w, base, cr3, a) {
            assert(in_use(base, used, pd_of(w, base, cr3, a)));
            if !(l4_index(a) == l4_index(g) && l3_index(a) == l3_index(g)) {
                assert(pd_of(w, base, cr3, a) != d);
            }
            if !same3(a) {
                assert(w_at(w1, base, pd_of(w, base, cr3, a), l2_index(a)) == w_at(w, base, pd_of(w, base, cr3, a), l2_index(a)));
            }
        }
        if live2(w, base, cr3, a) {
            assert(in_use(base, used, pt_of(w, base, cr3, a)));
            assert(pd_of(w, base, cr3, g) != pt_of(w, base, cr3, a));
        }
    }
    assert(tree_ok(w1, base, u1, cr3)) by {
        assert forall|a: u64| #![trigger pdpt_of(w1, base, cr3, a)] live4(w1, base, cr3, a)
            implies in_use(base, u1, pdpt_of(w1, base, cr3, a)) && pdpt_of(w1, base, cr3, a) != cr3 by {
            assert(e4(w1, base, cr3, a) == e4(w, base, cr3, a));
            assert(in_use(base, used, pdpt_of(w, base, cr3, a)));
        }
        assert forall|a: u64| #![trigger pd_of(w1, base, cr3, a)] live3(w1, base, cr3, a)
            implies in_use(base, u1, pd_of(w1, base, cr3, a)) && pd_of(w1, base, cr3, a) != cr3 by {
            assert(e4(w1, base, cr3, a) == e4(w, base, cr3, a));
            assert(in_use(base, used, pd_of(w, base, cr3, a)));
        }
        assert forall|a: u64| #![trigger pt_of(w1, base, cr3, a)] live2(w1, base, cr3, a)
            implies in_use(base, u1, pt_of(w1, base, cr3, a)) && pt_of(w1, base, cr3, a) != cr3
                && e2(w1, base, cr3, a) & SL_PS == 0 by {
            assert(e4(w1, base, cr3, a) == e4(w, base, cr3, a));
            if !same3(a) {
                assert(live2(w, base, cr3, a));
                assert(in_use(base, used, pt_of(w, base, cr3, a)));
            }
        }
        assert forall|a: u64, b: u64| live4(w1, base, cr3, a) && live4(w1, base, cr3, b)
            && #[trigger] pdpt_of(w1, base, cr3, a) == #[trigger] pdpt_of(w1, base, cr3, b)
            implies l4_index(a) == l4_index(b) by {
            assert(e4(w1, base, cr3, a) == e4(w, base, cr3, a));
            assert(e4(w1, base, cr3, b) == e4(w, base, cr3, b));
            assert(pdpt_of(w, base, cr3, a) == pdpt_of(w, base, cr3, b));
        }
        assert forall|a: u64, b: u64| live3(w1, base, cr3, a) && live3(w1, base, cr3, b)
            && #[trigger] pd_of(w1, base, cr3, a) == #[trigger] pd_of(w1, base, cr3, b)
            implies l4_index(a) == l4_index(b) && l3_index(a) == l3_index(b) by {
            assert(e4(w1, base, cr3, a) == e4(w, base, cr3, a));
            assert(e4(w1, base, cr3, b) == e4(w, base, cr3, b));
            assert(pd_of(w, base, cr3, a) == pd_of(w, base, cr3, b));
        }
        assert forall|a: u64, b: u64| live2(w1, base, cr3, a) && live2(w1, base, cr3, b)
            && #[trigger] pt_of(w1, base, cr3, a) == #[trigger] pt_of(w1, base, cr3, b)
            implies l4_index(a) == l4_index(b) && l3_index(a) == l3_index(b) && l2_index(a) == l2_index(b) by {
            assert(e4(w1, base, cr3, a) == e4(w, base, cr3, a));
            assert(e4(w1, base, cr3, b) == e4(w, base, cr3, b));
            if !same3(a) {
                assert(live2(w, base, cr3, a));
                assert(in_use(base, used, pt_of(w, base, cr3, a)));
            }
            if !same3(b) {
                assert(live2(w, base, cr3, b));
                assert(in_use(base, used, pt_of(w, base, cr3, b)));
            }
            if !same3(a) && !same3(b) {
                assert(pt_of(w, base, cr3, a) == pt_of(w, base, cr3, b));
            }
        }
        assert forall|a: u64, b: u64| live4(w1, base, cr3, a) && live3(w1, base, cr3, b)
            implies #[trigger] pdpt_of(w1, base, cr3, a) != #[trigger] pd_of(w1, base, cr3, b) by {
            assert(e4(w1, base, cr3, a) == e4(w, base, cr3, a));
            assert(e4(w1, base, cr3, b) == e4(w, base, cr3, b));
            assert(pdpt_of(w, base, cr3, a) != pd_of(w, base, cr3, b));
        }
        assert forall|a: u64, b: u64| live4(w1, base, cr3, a) && live2(w1, base, cr3, b)
            implies #[trigger] pdpt_of(w1, base, cr3, a) != #[trigger] pt_of(w1, base, cr3, b) by {
            assert(e4(w1, base, cr3, a) == e4(w, base, cr3, a));
            assert(e4(w1, base, cr3, b) == e4(w, base, cr3, b));
            assert(in_use(base, used, pdpt_of(w, base, cr3, a)));
            if !same3(b) {
                assert(live2(w, base, cr3, b));
                assert(pdpt_of(w, base, cr3, a) != pt_of(w, base, cr3, b));
            }
        }
        assert forall|a: u64, b: u64| live3(w1, base, cr3, a) && live2(w1, base, cr3, b)
            implies #[trigger] pd_of(w1, base, cr3, a) != #[trigger] pt_of(w1, base, cr3, b) by {
            assert(e4(w1, base, cr3, a) == e4(w, base, cr3, a));
            assert(e4(w1, base, cr3, b) == e4(w, base, cr3, b));
            assert(in_use(base, used, pd_of(w, base, cr3, a)));
            if !same3(b) {
                assert(live2(w, base, cr3, b));
                assert(pd_of(w, base, cr3, a) != pt_of(w, base, cr3, b));
            }
        }
    }
    assert forall|a: u64| #[trigger] live2(w, base, cr3, a)
        && (l4_index(a) != l4_index(g) || l3_index(a) != l3_index(g) || l2_index(a) != l2_index(g) || l1_index(a) != l1_index(g))
        implies live2(w1, base, cr3, a) && walk_pages(w1, base, cr3, a) == walk_pages(w, base, cr3, a) by {
        assert(e4(w1, base, cr3, a) == e4(w, base, cr3, a));
        lemma_index_bounds(a);
        assert(w_at(w1, base, pt_of(w, base, cr3, a), l1_index(a)) == w_at(w, base, pt_of(w, base, cr3, a), l1_index(a)));
    }
}

/// Writing the 4 KiB leaf of `g` keeps the tree as it is, and every walk
/// that reached a page table, but for `g`'s own page.
proof fn lemma_tree_leaf(w: Seq<u64>, base: u64, used: nat, cr3: u64, g: u64, leaf: u64)
    requires
        pages_ok(w, base),
        used <= w.len() / 512,
        tree_ok(w, base, used, cr3),
        live2(w, base, cr3, g),
    ensures
        ({
            let w1 = w_set(w, base, pt_of(w, base, cr3, g), l1_index(g), leaf);
            &&& w1.len() == w.len()
            &&& tree_ok(w1, base, used, cr3)
            &&& walks_kept(w, w1, base, cr3, g)
            &&& live2(w1, base, cr3, g) && pt_of(w1, base, cr3, g) == pt_of(w, base, cr3, g)
        }),
{
    lemma_index_bounds(g);
    let t = pt_of(w, base, cr3, g);
    let i1 = l1_index(g);
    let w1 = w_set(w, base, t, i1, leaf);
    assert(in_use(base, used, t) && t != cr3);
    assert forall|a: u64| #![trigger e4(w1, base, cr3, a)]
        e4(w1, base, cr3, a) == e4(w, base, cr3, a)
        && (live4(w, base, cr3, a) ==> e3(w1, base, cr3, a) == e3(w, base, cr3, a))
        && (live3(w, base, cr3, a) ==> e2(w1, base, cr3, a) == e2(w, base, cr3, a))
        && (live2(w, base, cr3, a) && (pt_of(w, base, cr3, a) != t || l1_index(a) != i1)
            ==> w_at(w1, base, pt_of(w, base, cr3, a), l1_index(a)) == w_at(w, base, pt_of(w, base, cr3, a), l1_index(a)))
    by {
        lemma_index_bounds(a);
        lemma_w_set_frame(w, base, t, i1, leaf, cr3, l4_index(a));
        if live4(w, base, cr3, a) {
            assert(in_use(base, used, pdpt_of(w, base, cr3, a)));
            assert(pdpt_of(w, base, cr3, a) != pt_of(w, base, cr3, g));
            lemma_w_set_frame(w, base, t, i1, leaf, pdpt_of(w, base, cr3, a), l3_index(a));
        }
        if live3(w, base, cr3, a) {
            assert(in_use(base, used, pd_of(w, base, cr3, a)));
            assert(pd_of(w, base, cr3, a) != pt_of(w, base, cr3, g));
            lemma_w_set_frame(w, base, t, i1, leaf, pd_of(w, base, cr3, a), l2_index(a));
        }
        if live2(w, base, cr3, a) && (pt_of(w, base, cr3, a) != t || l1_index(a) != i1) {
            assert(in_use(base, used, pt_of(w, base, cr3, a)));
            lemma_w_set_frame(w, base, t, i1, leaf, pt_of(w, base, cr3, a), l1_index(a));
        }
    }
    assert(tree_ok(w1, base, used, cr3)) by {
        assert forall|a: u64| #![trigger pdpt_of(w1, base, cr3, a)] live4(w1, base, cr3, a)
            implies in_use(base, used, pdpt_of(w1, base, cr3, a)) && pdpt_of(w1, base, cr3, a) != cr3 by {
            assert(e4(w1, base, cr3, a) == e4(w, base, cr3, a));
            assert(in_use(base, used, pdpt_of(w, base, cr3, a)));
        }
        assert forall|a: u64| #![trigger pd_of(w1, base, cr3, a)] live3(w1, base, cr3, a)
            implies in_use(base, used, pd_of(w1, base, cr3, a)) && pd_of(w1, base, cr3, a) != cr3 by {
            assert(e4(w1, base, cr3, a) == e4(w, base, cr3, a));
            assert(in_use(base, used, pd_of(w, base, cr3, a)));
        }
        assert forall|a: u64| #![trigger pt_of(w1, base, cr3, a)] live2(w1, base, cr3, a)
            implies in_use(base, used, pt_of(w1, base, cr3, a)) && pt_of(w1, base, cr3, a) != cr3
                && e2(w1, base, cr3, a) & SL_PS == 0 by {
            assert(e4(w1, base, cr3, a) == e4(w, base, cr3, a));
            assert(in_use(base, used, pt_of(w, base, cr3, a)));
        }
        assert forall|a: u64, b: u64| live4(w1, base, cr3, a) && live4(w1, base, cr3, b)
            && #[trigger] pdpt_of(w1, base, cr3, a) == #[trigger] pdpt_of(w1, base, cr3, b)
            implies l4_index(a) == l4_index(b) by {
            assert(e4(w1, base, cr3, a) == e4(w, base, cr3, a));
            assert(e4(w1, base, cr3, b) == e4(w, base, cr3, b));
            assert(pdpt_of(w, base, cr3, a) == pdpt_of(w, base, cr3, b));
        }
        assert forall|a: u64, b: u64| live3(w1, base, cr3, a) && live3(w1, base, cr3, b)
            && #[trigger] pd_of(w1, base, cr3, a) == #[trigger] pd_of(w1, base, cr3, b)
            implies l4_index(a) == l4_index(b) && l3_index(a) == l3_index(b) by {
            assert(e4(w1, base, cr3, a) == e4(w, base, cr3, a));
            assert(e4(w1, base, cr3, b) == e4(w, base, cr3, b));
            assert(pd_of(w, base, cr3, a) == pd_of(w, base, cr3, b));
        }
        assert forall|a: u64, b: u64| live2(w1, base, cr3, a) && live2(w1, base, cr3, b)
            && #[trigger] pt_of(w1, base, cr3, a) == #[trigger] pt_of(w1, base, cr3, b)
            implies l4_index(a) == l4_index(b) && l3_index(a) == l3_index(b) && l2_index(a) == l2_index(b) by {
            assert(e4(w1, base, cr3, a) == e4(w, base, cr3, a));
            assert(e4(w1, base, cr3, b) == e4(w, base, cr3, b));
            assert(pt_of(w, base, cr3, a) == pt_of(w, base, cr3, b));
        }
        assert forall|a: u64, b: u64| live4(w1, base, cr3, a) && live3(w1, base, cr3, b)
            implies #[trigger] pdpt_of(w1, base, cr3, a) != #[trigger] pd_of(w1, base, cr3, b) by {
            assert(e4(w1, base, cr3, a) == e4(w, base, cr3, a));
            assert(e4(w1, base, cr3, b) == e4(w, base, cr3, b));
            assert(pdpt_of(w, base, cr3, a) != pd_of(w, base, cr3, b));
        }
        assert forall|a: u64, b: u64| live4(w1, base, cr3, a) && live2(w1, base, cr3, b)
            implies #[trigger] pdpt_of(w1, base, cr3, a) != #[trigger] pt_of(w1, base, cr3, b) by {
            assert(e4(w1, base, cr3, a) == e4(w, base, cr3, a));
            assert(e4(w1, base, cr3, b) == e4(w, base, cr3, b));
            assert(pdpt_of(w, base, cr3, a) != pt_of(w, base, cr3, b));
        }
        assert forall|a: u64, b: u64| live3(w1, base, cr3, a) && live2(w1, base, cr3, b)
            implies #[trigger] pd_of(w1, base, cr3, a) != #[trigger] pt_of(w1, base, cr3, b) by {
            assert(e4(w1, base, cr3, a) == e4(w, base, cr3, a));
            assert(e4(w1, base, cr3, b) == e4(w, base, cr3, b));
            assert(pd_of(w, base, cr3, a) != pt_of(w, base, cr3, b));
        }
    }
    assert forall|a: u64| #[trigger] live2(w, base, cr3, a)
        && (l4_index(a) != l4_index(g) || l3_index(a) != l3_index(g) || l2_index(a) != l2_index(g) || l1_index(a) != l1_index(g))
        implies live2(w1, base, cr3, a) && walk_pages(w1, base, cr3, a) == walk_pages(w, base, cr3, a) by {
        assert(e4(w1, base, cr3, a) == e4(w, base, cr3, a));
        if pt_of(w, base, cr3, a) == t {
            assert(pt_of(w, base, cr3, a) == pt_of(w, base, cr3, g));
        }
    }
    assert(e4(w1, base, cr3, g) == e4(w, base, cr3, g));
}

/// Mapping one 4 KiB page into tables that form a tree keeps them a tree;
/// the page then reads back, and every other page that reached a page table
/// walks as before.
pub proof fn lemma_tree_map_page_4k(w: Seq<u64>, base: u64, used: nat, cr3: u64, g: u64, hpa: u64, flags: u64)
    requires
        pages_ok(w, base),
        used + 3 <= w.len() / 512,
        tree_ok(w, base, used, cr3),
        flags & SL_P != 0,
    ensures
        ({
            let s = map_page_4k_spec(w, base, used, cr3, g, hpa, flags);
            &&& s.0.len() == w.len()
            &&& used <= s.1 <= used + 3
            &&& tree_ok(s.0, base, s.1, cr3)
            &&& walk_pages(s.0, base, cr3, g) == Some(mapped_4k(hpa, flags, g))
            &&& walks_kept(w, s.0, base, cr3, g)
        }),
{
    lemma_index_bounds(g);
    assert(path_ok_4k(w, base, used, cr3, g)) by {
        if live4(w, base, cr3, g) {
            assert(in_use(base, used, pdpt_of(w, base, cr3, g)));
        }
        if live3(w, base, cr3, g) {
            assert(in_use(base, used, pd_of(w, base, cr3, g)));
            assert(pdpt_of(w, base, cr3, g) != pd_of(w, base, cr3, g));
        }
        if live2(w, base, cr3, g) {
            assert(in_use(base, used, pt_of(w, base, cr3, g)));
            assert(pdpt_of(w, base, cr3, g) != pt_of(w, base, cr3, g));
            assert(pd_of(w, base, cr3, g) != pt_of(w, base, cr3, g));
        }
    }
    lemma_map_page_4k_walk(w, base, used, cr3, g, hpa, flags);
    lemma_tree_ensure4(w, base, used, cr3, g);
    let s4 = ensure_spec(w, base, used, cr3, l4_index(g));
    lemma_tree_ensure3(s4.0, base, s4.1, cr3, g);
    let s3 = ensure_spec(s4.0, base, s4.1, s4.2, l3_index(g));
    lemma_tree_ensure2(s3.0, base, s3.1, cr3, g);
    let s2 = ensure_spec(s3.0, base, s3.1, s3.2, l2_index(g));
    let leaf = (hpa & SL_MASK) | flags;
    lemma_tree_leaf(s2.0, base, s2.1, cr3, g, leaf);
    let w1 = w_set(s2.0, base, s2.2, l1_index(g), leaf);
    assert(map_page_4k_spec(w, base, used, cr3, g, hpa, flags) == (w1, s2.1));
    assert forall|a: u64| #[trigger] live2(w, base, cr3, a)
        && (l4_index(a) != l4_index(g) || l3_index(a) != l3_index(g) || l2_index(a) != l2_index(g) || l1_index(a) != l1_index(g))
        implies live2(w1, base, cr3, a) && walk_pages(w1, base, cr3, a) == walk_pages(w, base, cr3, a) by {
        assert(live2(s4.0, base, cr3, a));
        assert(live2(s3.0, base, cr3, a));
        assert(live2(s2.0, base, cr3, a));
    }
}

/// A root table in use whose entries are all zero is a tree.
pub proof fn lemma_empty_root_tree(w: Seq<u64>, base: u64, used: nat, cr3: u64)
    requires
        cr3 != 0,
        in_use(base, used, cr3),
        forall|i: u64| i < 512 ==> #[trigger] w_at(w, base, cr3, i) == 0,
    ensures
        tree_ok(w, base, used, cr3),
        forall|a: u64| !(#[trigger] live4(w, base, cr3, a)),
{
    lemma_zero_entry();
    assert forall|a: u64| !(#[trigger] live4(w, base, cr3, a)) by {
        lemma_index_bounds(a);
        assert(w_at(w, base, cr3, l4_index(a)) == 0);
    }
}

/// Pages at different 4 KiB-aligned offsets below 256 TiB from one start
/// differ in some table index.
proof fn lemma_offsets_differ(iova: u64, o1: u64, o2: u64)
    by (bit_vector)
    requires
        o1 < 0x1_0000_0000_0000u64,
        o2 < 0x1_0000_0000_0000u64,
        o1 != o2,
        o1 % 4096 == 0,
        o2 % 4096 == 0,
    ensures
        l4_index(vstd::wrapping::u64_specs::wrapping_add(iova, o1)) != l4_index(vstd::wrapping::u64_specs::wrapping_add(iova, o2))
        || l3_index(vstd::wrapping::u64_specs::wrapping_add(iova, o1)) != l3_index(vstd::wrapping::u64_specs::wrapping_add(iova, o2))
        || l2_index(vstd::wrapping::u64_specs::wrapping_add(iova, o1)) != l2_index(vstd::wrapping::u64_specs::wrapping_add(iova, o2))
        || l1_index(vstd::wrapping::u64_specs::wrapping_add(iova, o1)) != l1_index(vstd::wrapping::u64_specs::wrapping_add(iova, o2)),
{
}

/// Page `o` of the mapping of `iova` to `pa` walks to its frame.
pub open spec fn page_reads_back(w: Seq<u64>, base: u64, cr3: u64, iova: u64, pa: u64, flags: u64, o: u64) -> bool {
    walk_pages(w, base, cr3, vstd::wrapping::u64_specs::wrapping_add(iova, o))
        == Some(mapped_4k(vstd::wrapping::u64_specs::wrapping_add(pa, o), flags, vstd::wrapping::u64_specs::wrapping_add(iova, o)))
}

proof fn lemma_map_4k_from_tree(w: Seq<u64>, base: u64, used: nat, cr3: u64, iova: u64, pa: u64, len: u64, flags: u64,
    off: int, left: nat)
    requires
        pages_ok(w, base),
        tree_ok(w, base, used, cr3),
        flags & SL_P != 0,
        len <= 0x1_0000_0000_0000u64,
        0 <= off,
        off % 4096 == 0,
        off + left * 4096 >= len,
        used + 3 * left <= w.len() / 512,
        forall|o: u64| o < off && o < len && o % 4096 == 0 ==> #[trigger] page_reads_back(w, base, cr3, iova, pa, flags, o),
    ensures
        ({
            let s = map_4k_from(w, base, used, cr3, iova, pa, len, flags, off);
            &&& tree_ok(s.0, base, s.1, cr3)
            &&& s.0.len() == w.len()
            &&& forall|o: u64| o < len && o % 4096 == 0 ==> #[trigger] page_reads_back(s.0, base, cr3, iova, pa, flags, o)
        }),
    decreases len + 4096 - off,
{
    if off >= len {
        return;
    }
    let g = vstd::wrapping::u64_specs::wrapping_add(iova, off as u64);
    let h = vstd::wrapping::u64_specs::wrapping_add(pa, off as u64);
    lemma_tree_map_page_4k(w, base, used, cr3, g, h, flags);
    let s = map_page_4k_spec(w, base, used, cr3, g, h, flags);
    assert forall|o: u64| o < off + 4096 && o < len && o % 4096 == 0
        implies #[trigger] page_reads_back(s.0, base, cr3, iova, pa, flags, o) by {
        if o != off {
            assert(page_reads_back(w, base, cr3, iova, pa, flags, o));
            let a = vstd::wrapping::u64_specs::wrapping_add(iova, o);
            assert(live2(w, base, cr3, a));
            lemma_offsets_differ(iova, o, off as u64);
        }
    }
    lemma_map_4k_from_tree(s.0, base, s.1, cr3, iova, pa, len, flags, off + 4096, (left - 1) as nat);
}

/// Mapping `len` bytes (at most 256 TiB) at `iova` to `pa` page by page
/// into tables that form a tree, with three free pool pages for each page:
/// the tables stay a tree, and every 4 KiB page of the range then walks to
/// its frame at the same offset from `pa`.
pub proof fn lemma_map_range_4k_walk(w: Seq<u64>, base: u64, used: nat, cr3: u64, iova: u64, pa: u64, len: u64, flags: u64)
    requires
        pages_ok(w, base),
        tree_ok(w, base, used, cr3),
        flags & SL_P != 0,
        len <= 0x1_0000_0000_0000u64,
        used + 3 * ((len + 4095) / 4096) <= w.len() / 512,
    ensures
        ({
            let s = map_4k_from(w, base, used, cr3, iova, pa, len, flags, 0);
            &&& tree_ok(s.0, base, s.1, cr3)
            &&& forall|o: u64| o < len && o % 4096 == 0 ==> #[trigger] page_reads_back(s.0, base, cr3, iova, pa, flags, o)
        }),
{
    let left: nat = ((len + 4095) / 4096) as nat;
    assert(left * 4096 >= len) by (nonlinear_arith)
        requires left == (len + 4095) / 4096;
    lemma_map_4k_from_tree(w, base, used, cr3, iova, pa, len, flags, 0, left);
}

// ---------------------------------------------------------------------------
// Ranges of 2 MiB pages

/// The directory tables reachable from `cr3` form a tree of tables in use
/// (what `tree_ok` asks of them, with nothing asked of the directory entries).
pub open spec fn dirs_ok(w: Seq<u64>, base: u64, used: nat, cr3: u64) -> bool {
    &&& cr3 != 0 && in_use(base, used, cr3)
    &&& forall|a: u64| #![trigger pdpt_of(w, base, cr3, a)] live4(w, base, cr3, a)
        ==> in_use(base, used, pdpt_of(w, base, cr3, a)) && pdpt_of(w, base, cr3, a) != cr3
    &&& forall|a: u64| #![trigger pd_of(w, base, cr3, a)] live3(w, base, cr3, a)
        ==> in_use(base, used, pd_of(w, base, cr3, a)) && pd_of(w, base, cr3, a) != cr3
    &&& forall|a: u64, b: u64| live4(w, base, cr3, a) && live4(w, base, cr3, b)
        && #[trigger] pdpt_of(w, base, cr3, a) == #[trigger] pdpt_of(w, base, cr3, b)
        ==> l4_index(a) == l4_index(b)
    &&& forall|a: u64, b: u64| live3(w, base, cr3, a) && live3(w, base, cr3, b)
        && #[trigger] pd_of(w, base, cr3, a) == #[trigger] pd_of(w, base, cr3, b)
        ==> l4_index(a) == l4_index(b) && l3_index(a) == l3_index(b)
    &&& forall|a: u64, b: u64| live4(w, base, cr3, a) && live3(w, base, cr3, b)
        ==> #[trigger] pdpt_of(w, base, cr3, a) != #[trigger] pd_of(w, base, cr3, b)
}

/// Every address whose walk reached a page directory in `w`, outside the
/// 2 MiB page of `g`, still does in `w2`, with the same directory entry.
pub open spec fn dir_entries_kept(w: Seq<u64>, w2: Seq<u64>, base: u64, cr3: u64, g: u64) -> bool {
    forall|a: u64| #[trigger] live3(w, base, cr3, a)
        && (l4_index(a) != l4_index(g) || l3_index(a) != l3_index(g) || l2_index(a) != l2_index(g))
        ==> live3(w2, base, cr3, a) && e2(w2, base, cr3, a) == e2(w, base, cr3, a)
}

proof fn lemma_dirs_ensure4(w: Seq<u64>, base: u64, used: nat, cr3: u64, g: u64)
    requires
        pages_ok(w, base),
        used < w.len() / 512,
        dirs_ok(w, base, used, cr3),
    ensures
        ({
            let s = ensure_spec(w, base, used, cr3, l4_index(g));
            &&& s.0.len() == w.len()
            &&& s.1 == used || s.1 == used + 1
            &&& dirs_ok(s.0, base, s.1, cr3)
            &&& live4(s.0, base, cr3, g)
            &&& pdpt_of(s.0, base, cr3, g) == s.2
            &&& dir_entries_kept(w, s.0, base, cr3, g)
        }),
{
    lemma_index_bounds(g);
    let i4 = l4_index(g);
    assert(pdpt_of(w, base, cr3, g) == w_at(w, base, cr3, i4) & SL_MASK);
    lemma_ensure_step(w, base, used, cr3, i4, seq![], false);
    let s = ensure_spec(w, base, used, cr3, i4);
    if s.1 == used {
        return;
    }
    let w1 = s.0;
    let n = s.2;
    let u1 = s.1;
    assert(!in_use(base, used, n));
    assert forall|a: u64| l4_index(a) != i4 implies
        #[trigger] e4(w1, base, cr3, a) == e4(w, base, cr3, a)
        && (live4(w, base, cr3, a) ==> e3(w1, base, cr3, a) == e3(w, base, cr3, a))
        && (live3(w, base, cr3, a) ==> e2(w1, base, cr3, a) == e2(w, base, cr3, a))
    by {
        lemma_index_bounds(a);
        assert(w_at(w1, base, cr3, l4_index(a)) == w_at(w, base, cr3, l4_index(a)));
        if live4(w, base, cr3, a) {
            assert(in_use(base, used, pdpt_of(w, base, cr3, a)));
            assert(w_at(w1, base, pdpt_of(w, base, cr3, a), l3_index(a)) == w_at(w, base, pdpt_of(w, base, cr3, a), l3_index(a)));
        }
        if live3(w, base, cr3, a) {
            assert(in_use(base, used, pd_of(w, base, cr3, a)));
            assert(w_at(w1, base, pd_of(w, base, cr3, a), l2_index(a)) == w_at(w, base, pd_of(w, base, cr3, a), l2_index(a)));
        }
    }
    assert forall|a: u64| l4_index(a) == i4 implies
        #[trigger] live4(w1, base, cr3, a) && pdpt_of(w1, base, cr3, a) == n && !live3(w1, base, cr3, a)
        && !live4(w, base, cr3, a)
    by {
        lemma_index_bounds(a);
        assert(w_at(w1, base, n, l3_index(a)) == 0);
        lemma_zero_entry();
    }
    assert(dirs_ok(w1, base, u1, cr3)) by {
        assert forall|a: u64| #![trigger pdpt_of(w1, base, cr3, a)] live4(w1, base, cr3, a)
            implies in_use(base, u1, pdpt_of(w1, base, cr3, a)) && pdpt_of(w1, base, cr3, a) != cr3 by {
            if l4_index(a) != i4 {
                assert(e4(w1, base, cr3, a) == e4(w, base, cr3, a));
                assert(live4(w, base, cr3, a));
                assert(in_use(base, used, pdpt_of(w, base, cr3, a)));
            } else {
                assert(live4(w1, base, cr3, a));
            }
        }
        assert forall|a: u64| #![trigger pd_of(w1, base, cr3, a)] live3(w1, base, cr3, a)
            implies in_use(base, u1, pd_of(w1, base, cr3, a)) && pd_of(w1, base, cr3, a) != cr3 by {
            if l4_index(a) != i4 {
                assert(e4(w1, base, cr3, a) == e4(w, base, cr3, a));
                assert(live3(w, base, cr3, a));
                assert(in_use(base, used, pd_of(w, base, cr3, a)));
            } else {
                assert(live4(w1, base, cr3, a));
            }
        }
        assert forall|a: u64, b: u64| live4(w1, base, cr3, a) && live4(w1, base, cr3, b)
            && #[trigger] pdpt_of(w1, base, cr3, a) == #[trigger] pdpt_of(w1, base, cr3, b)
            implies l4_index(a) == l4_index(b) by {
            if l4_index(a) != i4 {
                assert(e4(w1, base, cr3, a) == e4(w, base, cr3, a));
                assert(in_use(base, used, pdpt_of(w, base, cr3, a)));
            } else {
                assert(live4(w1, base, cr3, a));
            }
            if l4_index(b) != i4 {
                assert(e4(w1, base, cr3, b) == e4(w, base, cr3, b));
                assert(in_use(base, used, pdpt_of(w, base, cr3, b)));
            } else {
                assert(live4(w1, base, cr3, b));
            }
        }
        assert forall|a: u64, b: u64| live3(w1, base, cr3, a) && live3(w1, base, cr3, b)
            && #[trigger] pd_of(w1, base, cr3, a) == #[trigger] pd_of(w1, base, cr3, b)
            implies l4_index(a) == l4_index(b) && l3_index(a) == l3_index(b) by {
            if l4_index(a) == i4 { assert(live4(w1, base, cr3, a)); }
            if l4_index(b) == i4 { assert(live4(w1, base, cr3, b)); }
            assert(e4(w1, base, cr3, a) == e4(w, base, cr3, a));
            assert(e4(w1, base, cr3, b) == e4(w, base, cr3, b));
            assert(pd_of(w1, base, cr3, a) == pd_of(w, base, cr3, a));
            assert(pd_of(w1, base, cr3, b) == pd_of(w, base, cr3, b));
            assert(live3(w, base, cr3, a) && live3(w, base, cr3, b));
        }
        assert forall|a: u64, b: u64| live4(w1, base, cr3, a) && live3(w1, base, cr3, b)
            implies #[trigger] pdpt_of(w1, base, cr3, a) != #[trigger] pd_of(w1, base, cr3, b) by {
            if l4_index(b) == i4 { assert(live4(w1, base, cr3, b)); }
            assert(e4(w1, base, cr3, b) == e4(w, base, cr3, b));
            assert(pd_of(w1, base, cr3, b) == pd_of(w, base, cr3, b) && live3(w, base, cr3, b));
            assert(in_use(base, used, pd_of(w, base, cr3, b)));
            if l4_index(a) != i4 {
                assert(e4(w1, base, cr3, a) == e4(w, base, cr3, a));
                assert(pdpt_of(w1, base, cr3, a) == pdpt_of(w, base, cr3, a) && live4(w, base, cr3, a));
                assert(pdpt_of(w, base, cr3, a) != pd_of(w, base, cr3, b));
            } else {
                assert(live4(w1, base, cr3, a));
            }
        }
    }
    assert forall|a: u64| #[trigger] live3(w, base, cr3, a)
        && (l4_index(a) != l4_index(g) || l3_index(a) != l3_index(g) || l2_index(a) != l2_index(g))
        implies live3(w1, base, cr3, a) && e2(w1, base, cr3, a) == e2(w, base, cr3, a) by {
        if l4_index(a) == i4 { assert(live4(w1, base, cr3, a)); }
        assert(e4(w1, base, cr3, a) == e4(w, base, cr3, a));
    }
}

proof fn lemma_dirs_ensure3(w: Seq<u64>, base: u64, used: nat, cr3: u64, g: u64)
    requires
        pages_ok(w, base),
        used < w.len() / 512,
        dirs_ok(w, base, used, cr3),
        live4(w, base, cr3, g),
    ensures
        ({
            let s = ensure_spec(w, base, used, pdpt_of(w, base, cr3, g), l3_index(g));
            &&& s.0.len() == w.len()
            &&& s.1 == used || s.1 == used + 1
            &&& dirs_ok(s.0, base, s.1, cr3)
            &&& live3(s.0, base, cr3, g)
            &&& pd_of(s.0, base, cr3, g) == s.2
            &&& dir_entries_kept(w, s.0, base, cr3, g)
        }),
{
    lemma_index_bounds(g);
    let p = pdpt_of(w, base, cr3, g);
    let i3 = l3_index(g);
    assert(in_use(base, used, p) && p != cr3);
    assert(pd_of(w, base, cr3, g) == w_at(w, base, p, i3) & SL_MASK);
    if live3(w, base, cr3, g) {
        assert(pdpt_of(w, base, cr3, g) != pd_of(w, base, cr3, g));
    }
    let ex: Seq<u64> = seq![cr3];
    assert(ex.len() == 1 && ex[0] == cr3);
    lemma_ensure_step(w, base, used, p, i3, ex, false);
    let s = ensure_spec(w, base, used, p, i3);
    if s.1 == used {
        return;
    }
    let w1 = s.0;
    let n = s.2;
    let u1 = s.1;
    assert(!in_use(base, used, n));
    assert forall|a: u64| #![trigger e4(w1, base, cr3, a)]
        e4(w1, base, cr3, a) == e4(w, base, cr3, a)
        && (live4(w, base, cr3, a) && !(l4_index(a) == l4_index(g) && l3_index(a) == i3) ==> e3(w1, base, cr3, a) == e3(w, base, cr3, a))
        && (live3(w, base, cr3, a) ==> e2(w1, base, cr3, a) == e2(w, base, cr3, a))
        && (l4_index(a) == l4_index(g) && l3_index(a) == i3 ==> live3(w1, base, cr3, a) && pd_of(w1, base, cr3, a) == n
            && !live3(w, base, cr3, a))
    by {
        lemma_index_bounds(a);
        assert(w_at(w1, base, cr3, l4_index(a)) == w_at(w, base, cr3, l4_index(a)));
        if live4(w, base, cr3, a) {
            assert(in_use(base, used, pdpt_of(w, base, cr3, a)));
            if l4_index(a) != l4_index(g) {
                assert(pdpt_of(w, base, cr3, a) != p);
            }
            if !(l4_index(a) == l4_index(g) && l3_index(a) == i3) {
                assert(w_at(w1, base, pdpt_of(w, base, cr3, a), l3_index(a)) == w_at(w, base, pdpt_of(w, base, cr3, a), l3_index(a)));
            }
        }
        if live3(w, base, cr3, a) {
            assert(in_use(base, used, pd_of(w, base, cr3, a)));
            assert(pdpt_of(w, base, cr3, g) != pd_of(w, base, cr3, a));
            assert(w_at(w1, base, pd_of(w, base, cr3, a), l2_index(a)) == w_at(w, base, pd_of(w, base, cr3, a), l2_index(a)));
        }
    }
    assert(dirs_ok(w1, base, u1, cr3)) by {
        assert forall|a: u64| #![trigger pdpt_of(w1, base, cr3, a)] live4(w1, base, cr3, a)
            implies in_use(base, u1, pdpt_of(w1, base, cr3, a)) && pdpt_of(w1, base, cr3, a) != cr3 by {
            assert(e4(w1, base, cr3, a) == e4(w, base, cr3, a));
            assert(in_use(base, used, pdpt_of(w, base, cr3, a)));
        }
        assert forall|a: u64| #![trigger pd_of(w1, base, cr3, a)] live3(w1, base, cr3, a)
            implies in_use(base, u1, pd_of(w1, base, cr3, a)) && pd_of(w1, base, cr3, a) != cr3 by {
            assert(e4(w1, base, cr3, a) == e4(w, base, cr3, a));
            if !(l4_index(a) == l4_index(g) && l3_index(a) == i3) {
                assert(live3(w, base, cr3, a));
                assert(in_use(base, used, pd_of(w, base, cr3, a)));
            }
        }
        assert forall|a: u64, b: u64| live4(w1, base, cr3, a) && live4(w1, base, cr3, b)
            && #[trigger] pdpt_of(w1, base, cr3, a) == #[trigger] pdpt_of(w1, base, cr3, b)
            implies l4_index(a) == l4_index(b) by {
            assert(e4(w1, base, cr3, a) == e4(w, base, cr3, a));
            assert(e4(w1, base, cr3, b) == e4(w, base, cr3, b));
            assert(pdpt_of(w, base, cr3, a) == pdpt_of(w, base, cr3, b));
        }
        assert forall|a: u64, b: u64| live3(w1, base, cr3, a) && live3(w1, base, cr3, b)
            && #[trigger] pd_of(w1, base, cr3, a) == #[trigger] pd_of(w1, base, cr3, b)
            implies l4_index(a) == l4_index(b) && l3_index(a) == l3_index(b) by {
            assert(e4(w1, base, cr3, a) == e4(w, base, cr3, a));
            assert(e4(w1, base, cr3, b) == e4(w, base, cr3, b));
            let na = l4_index(a) == l4_index(g) && l3_index(a) == i3;
            let nb = l4_index(b) == l4_index(g) && l3_index(b) == i3;
            if !na {
                assert(live3(w, base, cr3, a));
                assert(in_use(base, used, pd_of(w, base, cr3, a)));
            }
            if !nb {
                assert(live3(w, base, cr3, b));
                assert(in_use(base, used, pd_of(w, base, cr3, b)));
            }
            if !na && !nb {
                assert(pd_of(w, base, cr3, a) == pd_of(w, base, cr3, b));
            }
        }
        assert forall|a: u64, b: u64| live4(w1, base, cr3, a) && live3(w1, base, cr3, b)
            implies #[trigger] pdpt_of(w1, base, cr3, a) != #[trigger] pd_of(w1, base, cr3, b) by {
            assert(e4(w1, base, cr3, a) == e4(w, base, cr3, a));
            assert(e4(w1, base, cr3, b) == e4(w, base, cr3, b));
            assert(in_use(base, used, pdpt_of(w, base, cr3, a)));
            if !(l4_index(b) == l4_index(g) && l3_index(b) == i3) {
                assert(live3(w, base, cr3, b));
                assert(pdpt_of(w, base, cr3, a) != pd_of(w, base, cr3, b));
            }
        }
    }
    assert forall|a: u64| #[trigger] live3(w, base, cr3, a)
        && (l4_index(a) != l4_index(g) || l3_index(a) != l3_index(g) || l2_index(a) != l2_index(g))
        implies live3(w1, base, cr3, a) && e2(w1, base, cr3, a) == e2(w, base, cr3, a) by {
        assert(e4(w1, base, cr3, a) == e4(w, base, cr3, a));
    }
}

/// Writing the 2 MiB leaf of `g` keeps the directory tree as it is, and
/// every other directory entry.
proof fn lemma_dirs_leaf(w: Seq<u64>, base: u64, used: nat, cr3: u64, g: u64, leaf: u64)
    requires
        pages_ok(w, base),
        used <= w.len() / 512,
        dirs_ok(w, base, used, cr3),
        live3(w, base, cr3, g),
    ensures
        ({
            let w1 = w_set(w, base, pd_of(w, base, cr3, g), l2_index(g), leaf);
            &&& w1.len() == w.len()
            &&& dirs_ok(w1, base, used, cr3)
            &&& dir_entries_kept(w, w1, base, cr3, g)
            &&& live3(w1, base, cr3, g) && e2(w1, base, cr3, g) == leaf
        }),
{
    lemma_index_bounds(g);
    let d = pd_of(w, base, cr3, g);
    let i2 = l2_index(g);
    let w1 = w_set(w, base, d, i2, leaf);
    assert(in_use(base, used, d) && d != cr3);
    assert forall|a: u64| #![trigger e4(w1, base, cr3, a)]
        e4(w1, base, cr3, a) == e4(w, base, cr3, a)
        && (live4(w, base, cr3, a) ==> e3(w1, base, cr3, a) == e3(w, base, cr3, a))
        && (live3(w, base, cr3, a) && (pd_of(w, base, cr3, a) != d || l2_index(a) != i2)
            ==> e2(w1, base, cr3, a) == e2(w, base, cr3, a))
    by {
        lemma_index_bounds(a);
        lemma_w_set_frame(w, base, d, i2, leaf, cr3, l4_index(a));
        if live4(w, base, cr3, a) {
            assert(in_use(base, used, pdpt_of(w, base, cr3, a)));
            assert(pdpt_of(w, base, cr3, a) != pd_of(w, base, cr3, g));
            lemma_w_set_frame(w, base, d, i2, leaf, pdpt_of(w, base, cr3, a), l3_index(a));
        }
        if live3(w, base, cr3, a) && (pd_of(w, base, cr3, a) != d || l2_index(a) != i2) {
            assert(in_use(base, used, pd_of(w, base, cr3, a)));
            lemma_w_set_frame(w, base, d, i2, leaf, pd_of(w, base, cr3, a), l2_index(a));
        }
    }
    assert(dirs_ok(w1, base, used, cr3)) by {
        assert forall|a: u64| #![trigger pdpt_of(w1, base, cr3, a)] live4(w1, base, cr3, a)
            implies in_use(base, used, pdpt_of(w1, base, cr3, a)) && pdpt_of(w1, base, cr3, a) != cr3 by {
            assert(e4(w1, base, cr3, a) == e4(w, base, cr3, a));
            assert(in_use(base, used, pdpt_of(w, base, cr3, a)));
        }
        assert forall|a: u64| #![trigger pd_of(w1, base, cr3, a)] live3(w1, base, cr3, a)
            implies in_use(base, used, pd_of(w1, base, cr3, a)) && pd_of(w1, base, cr3, a) != cr3 by {
            assert(e4(w1, base, cr3, a) == e4(w, base, cr3, a));
            assert(in_use(base, used, pd_of(w, base, cr3, a)));
        }
        assert forall|a: u64, b: u64| live4(w1, base, cr3, a) && live4(w1, base, cr3, b)
            && #[trigger] pdpt_of(w1, base, cr3, a) == #[trigger] pdpt_of(w1, base, cr3, b)
            implies l4_index(a) == l4_index(b) by {
            assert(e4(w1, base, cr3, a) == e4(w, base, cr3, a));
            assert(e4(w1, base, cr3, b) == e4(w, base, cr3, b));
            assert(pdpt_of(w, base, cr3, a) == pdpt_of(w, base, cr3, b));
        }
        assert forall|a: u64, b: u64| live3(w1, base, cr3, a) && live3(w1, base, cr3, b)
            && #[trigger] pd_of(w1, base, cr3, a) == #[trigger] pd_of(w1, base, cr3, b)
            implies l4_index(a) == l4_index(b) && l3_index(a) == l3_index(b) by {
            assert(e4(w1, base, cr3, a) == e4(w, base, cr3, a));
            assert(e4(w1, base, cr3, b) == e4(w, base, cr3, b));
            assert(pd_of(w, base, cr3, a) == pd_of(w, base, cr3, b));
        }
        assert forall|a: u64, b: u64| live4(w1, base, cr3, a) && live3(w1, base, cr3, b)
            implies #[trigger] pdpt_of(w1, base, cr3, a) != #[trigger] pd_of(w1, base, cr3, b) by {
            assert(e4(w1, base, cr3, a) == e4(w, base, cr3, a));
            assert(e4(w1, base, cr3, b) == e4(w, base, cr3, b));
            assert(pdpt_of(w, base, cr3, a) != pd_of(w, base, cr3, b));
        }
    }
    assert forall|a: u64| #[trigger] live3(w, base, cr3, a)
        && (l4_index(a) != l4_index(g) || l3_index(a) != l3_index(g) || l2_index(a) != l2_index(g))
        implies live3(w1, base, cr3, a) && e2(w1, base, cr3, a) == e2(w, base, cr3, a) by {
        assert(e4(w1, base, cr3, a) == e4(w, base, cr3, a));
        if pd_of(w, base, cr3, a) == d {
            assert(pd_of(w, base, cr3, a) == pd_of(w, base, cr3, g));
        }
    }
    assert(e4(w1, base, cr3, g) == e4(w, base, cr3, g));
    crate::iommu::slpt::lemma_w_set_same(w, base, d, i2, leaf);
}

/// The large leaf that maps a 2 MiB page to `hpa`.
pub open spec fn leaf_2m(hpa: u64, flags: u64) -> u64 {
    (hpa & SL_MASK_2M) | flags | SL_PS
}

/// Mapping one 2 MiB page into directory tables that form a tree keeps them
/// a tree; the page's directory entry is its large leaf, and every other
/// directory entry reached stays as it was.
pub proof fn lemma_dirs_map_page_2m(w: Seq<u64>, base: u64, used: nat, cr3: u64, g: u64, hpa: u64, flags: u64)
    requires
        pages_ok(w, base),
        used + 2 <= w.len() / 512,
        dirs_ok(w, base, used, cr3),
    ensures
        ({
            let s = map_page_2m_spec(w, base, used, cr3, g, hpa, flags);
            &&& s.0.len() == w.len()
            &&& used <= s.1 <= used + 2
            &&& dirs_ok(s.0, base, s.1, cr3)
            &&& live3(s.0, base, cr3, g) && e2(s.0, base, cr3, g) == leaf_2m(hpa, flags)
            &&& dir_entries_kept(w, s.0, base, cr3, g)
        }),
{
    lemma_dirs_ensure4(w, base, used, cr3, g);
    let s4 = ensure_spec(w, base, used, cr3, l4_index(g));
    lemma_dirs_ensure3(s4.0, base, s4.1, cr3, g);
    let s3 = ensure_spec(s4.0, base, s4.1, s4.2, l3_index(g));
    lemma_dirs_leaf(s3.0, base, s3.1, cr3, g, leaf_2m(hpa, flags));
    let w1 = w_set(s3.0, base, s3.2, l2_index(g), leaf_2m(hpa, flags));
    assert(map_page_2m_spec(w, base, used, cr3, g, hpa, flags) == (w1, s3.1));
    assert forall|a: u64| #[trigger] live3(w, base, cr3, a)
        && (l4_index(a) != l4_index(g) || l3_index(a) != l3_index(g) || l2_index(a) != l2_index(g))
        implies live3(w1, base, cr3, a) && e2(w1, base, cr3, a) == e2(w, base, cr3, a) by {
        assert(live3(s4.0, base, cr3, a));
        assert(live3(s3.0, base, cr3, a));
    }
}

/// Pages at different 2 MiB-aligned offsets below 256 TiB from one start
/// differ in some directory index.
proof fn lemma_offsets_differ_2m(iova: u64, o1: u64, o2: u64)
    by (bit_vector)
    requires
        o1 < 0x1_0000_0000_0000u64,
        o2 < 0x1_0000_0000_0000u64,
        o1 != o2,
        o1 % 0x20_0000 == 0,
        o2 % 0x20_0000 == 0,
    ensures
        l4_index(vstd::wrapping::u64_specs::wrapping_add(iova, o1)) != l4_index(vstd::wrapping::u64_specs::wrapping_add(iova, o2))
        || l3_index(vstd::wrapping::u64_specs::wrapping_add(iova, o1)) != l3_index(vstd::wrapping::u64_specs::wrapping_add(iova, o2))
        || l2_index(vstd::wrapping::u64_specs::wrapping_add(iova, o1)) != l2_index(vstd::wrapping::u64_specs::wrapping_add(iova, o2)),
{
}

/// The 2 MiB page `o` of the mapping of `iova` to `pa` walks to its frame.
pub open spec fn page_reads_back_2m(w: Seq<u64>, base: u64, cr3: u64, iova: u64, pa: u64, flags: u64, o: u64) -> bool {
    walk_pages(w, base, cr3, vstd::wrapping::u64_specs::wrapping_add(iova, o))
        == Some(mapped_2m(vstd::wrapping::u64_specs::wrapping_add(pa, o), flags, vstd::wrapping::u64_specs::wrapping_add(iova, o)))
}

/// The directory entry of page `o` is its large leaf.
pub open spec fn leaf_in_place(w: Seq<u64>, base: u64, cr3: u64, iova: u64, pa: u64, flags: u64, o: u64) -> bool {
    let a = vstd::wrapping::u64_specs::wrapping_add(iova, o);
    live3(w, base, cr3, a) && e2(w, base, cr3, a) == leaf_2m(vstd::wrapping::u64_specs::wrapping_add(pa, o), flags)
}

proof fn lemma_map_2m_from_dirs(w: Seq<u64>, base: u64, used: nat, cr3: u64, iova: u64, pa: u64, len: u64, flags: u64,
    off: int, left: nat)
    requires
        pages_ok(w, base),
        dirs_ok(w, base, used, cr3),
        len <= 0x1_0000_0000_0000u64,
        0 <= off,
        off % 0x20_0000 == 0,
        off + left * 0x20_0000 >= len,
        used + 2 * left <= w.len() / 512,
        forall|o: u64| o < off && o < len && o % 0x20_0000 == 0 ==> #[trigger] leaf_in_place(w, base, cr3, iova, pa, flags, o),
    ensures
        ({
            let s = map_2m_from(w, base, used, cr3, iova, pa, len, flags, off);
            &&& dirs_ok(s.0, base, s.1, cr3)
            &&& forall|o: u64| o < len && o % 0x20_0000 == 0 ==> #[trigger] leaf_in_place(s.0, base, cr3, iova, pa, flags, o)
        }),
    decreases len + 0x20_0000 - off,
{
    if off >= len {
        return;
    }
    let g = vstd::wrapping::u64_specs::wrapping_add(iova, off as u64);
    let h = vstd::wrapping::u64_specs::wrapping_add(pa, off as u64);
    lemma_dirs_map_page_2m(w, base, used, cr3, g, h, flags);
    let s = map_page_2m_spec(w, base, used, cr3, g, h, flags);
    assert forall|o: u64| o < off + 0x20_0000 && o < len && o % 0x20_0000 == 0
        implies #[trigger] leaf_in_place(s.0, base, cr3, iova, pa, flags, o) by {
        if o != off {
            assert(leaf_in_place(w, base, cr3, iova, pa, flags, o));
            lemma_offsets_differ_2m(iova, o, off as u64);
        }
    }
    lemma_map_2m_from_dirs(s.0, base, s.1, cr3, iova, pa, len, flags, off + 0x20_0000, (left - 1) as nat);
}

/// Mapping `len` bytes (at most 256 TiB) at `iova` to `pa` with 2 MiB pages
/// into directory tables that form a tree, with two free pool pages for each
/// page: the tables stay a tree, and every 2 MiB page of the range then walks
/// to its frame at the same offset from `pa`.
pub proof fn lemma_map_range_2m_walk(w: Seq<u64>, base: u64, used: nat, cr3: u64, iova: u64, pa: u64, len: u64, flags: u64)
    requires
        pages_ok(w, base),
        dirs_ok(w, base, used, cr3),
        flags & SL_P != 0,
        len <= 0x1_0000_0000_0000u64,
        used + 2 * ((len + 0x1F_FFFF) / 0x20_0000) <= w.len() / 512,
    ensures
        ({
            let s = map_2m_from(w, base, used, cr3, iova, pa, len, flags, 0);
            &&& dirs_ok(s.0, base, s.1, cr3)
            &&& forall|o: u64| o < len && o % 0x20_0000 == 0 ==> #[trigger] page_reads_back_2m(s.0, base, cr3, iova, pa, flags, o)
        }),
{
    let left: nat = ((len + 0x1F_FFFF) / 0x20_0000) as nat;
    assert(left * 0x20_0000 >= len) by (nonlinear_arith)
        requires left == (len + 0x1F_FFFF) / 0x20_0000;
    lemma_map_2m_from_dirs(w, base, used, cr3, iova, pa, len, flags, 0, left);
    let s = map_2m_from(w, base, used, cr3, iova, pa, len, flags, 0);
    assert forall|o: u64| o < len && o % 0x20_0000 == 0 implies #[trigger] page_reads_back_2m(s.0, base, cr3, iova, pa, flags, o) by {
        assert(leaf_in_place(s.0, base, cr3, iova, pa, flags, o));
        lemma_big_leaf_bits(vstd::wrapping::u64_specs::wrapping_add(pa, o), flags);
    }
}

/// A tree of tables is in particular a tree of directory tables.
pub proof fn lemma_tree_dirs(w: Seq<u64>, base: u64, used: nat, cr3: u64)
    requires
        tree_ok(w, base, used, cr3),
    ensures
        dirs_ok(w, base, used, cr3),
{
}

} // verus!
