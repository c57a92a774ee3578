//! Domain existence over a history of create and destroy calls.

use vstd::prelude::*;
use crate::iommu::state::{
    Domain, domain_is, first_free_domain, first_domain_with, wrap_inc, create_view, destroy_view, seq_has_domain,
};

verus! {

/// A call that changes the domain slots.
pub enum DomOp {
    Create,
    Destroy(u16),
}

/// Domain slots and next id after the calls `ops`, from slots `ds` and next id `next`.
pub open spec fn run_ops(ds: Seq<Domain>, next: u16, ops: Seq<DomOp>) -> (Seq<Domain>, u16)
    decreases ops.len(),
{
    if ops.len() == 0 {
        (ds, next)
    } else {
        let s = run_ops(ds, next, ops.drop_last());
        match ops.last() {
            DomOp::Create => (create_view(s.0, s.1).0, wrap_inc(s.1)),
            DomOp::Destroy(d) => (destroy_view(s.0, d), s.1),
        }
    }
}

/// Call `k` of `ops` is a create that returned `id`.
pub open spec fn created(ds: Seq<Domain>, next: u16, ops: Seq<DomOp>, k: int, id: u16) -> bool {
    &&& 0 <= k < ops.len()
    &&& ops[k] is Create
    &&& create_view(run_ops(ds, next, ops.take(k)).0, run_ops(ds, next, ops.take(k)).1).1 == Some(id)
}

/// Call `k` of `ops` is a destroy of `id` that returned true.
pub open spec fn destroyed(ds: Seq<Domain>, next: u16, ops: Seq<DomOp>, k: int, id: u16) -> bool {
    &&& 0 <= k < ops.len()
    &&& ops[k] == DomOp::Destroy(id)
    &&& seq_has_domain(run_ops(ds, next, ops.take(k)).0, id)
}

/// Some create of `ops` returned `id`, and no destroy of `id` returned true since.
pub open spec fn live(ds: Seq<Domain>, next: u16, ops: Seq<DomOp>, id: u16) -> bool {
    exists|k: int| #[trigger] created(ds, next, ops, k, id)
        && forall|j: int| k < j < ops.len() ==> !#[trigger] destroyed(ds, next, ops, j, id)
}

/// Number of creates in `ops`.
pub open spec fn creates(ops: Seq<DomOp>) -> nat
    decreases ops.len(),
{
    if ops.len() == 0 { 0 } else { creates(ops.drop_last()) + if ops.last() is Create { 1nat } else { 0nat } }
}

/// Every used slot carries an id in `1..next`, no two the same.
pub open spec fn fresh(ds: Seq<Domain>, next: u16) -> bool {
    &&& 1 <= next
    &&& forall|i: int| 0 <= i < ds.len() && ds[i].used ==> 1 <= #[trigger] ds[i].id < next
    &&& forall|i: int, j: int| 0 <= i < ds.len() && 0 <= j < ds.len() && i != j && ds[i].used && ds[j].used
        ==> #[trigger] ds[i].id != #[trigger] ds[j].id
}

proof fn lemma_create_step(ds: Seq<Domain>, next: u16)
    requires
        fresh(ds, next),
        next < u16::MAX,
    ensures
        fresh(create_view(ds, next).0, wrap_inc(next)),
        create_view(ds, next).1 is Some ==> create_view(ds, next).1 == Some(next),
        forall|id: u16| #[trigger] seq_has_domain(create_view(ds, next).0, id)
            == (seq_has_domain(ds, id) || create_view(ds, next).1 == Some(id)),
        !seq_has_domain(ds, next),
{
    if seq_has_domain(ds, next) {
        let k = choose|k: int| 0 <= k < ds.len() && ds[k].used && ds[k].id == next;
        assert(ds[k].id < next);
    }
    if exists|i: int| first_free_domain(ds, i) {
        let i = choose|i: int| first_free_domain(ds, i);
        let n = ds.update(i, Domain { id: next, used: true });
        assert forall|k: int| 0 <= k < n.len() && n[k].used implies 1 <= #[trigger] n[k].id < wrap_inc(next) by {
            if k != i { assert(n[k] == ds[k]); }
        }
        assert forall|a: int, b: int| 0 <= a < n.len() && 0 <= b < n.len() && a != b && n[a].used && n[b].used
            implies #[trigger] n[a].id != #[trigger] n[b].id by {
            if a == i { assert(n[b] == ds[b]); } else if b == i { assert(n[a] == ds[a]); }
            else { assert(n[a] == ds[a] && n[b] == ds[b]); }
        }
        assert forall|id: u16| #[trigger] seq_has_domain(n, id) == (seq_has_domain(ds, id) || id == next) by {
            if seq_has_domain(ds, id) {
                let k = choose|k: int| 0 <= k < ds.len() && ds[k].used && ds[k].id == id;
                assert(k != i);
                assert(n[k] == ds[k]);
            }
            if id == next {
                assert(n[i].used && n[i].id == next);
            }
            if seq_has_domain(n, id) && id != next {
                let k = choose|k: int| 0 <= k < n.len() && n[k].used && n[k].id == id;
                assert(k != i);
                assert(n[k] == ds[k]);
            }
        }
    }
}

proof fn lemma_destroy_step(ds: Seq<Domain>, next: u16, d: u16)
    requires
        fresh(ds, next),
    ensures
        fresh(destroy_view(ds, d), next),
        forall|id: u16| #[trigger] seq_has_domain(destroy_view(ds, d), id) == (seq_has_domain(ds, id) && id != d),
{
    if exists|i: int| first_domain_with(ds, d, i) {
        let i = choose|i: int| first_domain_with(ds, d, i);
        let n = ds.update(i, Domain { used: false, ..ds[i] });
        assert forall|k: int| 0 <= k < n.len() && n[k].used implies 1 <= #[trigger] n[k].id < next by {
            assert(k != i);
            assert(n[k] == ds[k]);
        }
        assert forall|a: int, b: int| 0 <= a < n.len() && 0 <= b < n.len() && a != b && n[a].used && n[b].used
            implies #[trigger] n[a].id != #[trigger] n[b].id by {
            assert(a != i && b != i);
            assert(n[a] == ds[a] && n[b] == ds[b]);
        }
        assert forall|id: u16| #[trigger] seq_has_domain(n, id) == (seq_has_domain(ds, id) && id != d) by {
            if seq_has_domain(n, id) {
                let k = choose|k: int| 0 <= k < n.len() && n[k].used && n[k].id == id;
                assert(k != i);
                assert(n[k] == ds[k]);
                assert(ds[i].used && ds[i].id == d);
                assert(ds[k].id != ds[i].id);
            }
            if seq_has_domain(ds, id) && id != d {
                let k = choose|k: int| 0 <= k < ds.len() && ds[k].used && ds[k].id == id;
                assert(k != i);
                assert(n[k] == ds[k]);
            }
        }
    } else {
        if seq_has_domain(ds, d) {
            let k = choose|k: int| 0 <= k < ds.len() && ds[k].used && ds[k].id == d;
            lemma_first_with(ds, d, k);
        }
    }
}

/// A slot carrying `d` means a first one does.
proof fn lemma_first_with(ds: Seq<Domain>, d: u16, k: int)
    requires
        0 <= k < ds.len(),
        ds[k].used && ds[k].id == d,
    ensures
        exists|f: int| first_domain_with(ds, d, f),
    decreases k,
{
    if exists|g: int| 0 <= g < k && domain_is(ds[g], d) {
        let g = choose|g: int| 0 <= g < k && domain_is(ds[g], d);
        lemma_first_with(ds, d, g);
    } else {
        assert(first_domain_with(ds, d, k));
    }
}

/// Extending a history by one call: an id is live afterwards when it was
/// live and that call is not a successful destroy of it, or that call created it.
proof fn lemma_live_extend(ds: Seq<Domain>, next: u16, ops: Seq<DomOp>, id: u16)
    requires
        ops.len() > 0,
    ensures
        live(ds, next, ops, id) == ((live(ds, next, ops.drop_last(), id) && !destroyed(ds, next, ops, ops.len() - 1, id))
            || created(ds, next, ops, ops.len() - 1, id)),
{
    let pre = ops.drop_last();
    let last = ops.len() - 1;
    assert forall|k: int| 0 <= k <= last implies #[trigger] ops.take(k) == pre.take(k) by {
        assert(ops.take(k) =~= pre.take(k));
    }
    assert forall|k: int| 0 <= k < last implies #[trigger] created(ds, next, ops, k, id) == created(ds, next, pre, k, id) by {
        assert(ops.take(k) == pre.take(k));
        assert(ops[k] == pre[k]);
    }
    assert forall|k: int| 0 <= k < last implies #[trigger] destroyed(ds, next, ops, k, id) == destroyed(ds, next, pre, k, id) by {
        assert(ops.take(k) == pre.take(k));
        assert(ops[k] == pre[k]);
    }
    if live(ds, next, ops, id) {
        let k = choose|k: int| #[trigger] created(ds, next, ops, k, id)
            && forall|j: int| k < j < ops.len() ==> !#[trigger] destroyed(ds, next, ops, j, id);
        if k < last {
            assert(created(ds, next, pre, k, id));
            assert forall|j: int| k < j < pre.len() implies !#[trigger] destroyed(ds, next, pre, j, id) by {
                assert(!destroyed(ds, next, ops, j, id));
            }
            assert(live(ds, next, pre, id));
            assert(!destroyed(ds, next, ops, last, id));
        }
    }
    if created(ds, next, ops, last, id) {
        assert(forall|j: int| last < j < ops.len() ==> !#[trigger] destroyed(ds, next, ops, j, id));
        assert(live(ds, next, ops, id));
    } else if live(ds, next, pre, id) && !destroyed(ds, next, ops, last, id) {
        let k = choose|k: int| #[trigger] created(ds, next, pre, k, id)
            && forall|j: int| k < j < pre.len() ==> !#[trigger] destroyed(ds, next, pre, j, id);
        assert(created(ds, next, ops, k, id));
        assert forall|j: int| k < j < ops.len() implies !#[trigger] destroyed(ds, next, ops, j, id) by {
            if j < last {
                assert(!destroyed(ds, next, pre, j, id));
            }
        }
        assert(live(ds, next, ops, id));
    }
}

proof fn lemma_history(ds: Seq<Domain>, ops: Seq<DomOp>)
    requires
        forall|i: int| 0 <= i < ds.len() ==> !(#[trigger] ds[i]).used,
        creates(ops) < u16::MAX,
    ensures
        fresh(run_ops(ds, 1, ops).0, run_ops(ds, 1, ops).1),
        run_ops(ds, 1, ops).1 == 1 + creates(ops),
        forall|id: u16| #[trigger] seq_has_domain(run_ops(ds, 1, ops).0, id) == live(ds, 1, ops, id),
    decreases ops.len(),
{
    if ops.len() == 0 {
        assert forall|id: u16| #[trigger] seq_has_domain(run_ops(ds, 1, ops).0, id) == live(ds, 1, ops, id) by {
            if seq_has_domain(ds, id) {
                let k = choose|k: int| 0 <= k < ds.len() && ds[k].used && ds[k].id == id;
                assert(!ds[k].used);
            }
        }
    } else {
        let pre = ops.drop_last();
        let last = ops.len() - 1;
        lemma_history(ds, pre);
        let s = run_ops(ds, 1, pre);
        assert(ops.take(last) =~= pre);
        match ops.last() {
            DomOp::Create => {
                lemma_create_step(s.0, s.1);
                assert forall|id: u16| #[trigger] seq_has_domain(run_ops(ds, 1, ops).0, id) == live(ds, 1, ops, id) by {
                    lemma_live_extend(ds, 1, ops, id);
                    assert(created(ds, 1, ops, last, id) == (create_view(s.0, s.1).1 == Some(id)));
                    assert(!destroyed(ds, 1, ops, last, id));
                    assert(seq_has_domain(s.0, id) == live(ds, 1, pre, id));
                }
            },
            DomOp::Destroy(d) => {
                lemma_destroy_step(s.0, s.1, d);
                assert forall|id: u16| #[trigger] seq_has_domain(run_ops(ds, 1, ops).0, id) == live(ds, 1, ops, id) by {
                    lemma_live_extend(ds, 1, ops, id);
                    assert(!created(ds, 1, ops, last, id));
                    assert(destroyed(ds, 1, ops, last, id) == (id == d && seq_has_domain(s.0, id)));
                    assert(seq_has_domain(s.0, id) == live(ds, 1, pre, id));
                }
            },
        }
    }
}

/// Starting from a registry with no domain and next id 1, after fewer than
/// 65535 creates: a domain with `id` exists exactly when some create returned
/// `id` and no destroy of `id` has returned true since. (Each call's effect on
/// the domain slots is what [`create_domain`](crate::iommu::state::create_domain)
/// and [`destroy_domain`](crate::iommu::state::destroy_domain) state through
/// `create_view` and `destroy_view`; `domain_exists` gives `seq_has_domain`.)
pub proof fn law_domain_history(ds: Seq<Domain>, ops: Seq<DomOp>, id: u16)
    requires
        forall|i: int| 0 <= i < ds.len() ==> !(#[trigger] ds[i]).used,
        creates(ops) < u16::MAX,
    ensures
        seq_has_domain(run_ops(ds, 1, ops).0, id) == live(ds, 1, ops, id),
{
    lemma_history(ds, ops);
}

} // verus!
