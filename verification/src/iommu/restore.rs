//! Restoring persisted device assignments: each saved domain id is given a
//! fresh domain the first time it is met (up to sixteen remembered pairs), and
//! every saved device is assigned to the domain that stands for its saved one.

use vstd::prelude::*;
use crate::obs::metrics::{Counter, Metrics, add_wrapped, lemma_add_wrapped_step};
use crate::iommu::SavedAssign;
use crate::iommu::state::{
    IommuState, Domain, DevAssign, first_free_domain, first_free_assign, wrap_inc, create_domain, assign_device,
    create_view, seq_has_domain, used_assigns,
};

verus! {

/// Most saved-to-new domain id pairs remembered while restoring.
pub const MAX_REMAP: usize = 16;

/// The new id that the first pair of `map` for saved id `odom` gives.
pub open spec fn remap_find(map: Seq<(u16, u16)>, odom: u16) -> Option<u16>
    decreases map.len(),
{
    if map.len() == 0 {
        None
    } else {
        match remap_find(map.drop_last(), odom) {
            Some(n) => Some(n),
            None => if map.last().0 == odom { Some(map.last().1) } else { None },
        }
    }
}

/// Assignment slots after assigning the device of `e` to domain `d`; `None`
/// when `d` does not exist or every slot is used.
pub open spec fn assign_view(ds: Seq<Domain>, asg: Seq<DevAssign>, e: SavedAssign, d: u16) -> Option<Seq<DevAssign>> {
    if seq_has_domain(ds, d) && exists|i: int| first_free_assign(asg, i) {
        let i = choose|i: int| first_free_assign(asg, i);
        Some(asg.update(i, DevAssign { used: true, seg: e.seg, bus: e.bus, dev: e.dev, func: e.func, domid: d }))
    } else {
        None
    }
}

/// The restoring state: domain slots, assignment slots, next domain id, the
/// remembered id pairs, and the domains created and devices assigned so far.
pub type RestoreView = (Seq<Domain>, Seq<DevAssign>, u16, Seq<(u16, u16)>, nat, nat);

/// One saved assignment restored.
pub open spec fn restore_step(s: RestoreView, e: SavedAssign) -> RestoreView {
    let (ds, asg, next, map, nc, na) = s;
    let (ds1, next1, map1, nc1, nd) = match remap_find(map, e.domid) {
        Some(n) => (ds, next, map, nc, Some(n)),
        None => {
            let c = create_view(ds, next);
            match c.1 {
                Some(newid) => (c.0, wrap_inc(next),
                    if map.len() < MAX_REMAP { map.push((e.domid, newid)) } else { map }, nc + 1, Some(newid)),
                None => (ds, wrap_inc(next), map, nc, None::<u16>),
            }
        },
    };
    match nd {
        Some(d) => match assign_view(ds1, asg, e, d) {
            Some(a2) => (ds1, a2, next1, map1, nc1, na + 1),
            None => (ds1, asg, next1, map1, nc1, na),
        },
        None => (ds1, asg, next1, map1, nc1, na),
    }
}

/// Saved assignments `saved[k..]` restored, in order, from `s`.
pub open spec fn restore_from(s: RestoreView, saved: Seq<SavedAssign>, k: int) -> RestoreView
    decreases saved.len() - k,
{
    if k < 0 || k >= saved.len() {
        s
    } else {
        restore_from(restore_step(s, saved[k]), saved, k + 1)
    }
}

/// The new id remembered for saved id `odom`, if any.
fn remap_lookup(map: &Vec<(u16, u16)>, odom: u16) -> (r: Option<u16>)
    ensures
        r == remap_find(map@, odom),
{
    let mut found: Option<u16> = None;
    let mut j: usize = 0;
    while j < map.len()
        invariant
            j <= map@.len(),
            found == remap_find(map@.take(j as int), odom),
        decreases map@.len() - j,
    {
        proof {
            assert(map@.take(j + 1).drop_last() =~= map@.take(j as int));
        }
        if found.is_none() && map[j].0 == odom {
            found = Some(map[j].1);
        }
        j = j + 1;
    }
    assert(map@.take(map@.len() as int) =~= map@);
    found
}

/// Restore the saved assignments `saved` in order: a saved domain id met for
/// the first time gets a new domain (and the pair is remembered while fewer
/// than sixteen are), and each device is assigned to the domain standing for
/// its saved one. Domains created are counted in `iommu_domain_created` and
/// devices assigned in `iommu_assign_added`; every other counter stays.
pub fn restore_assignments(st: &mut IommuState, saved: &Vec<SavedAssign>, m: &mut Metrics)
    requires
        old(st).wf(),
    ensures
        final(st).wf(),
        final(st).mappings@ == old(st).mappings@,
        old(st).refs_valid() ==> final(st).refs_valid(),
        ({
            let r = restore_from((old(st).domains@, old(st).assigns@, old(st).next_domain_id, Seq::empty(), 0, 0), saved@, 0);
            &&& final(st).domains@ == r.0
            &&& final(st).assigns@ == r.1
            &&& final(st).next_domain_id == r.2
            &&& *final(m) == (Metrics {
                    iommu_domain_created: Counter { value: add_wrapped(old(m).iommu_domain_created.value, r.4) },
                    iommu_assign_added: Counter { value: add_wrapped(old(m).iommu_assign_added.value, r.5) },
                    ..*old(m)
                })
        }),
{
    let ghost init: RestoreView = (st.domains@, st.assigns@, st.next_domain_id, Seq::empty(), 0, 0);
    let ghost m0 = *m;
    let ghost mut nc: nat = 0;
    let ghost mut na: nat = 0;
    let mut map: Vec<(u16, u16)> = Vec::new();
    let mut k: usize = 0;
    proof {
        lemma_add_wrapped_step(m0.iommu_domain_created.value, 0, 0);
        lemma_add_wrapped_step(m0.iommu_assign_added.value, 0, 0);
    }
    while k < saved.len()
        invariant
            st.wf(),
            old(st).wf(),
            k <= saved@.len(),
            map@.len() <= MAX_REMAP,
            st.mappings@ == old(st).mappings@,
            old(st).refs_valid() ==> st.refs_valid(),
            restore_from(init, saved@, 0) == restore_from((st.domains@, st.assigns@, st.next_domain_id, map@, nc, na), saved@, k as int),
            *m == (Metrics {
                iommu_domain_created: Counter { value: add_wrapped(m0.iommu_domain_created.value, nc) },
                iommu_assign_added: Counter { value: add_wrapped(m0.iommu_assign_added.value, na) },
                ..m0
            }),
        decreases saved@.len() - k,
    {
        let e = saved[k];
        let ghost s0: RestoreView = (st.domains@, st.assigns@, st.next_domain_id, map@, nc, na);
        let found = remap_lookup(&map, e.domid);
        let nd: Option<u16> = match found {
            Some(n) => Some(n),
            None => {
                let ghost ds = st.domains@;
                let ghost next = st.next_domain_id;
                let made = create_domain(st, m);
                proof {
                    if exists|i: int| first_free_domain(ds, i) {
                        let i = choose|i: int| first_free_domain(ds, i);
                        assert(st.domains@ == ds.update(i, Domain { id: next, used: true }));
                    }
                    assert(create_view(ds, next).0 == st.domains@);
                    assert(create_view(ds, next).1 == made);
                    lemma_add_wrapped_step(m0.iommu_domain_created.value, nc, if made is Some { 1u64 } else { 0u64 });
                    if made is Some {
                        nc = nc + 1;
                    }
                }
                match made {
                    Some(newid) => {
                        if map.len() < MAX_REMAP {
                            map.push((e.domid, newid));
                        }
                        Some(newid)
                    },
                    None => None,
                }
            },
        };
        match nd {
            Some(d) => {
                let ghost ds1 = st.domains@;
                let ghost asg = st.assigns@;
                let ok = assign_device(st, e.seg, e.bus, e.dev, e.func, d, m);
                proof {
                    assert(old(st).wf());
                    if ok {
                        let i = choose|i: int| first_free_assign(asg, i);
                        assert(st.assigns@ == asg.update(i,
                            DevAssign { used: true, seg: e.seg, bus: e.bus, dev: e.dev, func: e.func, domid: d }));
                    }
                    assert(assign_view(ds1, asg, e, d) == if ok { Some(st.assigns@) } else { None::<Seq<DevAssign>> });
                    lemma_add_wrapped_step(m0.iommu_assign_added.value, na, if ok { 1u64 } else { 0u64 });
                    if ok {
                        na = na + 1;
                    }
                }
            },
            None => {},
        }
        proof {
            assert(restore_step(s0, e) == (st.domains@, st.assigns@, st.next_domain_id, map@, nc, na));
        }
        k = k + 1;
    }
}

// ---------------------------------------------------------------------------
// Restoring keeps the grouping of devices by domain

proof fn lemma_remap_found(map: Seq<(u16, u16)>, o: u16)
    ensures
        remap_find(map, o) matches Some(v) ==> exists|i: int| 0 <= i < map.len() && #[trigger] map[i] == (o, v),
        (exists|i: int| 0 <= i < map.len() && #[trigger] map[i].0 == o) ==> remap_find(map, o) is Some,
    decreases map.len(),
{
    if map.len() > 0 {
        let pre = map.drop_last();
        lemma_remap_found(pre, o);
        if let Some(v) = remap_find(map, o) {
            if let Some(w) = remap_find(pre, o) {
                let i = choose|i: int| 0 <= i < pre.len() && #[trigger] pre[i] == (o, w);
                assert(map[i] == pre[i]);
            } else {
                assert(map[map.len() - 1] == (o, v));
            }
        }
        if exists|i: int| 0 <= i < map.len() && #[trigger] map[i].0 == o {
            let i = choose|i: int| 0 <= i < map.len() && #[trigger] map[i].0 == o;
            if i < map.len() - 1 {
                assert(pre[i] == map[i]);
            }
        }
    }
}

proof fn lemma_remap_push(map: Seq<(u16, u16)>, x: (u16, u16), o: u16)
    ensures
        remap_find(map.push(x), o)
            == if remap_find(map, o) is Some { remap_find(map, o) } else if x.0 == o { Some(x.1) } else { None },
{
    assert(map.push(x).drop_last() =~= map);
}

/// No two items of `keys` are equal and all are in `ids`: `keys` is no longer than `ids`.
proof fn lemma_pigeonhole(keys: Seq<u16>, ids: Seq<u16>)
    requires
        keys.no_duplicates(),
        forall|i: int| 0 <= i < keys.len() ==> ids.contains(#[trigger] keys[i]),
    ensures
        keys.len() <= ids.len(),
{
    broadcast use vstd::seq_lib::group_seq_properties;
    keys.unique_seq_to_set();
    ids.lemma_cardinality_of_set();
    assert(keys.to_set().subset_of(ids.to_set())) by {
        assert forall|x: u16| keys.to_set().contains(x) implies ids.to_set().contains(x) by {
            let i = choose|i: int| 0 <= i < keys.len() && keys[i] == x;
        }
    }
    vstd::set_lib::lemma_len_subset(keys.to_set(), ids.to_set());
}

/// The restoring state after `k` saved assignments, from an empty registry
/// with next id `next0`: the domains made so far sit in the first slots with
/// ids `next0, next0 + 1, ...`, one per remembered saved id; the devices sit
/// in the first `k` assignment slots, each with the new id of its saved one.
pub open spec fn restore_inv(saved: Seq<SavedAssign>, ids: Seq<u16>, next0: u16, k: int, s: RestoreView) -> bool {
    let (ds, asg, next, map, nc, na) = s;
    &&& ds.len() == 16 && asg.len() == 128
    &&& map.len() <= 16
    &&& next == next0 + map.len()
    &&& forall|i: int| 0 <= i < map.len() ==> (#[trigger] map[i]).1 == next0 + i && ids.contains(map[i].0)
    &&& forall|i: int| 0 <= i < map.len() ==> #[trigger] ds[i] == Domain { id: (next0 + i) as u16, used: true }
    &&& forall|i: int| map.len() <= i < 16 ==> !(#[trigger] ds[i]).used
    &&& forall|a: int, b: int| 0 <= a < map.len() && 0 <= b < map.len() && a != b ==> (#[trigger] map[a]).0 != (#[trigger] map[b]).0
    &&& forall|j: int| 0 <= j < k ==> remap_find(map, (#[trigger] saved[j]).domid) is Some
    &&& forall|j: int| 0 <= j < k ==> #[trigger] asg[j] == (DevAssign {
            used: true, seg: saved[j].seg, bus: saved[j].bus, dev: saved[j].dev, func: saved[j].func,
            domid: remap_find(map, saved[j].domid)->0 })
    &&& forall|j: int| k <= j < 128 ==> !(#[trigger] asg[j]).used
}

proof fn lemma_restore_step(saved: Seq<SavedAssign>, ids: Seq<u16>, next0: u16, k: int, s: RestoreView)
    requires
        restore_inv(saved, ids, next0, k, s),
        0 <= k < saved.len() <= 128,
        ids.len() <= MAX_REMAP,
        forall|j: int| 0 <= j < saved.len() ==> ids.contains(#[trigger] saved[j].domid),
        1 <= next0,
        next0 + 16 <= u16::MAX,
    ensures
        restore_inv(saved, ids, next0, k + 1, restore_step(s, saved[k])),
{
    let (ds, asg, next, map, nc, na) = s;
    let e = saved[k];
    assert(first_free_assign(asg, k));
    assert forall|i: int| first_free_assign(asg, i) implies i == k by {
        if i < k { assert(asg[i].used); } else if i > k { assert(!asg[k].used); }
    }
    assert forall|j: int| 0 <= j < k implies remap_find(map, (#[trigger] saved[j]).domid) is Some by {}
    match remap_find(map, e.domid) {
        Some(d) => {
            lemma_remap_found(map, e.domid);
            let i = choose|i: int| 0 <= i < map.len() && #[trigger] map[i] == (e.domid, d);
            assert(ds[i].used && ds[i].id == d);
            assert(seq_has_domain(ds, d));
            let r = restore_step(s, e);
            assert(r.1 == asg.update(k, DevAssign { used: true, seg: e.seg, bus: e.bus, dev: e.dev, func: e.func, domid: d }));
            assert(restore_inv(saved, ids, next0, k + 1, r));
        },
        None => {
            lemma_remap_found(map, e.domid);
            let keys = map.map_values(|p: (u16, u16)| p.0).push(e.domid);
            assert forall|a: int, b: int| 0 <= a < keys.len() && 0 <= b < keys.len() && a != b implies keys[a] != keys[b] by {
                if a < map.len() && b < map.len() {
                    assert(map[a].0 != map[b].0);
                } else if a < map.len() {
                    assert(keys[a] == map[a].0);
                } else if b < map.len() {
                    assert(keys[b] == map[b].0);
                }
            }
            assert forall|i: int| 0 <= i < keys.len() implies ids.contains(#[trigger] keys[i]) by {
                if i < map.len() { assert(keys[i] == map[i].0); }
            }
            lemma_pigeonhole(keys, ids);
            let n = map.len() as int;
            assert(n < 16);
            assert(first_free_domain(ds, n));
            assert forall|i: int| first_free_domain(ds, i) implies i == n by {
                if i < n { assert(ds[i].used); } else if i > n { assert(!ds[n].used); }
            }
            let nid = next;
            let ds2 = ds.update(n, Domain { id: nid, used: true });
            assert(create_view(ds, next) == (ds2, Some(nid)));
            assert(wrap_inc(next) == next + 1);
            let map2 = map.push((e.domid, nid));
            assert(seq_has_domain(ds2, nid)) by {
                assert(ds2[n].used && ds2[n].id == nid);
            }
            assert forall|j: int| 0 <= j <= k implies remap_find(map2, (#[trigger] saved[j]).domid)
                == if j < k { remap_find(map, saved[j].domid) } else { Some(nid) } by {
                lemma_remap_push(map, (e.domid, nid), saved[j].domid);
            }
            let r = restore_step(s, e);
            assert(r.0 == ds2);
            assert(r.3 == map2);
            assert(r.1 == asg.update(k, DevAssign { used: true, seg: e.seg, bus: e.bus, dev: e.dev, func: e.func, domid: nid }));
            assert forall|i: int| 0 <= i < map2.len() implies (#[trigger] map2[i]).1 == next0 + i && ids.contains(map2[i].0) by {
                if i < n { assert(map2[i] == map[i]); }
            }
            assert forall|i: int| 0 <= i < map2.len() implies #[trigger] ds2[i] == Domain { id: (next0 + i) as u16, used: true } by {
                if i < n { assert(ds2[i] == ds[i]); }
            }
            assert forall|a: int, b: int| 0 <= a < map2.len() && 0 <= b < map2.len() && a != b
                implies (#[trigger] map2[a]).0 != (#[trigger] map2[b]).0 by {
                assert(keys[a] != keys[b]);
                if a < n { assert(keys[a] == map[a].0); }
                if b < n { assert(keys[b] == map[b].0); }
            }
            assert(restore_inv(saved, ids, next0, k + 1, r));
        },
    }
}

proof fn lemma_restore_run(saved: Seq<SavedAssign>, ids: Seq<u16>, next0: u16, k: int, s: RestoreView)
    requires
        restore_inv(saved, ids, next0, k, s),
        0 <= k <= saved.len() <= 128,
        ids.len() <= MAX_REMAP,
        forall|j: int| 0 <= j < saved.len() ==> ids.contains(#[trigger] saved[j].domid),
        1 <= next0,
        next0 + 16 <= u16::MAX,
    ensures
        restore_inv(saved, ids, next0, saved.len() as int, restore_from(s, saved, k)),
    decreases saved.len() - k,
{
    if k < saved.len() {
        lemma_restore_step(saved, ids, next0, k, s);
        lemma_restore_run(saved, ids, next0, k + 1, restore_step(s, saved[k]));
    }
}

proof fn lemma_used_prefix(asg: Seq<DevAssign>, n: int)
    requires
        0 <= n <= asg.len(),
        forall|j: int| 0 <= j < n ==> (#[trigger] asg[j]).used,
        forall|j: int| n <= j < asg.len() ==> !(#[trigger] asg[j]).used,
    ensures
        used_assigns(asg) == asg.take(n),
    decreases asg.len(),
{
    if asg.len() > 0 {
        let pre = asg.drop_last();
        if n == asg.len() {
            lemma_used_prefix(pre, n - 1);
            assert(asg.take(n) =~= pre.take(n - 1).push(asg.last()));
        } else {
            lemma_used_prefix(pre, n);
            assert(asg.take(n) =~= pre.take(n));
        }
    } else {
        assert(asg.take(n) =~= Seq::<DevAssign>::empty());
    }
}

/// Restoring saved assignments into a registry with no domain and no
/// assignment (next id `next`, at least 1 and at least 16 below the top),
/// when there are at most 128 of them and their domain ids are among the at
/// most sixteen `ids`: the used assignments afterwards are the saved ones in
/// order, each with a new domain id that exists; two devices share a new
/// domain exactly when they shared a saved one.
pub proof fn law_restore_keeps_grouping(ds: Seq<Domain>, asg: Seq<DevAssign>, next: u16, saved: Seq<SavedAssign>, ids: Seq<u16>)
    requires
        ds.len() == 16,
        asg.len() == 128,
        forall|i: int| 0 <= i < 16 ==> !(#[trigger] ds[i]).used,
        forall|i: int| 0 <= i < 128 ==> !(#[trigger] asg[i]).used,
        1 <= next,
        next + 16 <= u16::MAX,
        saved.len() <= 128,
        ids.len() <= MAX_REMAP,
        forall|j: int| 0 <= j < saved.len() ==> ids.contains(#[trigger] saved[j].domid),
    ensures
        ({
            let r = restore_from((ds, asg, next, Seq::empty(), 0, 0), saved, 0);
            let got = used_assigns(r.1);
            &&& got.len() == saved.len()
            &&& forall|k: int| 0 <= k < saved.len() ==> {
                    &&& (#[trigger] got[k]).seg == saved[k].seg && got[k].bus == saved[k].bus
                    &&& got[k].dev == saved[k].dev && got[k].func == saved[k].func
                    &&& seq_has_domain(r.0, got[k].domid)
                }
            &&& forall|j: int, k: int| 0 <= j < saved.len() && 0 <= k < saved.len() ==>
                    ((#[trigger] saved[j]).domid == (#[trigger] saved[k]).domid) == (got[j].domid == got[k].domid)
        }),
{
    let s0: RestoreView = (ds, asg, next, Seq::empty(), 0, 0);
    assert(restore_inv(saved, ids, next, 0, s0));
    lemma_restore_run(saved, ids, next, 0, s0);
    let r = restore_from(s0, saved, 0);
    let n = saved.len() as int;
    let map = r.3;
    lemma_used_prefix(r.1, n);
    let got = used_assigns(r.1);
    assert forall|k: int| 0 <= k < saved.len() implies {
        &&& (#[trigger] got[k]).seg == saved[k].seg && got[k].bus == saved[k].bus
        &&& got[k].dev == saved[k].dev && got[k].func == saved[k].func
        &&& seq_has_domain(r.0, got[k].domid)
    } by {
        assert(got[k] == r.1[k]);
        lemma_remap_found(map, saved[k].domid);
        let d = remap_find(map, saved[k].domid)->0;
        let i = choose|i: int| 0 <= i < map.len() && #[trigger] map[i] == (saved[k].domid, d);
        assert(r.0[i].used && r.0[i].id == d);
    }
    assert forall|j: int, k: int| 0 <= j < saved.len() && 0 <= k < saved.len() implies
        ((#[trigger] saved[j]).domid == (#[trigger] saved[k]).domid) == (got[j].domid == got[k].domid) by {
        assert(got[j] == r.1[j] && got[k] == r.1[k]);
        lemma_remap_found(map, saved[j].domid);
        lemma_remap_found(map, saved[k].domid);
        let dj = remap_find(map, saved[j].domid)->0;
        let dk = remap_find(map, saved[k].domid)->0;
        let ij = choose|i: int| 0 <= i < map.len() && #[trigger] map[i] == (saved[j].domid, dj);
        let ik = choose|i: int| 0 <= i < map.len() && #[trigger] map[i] == (saved[k].domid, dk);
        if dj == dk {
            assert(map[ij].1 == next + ij && map[ik].1 == next + ik);
            assert(ij == ik);
        }
    }
}

} // verus!
