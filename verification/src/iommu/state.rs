//! Fixed-capacity registry of IOMMU domains, device assignments and DMA
//! mappings.

use vstd::prelude::*;
use crate::obs::metrics::{Counter, Metrics};

verus! {

pub const MAX_DOMAINS: usize = 16;
pub const MAX_ASSIGNMENTS: usize = 128;
pub const MAX_MAPPINGS: usize = 256;

/// A domain slot.
#[derive(Clone, Copy)]
pub struct Domain {
    pub id: u16,
    pub used: bool,
}

/// A device (segment:bus:device.function) assigned to a domain.
#[derive(Clone, Copy)]
pub struct DevAssign {
    pub used: bool,
    pub seg: u16,
    pub bus: u8,
    pub dev: u8,
    pub func: u8,
    pub domid: u16,
}

/// An IOVA range of a domain mapped to physical memory with permissions.
#[derive(Clone, Copy)]
pub struct Mapping {
    pub used: bool,
    pub domid: u16,
    pub iova: u64,
    pub pa: u64,
    pub len: u64,
    pub perm_r: bool,
    pub perm_w: bool,
    pub perm_x: bool,
}

/// The registry: domain, assignment and mapping slots, and the next domain id.
pub struct IommuState {
    pub domains: Vec<Domain>,
    pub assigns: Vec<DevAssign>,
    pub mappings: Vec<Mapping>,
    pub next_domain_id: u16,
}

impl IommuState {
    pub open spec fn wf(&self) -> bool {
        &&& self.domains@.len() == MAX_DOMAINS
        &&& self.assigns@.len() == MAX_ASSIGNMENTS
        &&& self.mappings@.len() == MAX_MAPPINGS
    }

    /// A used domain slot carries `id`.
    pub open spec fn has_domain(&self, id: u16) -> bool {
        exists|i: int| 0 <= i < self.domains@.len() && self.domains@[i].used && self.domains@[i].id == id
    }

    /// Domain ids are handed out fresh: every used slot carries an id in
    /// `1..next_domain_id`, and no two used slots carry the same id.
    pub open spec fn ids_fresh(&self) -> bool {
        &&& 1 <= self.next_domain_id
        &&& forall|i: int| 0 <= i < self.domains@.len() && self.domains@[i].used
            ==> 1 <= #[trigger] self.domains@[i].id < self.next_domain_id
        &&& forall|i: int, j: int| 0 <= i < self.domains@.len() && 0 <= j < self.domains@.len() && i != j
            && self.domains@[i].used && self.domains@[j].used ==> #[trigger] self.domains@[i].id != #[trigger] self.domains@[j].id
    }

    /// Every used assignment and mapping belongs to a domain that exists.
    pub open spec fn refs_valid(&self) -> bool {
        &&& forall|i: int| 0 <= i < self.assigns@.len() && self.assigns@[i].used
            ==> self.has_domain(#[trigger] self.assigns@[i].domid)
        &&& forall|i: int| 0 <= i < self.mappings@.len() && self.mappings@[i].used
            ==> self.has_domain(#[trigger] self.mappings@[i].domid)
    }
}

proof fn lemma_has_domain_same(a: IommuState, b: IommuState, d: u16)
    requires
        a.domains@ == b.domains@,
    ensures
        a.has_domain(d) == b.has_domain(d),
{
    if a.has_domain(d) {
        let i = choose|i: int| 0 <= i < a.domains@.len() && a.domains@[i].used && a.domains@[i].id == d;
        assert(b.domains@[i] == a.domains@[i]);
    }
    if b.has_domain(d) {
        let i = choose|i: int| 0 <= i < b.domains@.len() && b.domains@[i].used && b.domains@[i].id == d;
        assert(b.domains@[i] == a.domains@[i]);
    }
}

pub open spec fn wrap_inc(v: u16) -> u16 {
    if v == u16::MAX { 0 } else { (v + 1) as u16 }
}

pub open spec fn first_free_domain(s: Seq<Domain>, i: int) -> bool {
    0 <= i < s.len() && !s[i].used && forall|k: int| 0 <= k < i ==> s[k].used
}

pub open spec fn first_free_assign(s: Seq<DevAssign>, i: int) -> bool {
    0 <= i < s.len() && !s[i].used && forall|k: int| 0 <= k < i ==> s[k].used
}

pub open spec fn first_free_mapping(s: Seq<Mapping>, i: int) -> bool {
    0 <= i < s.len() && !s[i].used && forall|k: int| 0 <= k < i ==> s[k].used
}

pub open spec fn domain_is(d: Domain, id: u16) -> bool {
    d.used && d.id == id
}

pub open spec fn first_domain_with(s: Seq<Domain>, id: u16, i: int) -> bool {
    0 <= i < s.len() && domain_is(s[i], id) && forall|k: int| 0 <= k < i ==> !domain_is(s[k], id)
}

pub open spec fn assign_is(a: DevAssign, seg: u16, bus: u8, dev: u8, func: u8) -> bool {
    a.used && a.seg == seg && a.bus == bus && a.dev == dev && a.func == func
}

pub open spec fn first_assign_of(s: Seq<DevAssign>, seg: u16, bus: u8, dev: u8, func: u8, i: int) -> bool {
    0 <= i < s.len() && assign_is(s[i], seg, bus, dev, func)
        && forall|k: int| 0 <= k < i ==> !assign_is(s[k], seg, bus, dev, func)
}

pub open spec fn mapping_is(m: Mapping, domid: u16, iova: u64, len: u64) -> bool {
    m.used && m.domid == domid && m.iova == iova && m.len == len
}

pub open spec fn first_mapping_of(s: Seq<Mapping>, domid: u16, iova: u64, len: u64, i: int) -> bool {
    0 <= i < s.len() && mapping_is(s[i], domid, iova, len)
        && forall|k: int| 0 <= k < i ==> !mapping_is(s[k], domid, iova, len)
}

/// A used slot of `ds` carries `id`.
pub open spec fn seq_has_domain(ds: Seq<Domain>, id: u16) -> bool {
    exists|i: int| 0 <= i < ds.len() && ds[i].used && ds[i].id == id
}

/// Domain slots after creating a domain with id `next`, and the id made
/// (`None` when every slot is used).
pub open spec fn create_view(ds: Seq<Domain>, next: u16) -> (Seq<Domain>, Option<u16>) {
    if exists|i: int| first_free_domain(ds, i) {
        let i = choose|i: int| first_free_domain(ds, i);
        (ds.update(i, Domain { id: next, used: true }), Some(next))
    } else {
        (ds, None)
    }
}

/// Domain slots after destroying the domain with `id`: its first slot released
/// (nothing changes when no slot carries it).
pub open spec fn destroy_view(ds: Seq<Domain>, id: u16) -> Seq<Domain> {
    if exists|i: int| first_domain_with(ds, id, i) {
        let i = choose|i: int| first_domain_with(ds, id, i);
        ds.update(i, Domain { used: false, ..ds[i] })
    } else {
        ds
    }
}

/// Assignments with those of domain `id` released.
pub open spec fn release_assigns_of(s: Seq<DevAssign>, id: u16) -> Seq<DevAssign> {
    Seq::new(s.len(), |i: int| if s[i].used && s[i].domid == id { DevAssign { used: false, ..s[i] } } else { s[i] })
}

/// Mappings with those of domain `id` released.
pub open spec fn release_mappings_of(s: Seq<Mapping>, id: u16) -> Seq<Mapping> {
    Seq::new(s.len(), |i: int| if s[i].used && s[i].domid == id { Mapping { used: false, ..s[i] } } else { s[i] })
}

/// Ids of the used domain slots, in slot order.
pub open spec fn used_domain_ids(s: Seq<Domain>) -> Seq<u16>
    decreases s.len(),
{
    if s.len() == 0 {
        Seq::empty()
    } else {
        let r = used_domain_ids(s.drop_last());
        if s.last().used { r.push(s.last().id) } else { r }
    }
}

/// The used assignments, in slot order.
pub open spec fn used_assigns(s: Seq<DevAssign>) -> Seq<DevAssign>
    decreases s.len(),
{
    if s.len() == 0 {
        Seq::empty()
    } else {
        let r = used_assigns(s.drop_last());
        if s.last().used { r.push(s.last()) } else { r }
    }
}

/// There are no more used assignments than slots.
pub proof fn lemma_used_assigns_len(s: Seq<DevAssign>)
    ensures
        used_assigns(s).len() <= s.len(),
    decreases s.len(),
{
    if s.len() > 0 {
        lemma_used_assigns_len(s.drop_last());
    }
}

/// The used mappings, in slot order.
pub open spec fn used_mappings(s: Seq<Mapping>) -> Seq<Mapping>
    decreases s.len(),
{
    if s.len() == 0 {
        Seq::empty()
    } else {
        let r = used_mappings(s.drop_last());
        if s.last().used { r.push(s.last()) } else { r }
    }
}

/// Number of used mappings of domain `id`.
pub open spec fn count_mappings_of(s: Seq<Mapping>, id: u16) -> nat
    decreases s.len(),
{
    if s.len() == 0 {
        0
    } else {
        count_mappings_of(s.drop_last(), id) + if s.last().used && s.last().domid == id { 1nat } else { 0nat }
    }
}

proof fn lemma_count_bound(s: Seq<Mapping>, id: u16)
    ensures
        count_mappings_of(s, id) <= s.len(),
    decreases s.len(),
{
    if s.len() > 0 {
        lemma_count_bound(s.drop_last(), id);
    }
}

/// An empty registry; the first domain created gets id 1.
pub fn new_state() -> (st: IommuState)
    ensures
        st.wf(),
        st.next_domain_id == 1,
        forall|i: int| 0 <= i < MAX_DOMAINS ==> !st.domains@[i].used,
        forall|i: int| 0 <= i < MAX_ASSIGNMENTS ==> !st.assigns@[i].used,
        forall|i: int| 0 <= i < MAX_MAPPINGS ==> !st.mappings@[i].used,
        st.refs_valid(),
        st.ids_fresh(),
{
    let mut domains: Vec<Domain> = Vec::new();
    let mut i: usize = 0;
    while i < MAX_DOMAINS
        invariant
            i <= MAX_DOMAINS,
            domains@.len() == i,
            forall|k: int| 0 <= k < i ==> !domains@[k].used,
        decreases MAX_DOMAINS - i,
    {
        domains.push(Domain { id: 0, used: false });
        i = i + 1;
    }
    let mut assigns: Vec<DevAssign> = Vec::new();
    let mut i: usize = 0;
    while i < MAX_ASSIGNMENTS
        invariant
            i <= MAX_ASSIGNMENTS,
            assigns@.len() == i,
            forall|k: int| 0 <= k < i ==> !assigns@[k].used,
        decreases MAX_ASSIGNMENTS - i,
    {
        assigns.push(DevAssign { used: false, seg: 0, bus: 0, dev: 0, func: 0, domid: 0 });
        i = i + 1;
    }
    let mut mappings: Vec<Mapping> = Vec::new();
    let mut i: usize = 0;
    while i < MAX_MAPPINGS
        invariant
            i <= MAX_MAPPINGS,
            mappings@.len() == i,
            forall|k: int| 0 <= k < i ==> !mappings@[k].used,
        decreases MAX_MAPPINGS - i,
    {
        mappings.push(Mapping { used: false, domid: 0, iova: 0, pa: 0, len: 0, perm_r: false, perm_w: false, perm_x: false });
        i = i + 1;
    }
    IommuState { domains, assigns, mappings, next_domain_id: 1 }
}

/// Take the next domain id (the counter advances even when no slot is free) and
/// record a domain with it in the first free slot. `None` when all slots are used.
fn create_domain_slot(st: &mut IommuState) -> (r: Option<u16>)
    requires
        old(st).wf(),
    ensures
        final(st).wf(),
        final(st).next_domain_id == wrap_inc(old(st).next_domain_id),
        final(st).assigns@ == old(st).assigns@,
        final(st).mappings@ == old(st).mappings@,
        (exists|i: int| first_free_domain(old(st).domains@, i)) ==> {
            &&& r == Some(old(st).next_domain_id)
            &&& forall|i: int| first_free_domain(old(st).domains@, i) ==> final(st).domains@
                == old(st).domains@.update(i, Domain { id: old(st).next_domain_id, used: true })
        },
        !(exists|i: int| first_free_domain(old(st).domains@, i)) ==> {
            &&& r is None
            &&& final(st).domains@ == old(st).domains@
        },
        old(st).refs_valid() ==> final(st).refs_valid(),
        r matches Some(id) ==> final(st).has_domain(id),
        forall|d: u16| #[trigger] old(st).has_domain(d) ==> final(st).has_domain(d),
        old(st).ids_fresh() && old(st).next_domain_id < u16::MAX ==> {
            &&& final(st).ids_fresh()
            &&& r matches Some(id) ==> !old(st).has_domain(id)
        },
{
    let id = st.next_domain_id;
    st.next_domain_id = id.wrapping_add(1);
    let mut i: usize = 0;
    while i < MAX_DOMAINS
        invariant
            st.wf(),
            old(st).wf(),
            i <= MAX_DOMAINS,
            st.domains@ == old(st).domains@,
            st.assigns@ == old(st).assigns@,
            st.mappings@ == old(st).mappings@,
            st.next_domain_id == wrap_inc(old(st).next_domain_id),
            id == old(st).next_domain_id,
            forall|k: int| 0 <= k < i ==> st.domains@[k].used,
        decreases MAX_DOMAINS - i,
    {
        if !st.domains[i].used {
            let ghost before = st.domains@;
            st.domains.set(i, Domain { id, used: true });
            proof {
                assert(first_free_domain(before, i as int));
                assert forall|j: int| first_free_domain(before, j) implies j == i as int by {
                    if j < i { } else if j > i { assert(before[i as int].used); }
                }
                assert forall|d: u16| #[trigger] old(st).has_domain(d) implies st.has_domain(d) by {
                    let k = choose|k: int| 0 <= k < before.len() && before[k].used && before[k].id == d;
                    if k == i { assert(false); }
                    assert(st.domains@[k] == before[k]);
                }
                assert(st.domains@[i as int].used && st.domains@[i as int].id == id);
                assert(st.has_domain(id));
                if old(st).ids_fresh() && old(st).next_domain_id < u16::MAX {
                    assert(st.next_domain_id == id + 1);
                    assert forall|k: int| 0 <= k < st.domains@.len() && st.domains@[k].used
                        implies 1 <= #[trigger] st.domains@[k].id < st.next_domain_id by {
                        if k != i { assert(st.domains@[k] == before[k]); }
                    }
                    assert forall|a: int, b: int| 0 <= a < st.domains@.len() && 0 <= b < st.domains@.len() && a != b
                        && st.domains@[a].used && st.domains@[b].used
                        implies #[trigger] st.domains@[a].id != #[trigger] st.domains@[b].id by {
                        if a == i { assert(st.domains@[b] == before[b]); }
                        else if b == i { assert(st.domains@[a] == before[a]); }
                        else { assert(st.domains@[a] == before[a] && st.domains@[b] == before[b]); }
                    }
                    if old(st).has_domain(id) {
                        let k = choose|k: int| 0 <= k < before.len() && before[k].used && before[k].id == id;
                        assert(before[k].id < id);
                    }
                }
            }
            return Some(id);
        }
        i = i + 1;
    }
    proof {
        assert forall|j: int| !first_free_domain(old(st).domains@, j) by {
            if 0 <= j < MAX_DOMAINS { assert(st.domains@[j].used); }
        }
        assert forall|d: u16| #[trigger] old(st).has_domain(d) implies st.has_domain(d) by {
            lemma_has_domain_same(*old(st), *st, d);
        }
    }
    None
}

/// Create a domain (see [`create_domain_slot`]) and count it in
/// `iommu_domain_created`; every other counter stays.
pub fn create_domain(st: &mut IommuState, m: &mut Metrics) -> (r: Option<u16>)
    requires
        old(st).wf(),
    ensures
        final(st).wf(),
        final(st).next_domain_id == wrap_inc(old(st).next_domain_id),
        final(st).assigns@ == old(st).assigns@,
        final(st).mappings@ == old(st).mappings@,
        (exists|i: int| first_free_domain(old(st).domains@, i)) ==> {
            &&& r == Some(old(st).next_domain_id)
            &&& forall|i: int| first_free_domain(old(st).domains@, i) ==> final(st).domains@
                == old(st).domains@.update(i, Domain { id: old(st).next_domain_id, used: true })
        },
        !(exists|i: int| first_free_domain(old(st).domains@, i)) ==> {
            &&& r is None
            &&& final(st).domains@ == old(st).domains@
        },
        old(st).refs_valid() ==> final(st).refs_valid(),
        r matches Some(id) ==> final(st).has_domain(id),
        forall|d: u16| #[trigger] old(st).has_domain(d) ==> final(st).has_domain(d),
        old(st).ids_fresh() && old(st).next_domain_id < u16::MAX ==> {
            &&& final(st).ids_fresh()
            &&& r matches Some(id) ==> !old(st).has_domain(id)
        },
        *final(m) == (Metrics {
            iommu_domain_created: Counter { value: vstd::wrapping::u64_specs::wrapping_add(old(m).iommu_domain_created.value, if r is Some { 1u64 } else { 0u64 }) },
            ..*old(m)
        }),
        final(st).domains@ == create_view(old(st).domains@, old(st).next_domain_id).0,
        r == create_view(old(st).domains@, old(st).next_domain_id).1,
{
    let r = create_domain_slot(st);
    proof {
        if exists|i: int| first_free_domain(old(st).domains@, i) {
            let i = choose|i: int| first_free_domain(old(st).domains@, i);
            assert(st.domains@ == old(st).domains@.update(i, Domain { id: old(st).next_domain_id, used: true }));
        }
    }
    m.iommu_domain_created.add(if r.is_some() { 1 } else { 0 });
    r
}

/// A domain with `id` exists.
pub fn domain_exists(st: &IommuState, id: u16) -> (r: bool)
    requires
        st.wf(),
    ensures
        r == st.has_domain(id),
        r == seq_has_domain(st.domains@, id),
{
    let mut i: usize = 0;
    while i < MAX_DOMAINS
        invariant
            st.wf(),
            i <= MAX_DOMAINS,
            forall|k: int| 0 <= k < i ==> !domain_is(st.domains@[k], id),
        decreases MAX_DOMAINS - i,
    {
        if st.domains[i].used && st.domains[i].id == id {
            return true;
        }
        i = i + 1;
    }
    false
}

/// Ids of the existing domains, in slot order.
pub fn list_domains(st: &IommuState) -> (r: Vec<u16>)
    requires
        st.wf(),
    ensures
        r@ == used_domain_ids(st.domains@),
{
    let mut out: Vec<u16> = Vec::new();
    let mut i: usize = 0;
    while i < MAX_DOMAINS
        invariant
            st.wf(),
            i <= MAX_DOMAINS,
            out@ == used_domain_ids(st.domains@.take(i as int)),
        decreases MAX_DOMAINS - i,
    {
        proof { assert(st.domains@.take(i + 1).drop_last() =~= st.domains@.take(i as int)); }
        if st.domains[i].used {
            out.push(st.domains[i].id);
        }
        i = i + 1;
    }
    proof { assert(st.domains@.take(MAX_DOMAINS as int) =~= st.domains@); }
    out
}

/// Record `seg:bus:dev.func` as assigned to domain `domid` in the first free slot.
/// False when the domain does not exist or all slots are used.
fn assign_slot(st: &mut IommuState, seg: u16, bus: u8, dev: u8, func: u8, domid: u16) -> (r: bool)
    requires
        old(st).wf(),
    ensures
        final(st).wf(),
        final(st).domains@ == old(st).domains@,
        final(st).mappings@ == old(st).mappings@,
        final(st).next_domain_id == old(st).next_domain_id,
        r <==> old(st).has_domain(domid) && exists|i: int| first_free_assign(old(st).assigns@, i),
        r ==> forall|i: int| first_free_assign(old(st).assigns@, i) ==> final(st).assigns@
            == old(st).assigns@.update(i, DevAssign { used: true, seg, bus, dev, func, domid }),
        !r ==> final(st).assigns@ == old(st).assigns@,
        old(st).refs_valid() ==> final(st).refs_valid(),
{
    if !domain_exists(st, domid) {
        return false;
    }
    let mut i: usize = 0;
    while i < MAX_ASSIGNMENTS
        invariant
            st.wf(),
            old(st).wf(),
            i <= MAX_ASSIGNMENTS,
            st.domains@ == old(st).domains@,
            st.assigns@ == old(st).assigns@,
            st.mappings@ == old(st).mappings@,
            st.next_domain_id == old(st).next_domain_id,
            st.has_domain(domid),
            forall|k: int| 0 <= k < i ==> st.assigns@[k].used,
        decreases MAX_ASSIGNMENTS - i,
    {
        if !st.assigns[i].used {
            let ghost before = st.assigns@;
            let ghost st_before = *st;
            st.assigns.set(i, DevAssign { used: true, seg, bus, dev, func, domid });
            proof {
                lemma_has_domain_same(st_before, *st, domid);
                assert(first_free_assign(before, i as int));
                assert forall|j: int| first_free_assign(before, j) implies j == i as int by {
                    if j < i { } else if j > i { assert(before[i as int].used); }
                }
                if old(st).refs_valid() {
                    assert forall|k: int| 0 <= k < st.assigns@.len() && st.assigns@[k].used
                        implies st.has_domain(#[trigger] st.assigns@[k].domid) by {
                        if k != i {
                            assert(st.assigns@[k] == before[k]);
                            assert(old(st).has_domain(old(st).assigns@[k].domid));
                            lemma_has_domain_same(*old(st), *st, old(st).assigns@[k].domid);
                        }
                    }
                }
            }
            return true;
        }
        i = i + 1;
    }
    proof {
        assert forall|j: int| !first_free_assign(old(st).assigns@, j) by {
            if 0 <= j < MAX_ASSIGNMENTS { assert(st.assigns@[j].used); }
        }
    }
    false
}

/// Assign a device (see [`assign_slot`]) and count it in
/// `iommu_assign_added`; every other counter stays.
pub fn assign_device(st: &mut IommuState, seg: u16, bus: u8, dev: u8, func: u8, domid: u16, m: &mut Metrics) -> (r: bool)
    requires
        old(st).wf(),
    ensures
        final(st).wf(),
        final(st).domains@ == old(st).domains@,
        final(st).mappings@ == old(st).mappings@,
        final(st).next_domain_id == old(st).next_domain_id,
        r <==> old(st).has_domain(domid) && exists|i: int| first_free_assign(old(st).assigns@, i),
        r ==> forall|i: int| first_free_assign(old(st).assigns@, i) ==> final(st).assigns@
            == old(st).assigns@.update(i, DevAssign { used: true, seg, bus, dev, func, domid }),
        !r ==> final(st).assigns@ == old(st).assigns@,
        old(st).refs_valid() ==> final(st).refs_valid(),
        *final(m) == (Metrics {
            iommu_assign_added: Counter { value: vstd::wrapping::u64_specs::wrapping_add(old(m).iommu_assign_added.value, if r { 1u64 } else { 0u64 }) },
            ..*old(m)
        }),
{
    let r = assign_slot(st, seg, bus, dev, func, domid);
    m.iommu_assign_added.add(if r { 1 } else { 0 });
    r
}

/// The used assignments, in slot order.
pub fn list_assignments(st: &IommuState) -> (r: Vec<DevAssign>)
    requires
        st.wf(),
    ensures
        r@ == used_assigns(st.assigns@),
{
    let mut out: Vec<DevAssign> = Vec::new();
    let mut i: usize = 0;
    while i < MAX_ASSIGNMENTS
        invariant
            st.wf(),
            i <= MAX_ASSIGNMENTS,
            out@ == used_assigns(st.assigns@.take(i as int)),
        decreases MAX_ASSIGNMENTS - i,
    {
        proof { assert(st.assigns@.take(i + 1).drop_last() =~= st.assigns@.take(i as int)); }
        if st.assigns[i].used {
            out.push(st.assigns[i]);
        }
        i = i + 1;
    }
    proof { assert(st.assigns@.take(MAX_ASSIGNMENTS as int) =~= st.assigns@); }
    out
}

/// Some device is assigned.
pub fn has_assignments(st: &IommuState) -> (r: bool)
    requires
        st.wf(),
    ensures
        r == exists|i: int| 0 <= i < st.assigns@.len() && st.assigns@[i].used,
{
    let mut i: usize = 0;
    while i < MAX_ASSIGNMENTS
        invariant
            st.wf(),
            i <= MAX_ASSIGNMENTS,
            forall|k: int| 0 <= k < i ==> !st.assigns@[k].used,
        decreases MAX_ASSIGNMENTS - i,
    {
        if st.assigns[i].used {
            return true;
        }
        i = i + 1;
    }
    false
}

/// Index of the first domain slot with `id`, if any.
fn find_domain_slot(st: &IommuState, id: u16) -> (r: Option<usize>)
    requires
        st.wf(),
    ensures
        r is None <==> !st.has_domain(id),
        r matches Some(i) ==> first_domain_with(st.domains@, id, i as int),
{
    let mut i: usize = 0;
    while i < MAX_DOMAINS
        invariant
            st.wf(),
            i <= MAX_DOMAINS,
            forall|k: int| 0 <= k < i ==> !domain_is(st.domains@[k], id),
        decreases MAX_DOMAINS - i,
    {
        if st.domains[i].used && st.domains[i].id == id {
            return Some(i);
        }
        i = i + 1;
    }
    None
}

/// Release the first domain slot with `id`, and every assignment and mapping of
/// domain `id`. False (and nothing changes) when no domain has `id`.
pub fn destroy_domain(st: &mut IommuState, id: u16) -> (r: bool)
    requires
        old(st).wf(),
    ensures
        final(st).wf(),
        final(st).next_domain_id == old(st).next_domain_id,
        r == old(st).has_domain(id),
        r ==> forall|i: int| first_domain_with(old(st).domains@, id, i) ==> final(st).domains@
            == old(st).domains@.update(i, Domain { used: false, ..old(st).domains@[i] }),
        r ==> final(st).assigns@ == release_assigns_of(old(st).assigns@, id),
        r ==> final(st).mappings@ == release_mappings_of(old(st).mappings@, id),
        !r ==> final(st).domains@ == old(st).domains@ && final(st).assigns@ == old(st).assigns@
            && final(st).mappings@ == old(st).mappings@,
        old(st).refs_valid() ==> final(st).refs_valid(),
        forall|d: u16| d != id && #[trigger] old(st).has_domain(d) ==> final(st).has_domain(d),
        forall|d: u16| #[trigger] final(st).has_domain(d) ==> old(st).has_domain(d),
        old(st).ids_fresh() ==> final(st).ids_fresh() && !final(st).has_domain(id),
        final(st).domains@ == destroy_view(old(st).domains@, id),
        r == seq_has_domain(old(st).domains@, id),
{
    let slot = find_domain_slot(st, id);
    let ghost mut slot_of_destroyed: int = 0;
    match slot {
        None => { return false; },
        Some(i) => {
            proof { slot_of_destroyed = i as int; }
            let d = st.domains[i];
            st.domains.set(i, Domain { used: false, ..d });
            proof {
                assert(st.domains@ == old(st).domains@.update(i as int, Domain { used: false, ..old(st).domains@[i as int] }));
                assert forall|j: int| first_domain_with(old(st).domains@, id, j) implies j == i as int by {
                    if j < i { } else if j > i { assert(domain_is(old(st).domains@[i as int], id)); }
                }
            }
        },
    }
    let ghost doms_after = st.domains@;
    let mut k: usize = 0;
    while k < MAX_ASSIGNMENTS
        invariant
            st.wf(),
            old(st).wf(),
            k <= MAX_ASSIGNMENTS,
            st.domains@ == doms_after,
            st.mappings@ == old(st).mappings@,
            st.next_domain_id == old(st).next_domain_id,
            forall|j: int| 0 <= j < k ==> st.assigns@[j] == release_assigns_of(old(st).assigns@, id)[j],
            forall|j: int| k <= j < MAX_ASSIGNMENTS ==> st.assigns@[j] == old(st).assigns@[j],
        decreases MAX_ASSIGNMENTS - k,
    {
        let a = st.assigns[k];
        if a.used && a.domid == id {
            st.assigns.set(k, DevAssign { used: false, ..a });
        }
        assert(st.assigns@[k as int] == release_assigns_of(old(st).assigns@, id)[k as int]);
        k = k + 1;
    }
    let mut k: usize = 0;
    while k < MAX_MAPPINGS
        invariant
            st.wf(),
            old(st).wf(),
            k <= MAX_MAPPINGS,
            st.domains@ == doms_after,
            st.assigns@ =~= release_assigns_of(old(st).assigns@, id),
            st.next_domain_id == old(st).next_domain_id,
            forall|j: int| 0 <= j < k ==> st.mappings@[j] == release_mappings_of(old(st).mappings@, id)[j],
            forall|j: int| k <= j < MAX_MAPPINGS ==> st.mappings@[j] == old(st).mappings@[j],
        decreases MAX_MAPPINGS - k,
    {
        let m = st.mappings[k];
        if m.used && m.domid == id {
            st.mappings.set(k, Mapping { used: false, ..m });
        }
        assert(st.mappings@[k as int] == release_mappings_of(old(st).mappings@, id)[k as int]);
        k = k + 1;
    }
    proof {
        assert(st.mappings@ =~= release_mappings_of(old(st).mappings@, id));
        assert forall|d: u16| d != id && #[trigger] old(st).has_domain(d) implies st.has_domain(d) by {
            let j = choose|j: int| 0 <= j < MAX_DOMAINS && old(st).domains@[j].used && old(st).domains@[j].id == d;
            assert(st.domains@[j] == old(st).domains@[j]);
        }
        assert forall|d: u16| #[trigger] st.has_domain(d) implies old(st).has_domain(d) by {
            let j = choose|j: int| 0 <= j < MAX_DOMAINS && st.domains@[j].used && st.domains@[j].id == d;
            assert(st.domains@[j] == old(st).domains@[j]);
        }
        if old(st).ids_fresh() {
            let i = slot_of_destroyed;
            assert(first_domain_with(old(st).domains@, id, i));
            assert(st.domains@ == old(st).domains@.update(i, Domain { used: false, ..old(st).domains@[i] }));
            assert forall|k: int| 0 <= k < st.domains@.len() && st.domains@[k].used
                implies 1 <= #[trigger] st.domains@[k].id < st.next_domain_id by {
                assert(k != i);
                assert(st.domains@[k] == old(st).domains@[k]);
            }
            assert forall|a: int, b: int| 0 <= a < st.domains@.len() && 0 <= b < st.domains@.len() && a != b
                && st.domains@[a].used && st.domains@[b].used
                implies #[trigger] st.domains@[a].id != #[trigger] st.domains@[b].id by {
                assert(a != i && b != i);
                assert(st.domains@[a] == old(st).domains@[a] && st.domains@[b] == old(st).domains@[b]);
            }
            if st.has_domain(id) {
                let j = choose|j: int| 0 <= j < MAX_DOMAINS && st.domains@[j].used && st.domains@[j].id == id;
                assert(st.domains@[j] == old(st).domains@[j]);
                assert(j != i);
                assert(old(st).domains@[i].id != old(st).domains@[j].id);
            }
        }
        if old(st).refs_valid() {
            assert forall|j: int| 0 <= j < st.assigns@.len() && st.assigns@[j].used
                implies st.has_domain(#[trigger] st.assigns@[j].domid) by {
                assert(old(st).assigns@[j].used);
            }
            assert forall|j: int| 0 <= j < st.mappings@.len() && st.mappings@[j].used
                implies st.has_domain(#[trigger] st.mappings@[j].domid) by {
                assert(old(st).mappings@[j].used);
            }
        }
    }
    true
}

/// Release the first assignment of `seg:bus:dev.func`. False when there is none.
fn unassign_slot(st: &mut IommuState, seg: u16, bus: u8, dev: u8, func: u8) -> (r: bool)
    requires
        old(st).wf(),
    ensures
        final(st).wf(),
        final(st).domains@ == old(st).domains@,
        final(st).mappings@ == old(st).mappings@,
        final(st).next_domain_id == old(st).next_domain_id,
        r == exists|i: int| 0 <= i < old(st).assigns@.len() && assign_is(old(st).assigns@[i], seg, bus, dev, func),
        r ==> forall|i: int| first_assign_of(old(st).assigns@, seg, bus, dev, func, i) ==> final(st).assigns@
            == old(st).assigns@.update(i, DevAssign { used: false, ..old(st).assigns@[i] }),
        !r ==> final(st).assigns@ == old(st).assigns@,
        old(st).refs_valid() ==> final(st).refs_valid(),
{
    let mut i: usize = 0;
    while i < MAX_ASSIGNMENTS
        invariant
            st.wf(),
            old(st).wf(),
            i <= MAX_ASSIGNMENTS,
            st.domains@ == old(st).domains@,
            st.assigns@ == old(st).assigns@,
            st.mappings@ == old(st).mappings@,
            st.next_domain_id == old(st).next_domain_id,
            forall|k: int| 0 <= k < i ==> !assign_is(st.assigns@[k], seg, bus, dev, func),
        decreases MAX_ASSIGNMENTS - i,
    {
        let a = st.assigns[i];
        if a.used && a.seg == seg && a.bus == bus && a.dev == dev && a.func == func {
            let ghost before = st.assigns@;
            st.assigns.set(i, DevAssign { used: false, ..a });
            proof {
                assert(first_assign_of(before, seg, bus, dev, func, i as int));
                assert forall|j: int| first_assign_of(before, seg, bus, dev, func, j) implies j == i as int by {
                    if j < i { } else if j > i { assert(assign_is(before[i as int], seg, bus, dev, func)); }
                }
                if old(st).refs_valid() {
                    assert forall|k: int| 0 <= k < st.assigns@.len() && st.assigns@[k].used
                        implies st.has_domain(#[trigger] st.assigns@[k].domid) by {
                        assert(before[k].used);
                        assert(old(st).has_domain(old(st).assigns@[k].domid));
                            lemma_has_domain_same(*old(st), *st, old(st).assigns@[k].domid);
                    }
                }
            }
            return true;
        }
        i = i + 1;
    }
    false
}

/// Unassign a device (see [`unassign_slot`]) and count it in
/// `iommu_assign_removed`; every other counter stays.
pub fn unassign_device(st: &mut IommuState, seg: u16, bus: u8, dev: u8, func: u8, m: &mut Metrics) -> (r: bool)
    requires
        old(st).wf(),
    ensures
        final(st).wf(),
        final(st).domains@ == old(st).domains@,
        final(st).mappings@ == old(st).mappings@,
        final(st).next_domain_id == old(st).next_domain_id,
        r == exists|i: int| 0 <= i < old(st).assigns@.len() && assign_is(old(st).assigns@[i], seg, bus, dev, func),
        r ==> forall|i: int| first_assign_of(old(st).assigns@, seg, bus, dev, func, i) ==> final(st).assigns@
            == old(st).assigns@.update(i, DevAssign { used: false, ..old(st).assigns@[i] }),
        !r ==> final(st).assigns@ == old(st).assigns@,
        old(st).refs_valid() ==> final(st).refs_valid(),
        *final(m) == (Metrics {
            iommu_assign_removed: Counter { value: vstd::wrapping::u64_specs::wrapping_add(old(m).iommu_assign_removed.value, if r { 1u64 } else { 0u64 }) },
            ..*old(m)
        }),
{
    let r = unassign_slot(st, seg, bus, dev, func);
    m.iommu_assign_removed.add(if r { 1 } else { 0 });
    r
}

/// Record a mapping of `len` bytes at `iova` to `pa` for domain `domid` in the first
/// free slot. False when the domain does not exist, `len` is zero or all slots are used.
fn add_mapping_slot(st: &mut IommuState, domid: u16, iova: u64, pa: u64, len: u64, r: bool, w: bool, x: bool) -> (ok: bool)
    requires
        old(st).wf(),
    ensures
        final(st).wf(),
        final(st).domains@ == old(st).domains@,
        final(st).assigns@ == old(st).assigns@,
        final(st).next_domain_id == old(st).next_domain_id,
        ok <==> old(st).has_domain(domid) && len != 0 && exists|i: int| first_free_mapping(old(st).mappings@, i),
        ok ==> forall|i: int| first_free_mapping(old(st).mappings@, i) ==> final(st).mappings@
            == old(st).mappings@.update(i, Mapping { used: true, domid, iova, pa, len, perm_r: r, perm_w: w, perm_x: x }),
        !ok ==> final(st).mappings@ == old(st).mappings@,
        old(st).refs_valid() ==> final(st).refs_valid(),
{
    if len == 0 {
        return false;
    }
    if !domain_exists(st, domid) {
        return false;
    }
    assert(old(st).has_domain(domid));
    let mut i: usize = 0;
    while i < MAX_MAPPINGS
        invariant
            st.wf(),
            old(st).wf(),
            i <= MAX_MAPPINGS,
            st.domains@ == old(st).domains@,
            st.assigns@ == old(st).assigns@,
            st.mappings@ == old(st).mappings@,
            st.next_domain_id == old(st).next_domain_id,
            st.has_domain(domid),
            len != 0,
            forall|k: int| 0 <= k < i ==> st.mappings@[k].used,
        decreases MAX_MAPPINGS - i,
    {
        if !st.mappings[i].used {
            let ghost before = st.mappings@;
            let ghost st_before = *st;
            st.mappings.set(i, Mapping { used: true, domid, iova, pa, len, perm_r: r, perm_w: w, perm_x: x });
            proof {
                lemma_has_domain_same(st_before, *st, domid);
                assert(first_free_mapping(old(st).mappings@, i as int));
                assert(first_free_mapping(before, i as int));
                assert forall|j: int| first_free_mapping(before, j) implies j == i as int by {
                    if j < i { } else if j > i { assert(before[i as int].used); }
                }
                if old(st).refs_valid() {
                    assert forall|k: int| 0 <= k < st.mappings@.len() && st.mappings@[k].used
                        implies st.has_domain(#[trigger] st.mappings@[k].domid) by {
                        if k != i {
                            assert(st.mappings@[k] == before[k]);
                            assert(old(st).has_domain(old(st).mappings@[k].domid));
                            lemma_has_domain_same(*old(st), *st, old(st).mappings@[k].domid);
                        }
                    }
                }
            }
            return true;
        }
        i = i + 1;
    }
    proof {
        assert forall|j: int| !first_free_mapping(old(st).mappings@, j) by {
            if 0 <= j < MAX_MAPPINGS { assert(st.mappings@[j].used); }
        }
    }
    false
}

/// Add a mapping (see [`add_mapping_slot`]) and count it in
/// `iommu_map_added`; every other counter stays.
pub fn add_mapping(st: &mut IommuState, domid: u16, iova: u64, pa: u64, len: u64, r: bool, w: bool, x: bool, m: &mut Metrics) -> (ok: bool)
    requires
        old(st).wf(),
    ensures
        final(st).wf(),
        final(st).domains@ == old(st).domains@,
        final(st).assigns@ == old(st).assigns@,
        final(st).next_domain_id == old(st).next_domain_id,
        ok <==> old(st).has_domain(domid) && len != 0 && exists|i: int| first_free_mapping(old(st).mappings@, i),
        ok ==> forall|i: int| first_free_mapping(old(st).mappings@, i) ==> final(st).mappings@
            == old(st).mappings@.update(i, Mapping { used: true, domid, iova, pa, len, perm_r: r, perm_w: w, perm_x: x }),
        !ok ==> final(st).mappings@ == old(st).mappings@,
        old(st).refs_valid() ==> final(st).refs_valid(),
        *final(m) == (Metrics {
            iommu_map_added: Counter { value: vstd::wrapping::u64_specs::wrapping_add(old(m).iommu_map_added.value, if ok { 1u64 } else { 0u64 }) },
            ..*old(m)
        }),
{
    let ok = add_mapping_slot(st, domid, iova, pa, len, r, w, x);
    m.iommu_map_added.add(if ok { 1 } else { 0 });
    ok
}

/// Release the first mapping of domain `domid` at `iova` with length `len`.
/// False when there is none.
fn remove_mapping_slot(st: &mut IommuState, domid: u16, iova: u64, len: u64) -> (r: bool)
    requires
        old(st).wf(),
    ensures
        final(st).wf(),
        final(st).domains@ == old(st).domains@,
        final(st).assigns@ == old(st).assigns@,
        final(st).next_domain_id == old(st).next_domain_id,
        r == exists|i: int| 0 <= i < old(st).mappings@.len() && mapping_is(old(st).mappings@[i], domid, iova, len),
        r ==> forall|i: int| first_mapping_of(old(st).mappings@, domid, iova, len, i) ==> final(st).mappings@
            == old(st).mappings@.update(i, Mapping { used: false, ..old(st).mappings@[i] }),
        !r ==> final(st).mappings@ == old(st).mappings@,
        old(st).refs_valid() ==> final(st).refs_valid(),
{
    let mut i: usize = 0;
    while i < MAX_MAPPINGS
        invariant
            st.wf(),
            old(st).wf(),
            i <= MAX_MAPPINGS,
            st.domains@ == old(st).domains@,
            st.assigns@ == old(st).assigns@,
            st.mappings@ == old(st).mappings@,
            st.next_domain_id == old(st).next_domain_id,
            forall|k: int| 0 <= k < i ==> !mapping_is(st.mappings@[k], domid, iova, len),
        decreases MAX_MAPPINGS - i,
    {
        let m = st.mappings[i];
        if m.used && m.domid == domid && m.iova == iova && m.len == len {
            let ghost before = st.mappings@;
            st.mappings.set(i, Mapping { used: false, ..m });
            proof {
                assert(first_mapping_of(before, domid, iova, len, i as int));
                assert forall|j: int| first_mapping_of(before, domid, iova, len, j) implies j == i as int by {
                    if j < i { } else if j > i { assert(mapping_is(before[i as int], domid, iova, len)); }
                }
                if old(st).refs_valid() {
                    assert forall|k: int| 0 <= k < st.mappings@.len() && st.mappings@[k].used
                        implies st.has_domain(#[trigger] st.mappings@[k].domid) by {
                        assert(before[k].used);
                        assert(old(st).has_domain(old(st).mappings@[k].domid));
                            lemma_has_domain_same(*old(st), *st, old(st).mappings@[k].domid);
                    }
                }
            }
            return true;
        }
        i = i + 1;
    }
    false
}

/// Remove a mapping (see [`remove_mapping_slot`]) and count it in
/// `iommu_map_removed`; every other counter stays.
pub fn remove_mapping(st: &mut IommuState, domid: u16, iova: u64, len: u64, m: &mut Metrics) -> (r: bool)
    requires
        old(st).wf(),
    ensures
        final(st).wf(),
        final(st).domains@ == old(st).domains@,
        final(st).assigns@ == old(st).assigns@,
        final(st).next_domain_id == old(st).next_domain_id,
        r == exists|i: int| 0 <= i < old(st).mappings@.len() && mapping_is(old(st).mappings@[i], domid, iova, len),
        r ==> forall|i: int| first_mapping_of(old(st).mappings@, domid, iova, len, i) ==> final(st).mappings@
            == old(st).mappings@.update(i, Mapping { used: false, ..old(st).mappings@[i] }),
        !r ==> final(st).mappings@ == old(st).mappings@,
        old(st).refs_valid() ==> final(st).refs_valid(),
        *final(m) == (Metrics {
            iommu_map_removed: Counter { value: vstd::wrapping::u64_specs::wrapping_add(old(m).iommu_map_removed.value, if r { 1u64 } else { 0u64 }) },
            ..*old(m)
        }),
{
    let r = remove_mapping_slot(st, domid, iova, len);
    m.iommu_map_removed.add(if r { 1 } else { 0 });
    r
}

/// The used mappings, in slot order.
pub fn list_mappings(st: &IommuState) -> (r: Vec<Mapping>)
    requires
        st.wf(),
    ensures
        r@ == used_mappings(st.mappings@),
{
    let mut out: Vec<Mapping> = Vec::new();
    let mut i: usize = 0;
    while i < MAX_MAPPINGS
        invariant
            st.wf(),
            i <= MAX_MAPPINGS,
            out@ == used_mappings(st.mappings@.take(i as int)),
        decreases MAX_MAPPINGS - i,
    {
        proof { assert(st.mappings@.take(i + 1).drop_last() =~= st.mappings@.take(i as int)); }
        if st.mappings[i].used {
            out.push(st.mappings[i]);
        }
        i = i + 1;
    }
    proof { assert(st.mappings@.take(MAX_MAPPINGS as int) =~= st.mappings@); }
    out
}

/// Release every mapping of domain `domid`; returns how many were released.
fn release_domain_mappings(st: &mut IommuState, domid: u16) -> (r: u32)
    requires
        old(st).wf(),
    ensures
        final(st).wf(),
        final(st).domains@ == old(st).domains@,
        final(st).assigns@ == old(st).assigns@,
        final(st).next_domain_id == old(st).next_domain_id,
        final(st).mappings@ == release_mappings_of(old(st).mappings@, domid),
        r == count_mappings_of(old(st).mappings@, domid),
        old(st).refs_valid() ==> final(st).refs_valid(),
{
    let mut removed: u32 = 0;
    let mut k: usize = 0;
    while k < MAX_MAPPINGS
        invariant
            st.wf(),
            old(st).wf(),
            k <= MAX_MAPPINGS,
            st.domains@ == old(st).domains@,
            st.assigns@ == old(st).assigns@,
            st.next_domain_id == old(st).next_domain_id,
            forall|j: int| 0 <= j < k ==> st.mappings@[j] == release_mappings_of(old(st).mappings@, domid)[j],
            forall|j: int| k <= j < MAX_MAPPINGS ==> st.mappings@[j] == old(st).mappings@[j],
            removed == count_mappings_of(old(st).mappings@.take(k as int), domid),
            removed <= k,
        decreases MAX_MAPPINGS - k,
    {
        proof {
            assert(old(st).mappings@.take(k + 1).drop_last() =~= old(st).mappings@.take(k as int));
            lemma_count_bound(old(st).mappings@.take(k as int), domid);
        }
        let m = st.mappings[k];
        if m.used && m.domid == domid {
            st.mappings.set(k, Mapping { used: false, ..m });
            removed = removed.saturating_add(1);
        }
        assert(st.mappings@[k as int] == release_mappings_of(old(st).mappings@, domid)[k as int]);
        k = k + 1;
    }
    proof {
        assert(old(st).mappings@.take(MAX_MAPPINGS as int) =~= old(st).mappings@);
        assert(st.mappings@ =~= release_mappings_of(old(st).mappings@, domid));
        if old(st).refs_valid() {
            assert forall|j: int| 0 <= j < st.mappings@.len() && st.mappings@[j].used
                implies st.has_domain(#[trigger] st.mappings@[j].domid) by {
                assert(old(st).mappings@[j].used);
                assert(old(st).has_domain(old(st).mappings@[j].domid));
                lemma_has_domain_same(*old(st), *st, old(st).mappings@[j].domid);
            }
        }
    }
    removed
}

/// Remove a domain's mappings (see [`release_domain_mappings`]) and count
/// each in `iommu_map_removed`; every other counter stays.
pub fn remove_mappings_for_domain(st: &mut IommuState, domid: u16, m: &mut Metrics) -> (r: u32)
    requires
        old(st).wf(),
    ensures
        final(st).wf(),
        final(st).domains@ == old(st).domains@,
        final(st).assigns@ == old(st).assigns@,
        final(st).next_domain_id == old(st).next_domain_id,
        final(st).mappings@ == release_mappings_of(old(st).mappings@, domid),
        r == count_mappings_of(old(st).mappings@, domid),
        old(st).refs_valid() ==> final(st).refs_valid(),
        *final(m) == (Metrics {
            iommu_map_removed: Counter { value: vstd::wrapping::u64_specs::wrapping_add(old(m).iommu_map_removed.value, r as u64) },
            ..*old(m)
        }),
{
    let r = release_domain_mappings(st, domid);
    m.iommu_map_removed.add(r as u64);
    r
}

/// The domain of the first assignment of `seg:bus:dev.func`, if any.
pub fn find_domain_for_bdf(st: &IommuState, seg: u16, bus: u8, dev: u8, func: u8) -> (r: Option<u16>)
    requires
        st.wf(),
    ensures
        r is None <==> forall|i: int| 0 <= i < st.assigns@.len() ==> !assign_is(st.assigns@[i], seg, bus, dev, func),
        r matches Some(d) ==> exists|i: int| first_assign_of(st.assigns@, seg, bus, dev, func, i) && st.assigns@[i].domid == d,
{
    let mut i: usize = 0;
    while i < MAX_ASSIGNMENTS
        invariant
            st.wf(),
            i <= MAX_ASSIGNMENTS,
            forall|k: int| 0 <= k < i ==> !assign_is(st.assigns@[k], seg, bus, dev, func),
        decreases MAX_ASSIGNMENTS - i,
    {
        let a = st.assigns[i];
        if a.used && a.seg == seg && a.bus == bus && a.dev == dev && a.func == func {
            assert(first_assign_of(st.assigns@, seg, bus, dev, func, i as int));
            return Some(a.domid);
        }
        i = i + 1;
    }
    None
}

/// Two slot sequences that agree on which slots are used, and on the contents
/// of the used ones, list the same used mappings.
proof fn lemma_used_mappings_same(a: Seq<Mapping>, b: Seq<Mapping>)
    requires
        a.len() == b.len(),
        forall|k: int| 0 <= k < a.len() ==> #[trigger] a[k].used == b[k].used,
        forall|k: int| 0 <= k < a.len() && a[k].used ==> #[trigger] a[k] == b[k],
    ensures
        used_mappings(a) == used_mappings(b),
    decreases a.len(),
{
    if a.len() > 0 {
        let n = a.len() - 1;
        assert(a[n].used == b[n].used);
        lemma_used_mappings_same(a.drop_last(), b.drop_last());
    }
}

/// Adding a mapping whose domain, IOVA and length no used mapping has yet, and
/// then removing that domain, IOVA and length, leaves the used mappings as they
/// were: the removal finds the slot the addition filled.
pub proof fn law_add_then_remove_mapping(before: Seq<Mapping>, i: int, added: Mapping)
    requires
        first_free_mapping(before, i),
        added.used,
        forall|k: int| 0 <= k < before.len() ==> !mapping_is(#[trigger] before[k], added.domid, added.iova, added.len),
    ensures
        first_mapping_of(before.update(i, added), added.domid, added.iova, added.len, i),
        forall|j: int| #[trigger] first_mapping_of(before.update(i, added), added.domid, added.iova, added.len, j) ==> j == i,
        used_mappings(before.update(i, added).update(i, Mapping { used: false, ..before.update(i, added)[i] }))
            == used_mappings(before),
{
    let mid = before.update(i, added);
    assert forall|k: int| 0 <= k < i implies !mapping_is(#[trigger] mid[k], added.domid, added.iova, added.len) by {
        assert(mid[k] == before[k]);
    }
    assert forall|j: int| #[trigger] first_mapping_of(mid, added.domid, added.iova, added.len, j) implies j == i by {
        if j != i {
            assert(mid[j] == before[j]);
        }
    }
    let after = mid.update(i, Mapping { used: false, ..mid[i] });
    assert forall|k: int| 0 <= k < after.len() implies #[trigger] after[k].used == before[k].used by {
        if k == i { } else { assert(after[k] == before[k]); }
    }
    assert forall|k: int| 0 <= k < after.len() && after[k].used implies #[trigger] after[k] == before[k] by {
        if k == i { } else { }
    }
    lemma_used_mappings_same(after, before);
}

} // verus!
