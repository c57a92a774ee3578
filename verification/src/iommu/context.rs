//! VT-d root and context tables in memory: reading a device's second-level
//! table pointer, writing the context entries of the assigned devices,
//! clearing and checking them.

use vstd::prelude::*;
use crate::util::format::{ascii, dec_digits, hex_digits, push_dec, push_hex, push_str};
use crate::mm::pages::{PhysPages, w_at, w_set};
use crate::iommu::state::{IommuState, DevAssign, used_assigns, list_assignments};
use crate::iommu::vtd::{VtdUnit, VtdUnits, DeviceScope, present_units, unit_for, scope_reg, find_unit_for_bdf,
    for_each_unit, DomainSlpt, slpt_slot, context_entry, context_entry_spec, context_ok, verify_context_entry};
use crate::iommu::slpt::{TablePool, provision_domain, provision_spec};

verus! {

/// Address bits of a root entry's context table pointer.
pub const RE_PTR_MASK: u64 = 0xFFFF_FFFF_FFFF_F000;

/// Context table index of a device: device in bits 7:3, function below
/// (wider values spill over, as the index arithmetic does).
pub open spec fn ctx_index(dev: u8, func: u8) -> nat {
    (((dev as u64) << 3u64) | (func as u64)) as nat
}

/// Where the 16-byte entry `n` of a table at `t` lies: its page and the
/// index of its lower word there (the upper word follows).
pub open spec fn entry_slot(t: u64, n: nat) -> (u64, u64) {
    (vstd::wrapping::u64_specs::wrapping_add(t, ((n / 256) * 4096) as u64), ((n % 256) * 2) as u64)
}

fn entry_slot_exec(t: u64, n: u64) -> (r: (u64, u64))
    requires
        n < 0x1_0000,
    ensures
        r == entry_slot(t, n as nat),
        r.1 < 511,
{
    (t.wrapping_add((n / 256) * 4096), (n % 256) * 2)
}

fn ctx_index_exec(dev: u8, func: u8) -> (r: u64)
    ensures
        r == ctx_index(dev, func),
        r < 0x1_0000,
{
    let d = dev as u64;
    let f = func as u64;
    assert((d << 3u64) | f < 0x1_0000) by (bit_vector) requires d < 256, f < 256;
    (d << 3u64) | f
}

/// The unit that owns a device.
pub open spec fn owner(units: Seq<Option<VtdUnit>>, scopes: Seq<DeviceScope>, seg: u16, bus: u8, dev: u8, func: u8) -> Option<VtdUnit> {
    unit_for(present_units(units), seg, scope_reg(scopes, seg, bus, dev, func))
}

/// The second-level table pointer a device's context entry holds: `None`
/// when no unit owns it or its root or context entry is not present.
pub open spec fn cr3_for(w: Seq<u64>, base: u64, u: Option<VtdUnit>, bus: u8, dev: u8, func: u8) -> Option<u64> {
    match u {
        None => None,
        Some(u) => {
            let re = w_at(w, base, u.root_tbl, (2 * bus) as u64);
            if re & 1 == 0 {
                None
            } else {
                let s = entry_slot(re & RE_PTR_MASK, ctx_index(dev, func));
                let ce = w_at(w, base, s.0, s.1);
                if ce & 1 == 0 { None } else { Some(ce & crate::iommu::vtd::CTX_LO_PTR_MASK) }
            }
        },
    }
}

/// Read the second-level table pointer of device `seg:bus:dev.func` from
/// the root and context tables in `tables`.
pub fn get_cr3_for_bdf(tables: &PhysPages, units: &VtdUnits, scopes: &Vec<DeviceScope>, seg: u16, bus: u8, dev: u8, func: u8)
    -> (r: Option<u64>)
    requires
        units.wf(),
    ensures
        r == cr3_for(tables.words@, tables.base, owner(units.slots@, scopes@, seg, bus, dev, func), bus, dev, func),
{
    match find_unit_for_bdf(units, scopes, seg, bus, dev, func) {
        None => None,
        Some(u) => {
            let re = tables.read_entry(u.root_tbl, 2 * (bus as u64));
            if re & 1 == 0 {
                return None;
            }
            let ci = ctx_index_exec(dev, func);
            let (t, i) = entry_slot_exec(re & RE_PTR_MASK, ci);
            let ce = tables.read_entry(t, i);
            if ce & 1 == 0 { None } else { Some(ce & crate::iommu::vtd::CTX_LO_PTR_MASK) }
        },
    }
}

/// Write the context entry of assignment `a` (see [`context_entry_spec`]) in
/// the context table its unit's root entry points to, giving its domain
/// second-level tables first; nothing when no unit owns the device or the
/// root entry is absent or null. Gives the tables, the domain slots, the pool
/// pages and the pool pages in use.
pub open spec fn program_spec(tw: Seq<u64>, tbase: u64, slots: Seq<Option<u64>>, pw: Seq<u64>, pbase: u64, used: nat,
    u: Option<VtdUnit>, a: DevAssign) -> (Seq<u64>, Seq<Option<u64>>, Seq<u64>, nat)
{
    match u {
        None => (tw, slots, pw, used),
        Some(u) => {
            let re = w_at(tw, tbase, u.root_tbl, (2 * a.bus) as u64);
            if re & 1 == 0 || re & RE_PTR_MASK == 0 {
                (tw, slots, pw, used)
            } else {
                let p = provision_spec(slots, pw, pbase, used, a.domid);
                let e = context_entry_spec(a.domid, p.0[slpt_slot(a.domid)]);
                let s = entry_slot(re & RE_PTR_MASK, ctx_index(a.dev, a.func));
                (w_set(w_set(tw, tbase, s.0, s.1, e.0), tbase, s.0, (s.1 + 1) as u64, e.1), p.0, p.1, p.2)
            }
        },
    }
}

fn program_context(tables: &mut PhysPages, units: &VtdUnits, scopes: &Vec<DeviceScope>, ds: &mut DomainSlpt,
    pool: &mut TablePool, a: DevAssign)
    requires
        units.wf(),
        old(ds).wf(),
        old(pool).wf(),
    ensures
        final(ds).wf(),
        final(pool).wf(),
        final(pool).mem.base == old(pool).mem.base,
        final(tables).base == old(tables).base,
        final(tables).words@.len() == old(tables).words@.len(),
        ({
            let s = program_spec(old(tables).words@, old(tables).base, old(ds).ptrs@, old(pool).mem.words@,
                old(pool).mem.base, old(pool).used as nat, owner(units.slots@, scopes@, a.seg, a.bus, a.dev, a.func), a);
            &&& final(tables).words@ == s.0
            &&& final(ds).ptrs@ == s.1
            &&& final(pool).mem.words@ == s.2
            &&& final(pool).used == s.3
        }),
{
    match find_unit_for_bdf(units, scopes, a.seg, a.bus, a.dev, a.func) {
        None => {},
        Some(u) => {
            let re = tables.read_entry(u.root_tbl, 2 * (a.bus as u64));
            if re & 1 == 0 || re & RE_PTR_MASK == 0 {
                return;
            }
            let slpt = provision_domain(ds, pool, a.domid);
            let (lo, hi) = context_entry(a.domid, slpt);
            let ci = ctx_index_exec(a.dev, a.func);
            let (t, i) = entry_slot_exec(re & RE_PTR_MASK, ci);
            tables.write_entry(t, i, lo);
            tables.write_entry(t, i + 1, hi);
        },
    }
}

/// Every assignment of the registry, in order.
pub open spec fn apply_assign_spec(assigns: Seq<DevAssign>, units: Seq<Option<VtdUnit>>, scopes: Seq<DeviceScope>,
    tw: Seq<u64>, tbase: u64, slots: Seq<Option<u64>>, pw: Seq<u64>, pbase: u64, used: nat)
    -> (Seq<u64>, Seq<Option<u64>>, Seq<u64>, nat)
    decreases assigns.len(),
{
    if assigns.len() == 0 {
        (tw, slots, pw, used)
    } else {
        let p = apply_assign_spec(assigns.drop_last(), units, scopes, tw, tbase, slots, pw, pbase, used);
        let a = assigns.last();
        program_spec(p.0, tbase, p.1, p.2, pbase, p.3, owner(units, scopes, a.seg, a.bus, a.dev, a.func), a)
    }
}

/// Write the context entries of all assigned devices (translation stays as
/// it is; the caller refreshes the hardware).
pub fn apply_assignments(tables: &mut PhysPages, units: &VtdUnits, scopes: &Vec<DeviceScope>, st: &IommuState,
    ds: &mut DomainSlpt, pool: &mut TablePool)
    requires
        units.wf(),
        st.wf(),
        old(ds).wf(),
        old(pool).wf(),
    ensures
        final(ds).wf(),
        final(pool).wf(),
        final(pool).mem.base == old(pool).mem.base,
        final(tables).base == old(tables).base,
        final(tables).words@.len() == old(tables).words@.len(),
        ({
            let s = apply_assign_spec(used_assigns(st.assigns@), units.slots@, scopes@, old(tables).words@, old(tables).base,
                old(ds).ptrs@, old(pool).mem.words@, old(pool).mem.base, old(pool).used as nat);
            &&& final(tables).words@ == s.0
            &&& final(ds).ptrs@ == s.1
            &&& final(pool).mem.words@ == s.2
            &&& final(pool).used == s.3
        }),
{
    let list = list_assignments(st);
    let ghost t0 = tables.words@;
    let ghost s0 = ds.ptrs@;
    let ghost p0 = pool.mem.words@;
    let ghost u0 = pool.used as nat;
    let ghost tbase = tables.base;
    let ghost pbase = pool.mem.base;
    let mut i: usize = 0;
    while i < list.len()
        invariant
            i <= list@.len(),
            list@ == used_assigns(st.assigns@),
            units.wf(),
            ds.wf(),
            pool.wf(),
            pool.mem.base == pbase,
            tables.base == tbase,
            tables.words@.len() == t0.len(),
            ({
                let s = apply_assign_spec(list@.take(i as int), units.slots@, scopes@, t0, tbase, s0, p0, pbase, u0);
                &&& tables.words@ == s.0
                &&& ds.ptrs@ == s.1
                &&& pool.mem.words@ == s.2
                &&& pool.used == s.3
            }),
        decreases list@.len() - i,
    {
        assert(list@.take(i + 1).drop_last() =~= list@.take(i as int));
        assert(list@.take(i + 1).last() == list@[i as int]);
        program_context(tables, units, scopes, ds, pool, list[i]);
        i = i + 1;
    }
    assert(list@.take(list@.len() as int) =~= list@);
}

// ---------------------------------------------------------------------------
// Clearing and re-writing the context tables

/// Pages `w` with the page at `t` cleared, when `t` is one of them.
pub open spec fn zero_at(w: Seq<u64>, base: u64, t: u64) -> Seq<u64> {
    if base <= t && (t - base) % 4096 == 0 && (t - base) / 4096 < w.len() / 512 {
        crate::iommu::slpt::zero_page(w, ((t - base) / 4096) as int)
    } else {
        w
    }
}

/// Clear the page at `t`.
fn zero_table(mem: &mut PhysPages, t: u64)
    ensures
        final(mem).base == old(mem).base,
        final(mem).words@ == zero_at(old(mem).words@, old(mem).base, t),
{
    let ghost w0 = mem.words@;
    let ghost base = mem.base;
    let ghost inside = base <= t && (t - base) % 4096 == 0 && (t - base) / 4096 < w0.len() / 512;
    let ghost k: int = if inside { ((t - base) / 4096) as int } else { 0 };
    proof {
        if inside {
            assert(k * 512 + 512 <= w0.len()) by (nonlinear_arith)
                requires k < w0.len() / 512, k >= 0;
        }
    }
    let mut i: u64 = 0;
    while i < 512
        invariant
            i <= 512,
            mem.base == base,
            mem.words@.len() == w0.len(),
            inside == (base <= t && (t - base) % 4096 == 0 && (t - base) / 4096 < w0.len() / 512),
            inside ==> k == (t - base) / 4096 && k * 512 + 512 <= w0.len(),
            forall|j: int| 0 <= j < w0.len() ==> #[trigger] mem.words@[j] == (
                if inside && k * 512 <= j < k * 512 + i { 0u64 } else { w0[j] }),
        decreases 512 - i,
    {
        mem.write_entry(t, i, 0);
        i = i + 1;
    }
    proof {
        if inside {
            assert(mem.words@ =~= crate::iommu::slpt::zero_page(w0, k));
        } else {
            assert(mem.words@ =~= w0);
        }
    }
}

/// Clear the context tables that the root entries of buses below `bus` of
/// the root table at `root` point to, bus by bus.
pub open spec fn clear_buses(w: Seq<u64>, base: u64, root: u64, bus: nat) -> Seq<u64>
    decreases bus,
{
    if bus == 0 {
        w
    } else {
        let w1 = clear_buses(w, base, root, (bus - 1) as nat);
        let re = w_at(w1, base, root, (2 * (bus - 1)) as u64);
        if re & 1 != 0 && re & RE_PTR_MASK != 0 { zero_at(w1, base, re & RE_PTR_MASK) } else { w1 }
    }
}

/// Clear the context tables of every unit in `us`, in order.
pub open spec fn clear_units(us: Seq<VtdUnit>, w: Seq<u64>, base: u64) -> Seq<u64>
    decreases us.len(),
{
    if us.len() == 0 {
        w
    } else {
        clear_buses(clear_units(us.drop_last(), w, base), base, us.last().root_tbl, 256)
    }
}

/// Clear all context tables the units' root tables point to.
pub fn clear_contexts(tables: &mut PhysPages, units: &VtdUnits)
    requires
        units.wf(),
    ensures
        final(tables).base == old(tables).base,
        final(tables).words@ == clear_units(present_units(units.slots@), old(tables).words@, old(tables).base),
{
    let us = for_each_unit(units);
    let ghost w0 = tables.words@;
    let ghost base = tables.base;
    let mut k: usize = 0;
    while k < us.len()
        invariant
            k <= us@.len(),
            us@ == present_units(units.slots@),
            tables.base == base,
            tables.words@ == clear_units(us@.take(k as int), w0, base),
        decreases us@.len() - k,
    {
        let root = us[k].root_tbl;
        let ghost wk = tables.words@;
        let mut bus: u64 = 0;
        while bus < 256
            invariant
                bus <= 256,
                tables.base == base,
                tables.words@ == clear_buses(wk, base, root, bus as nat),
            decreases 256 - bus,
        {
            let re = tables.read_entry(root, 2 * bus);
            if re & 1 != 0 && re & RE_PTR_MASK != 0 {
                zero_table(tables, re & RE_PTR_MASK);
            }
            bus = bus + 1;
        }
        assert(us@.take(k + 1).drop_last() =~= us@.take(k as int));
        assert(us@.take(k + 1).last() == us@[k as int]);
        k = k + 1;
    }
    assert(us@.take(us@.len() as int) =~= us@);
}

/// Re-write the context tables from the assignments: clear them all, then
/// write each assigned device's entry (the caller then refreshes the units).
pub fn sync_contexts(tables: &mut PhysPages, units: &VtdUnits, scopes: &Vec<DeviceScope>, st: &IommuState,
    ds: &mut DomainSlpt, pool: &mut TablePool)
    requires
        units.wf(),
        st.wf(),
        old(ds).wf(),
        old(pool).wf(),
    ensures
        final(ds).wf(),
        final(pool).wf(),
        final(pool).mem.base == old(pool).mem.base,
        final(tables).base == old(tables).base,
        ({
            let c = clear_units(present_units(units.slots@), old(tables).words@, old(tables).base);
            let s = apply_assign_spec(used_assigns(st.assigns@), units.slots@, scopes@, c, old(tables).base,
                old(ds).ptrs@, old(pool).mem.words@, old(pool).mem.base, old(pool).used as nat);
            &&& final(tables).words@ == s.0
            &&& final(ds).ptrs@ == s.1
            &&& final(pool).mem.words@ == s.2
            &&& final(pool).used == s.3
        }),
{
    clear_contexts(tables, units);
    apply_assignments(tables, units, scopes, st, ds, pool);
}

// ---------------------------------------------------------------------------
// Checking the tables against the registry

/// A finding of the context check.
#[derive(Clone, Copy, Debug, PartialEq, Eq, Structural)]
pub enum StateIssue {
    /// The device's root entry is absent or null.
    RootMissing,
    /// The device's context entry does not match its assignment.
    Mismatch { seg: u16, bus: u8, dev: u8, func: u8 },
}

/// The finding for one assignment, if any (devices no unit owns are skipped).
pub open spec fn state_issue(w: Seq<u64>, base: u64, u: Option<VtdUnit>, a: DevAssign) -> Option<StateIssue> {
    match u {
        None => None,
        Some(u) => {
            let re = w_at(w, base, u.root_tbl, (2 * a.bus) as u64);
            if re & 1 == 0 || re & RE_PTR_MASK == 0 {
                Some(StateIssue::RootMissing)
            } else {
                let s = entry_slot(re & RE_PTR_MASK, ctx_index(a.dev, a.func));
                if context_ok(w_at(w, base, s.0, s.1), w_at(w, base, s.0, (s.1 + 1) as u64), a.domid) {
                    None
                } else {
                    Some(StateIssue::Mismatch { seg: a.seg, bus: a.bus, dev: a.dev, func: a.func })
                }
            }
        },
    }
}

/// The findings for the assignments, in order.
pub open spec fn state_issues(assigns: Seq<DevAssign>, units: Seq<Option<VtdUnit>>, scopes: Seq<DeviceScope>, w: Seq<u64>, base: u64)
    -> Seq<StateIssue>
    decreases assigns.len(),
{
    if assigns.len() == 0 {
        Seq::empty()
    } else {
        let r = state_issues(assigns.drop_last(), units, scopes, w, base);
        let a = assigns.last();
        match state_issue(w, base, owner(units, scopes, a.seg, a.bus, a.dev, a.func), a) {
            Some(i) => r.push(i),
            None => r,
        }
    }
}

/// Check every assigned device's context entry; no findings means the
/// tables agree with the registry.
pub fn verify_state(tables: &PhysPages, units: &VtdUnits, scopes: &Vec<DeviceScope>, st: &IommuState) -> (r: Vec<StateIssue>)
    requires
        units.wf(),
        st.wf(),
    ensures
        r@ == state_issues(used_assigns(st.assigns@), units.slots@, scopes@, tables.words@, tables.base),
{
    let list = list_assignments(st);
    let mut out: Vec<StateIssue> = Vec::new();
    let mut i: usize = 0;
    while i < list.len()
        invariant
            i <= list@.len(),
            list@ == used_assigns(st.assigns@),
            units.wf(),
            out@ == state_issues(list@.take(i as int), units.slots@, scopes@, tables.words@, tables.base),
        decreases list@.len() - i,
    {
        let a = list[i];
        assert(list@.take(i + 1).drop_last() =~= list@.take(i as int));
        assert(list@.take(i + 1).last() == a);
        match find_unit_for_bdf(units, scopes, a.seg, a.bus, a.dev, a.func) {
            None => {},
            Some(u) => {
                let re = tables.read_entry(u.root_tbl, 2 * (a.bus as u64));
                if re & 1 == 0 || re & RE_PTR_MASK == 0 {
                    out.push(StateIssue::RootMissing);
                } else {
                    let ci = ctx_index_exec(a.dev, a.func);
                    let (t, j) = entry_slot_exec(re & RE_PTR_MASK, ci);
                    let lo = tables.read_entry(t, j);
                    let hi = tables.read_entry(t, j + 1);
                    if !verify_context_entry(lo, hi, a.domid) {
                        out.push(StateIssue::Mismatch { seg: a.seg, bus: a.bus, dev: a.dev, func: a.func });
                    }
                }
            },
        }
        i = i + 1;
    }
    assert(list@.take(list@.len() as int) =~= list@);
    out
}

/// A finding of the mapping check.
#[derive(Clone, Copy, Debug, PartialEq, Eq, Structural)]
pub enum MapIssue {
    /// The mapping's domain has no second-level tables.
    NoTables,
    /// The first or the last page of the mapping does not translate.
    Missing,
}

/// Page of the last byte of a mapping.
pub open spec fn last_page(iova: u64, len: u64) -> u64 {
    vstd::wrapping::u64_specs::wrapping_add(iova, if len == 0 { 0u64 } else { (len - 1) as u64 }) & !0xFFFu64
}

/// The finding for one mapping, if any: its first and last page must translate.
pub open spec fn map_issue(slots: Seq<Option<u64>>, w: Seq<u64>, base: u64, m: crate::iommu::state::Mapping) -> Option<MapIssue> {
    match slots[slpt_slot(m.domid)] {
        None => Some(MapIssue::NoTables),
        Some(cr3) => if crate::iommu::slpt::walk_pages(w, base, cr3, m.iova) is None
            || crate::iommu::slpt::walk_pages(w, base, cr3, last_page(m.iova, m.len)) is None {
            Some(MapIssue::Missing)
        } else {
            None
        },
    }
}

pub open spec fn map_issues(maps: Seq<crate::iommu::state::Mapping>, slots: Seq<Option<u64>>, w: Seq<u64>, base: u64) -> Seq<MapIssue>
    decreases maps.len(),
{
    if maps.len() == 0 {
        Seq::empty()
    } else {
        let r = map_issues(maps.drop_last(), slots, w, base);
        match map_issue(slots, w, base, maps.last()) {
            Some(i) => r.push(i),
            None => r,
        }
    }
}

/// Check that the first and last page of every mapping translate in its
/// domain's tables.
pub fn verify_mappings(st: &IommuState, ds: &DomainSlpt, mem: &PhysPages) -> (r: Vec<MapIssue>)
    requires
        st.wf(),
        ds.wf(),
    ensures
        r@ == map_issues(crate::iommu::state::used_mappings(st.mappings@), ds.ptrs@, mem.words@, mem.base),
{
    let list = crate::iommu::state::list_mappings(st);
    let mut out: Vec<MapIssue> = Vec::new();
    let mut i: usize = 0;
    while i < list.len()
        invariant
            i <= list@.len(),
            list@ == crate::iommu::state::used_mappings(st.mappings@),
            ds.wf(),
            out@ == map_issues(list@.take(i as int), ds.ptrs@, mem.words@, mem.base),
        decreases list@.len() - i,
    {
        let m = list[i];
        assert(list@.take(i + 1).drop_last() =~= list@.take(i as int));
        assert(list@.take(i + 1).last() == m);
        match crate::iommu::vtd::get_domain_slptptr(ds, m.domid) {
            None => { out.push(MapIssue::NoTables); },
            Some(cr3) => {
                let (pa0, _e0) = crate::iommu::vtd::walk_second_level(mem, cr3, m.iova);
                let last = m.iova.wrapping_add(m.len.saturating_sub(1)) & !0xFFFu64;
                let (pal, _el) = crate::iommu::vtd::walk_second_level(mem, cr3, last);
                proof {
                    crate::iommu::slpt::lemma_walk_pages(*mem, cr3, m.iova);
                    crate::iommu::slpt::lemma_walk_pages(*mem, cr3, last);
                }
                if pa0.is_none() || pal.is_none() {
                    out.push(MapIssue::Missing);
                }
            },
        }
        i = i + 1;
    }
    assert(list@.take(list@.len() as int) =~= list@);
    out
}

// ---------------------------------------------------------------------------
// Listings

/// The devices of one bus present in a unit's context table.
pub struct BusContexts {
    pub unit: VtdUnit,
    /// (device, function) of each present context entry, in index order.
    pub devfns: Vec<(u8, u8)>,
}

/// Present context entries among the first `n` device/function slots of the
/// table at `ctx`.
pub open spec fn present_devfns(w: Seq<u64>, base: u64, ctx: u64, n: nat) -> Seq<(u8, u8)>
    decreases n,
{
    if n == 0 {
        Seq::empty()
    } else {
        let r = present_devfns(w, base, ctx, (n - 1) as nat);
        let k = (n - 1) as int;
        if w_at(w, base, ctx, (2 * k) as u64) & 1 != 0 { r.push(((k / 8) as u8, (k % 8) as u8)) } else { r }
    }
}

/// The units whose root entry for `bus` points to a context table, each
/// with the devices present there.
pub open spec fn bus_listing(us: Seq<VtdUnit>, w: Seq<u64>, base: u64, bus: u8) -> Seq<(VtdUnit, Seq<(u8, u8)>)>
    decreases us.len(),
{
    if us.len() == 0 {
        Seq::empty()
    } else {
        let r = bus_listing(us.drop_last(), w, base, bus);
        let u = us.last();
        let re = w_at(w, base, u.root_tbl, (2 * bus) as u64);
        if re & 1 == 0 || re & RE_PTR_MASK == 0 {
            r
        } else {
            r.push((u, present_devfns(w, base, re & RE_PTR_MASK, 256)))
        }
    }
}

/// The present context entries of bus `bus` in every unit.
pub fn list_bus_contexts(tables: &PhysPages, units: &VtdUnits, bus: u8) -> (r: Vec<BusContexts>)
    requires
        units.wf(),
    ensures
        r@.len() == bus_listing(present_units(units.slots@), tables.words@, tables.base, bus).len(),
        forall|k: int| #![trigger r@[k]] 0 <= k < r@.len() ==> {
            let e = bus_listing(present_units(units.slots@), tables.words@, tables.base, bus)[k];
            r@[k].unit == e.0 && r@[k].devfns@ == e.1
        },
{
    let us = for_each_unit(units);
    let ghost w = tables.words@;
    let ghost base = tables.base;
    let mut out: Vec<BusContexts> = Vec::new();
    let mut k: usize = 0;
    while k < us.len()
        invariant
            k <= us@.len(),
            us@ == present_units(units.slots@),
            w == tables.words@,
            base == tables.base,
            out@.len() == bus_listing(us@.take(k as int), w, base, bus).len(),
            forall|q: int| #![trigger out@[q]] 0 <= q < out@.len() ==> {
                let e = bus_listing(us@.take(k as int), w, base, bus)[q];
                out@[q].unit == e.0 && out@[q].devfns@ == e.1
            },
        decreases us@.len() - k,
    {
        let u = us[k];
        assert(us@.take(k + 1).drop_last() =~= us@.take(k as int));
        assert(us@.take(k + 1).last() == u);
        let re = tables.read_entry(u.root_tbl, 2 * (bus as u64));
        if !(re & 1 == 0 || re & RE_PTR_MASK == 0) {
            let ctx = re & RE_PTR_MASK;
            let mut devfns: Vec<(u8, u8)> = Vec::new();
            let mut ci: u64 = 0;
            while ci < 256
                invariant
                    ci <= 256,
                    w == tables.words@,
                    base == tables.base,
                    devfns@ == present_devfns(w, base, ctx, ci as nat),
                decreases 256 - ci,
            {
                let lo = tables.read_entry(ctx, 2 * ci);
                if lo & 1 != 0 {
                    devfns.push(((ci / 8) as u8, (ci % 8) as u8));
                }
                ci = ci + 1;
            }
            out.push(BusContexts { unit: u, devfns });
        }
        k = k + 1;
    }
    assert(us@.take(us@.len() as int) =~= us@);
    out
}

/// A device's entry in the programming plan: where its context entry goes.
#[derive(Clone, Copy, Debug, PartialEq, Eq, Structural)]
pub struct PlanEntry {
    pub seg: u16,
    pub bus: u8,
    pub dev: u8,
    pub func: u8,
    pub root_index: usize,
    pub ctx_index: usize,
    pub domid: u16,
}

pub open spec fn plan_entry(a: DevAssign) -> PlanEntry {
    PlanEntry { seg: a.seg, bus: a.bus, dev: a.dev, func: a.func, root_index: a.bus as usize,
        ctx_index: ctx_index(a.dev, a.func) as usize, domid: a.domid }
}

/// The plan for the assignments, all of them or those of one domain.
pub open spec fn plan_entries(assigns: Seq<DevAssign>, filter: Option<u16>) -> Seq<PlanEntry>
    decreases assigns.len(),
{
    if assigns.len() == 0 {
        Seq::empty()
    } else {
        let r = plan_entries(assigns.drop_last(), filter);
        let a = assigns.last();
        if filter is None || filter == Some(a.domid) { r.push(plan_entry(a)) } else { r }
    }
}

/// Where each assigned device's context entry goes (root index, context
/// index, domain), for all domains or for domain `filter`.
pub fn plan_assignments(st: &IommuState, filter: Option<u16>) -> (r: Vec<PlanEntry>)
    requires
        st.wf(),
    ensures
        r@ == plan_entries(used_assigns(st.assigns@), filter),
{
    let list = list_assignments(st);
    let mut out: Vec<PlanEntry> = Vec::new();
    let mut i: usize = 0;
    while i < list.len()
        invariant
            i <= list@.len(),
            list@ == used_assigns(st.assigns@),
            out@ == plan_entries(list@.take(i as int), filter),
        decreases list@.len() - i,
    {
        let a = list[i];
        assert(list@.take(i + 1).drop_last() =~= list@.take(i as int));
        assert(list@.take(i + 1).last() == a);
        let keep = match filter { None => true, Some(d) => d == a.domid };
        if keep {
            let ci = ctx_index_exec(a.dev, a.func);
            out.push(PlanEntry { seg: a.seg, bus: a.bus, dev: a.dev, func: a.func, root_index: a.bus as usize,
                ctx_index: ci as usize, domid: a.domid });
        }
        i = i + 1;
    }
    assert(list@.take(list@.len() as int) =~= list@);
    out
}

/// Scope entries the check looks at.
pub const SCOPE_CHECK_MAX: usize = 256;

/// Device `a` is named by one of the first scope entries.
pub open spec fn in_scopes(scopes: Seq<DeviceScope>, a: DevAssign) -> bool {
    exists|j: int| 0 <= j < scopes.len() && j < SCOPE_CHECK_MAX
        && (#[trigger] scopes[j]).seg == a.seg && scopes[j].bus == a.bus && scopes[j].dev == a.dev && scopes[j].func == a.func
}

/// For each assignment, whether a DMAR device scope (among the first
/// [`SCOPE_CHECK_MAX`]) covers its device.
pub fn validate_assignments(st: &IommuState, scopes: &Vec<DeviceScope>) -> (r: Vec<bool>)
    requires
        st.wf(),
    ensures
        r@.len() == used_assigns(st.assigns@).len(),
        forall|k: int| 0 <= k < r@.len() ==> r@[k] == in_scopes(scopes@, #[trigger] used_assigns(st.assigns@)[k]),
{
    let list = list_assignments(st);
    let cnt = if scopes.len() < SCOPE_CHECK_MAX { scopes.len() } else { SCOPE_CHECK_MAX };
    let mut out: Vec<bool> = Vec::new();
    let mut i: usize = 0;
    while i < list.len()
        invariant
            i <= list@.len(),
            list@ == used_assigns(st.assigns@),
            cnt == if scopes@.len() < SCOPE_CHECK_MAX { scopes@.len() } else { SCOPE_CHECK_MAX as nat },
            out@.len() == i,
            forall|k: int| 0 <= k < i ==> out@[k] == in_scopes(scopes@, #[trigger] list@[k]),
        decreases list@.len() - i,
    {
        let a = list[i];
        let mut found = false;
        let mut j: usize = 0;
        while j < cnt
            invariant_except_break
                j <= cnt,
                !found,
                forall|q: int| 0 <= q < j ==> !((#[trigger] scopes@[q]).seg == a.seg && scopes@[q].bus == a.bus
                    && scopes@[q].dev == a.dev && scopes@[q].func == a.func),
            invariant
                cnt <= scopes@.len(),
                cnt <= SCOPE_CHECK_MAX,
            ensures
                found ==> in_scopes(scopes@, a),
                !found ==> forall|q: int| 0 <= q < cnt ==> !((#[trigger] scopes@[q]).seg == a.seg && scopes@[q].bus == a.bus
                    && scopes@[q].dev == a.dev && scopes@[q].func == a.func),
            decreases cnt - j,
        {
            let sc = scopes[j];
            if sc.seg == a.seg && sc.bus == a.bus && sc.dev == a.dev && sc.func == a.func {
                found = true;
                assert(scopes@[j as int] == sc);
                break;
            }
            j = j + 1;
        }
        proof {
            if !found && in_scopes(scopes@, a) {
                let q = choose|q: int| 0 <= q < scopes@.len() && q < SCOPE_CHECK_MAX
                    && (#[trigger] scopes@[q]).seg == a.seg && scopes@[q].bus == a.bus && scopes@[q].dev == a.dev && scopes@[q].func == a.func;
                assert(q < cnt);
            }
        }
        out.push(found);
        i = i + 1;
    }
    out
}

/// How a device's IOVA translated: through its context entry's tables,
/// through its domain's tables when its context entry gives none, or not at
/// all.
#[derive(Clone, Copy, Debug, PartialEq, Eq, Structural)]
pub enum XlateOutcome {
    Device(Option<u64>),
    Domain(Option<u64>),
    NoTables,
}

/// Translate `iova` for device `seg:bus:dev.func`: by the table pointer of
/// its context entry, or else by the tables of the domain it is assigned to.
pub fn translate_bdf_iova(tables: &PhysPages, units: &VtdUnits, scopes: &Vec<DeviceScope>, st: &IommuState,
    ds: &DomainSlpt, mem: &PhysPages, seg: u16, bus: u8, dev: u8, func: u8, iova: u64) -> (r: XlateOutcome)
    requires
        units.wf(),
        st.wf(),
        ds.wf(),
    ensures
        ({
            let c = cr3_for(tables.words@, tables.base, owner(units.slots@, scopes@, seg, bus, dev, func), bus, dev, func);
            match r {
                XlateOutcome::Device(p) => c matches Some(cr3) && p == crate::iommu::slpt::walk_pages(mem.words@, mem.base, cr3, iova),
                XlateOutcome::Domain(p) => c is None && exists|i: int| crate::iommu::state::first_assign_of(st.assigns@, seg, bus, dev, func, i)
                    && (ds.ptrs@[slpt_slot(st.assigns@[i].domid)] matches Some(cr3)
                    && p == crate::iommu::slpt::walk_pages(mem.words@, mem.base, cr3, iova)),
                XlateOutcome::NoTables => c is None && (
                    (forall|i: int| 0 <= i < st.assigns@.len() ==> !crate::iommu::state::assign_is(st.assigns@[i], seg, bus, dev, func))
                    || exists|i: int| crate::iommu::state::first_assign_of(st.assigns@, seg, bus, dev, func, i)
                        && ds.ptrs@[slpt_slot(st.assigns@[i].domid)] is None),
            }
        }),
{
    if let Some(cr3) = get_cr3_for_bdf(tables, units, scopes, seg, bus, dev, func) {
        let (pa, _e) = crate::iommu::vtd::walk_second_level(mem, cr3, iova);
        proof { crate::iommu::slpt::lemma_walk_pages(*mem, cr3, iova); }
        return XlateOutcome::Device(pa);
    }
    if let Some(dom) = crate::iommu::state::find_domain_for_bdf(st, seg, bus, dev, func) {
        if let Some(cr3) = crate::iommu::vtd::get_domain_slptptr(ds, dom) {
            let (pa, _e) = crate::iommu::vtd::walk_second_level(mem, cr3, iova);
            proof { crate::iommu::slpt::lemma_walk_pages(*mem, cr3, iova); }
            return XlateOutcome::Domain(pa);
        }
    }
    XlateOutcome::NoTables
}

/// Walk `iova` for device `seg:bus:dev.func` by its context entry's table
/// pointer: the address and the four entries met; `None` when the context
/// entry gives no pointer.
pub fn walk_bdf_iova(tables: &PhysPages, units: &VtdUnits, scopes: &Vec<DeviceScope>, mem: &PhysPages,
    seg: u16, bus: u8, dev: u8, func: u8, iova: u64) -> (r: Option<(Option<u64>, [u64; 4])>)
    requires
        units.wf(),
    ensures
        match cr3_for(tables.words@, tables.base, owner(units.slots@, scopes@, seg, bus, dev, func), bus, dev, func) {
            None => r is None,
            Some(cr3) => r matches Some(x) && x.0 == crate::iommu::vtd::walk_spec(*mem, cr3, iova).0
                && x.1@ == crate::iommu::vtd::walk_spec(*mem, cr3, iova).1,
        },
{
    match get_cr3_for_bdf(tables, units, scopes, seg, bus, dev, func) {
        None => None,
        Some(cr3) => Some(crate::iommu::vtd::walk_second_level(mem, cr3, iova)),
    }
}

/// The assignments of domain `domid`, in order.
pub open spec fn of_domain(assigns: Seq<DevAssign>, domid: u16) -> Seq<DevAssign>
    decreases assigns.len(),
{
    if assigns.len() == 0 {
        Seq::empty()
    } else {
        let r = of_domain(assigns.drop_last(), domid);
        if assigns.last().domid == domid { r.push(assigns.last()) } else { r }
    }
}

/// The devices of domain `domid` to sample, and how many times each (at
/// least once).
pub fn sample_targets(st: &IommuState, domid: u16, count: usize) -> (r: (Vec<DevAssign>, usize))
    requires
        st.wf(),
    ensures
        r.0@ == of_domain(used_assigns(st.assigns@), domid),
        r.1 == if count == 0 { 1 } else { count },
{
    let list = list_assignments(st);
    let mut out: Vec<DevAssign> = Vec::new();
    let mut i: usize = 0;
    while i < list.len()
        invariant
            i <= list@.len(),
            list@ == used_assigns(st.assigns@),
            out@ == of_domain(list@.take(i as int), domid),
        decreases list@.len() - i,
    {
        assert(list@.take(i + 1).drop_last() =~= list@.take(i as int));
        assert(list@.take(i + 1).last() == list@[i as int]);
        if list[i].domid == domid {
            out.push(list[i]);
        }
        i = i + 1;
    }
    assert(list@.take(list@.len() as int) =~= list@);
    (out, if count == 0 { 1 } else { count })
}

/// Writing a device's context entry makes the check of that device pass,
/// when the entry's slot lies in the tables, away from the root table, and
/// the domain's table pointer survives the pointer mask.
pub proof fn lemma_program_then_verified(tw: Seq<u64>, tbase: u64, slots: Seq<Option<u64>>, pw: Seq<u64>, pbase: u64,
    used: nat, u: VtdUnit, a: DevAssign)
    requires
        ({
            let re = w_at(tw, tbase, u.root_tbl, (2 * a.bus) as u64);
            let s = entry_slot(re & RE_PTR_MASK, ctx_index(a.dev, a.func));
            &&& re & 1 != 0 && re & RE_PTR_MASK != 0
            &&& tbase <= s.0 && (s.0 - tbase) % 4096 == 0 && (s.0 - tbase) / 4096 < tw.len() / 512
            &&& s.0 != u.root_tbl
        }),
        program_spec(tw, tbase, slots, pw, pbase, used, Some(u), a).1[slpt_slot(a.domid)] matches Some(p)
            && p & crate::iommu::vtd::CTX_LO_PTR_MASK != 0,
    ensures
        state_issue(program_spec(tw, tbase, slots, pw, pbase, used, Some(u), a).0, tbase, Some(u), a) is None,
{
    let re = w_at(tw, tbase, u.root_tbl, (2 * a.bus) as u64);
    let s = entry_slot(re & RE_PTR_MASK, ctx_index(a.dev, a.func));
    let prov = provision_spec(slots, pw, pbase, used, a.domid);
    let e = context_entry_spec(a.domid, prov.0[slpt_slot(a.domid)]);
    let w1 = w_set(tw, tbase, s.0, s.1, e.0);
    let w2 = w_set(w1, tbase, s.0, (s.1 + 1) as u64, e.1);
    assert(s.1 < 511) by {
        assert(ctx_index(a.dev, a.func) % 256 < 256);
    }
    assert(2 * a.bus < 512);
    crate::iommu::slpt::lemma_w_set_frame(tw, tbase, s.0, s.1, e.0, s.0, (s.1 + 1) as u64);
    crate::iommu::slpt::lemma_w_set_same(tw, tbase, s.0, s.1, e.0);
    crate::iommu::slpt::lemma_w_set_same(w1, tbase, s.0, (s.1 + 1) as u64, e.1);
    crate::iommu::slpt::lemma_w_set_frame(w1, tbase, s.0, (s.1 + 1) as u64, e.1, s.0, s.1);
    if tbase <= u.root_tbl && (u.root_tbl - tbase) % 4096 == 0 && (u.root_tbl - tbase) / 4096 < tw.len() / 512 {
        crate::iommu::slpt::lemma_w_set_frame(tw, tbase, s.0, s.1, e.0, u.root_tbl, (2 * a.bus) as u64);
        crate::iommu::slpt::lemma_w_set_frame(w1, tbase, s.0, (s.1 + 1) as u64, e.1, u.root_tbl, (2 * a.bus) as u64);
    }
    crate::iommu::vtd::lemma_context_roundtrip(a.domid, prov.0[slpt_slot(a.domid)]);
}

// ---------------------------------------------------------------------------
// Dumping a device's entries

/// `0` or `1` for a bit.
pub open spec fn bit_char(b: bool) -> Seq<u8> {
    if b { seq![49u8] } else { seq![48u8] }
}

/// The start of a dump line: the device and its root entry.
pub open spec fn dump_head(u: VtdUnit, bus: u8, dev: u8, func: u8, re: u64) -> Seq<u8> {
    ascii("VT-d: dump seg="@) + dec_digits(u.seg as nat) + ascii(" bus="@) + dec_digits(bus as nat)
        + ascii(" dev="@) + dec_digits(dev as nat) + ascii(" fn="@) + dec_digits(func as nat)
        + ascii(" re.present="@) + bit_char(re & 1 != 0) + ascii(" ctx=0x"@) + hex_digits((re & RE_PTR_MASK) as nat)
}

/// A context entry's raw words and its present, fault-processing-disable,
/// translation type, address width and domain fields.
pub open spec fn ce_text(lo: u64, hi: u64) -> Seq<u8> {
    ascii(" ce.lo=0x"@) + hex_digits(lo as nat) + ascii(" ce.hi=0x"@) + hex_digits(hi as nat)
        + ascii(" present="@) + bit_char(lo & 1 != 0) + ascii(" fpd="@) + bit_char(lo & 2 != 0)
        + ascii(" tt="@) + dec_digits((((lo >> 2u64) & 3) as u32) as nat)
        + ascii(" aw="@) + dec_digits(((hi & 7) as u32) as nat)
        + ascii(" did="@) + dec_digits((((hi >> 8u64) & 0xFFFF) as u32) as nat)
}

/// The dump of device `bus:dev.func` under unit `u`: its root entry's
/// present bit and context-table pointer, and, when both are set, the
/// device's context entry (see [`ce_text`]).
pub open spec fn context_dump_line(w: Seq<u64>, base: u64, u: VtdUnit, bus: u8, dev: u8, func: u8) -> Seq<u8> {
    let re = w_at(w, base, u.root_tbl, (2 * bus) as u64);
    let ctx = re & RE_PTR_MASK;
    let ci = ((dev as u64) * 8 + (func as u64) % 8) as u64;
    dump_head(u, bus, dev, func, re)
        + (if re & 1 != 0 && ctx != 0 {
            ce_text(w_at(w, base, ctx, (2 * (ci % 256)) as u64), w_at(w, base, ctx, (2 * (ci % 256) + 1) as u64))
        } else {
            Seq::empty()
        })
        + seq![13u8, 10u8]
}

fn push_bit(out: &mut Vec<u8>, b: bool)
    ensures
        final(out)@ == old(out)@ + bit_char(b),
{
    out.push(if b { 49 } else { 48 });
}

fn push_head(out: &mut Vec<u8>, u: VtdUnit, bus: u8, dev: u8, func: u8, re: u64)
    ensures
        final(out)@ == old(out)@ + dump_head(u, bus, dev, func, re),
{
    push_str(out, "VT-d: dump seg=");
    push_dec(out, u.seg as u32);
    push_str(out, " bus=");
    push_dec(out, bus as u32);
    push_str(out, " dev=");
    push_dec(out, dev as u32);
    push_str(out, " fn=");
    push_dec(out, func as u32);
    push_str(out, " re.present=");
    push_bit(out, re & 1 != 0);
    push_str(out, " ctx=0x");
    push_hex(out, re & RE_PTR_MASK);
    assert(out@ =~= old(out)@ + dump_head(u, bus, dev, func, re));
}

fn push_ce(out: &mut Vec<u8>, lo: u64, hi: u64)
    ensures
        final(out)@ == old(out)@ + ce_text(lo, hi),
{
    push_str(out, " ce.lo=0x");
    push_hex(out, lo);
    push_str(out, " ce.hi=0x");
    push_hex(out, hi);
    push_str(out, " present=");
    push_bit(out, lo & 1 != 0);
    push_str(out, " fpd=");
    push_bit(out, lo & 2 != 0);
    push_str(out, " tt=");
    push_dec(out, ((lo >> 2u64) & 3) as u32);
    push_str(out, " aw=");
    push_dec(out, (hi & 7) as u32);
    push_str(out, " did=");
    push_dec(out, ((hi >> 8u64) & 0xFFFF) as u32);
    assert(out@ =~= old(out)@ + ce_text(lo, hi));
}

/// The dump line of device `bus:dev.func` under unit `u` (see [`context_dump_line`]).
pub fn context_dump(tables: &PhysPages, u: VtdUnit, bus: u8, dev: u8, func: u8) -> (r: Vec<u8>)
    ensures
        r@ == context_dump_line(tables.words@, tables.base, u, bus, dev, func),
{
    let re = tables.read_entry(u.root_tbl, 2 * bus as u64);
    let ctx = re & RE_PTR_MASK;
    let mut out: Vec<u8> = Vec::new();
    push_head(&mut out, u, bus, dev, func, re);
    if re & 1 != 0 && ctx != 0 {
        let ci = (dev as u64) * 8 + (func as u64) % 8;
        let lo = tables.read_entry(ctx, 2 * (ci % 256));
        let hi = tables.read_entry(ctx, 2 * (ci % 256) + 1);
        push_ce(&mut out, lo, hi);
    }
    out.push(13);
    out.push(10);
    assert(out@ =~= context_dump_line(tables.words@, tables.base, u, bus, dev, func));
    out
}

/// The plan line of one assignment.
pub open spec fn plan_line_spec(e: PlanEntry) -> Seq<u8> {
    ascii("  seg="@) + dec_digits(e.seg as nat) + ascii(" bus="@) + dec_digits(e.bus as nat)
        + ascii(" dev="@) + dec_digits(e.dev as nat) + ascii(" fn="@) + dec_digits(e.func as nat)
        + ascii(" => root["@) + dec_digits(e.root_index as nat) + ascii("], ctx["@) + dec_digits(e.ctx_index as nat)
        + ascii("], dom="@) + dec_digits(e.domid as nat) + ascii("\r\n"@)
}

pub fn plan_line(e: PlanEntry) -> (r: Vec<u8>)
    requires
        e.root_index <= u32::MAX,
        e.ctx_index <= u32::MAX,
    ensures
        r@ == plan_line_spec(e),
{
    let mut out: Vec<u8> = Vec::new();
    push_str(&mut out, "  seg=");
    push_dec(&mut out, e.seg as u32);
    push_str(&mut out, " bus=");
    push_dec(&mut out, e.bus as u32);
    push_str(&mut out, " dev=");
    push_dec(&mut out, e.dev as u32);
    push_str(&mut out, " fn=");
    push_dec(&mut out, e.func as u32);
    push_str(&mut out, " => root[");
    push_dec(&mut out, e.root_index as u32);
    push_str(&mut out, "], ctx[");
    push_dec(&mut out, e.ctx_index as u32);
    push_str(&mut out, "], dom=");
    push_dec(&mut out, e.domid as u32);
    push_str(&mut out, "\r\n");
    out
}

/// The report line of one finding of the context check.
pub open spec fn state_issue_line_spec(i: StateIssue) -> Seq<u8> {
    match i {
        StateIssue::RootMissing => ascii("verify: root entry missing or null ctx\r\n"@),
        StateIssue::Mismatch { seg, bus, dev, func } =>
            ascii("verify: mismatch seg="@) + dec_digits(seg as nat) + ascii(" bus="@) + dec_digits(bus as nat)
                + ascii(" dev="@) + dec_digits(dev as nat) + ascii(" fn="@) + dec_digits(func as nat)
                + ascii("\r\n"@),
    }
}

pub fn state_issue_line(i: StateIssue) -> (r: Vec<u8>)
    ensures
        r@ == state_issue_line_spec(i),
{
    let mut out: Vec<u8> = Vec::new();
    match i {
        StateIssue::RootMissing => {
            push_str(&mut out, "verify: root entry missing or null ctx\r\n");
        },
        StateIssue::Mismatch { seg, bus, dev, func } => {
            push_str(&mut out, "verify: mismatch seg=");
            push_dec(&mut out, seg as u32);
            push_str(&mut out, " bus=");
            push_dec(&mut out, bus as u32);
            push_str(&mut out, " dev=");
            push_dec(&mut out, dev as u32);
            push_str(&mut out, " fn=");
            push_dec(&mut out, func as u32);
            push_str(&mut out, "\r\n");
        },
    }
    out
}

} // verus!
