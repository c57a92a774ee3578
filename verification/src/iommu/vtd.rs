//! Intel VT-d: remapping units, the root/context table entries derived from
//! domain assignments, per-domain second-level tables and their walk, and
//! the invalidation targets.
//!
//! Register programming and table memory writes are done by the caller;
//! these functions decide what to write and where.

use vstd::prelude::*;
use crate::obs::Obs;
use crate::obs::metrics::{Counter, Metrics};
use crate::obs::trace::Event;
use crate::util::format::{ascii, dec_digits, push_dec, push_str};
use crate::mm::pages::{PhysPages, PHYS_LIMIT, SPAN_2M, l4_index, l3_index, l2_index, l1_index,
    lemma_index_bounds, lemma_low_address_indices, lemma_aligned_addr, lemma_dir_entry, lemma_leaf_2m,
    lemma_word_at_page};
use crate::mm::identity::{LeafSize, layout, layout_ok, layout_word, gb_count, lemma_counts, lemma_layout_wf};
use crate::mm::paging::{build_identity_2m, PT_DIR_FLAGS, PT_LEAF_FLAGS};
use crate::iommu::state::{IommuState, DevAssign, Mapping, used_assigns, used_mappings, list_assignments, list_mappings};

verus! {

/// A DMA remapping hardware unit.
#[derive(Clone, Copy, Debug, PartialEq, Eq, Structural)]
pub struct VtdUnit {
    pub seg: u16,
    pub reg_base: u64,
    pub root_tbl: u64,
}

/// Unit slots.
pub const MAX_UNITS: usize = 8;

/// The registered units.
pub struct VtdUnits {
    pub slots: Vec<Option<VtdUnit>>,
}

/// The registered units in slot order.
pub open spec fn present_units(s: Seq<Option<VtdUnit>>) -> Seq<VtdUnit>
    decreases s.len(),
{
    if s.len() == 0 {
        Seq::empty()
    } else {
        let r = present_units(s.drop_last());
        match s.last() {
            Some(u) => r.push(u),
            None => r,
        }
    }
}

/// `i` is the first empty slot.
pub open spec fn first_empty(s: Seq<Option<VtdUnit>>, i: int) -> bool {
    0 <= i < s.len() && s[i] is None && forall|j: int| 0 <= j < i ==> s[j] is Some
}

impl VtdUnits {
    pub open spec fn wf(&self) -> bool {
        self.slots@.len() == MAX_UNITS
    }

    pub fn new() -> (u: VtdUnits)
        ensures
            u.wf(),
            forall|i: int| 0 <= i < MAX_UNITS ==> u.slots@[i] is None,
    {
        let mut slots: Vec<Option<VtdUnit>> = Vec::new();
        while slots.len() < MAX_UNITS
            invariant
                slots@.len() <= MAX_UNITS,
                forall|i: int| 0 <= i < slots@.len() ==> slots@[i] is None,
            decreases MAX_UNITS - slots@.len(),
        {
            slots.push(None);
        }
        VtdUnits { slots }
    }
}

/// Record a unit in the first empty slot; ignored when all are taken.
pub fn register_unit(units: &mut VtdUnits, seg: u16, reg_base: u64, root_tbl: u64)
    requires
        old(units).wf(),
    ensures
        final(units).wf(),
        forall|i: int| first_empty(old(units).slots@, i) ==> final(units).slots@
            == old(units).slots@.update(i, Some(VtdUnit { seg, reg_base, root_tbl })),
        (forall|i: int| !first_empty(old(units).slots@, i)) ==> final(units).slots@ == old(units).slots@,
{
    let mut i: usize = 0;
    while i < MAX_UNITS
        invariant
            units.wf(),
            units.slots@ == old(units).slots@,
            i <= MAX_UNITS,
            forall|j: int| 0 <= j < i ==> units.slots@[j] is Some,
        decreases MAX_UNITS - i,
    {
        if units.slots[i].is_none() {
            units.slots.set(i, Some(VtdUnit { seg, reg_base, root_tbl }));
            assert forall|k: int| first_empty(old(units).slots@, k) implies k == i as int by {
                if k < i { } else if k > i { assert(old(units).slots@[i as int] is None); }
            }
            assert(first_empty(old(units).slots@, i as int));
            return;
        }
        i = i + 1;
    }
    assert forall|k: int| !first_empty(old(units).slots@, k) by {
        if 0 <= k < MAX_UNITS { assert(units.slots@[k] is Some); }
    }
}

/// The registered units, in slot order.
pub fn for_each_unit(units: &VtdUnits) -> (r: Vec<VtdUnit>)
    requires
        units.wf(),
    ensures
        r@ == present_units(units.slots@),
{
    let mut out: Vec<VtdUnit> = Vec::new();
    let mut i: usize = 0;
    while i < MAX_UNITS
        invariant
            units.wf(),
            i <= MAX_UNITS,
            out@ == present_units(units.slots@.take(i as int)),
        decreases MAX_UNITS - i,
    {
        proof { assert(units.slots@.take(i + 1).drop_last() =~= units.slots@.take(i as int)); }
        match units.slots[i] {
            Some(u) => out.push(u),
            None => {},
        }
        i = i + 1;
    }
    assert(units.slots@.take(MAX_UNITS as int) =~= units.slots@);
    out
}

/// The `index`-th registered unit.
pub fn get_unit_by_index(units: &VtdUnits, index: usize) -> (r: Option<VtdUnit>)
    requires
        units.wf(),
    ensures
        r == if index < present_units(units.slots@).len() { Some(present_units(units.slots@)[index as int]) } else { None },
{
    let all = for_each_unit(units);
    if index < all.len() { Some(all[index]) } else { None }
}

/// A device in the scope of a remapping unit, from the DMAR.
#[derive(Clone, Copy, Debug, PartialEq, Eq, Structural)]
pub struct DeviceScope {
    pub seg: u16,
    pub reg_base: u64,
    pub bus: u8,
    pub dev: u8,
    pub func: u8,
}

/// Register base of the first scope entry naming the device; 0 when none does.
pub open spec fn scope_reg(scopes: Seq<DeviceScope>, seg: u16, bus: u8, dev: u8, func: u8) -> u64
    decreases scopes.len(),
{
    if scopes.len() == 0 {
        0
    } else {
        let s = scopes[0];
        if s.seg == seg && s.bus == bus && s.dev == dev && s.func == func {
            s.reg_base
        } else {
            scope_reg(scopes.drop_first(), seg, bus, dev, func)
        }
    }
}

/// The first unit of segment `seg` whose register base is `reg` (any, when `reg` is 0).
pub open spec fn unit_for(us: Seq<VtdUnit>, seg: u16, reg: u64) -> Option<VtdUnit>
    decreases us.len(),
{
    if us.len() == 0 {
        None
    } else if us[0].seg == seg && (reg == 0 || us[0].reg_base == reg) {
        Some(us[0])
    } else {
        unit_for(us.drop_first(), seg, reg)
    }
}

/// The unit that owns device `seg:bus:dev.func`: the one its DMAR scope names
/// within the segment, or else the segment's first unit.
pub fn find_unit_for_bdf(units: &VtdUnits, scopes: &Vec<DeviceScope>, seg: u16, bus: u8, dev: u8, func: u8) -> (r: Option<VtdUnit>)
    requires
        units.wf(),
    ensures
        r == unit_for(present_units(units.slots@), seg, scope_reg(scopes@, seg, bus, dev, func)),
{
    let mut reg: u64 = 0;
    let mut i: usize = 0;
    assert(scopes@.skip(0) =~= scopes@);
    while i < scopes.len()
        invariant_except_break
            i <= scopes@.len(),
            reg == 0,
            scope_reg(scopes@, seg, bus, dev, func) == scope_reg(scopes@.skip(i as int), seg, bus, dev, func),
        ensures
            reg == scope_reg(scopes@, seg, bus, dev, func),
        decreases scopes@.len() - i,
    {
        let s = scopes[i];
        proof {
            assert(scopes@.skip(i as int).drop_first() =~= scopes@.skip(i + 1));
            assert(scopes@.skip(i as int)[0] == s);
        }
        if s.seg == seg && s.bus == bus && s.dev == dev && s.func == func {
            reg = s.reg_base;
            break;
        }
        i = i + 1;
    }
    let us = for_each_unit(units);
    let mut k: usize = 0;
    assert(us@.skip(0) =~= us@);
    while k < us.len()
        invariant
            k <= us@.len(),
            us@ == present_units(units.slots@),
            reg == scope_reg(scopes@, seg, bus, dev, func),
            unit_for(us@, seg, reg) == unit_for(us@.skip(k as int), seg, reg),
        decreases us@.len() - k,
    {
        let u = us[k];
        proof {
            assert(us@.skip(k as int).drop_first() =~= us@.skip(k + 1));
            assert(us@.skip(k as int)[0] == u);
        }
        if u.seg == seg && (reg == 0 || u.reg_base == reg) {
            return Some(u);
        }
        k = k + 1;
    }
    proof { assert(us@.skip(k as int) =~= Seq::<VtdUnit>::empty()); }
    None
}

/// Root table index (the bus) and context table index (device and function) of a device.
pub fn vtd_indices_from_bdf(bus: u8, dev: u8, func: u8) -> (r: (usize, usize))
    ensures
        r.0 == bus,
        r.1 == ((dev as usize) << 3usize) | (func as usize),
        dev < 32 && func < 8 ==> r.1 == dev * 8 + func && r.1 < 256,
{
    let ci = ((dev as usize) << 3usize) | (func as usize);
    proof {
        if dev < 32 && func < 8 {
            let d = dev as usize;
            let f = func as usize;
            assert((d << 3usize) | f == d * 8 + f && d * 8 + f < 256) by (bit_vector)
                requires d < 32, f < 8;
        }
    }
    (bus as usize, ci)
}

// ---------------------------------------------------------------------------
// Context entries

/// Present bit, translation type "second-level paging" (1) in bits 3:2.
pub const CTX_PRESENT: u64 = 1;
pub const CTX_TT_MULTI_LEVEL: u64 = 1;
/// Mask applied to the second-level table pointer in the lower word.
pub const CTX_LO_PTR_MASK: u64 = 0x0FFF_FFFF_FFFF_0000;
/// Address width field (bits 2:0 of the upper word): 48-bit.
pub const CTX_AW_48: u64 = 2;

/// The context entry (lower, upper) for a device of domain `domid` whose
/// second-level tables are at `slpt` (none: pointer field 0): present,
/// second-level translation, 48-bit address width, the domain id in bits 23:8.
pub open spec fn context_entry_spec(domid: u16, slpt: Option<u64>) -> (u64, u64) {
    let p: u64 = match slpt { Some(x) => x & CTX_LO_PTR_MASK, None => 0 };
    (CTX_PRESENT | (CTX_TT_MULTI_LEVEL << 2u64) | p, CTX_AW_48 | ((domid as u64) << 8u64))
}

/// Compose the context entry of a device of domain `domid`.
pub fn context_entry(domid: u16, slpt: Option<u64>) -> (r: (u64, u64))
    ensures
        r == context_entry_spec(domid, slpt),
{
    let p: u64 = match slpt {
        Some(x) => x & CTX_LO_PTR_MASK,
        None => 0,
    };
    let lo = CTX_PRESENT | (CTX_TT_MULTI_LEVEL << 2u64) | p;
    let did = ((domid as u64) & 0xFFFF) << 8u64;
    assert((domid as u64) & 0xFFFF == domid as u64) by (bit_vector);
    (lo, CTX_AW_48 | did)
}

/// A context entry is as the assignment to domain `domid` requires: present,
/// second-level translation, 48-bit width, that domain id, and a table pointer.
pub open spec fn context_ok(lo: u64, hi: u64, domid: u16) -> bool {
    &&& lo & CTX_PRESENT != 0
    &&& (lo >> 2u64) & 3 == CTX_TT_MULTI_LEVEL
    &&& hi & 7 == CTX_AW_48
    &&& (hi >> 8u64) & 0xFFFF == domid as u64
    &&& lo & CTX_LO_PTR_MASK != 0
}

/// Check a context entry against the assignment to `domid`.
pub fn verify_context_entry(lo: u64, hi: u64, domid: u16) -> (ok: bool)
    ensures
        ok == context_ok(lo, hi, domid),
{
    let present = lo & CTX_PRESENT != 0;
    let tt = (lo >> 2u64) & 3;
    let aw = hi & 7;
    let did = (hi >> 8u64) & 0xFFFF;
    let slpt = lo & CTX_LO_PTR_MASK != 0;
    present && tt == CTX_TT_MULTI_LEVEL && aw == CTX_AW_48 && did == domid as u64 && slpt
}

/// The entry composed for a domain passes the check for that domain exactly
/// when its table pointer survives the pointer mask.
pub proof fn lemma_context_roundtrip(domid: u16, slpt: Option<u64>)
    ensures
        context_ok(context_entry_spec(domid, slpt).0, context_entry_spec(domid, slpt).1, domid)
            == (match slpt { Some(x) => x & CTX_LO_PTR_MASK != 0, None => false }),
{
    let x: u64 = match slpt { Some(x) => x, None => 0 };
    let d = domid as u64;
    assert((x & 0x0FFF_FFFF_FFFF_0000) & 0x0FFF_FFFF_FFFF_0000 == x & 0x0FFF_FFFF_FFFF_0000
        && 0u64 & 0x0FFF_FFFF_FFFF_0000 == 0u64
        && ((1u64 | (1u64 << 2u64) | (x & 0x0FFF_FFFF_FFFF_0000)) & 1 != 0)
        && (((1u64 | (1u64 << 2u64) | (x & 0x0FFF_FFFF_FFFF_0000)) >> 2u64) & 3 == 1)
        && (((1u64 | (1u64 << 2u64) | (x & 0x0FFF_FFFF_FFFF_0000)) & 0x0FFF_FFFF_FFFF_0000 != 0)
            == ((x & 0x0FFF_FFFF_FFFF_0000) != 0))
        && ((1u64 | (1u64 << 2u64) | 0u64) & 1 != 0)
        && (((1u64 | (1u64 << 2u64) | 0u64) >> 2u64) & 3 == 1)
        && ((1u64 | (1u64 << 2u64) | 0u64) & 0x0FFF_FFFF_FFFF_0000 == 0)
        && ((2u64 | (d << 8u64)) & 7 == 2)
        && (((2u64 | (d << 8u64)) >> 8u64) & 0xFFFF == d)) by (bit_vector)
        requires d < 0x1_0000;
}

// ---------------------------------------------------------------------------
// Per-domain second-level tables

/// Domains that get second-level tables (ids are taken modulo 16).
pub const SLPT_SLOTS: usize = 16;
/// Reach of a domain's bootstrap tables: the first GiB, identity-mapped.
pub const SLPT_LIMIT: u64 = 0x4000_0000;

/// Second-level table roots by domain slot.
pub struct DomainSlpt {
    pub ptrs: Vec<Option<u64>>,
}

impl DomainSlpt {
    pub open spec fn wf(&self) -> bool {
        self.ptrs@.len() == SLPT_SLOTS
    }

    pub fn new() -> (d: DomainSlpt)
        ensures
            d.wf(),
            forall|i: int| 0 <= i < SLPT_SLOTS ==> d.ptrs@[i] is None,
    {
        let mut ptrs: Vec<Option<u64>> = Vec::new();
        while ptrs.len() < SLPT_SLOTS
            invariant
                ptrs@.len() <= SLPT_SLOTS,
                forall|i: int| 0 <= i < ptrs@.len() ==> ptrs@[i] is None,
            decreases SLPT_SLOTS - ptrs@.len(),
        {
            ptrs.push(None);
        }
        DomainSlpt { ptrs }
    }
}

/// Slot of domain `domid`.
pub open spec fn slpt_slot(domid: u16) -> int {
    (domid as int) % 16
}

proof fn lemma_slot_mask(d: usize)
    by (bit_vector)
    ensures
        d & 0xF == d % 16,
{
}

/// The slot index of a domain id.
pub proof fn lemma_slot_mask_pub(d: usize)
    ensures
        d & 0xF == d % 16,
{
    lemma_slot_mask(d);
}

/// The table root of domain `domid`, if provisioned.
pub fn get_domain_slptptr(ds: &DomainSlpt, domid: u16) -> (r: Option<u64>)
    requires
        ds.wf(),
    ensures
        r == ds.ptrs@[slpt_slot(domid)],
{
    let idx = (domid as usize) & 0xF;
    proof { lemma_slot_mask(domid as usize); }
    ds.ptrs[idx]
}

/// The table root of domain `domid`, provisioning it first when missing and
/// table pages are offered at `table_base`: an identity map of the first GiB
/// with 2 MiB pages, whose image is returned for the caller to place there.
pub fn ensure_domain_slptptr(ds: &mut DomainSlpt, domid: u16, table_base: Option<u64>) -> (r: (Option<u64>, Option<PhysPages>))
    requires
        old(ds).wf(),
        table_base matches Some(b) ==> layout_ok(LeafSize::Large2M, b, SLPT_LIMIT),
    ensures
        final(ds).wf(),
        old(ds).ptrs@[slpt_slot(domid)] is Some ==> final(ds).ptrs@ == old(ds).ptrs@ && r.1 is None,
        old(ds).ptrs@[slpt_slot(domid)] is None ==> match table_base {
            Some(b) => {
                &&& final(ds).ptrs@ == old(ds).ptrs@.update(slpt_slot(domid), Some(b & 0xFFFF_FFFF_FFFF_F000))
                &&& r.1 matches Some(m)
                &&& m.wf()
                &&& m.base == b
                &&& m.words@ == layout(LeafSize::Large2M, b, SLPT_LIMIT, PT_DIR_FLAGS, PT_LEAF_FLAGS)
            },
            None => final(ds).ptrs@ == old(ds).ptrs@ && r.1 is None,
        },
        r.0 == final(ds).ptrs@[slpt_slot(domid)],
{
    let idx = (domid as usize) & 0xF;
    proof { lemma_slot_mask(domid as usize); }
    let mut img: Option<PhysPages> = None;
    if ds.ptrs[idx].is_none() {
        if let Some(b) = table_base {
            let t = build_identity_2m(b, SLPT_LIMIT);
            ds.ptrs.set(idx, Some(b & 0xFFFF_FFFF_FFFF_F000));
            img = t;
        }
    }
    (ds.ptrs[idx], img)
}

// ---------------------------------------------------------------------------
// Second-level walk

/// The entries and result of a second-level walk of `iova` from table `cr3`:
/// 4-level, 2 MiB leaves in the page directory, present in bit 0, entries
/// read as zero once a non-present one ends the walk.
pub open spec fn walk_spec(mem: PhysPages, cr3: u64, iova: u64) -> (Option<u64>, Seq<u64>) {
    if cr3 == 0 {
        (None, seq![0u64, 0, 0, 0])
    } else {
        let v4 = mem.word_at(cr3, l4_index(iova));
        if v4 & 1 == 0 {
            (None, seq![v4, 0, 0, 0])
        } else {
            let v3 = mem.word_at(v4 & 0xFFFF_FFFF_FFFF_F000, l3_index(iova));
            if v3 & 1 == 0 {
                (None, seq![v4, v3, 0, 0])
            } else {
                let v2 = mem.word_at(v3 & 0xFFFF_FFFF_FFFF_F000, l2_index(iova));
                if v2 & 1 == 0 {
                    (None, seq![v4, v3, v2, 0])
                } else if v2 & 0x80 != 0 {
                    (Some((v2 & 0xFFFF_FFFF_FFE0_0000) | (iova & 0x1F_FFFF)), seq![v4, v3, v2, 0])
                } else {
                    let v1 = mem.word_at(v2 & 0xFFFF_FFFF_FFFF_F000, l1_index(iova));
                    if v1 & 1 == 0 {
                        (None, seq![v4, v3, v2, v1])
                    } else {
                        (Some((v1 & 0xFFFF_FFFF_FFFF_F000) | (iova & 0xFFF)), seq![v4, v3, v2, v1])
                    }
                }
            }
        }
    }
}

/// Walk the second-level tables in `mem` from `cr3` for `iova`: the physical
/// address, and the PML4E, PDPTE, PDE and PTE met (0 where not reached).
pub fn walk_second_level(mem: &PhysPages, cr3: u64, iova: u64) -> (r: (Option<u64>, [u64; 4]))
    ensures
        r.0 == walk_spec(*mem, cr3, iova).0,
        r.1@ == walk_spec(*mem, cr3, iova).1,
{
    let mut ents: [u64; 4] = [0; 4];
    proof { lemma_index_bounds(iova); }
    if cr3 == 0 {
        assert(ents@ =~= seq![0u64, 0, 0, 0]);
        return (None, ents);
    }
    let v4 = mem.read_entry(cr3, (iova >> 39u64) & 0x1FF);
    ents[0] = v4;
    if v4 & 1 == 0 {
        assert(ents@ =~= seq![v4, 0, 0, 0]);
        return (None, ents);
    }
    let v3 = mem.read_entry(v4 & 0xFFFF_FFFF_FFFF_F000, (iova >> 30u64) & 0x1FF);
    ents[1] = v3;
    if v3 & 1 == 0 {
        assert(ents@ =~= seq![v4, v3, 0, 0]);
        return (None, ents);
    }
    let v2 = mem.read_entry(v3 & 0xFFFF_FFFF_FFFF_F000, (iova >> 21u64) & 0x1FF);
    ents[2] = v2;
    if v2 & 1 == 0 {
        assert(ents@ =~= seq![v4, v3, v2, 0]);
        return (None, ents);
    }
    if v2 & 0x80 != 0 {
        assert(ents@ =~= seq![v4, v3, v2, 0]);
        return (Some((v2 & 0xFFFF_FFFF_FFE0_0000) | (iova & 0x1F_FFFF)), ents);
    }
    let v1 = mem.read_entry(v2 & 0xFFFF_FFFF_FFFF_F000, (iova >> 12u64) & 0x1FF);
    ents[3] = v1;
    assert(ents@ =~= seq![v4, v3, v2, v1]);
    if v1 & 1 == 0 {
        return (None, ents);
    }
    (Some((v1 & 0xFFFF_FFFF_FFFF_F000) | (iova & 0xFFF)), ents)
}

/// A domain's bootstrap tables translate every IOVA of the first GiB to itself.
pub proof fn lemma_domain_tables_identity(mem: PhysPages, a: u64)
    requires
        layout_ok(LeafSize::Large2M, mem.base, SLPT_LIMIT),
        mem.words@ == layout(LeafSize::Large2M, mem.base, SLPT_LIMIT, PT_DIR_FLAGS, PT_LEAF_FLAGS),
        mem.base != 0,
        a < SLPT_LIMIT,
    ensures
        walk_spec(mem, mem.base, a).0 == Some(a),
{
    let base = mem.base;
    let limit = SLPT_LIMIT;
    let size = LeafSize::Large2M;
    let dir = PT_DIR_FLAGS;
    let leaf = PT_LEAF_FLAGS;
    assert(dir & 1 == 1 && dir < 0x80 && leaf & 1 == 1 && leaf & 0x80 == 0x80 && leaf < 0x1000) by (bit_vector)
        requires dir == 3u64, leaf == 0x83u64;
    assert(crate::mm::identity::dir_flags_ok(dir) && crate::mm::identity::big_leaf_flags_ok(leaf));
    lemma_counts(limit);
    lemma_layout_wf(size, mem, limit, dir, leaf);
    lemma_low_address_indices(a);
    lemma_index_bounds(a);
    let g = gb_count(limit);
    let i = l3_index(a);
    let j = l2_index(a);
    lemma_aligned_addr(base);
    lemma_word_at_page(mem, 0, 0);
    let pdpt = (base + 4096) as u64;
    lemma_dir_entry(pdpt, dir);
    assert(i < g) by (nonlinear_arith)
        requires i == a / 0x4000_0000, a < limit, g == (limit + 0x4000_0000 - 1) / 0x4000_0000;
    lemma_word_at_page(mem, 1, i);
    let pd = (base + (2 + i) * 4096) as u64;
    assert(pd % 4096 == 0) by (nonlinear_arith) requires base % 4096 == 0, pd == base + (2 + i) * 4096;
    assert(layout_word(size, base, limit, dir, leaf, (512 + i) as nat) == pd | dir);
    lemma_dir_entry(pd, dir);
    lemma_word_at_page(mem, (2 + i) as nat, j);
    let phys = a - a % SPAN_2M;
    assert(phys % 0x20_0000 == 0) by (nonlinear_arith) requires phys == a - a % 0x20_0000;
    assert(layout_word(size, base, limit, dir, leaf, ((2 + i) * 512 + j) as nat) == (phys as u64) | leaf);
    lemma_leaf_2m(phys as u64, leaf, a);
    assert(mem.word_at(base, l4_index(a)) == pdpt | dir);
}

// ---------------------------------------------------------------------------
// Invalidation targets

/// Units that get a root-table re-latch when domain `domid` changed: the
/// units of its devices, each register base once, in the order the devices
/// are listed, at most eight.
pub open spec fn domain_targets(assigns: Seq<DevAssign>, us: Seq<VtdUnit>, scopes: Seq<DeviceScope>, domid: u16) -> Seq<VtdUnit>
    decreases assigns.len(),
{
    if assigns.len() == 0 {
        Seq::empty()
    } else {
        let acc = domain_targets(assigns.drop_last(), us, scopes, domid);
        let a = assigns.last();
        if a.domid != domid {
            acc
        } else {
            match unit_for(us, a.seg, scope_reg(scopes, a.seg, a.bus, a.dev, a.func)) {
                Some(u) => if acc.len() < MAX_UNITS && !(exists|i: int| 0 <= i < acc.len() && acc[i].reg_base == u.reg_base) {
                    acc.push(u)
                } else {
                    acc
                },
                None => acc,
            }
        }
    }
}

/// The units whose caches are refreshed when domain `domid` changes; the
/// refresh is counted in `iommu_inv_domain` and traced.
pub fn invalidate_domain(st: &IommuState, units: &VtdUnits, scopes: &Vec<DeviceScope>, domid: u16, obs: &mut Obs) -> (r: Vec<VtdUnit>)
    requires
        st.wf(),
        units.wf(),
        old(obs).wf(),
        old(obs).room(1),
    ensures
        r@ == domain_targets(used_assigns(st.assigns@), present_units(units.slots@), scopes@, domid),
        final(obs).wf(),
        final(obs).metrics == (Metrics {
            iommu_inv_domain: Counter { value: vstd::wrapping::u64_specs::wrapping_add(old(obs).metrics.iommu_inv_domain.value, 1) },
            ..old(obs).metrics
        }),
        final(obs).trace.hist@ == old(obs).trace.hist@.push(Event::IommuInvalidateDomain(domid)),
        final(obs).audit == old(obs).audit,
{
    let r = domain_units(st, units, scopes, domid);
    obs.metrics.iommu_inv_domain.inc();
    obs.trace.record(Event::IommuInvalidateDomain(domid));
    r
}

fn domain_units(st: &IommuState, units: &VtdUnits, scopes: &Vec<DeviceScope>, domid: u16) -> (r: Vec<VtdUnit>)
    requires
        st.wf(),
        units.wf(),
    ensures
        r@ == domain_targets(used_assigns(st.assigns@), present_units(units.slots@), scopes@, domid),
{
    let list = list_assignments(st);
    let ghost us = present_units(units.slots@);
    let mut out: Vec<VtdUnit> = Vec::new();
    let mut i: usize = 0;
    while i < list.len()
        invariant
            units.wf(),
            us == present_units(units.slots@),
            i <= list@.len(),
            out@ == domain_targets(list@.take(i as int), us, scopes@, domid),
        decreases list@.len() - i,
    {
        let a = list[i];
        proof {
            assert(list@.take(i + 1).drop_last() =~= list@.take(i as int));
            assert(list@.take(i + 1).last() == a);
        }
        if a.domid == domid {
            if let Some(u) = find_unit_for_bdf(units, scopes, a.seg, a.bus, a.dev, a.func) {
                let mut found = false;
                let mut j: usize = 0;
                while j < out.len()
                    invariant
                        j <= out@.len(),
                        found == exists|k: int| 0 <= k < j && out@[k].reg_base == u.reg_base,
                    decreases out@.len() - j,
                {
                    if out[j].reg_base == u.reg_base {
                        found = true;
                    }
                    j = j + 1;
                }
                if !found && out.len() < MAX_UNITS {
                    out.push(u);
                }
            }
        }
        i = i + 1;
    }
    assert(list@.take(list@.len() as int) =~= list@);
    out
}

/// The unit whose caches are refreshed when device `seg:bus:dev.func`
/// changed; the refresh is counted in `iommu_inv_bdf` and traced.
pub fn invalidate_bdf(units: &VtdUnits, scopes: &Vec<DeviceScope>, seg: u16, bus: u8, dev: u8, func: u8, obs: &mut Obs)
    -> (r: Option<VtdUnit>)
    requires
        units.wf(),
        old(obs).wf(),
        old(obs).room(1),
    ensures
        r == unit_for(present_units(units.slots@), seg, scope_reg(scopes@, seg, bus, dev, func)),
        final(obs).wf(),
        final(obs).metrics == (Metrics {
            iommu_inv_bdf: Counter { value: vstd::wrapping::u64_specs::wrapping_add(old(obs).metrics.iommu_inv_bdf.value, 1) },
            ..old(obs).metrics
        }),
        final(obs).trace.hist@ == old(obs).trace.hist@.push(Event::IommuInvalidateBdf(seg, bus, dev, func)),
        final(obs).audit == old(obs).audit,
{
    let r = find_unit_for_bdf(units, scopes, seg, bus, dev, func);
    obs.metrics.iommu_inv_bdf.inc();
    obs.trace.record(Event::IommuInvalidateBdf(seg, bus, dev, func));
    r
}

/// The InvalidateAll step: the units whose root pointer is to be re-latched,
/// in slot order (each has its RTADDR rewritten with its current value and
/// GCMD.SRTP set once, see [`srtp_command`]); the refresh is counted in
/// `iommu_inv_all` and traced once (segment 0: it covers every unit).
pub fn invalidate_all(units: &VtdUnits, obs: &mut Obs) -> (r: Vec<VtdUnit>)
    requires
        units.wf(),
        old(obs).wf(),
        old(obs).room(1),
    ensures
        r@ == present_units(units.slots@),
        final(obs).wf(),
        final(obs).metrics == (Metrics {
            iommu_inv_all: Counter { value: vstd::wrapping::u64_specs::wrapping_add(old(obs).metrics.iommu_inv_all.value, 1) },
            ..old(obs).metrics
        }),
        final(obs).trace.hist@ == old(obs).trace.hist@.push(Event::IommuInvalidateAll(0)),
        final(obs).audit == old(obs).audit,
{
    let r = for_each_unit(units);
    obs.metrics.iommu_inv_all.inc();
    obs.trace.record(Event::IommuInvalidateAll(0));
    r
}

/// Global command register: set root table pointer.
pub const GCMD_SRTP: u32 = 0x4000_0000;
/// Global command register: translation enable.
pub const GCMD_TE: u32 = 0x8000_0000;

/// The command that re-latches the root table pointer, from the command
/// register's current value `gcmd`: SRTP added, every other bit kept.
pub fn srtp_command(gcmd: u32) -> (r: u32)
    ensures
        r == gcmd | GCMD_SRTP,
{
    gcmd | GCMD_SRTP
}

/// The command that turns translation on (`on`) or off, from the command
/// register's current value `gcmd`: TE set or cleared, every other bit kept.
pub fn te_command(gcmd: u32, on: bool) -> (r: u32)
    ensures
        r == if on { gcmd | GCMD_TE } else { gcmd & !GCMD_TE },
{
    if on { gcmd | GCMD_TE } else { gcmd & !GCMD_TE }
}

/// The report line of one unit's refresh.
pub open spec fn invalidate_line_spec(seg: u16, ok: bool) -> Seq<u8> {
    ascii("VT-d: invalidate seg="@) + dec_digits(seg as nat) + ascii(" result="@)
        + (if ok { ascii("OK"@) } else { ascii("TIMEOUT"@) }) + ascii("\r\n"@)
}

pub fn invalidate_line(seg: u16, ok: bool) -> (r: Vec<u8>)
    ensures
        r@ == invalidate_line_spec(seg, ok),
{
    let mut out: Vec<u8> = Vec::new();
    push_str(&mut out, "VT-d: invalidate seg=");
    push_dec(&mut out, seg as u32);
    push_str(&mut out, " result=");
    if ok {
        push_str(&mut out, "OK");
    } else {
        push_str(&mut out, "TIMEOUT");
    }
    push_str(&mut out, "\r\n");
    out
}

// ---------------------------------------------------------------------------
// Composite operations and the self-test

/// One step of a VT-d maintenance sequence, carried out by the caller.
#[derive(Clone, Copy, Debug, PartialEq, Eq, Structural)]
pub enum VtdStep {
    PlanAssignments,
    DisableTranslation,
    ApplyAssignments,
    ApplyMappings,
    EnableTranslation,
    InvalidateAll,
    VerifyState,
    VerifyMappings,
    /// Translate `iova` for a device, `times` times.
    Translate { seg: u16, bus: u8, dev: u8, func: u8, iova: u64, times: u32 },
    /// Walk the tables for `iova` of a device, `times` times.
    Walk { seg: u16, bus: u8, dev: u8, func: u8, iova: u64, times: u32 },
    NoMappingForSample,
    NoAssignment,
    ReportStats,
    ReportSummary,
}

pub open spec fn refresh_steps() -> Seq<VtdStep> {
    seq![VtdStep::ApplyAssignments, VtdStep::InvalidateAll]
}

pub open spec fn safe_apply_steps() -> Seq<VtdStep> {
    seq![VtdStep::DisableTranslation, VtdStep::ApplyAssignments, VtdStep::ApplyMappings, VtdStep::EnableTranslation]
}

/// Apply the assignments and then refresh every unit's caches.
pub fn apply_and_refresh() -> (r: Vec<VtdStep>)
    ensures
        r@ == refresh_steps(),
{
    let r = vec![VtdStep::ApplyAssignments, VtdStep::InvalidateAll];
    assert(r@ =~= refresh_steps());
    r
}

/// With translation off, apply assignments and mappings; then turn it on.
pub fn apply_safe() -> (r: Vec<VtdStep>)
    ensures
        r@ == safe_apply_steps(),
{
    let r = vec![VtdStep::DisableTranslation, VtdStep::ApplyAssignments, VtdStep::ApplyMappings, VtdStep::EnableTranslation];
    assert(r@ =~= safe_apply_steps());
    r
}

/// Options of the self-test.
#[derive(Clone, Copy, Debug, PartialEq, Eq, Structural)]
pub struct SelfTestConfig {
    /// Refresh caches after applying instead of applying with translation off.
    pub quick: bool,
    pub do_apply: bool,
    pub do_invalidate: bool,
    /// Sample only a device of this domain.
    pub test_domain: Option<u16>,
    pub walk_samples: u32,
    pub xlate_samples: u32,
}

impl Default for SelfTestConfig {
    fn default() -> (c: Self)
        ensures
            c == (SelfTestConfig { quick: false, do_apply: true, do_invalidate: true, test_domain: None, walk_samples: 2, xlate_samples: 2 }),
    {
        SelfTestConfig { quick: false, do_apply: true, do_invalidate: true, test_domain: None, walk_samples: 2, xlate_samples: 2 }
    }
}

/// The first assignment the self-test samples: any, or one of the chosen domain.
pub open spec fn sample_assign(assigns: Seq<DevAssign>, filter: Option<u16>) -> Option<DevAssign>
    decreases assigns.len(),
{
    if assigns.len() == 0 {
        None
    } else if filter is None || filter == Some(assigns[0].domid) {
        Some(assigns[0])
    } else {
        sample_assign(assigns.drop_first(), filter)
    }
}

/// The IOVA of the first mapping of domain `domid`.
pub open spec fn sample_iova(maps: Seq<Mapping>, domid: u16) -> Option<u64>
    decreases maps.len(),
{
    if maps.len() == 0 {
        None
    } else if maps[0].domid == domid {
        Some(maps[0].iova)
    } else {
        sample_iova(maps.drop_first(), domid)
    }
}

/// The self-test: plan, apply (quick or safe), verify, invalidate, sample a
/// translation and a walk, report.
pub open spec fn selftest_steps(cfg: SelfTestConfig, assigns: Seq<DevAssign>, maps: Seq<Mapping>) -> Seq<VtdStep> {
    let apply = if cfg.do_apply {
        seq![VtdStep::PlanAssignments] + if cfg.quick { refresh_steps() } else { safe_apply_steps() }
    } else {
        Seq::empty()
    };
    let inv = if cfg.do_invalidate { seq![VtdStep::InvalidateAll] } else { Seq::empty() };
    let sample = match sample_assign(assigns, cfg.test_domain) {
        None => seq![VtdStep::NoAssignment],
        Some(a) => match sample_iova(maps, a.domid) {
            None => seq![VtdStep::NoMappingForSample],
            Some(iova) => seq![
                VtdStep::Translate { seg: a.seg, bus: a.bus, dev: a.dev, func: a.func, iova, times: cfg.xlate_samples },
                VtdStep::Walk { seg: a.seg, bus: a.bus, dev: a.dev, func: a.func, iova, times: cfg.walk_samples }
            ],
        },
    };
    apply + seq![VtdStep::VerifyState, VtdStep::VerifyMappings] + inv + sample
        + seq![VtdStep::ReportStats, VtdStep::ReportSummary]
}

/// The steps of the self-test with options `cfg` on the registry `st`.
pub fn selftest(st: &IommuState, cfg: SelfTestConfig) -> (r: Vec<VtdStep>)
    requires
        st.wf(),
    ensures
        r@ == selftest_steps(cfg, used_assigns(st.assigns@), used_mappings(st.mappings@)),
{
    let mut out: Vec<VtdStep> = Vec::new();
    if cfg.do_apply {
        out.push(VtdStep::PlanAssignments);
        let mut more = if cfg.quick { apply_and_refresh() } else { apply_safe() };
        out.append(&mut more);
    }
    out.push(VtdStep::VerifyState);
    out.push(VtdStep::VerifyMappings);
    if cfg.do_invalidate {
        out.push(VtdStep::InvalidateAll);
    }
    let assigns = list_assignments(st);
    let mut pick: Option<DevAssign> = None;
    let mut i: usize = 0;
    assert(assigns@.skip(0) =~= assigns@);
    while i < assigns.len()
        invariant_except_break
            i <= assigns@.len(),
            pick is None,
            sample_assign(assigns@, cfg.test_domain) == sample_assign(assigns@.skip(i as int), cfg.test_domain),
        ensures
            pick == sample_assign(assigns@, cfg.test_domain),
        decreases assigns@.len() - i,
    {
        let a = assigns[i];
        proof {
            assert(assigns@.skip(i as int).drop_first() =~= assigns@.skip(i + 1));
            assert(assigns@.skip(i as int)[0] == a);
        }
        let take = match cfg.test_domain { None => true, Some(f) => f == a.domid };
        if take {
            pick = Some(a);
            break;
        }
        i = i + 1;
    }
    match pick {
        None => out.push(VtdStep::NoAssignment),
        Some(a) => {
            let maps = list_mappings(st);
            let mut iova: Option<u64> = None;
            let mut j: usize = 0;
            assert(maps@.skip(0) =~= maps@);
            while j < maps.len()
                invariant_except_break
                    j <= maps@.len(),
                    iova is None,
                    sample_iova(maps@, a.domid) == sample_iova(maps@.skip(j as int), a.domid),
                ensures
                    iova == sample_iova(maps@, a.domid),
                decreases maps@.len() - j,
            {
                let m = maps[j];
                proof {
                    assert(maps@.skip(j as int).drop_first() =~= maps@.skip(j + 1));
                    assert(maps@.skip(j as int)[0] == m);
                }
                if m.domid == a.domid {
                    iova = Some(m.iova);
                    break;
                }
                j = j + 1;
            }
            match iova {
                None => out.push(VtdStep::NoMappingForSample),
                Some(v) => {
                    out.push(VtdStep::Translate { seg: a.seg, bus: a.bus, dev: a.dev, func: a.func, iova: v, times: cfg.xlate_samples });
                    out.push(VtdStep::Walk { seg: a.seg, bus: a.bus, dev: a.dev, func: a.func, iova: v, times: cfg.walk_samples });
                },
            }
        },
    }
    out.push(VtdStep::ReportStats);
    out.push(VtdStep::ReportSummary);
    assert(out@ =~= selftest_steps(cfg, used_assigns(st.assigns@), used_mappings(st.mappings@)));
    out
}

} // verus!
