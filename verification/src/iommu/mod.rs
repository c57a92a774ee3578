//! IOMMU (Intel VT-d, AMD-Vi) domain bookkeeping, context entries and
//! second-level translation; PCI ECAM addressing and the persisted form of
//! device assignments.

pub mod state;
pub mod vtd;
pub mod slpt;
pub mod context;
pub mod readback;
pub mod restore;
pub mod history;

use vstd::prelude::*;
use crate::util::bytes::{le16, lemma_le16_roundtrip};
use crate::firmware::acpi::McfgAllocation;
use crate::iommu::state::{IommuState, DevAssign, used_assigns, list_assignments};
use crate::util::format::{ascii, dec_digits, hex_digits, push_dec, push_hex, push_str};

verus! {

/// Offset of a function's configuration space from its segment's ECAM base:
/// 1 MiB per bus past the segment's first bus (none below it), 32 KiB per
/// device, 4 KiB per function.
pub open spec fn ecam_offset(start_bus: u8, bus: u8, dev: u8, func: u8) -> int {
    let b: int = if bus >= start_bus { bus - start_bus } else { 0 };
    b * 0x10_0000 + dev * 0x8000 + func * 0x1000
}

/// Address of the configuration space of `bus:dev.func` in an ECAM window at
/// `seg_base` that starts at `start_bus` (wrapping at the address width).
pub fn ecam_fn_base(seg_base: u64, start_bus: u8, bus: u8, dev: u8, func: u8) -> (r: usize)
    ensures
        r == vstd::wrapping::usize_specs::wrapping_add(seg_base as usize, ecam_offset(start_bus, bus, dev, func) as usize),
{
    let b: usize = (bus as usize).saturating_sub(start_bus as usize);
    let d: usize = dev as usize;
    let f: usize = func as usize;
    assert(b << 20usize == b * 0x10_0000 && d << 15usize == d * 0x8000 && f << 12usize == f * 0x1000) by (bit_vector)
        requires b < 256, d < 256, f < 256;
    let off: usize = (b << 20usize) + (d << 15usize) + (f << 12usize);
    (seg_base as usize).wrapping_add(off)
}

/// The last ECAM allocation of segment `seg` whose bus range holds `bus`:
/// its base address and first bus.
pub open spec fn ecam_for(allocs: Seq<McfgAllocation>, seg: u16, bus: u8) -> Option<(u64, u8)>
    decreases allocs.len(),
{
    if allocs.len() == 0 {
        None
    } else {
        let a = allocs.last();
        if a.pci_segment == seg && a.start_bus <= bus && bus <= a.end_bus {
            Some((a.base_address, a.start_bus))
        } else {
            ecam_for(allocs.drop_last(), seg, bus)
        }
    }
}

/// Find the ECAM window that covers `seg:bus` among the MCFG allocations.
pub fn find_ecam_for_segment(allocs: &Vec<McfgAllocation>, seg: u16, bus: u8) -> (r: Option<(u64, u8)>)
    ensures
        r == ecam_for(allocs@, seg, bus),
{
    let mut found: Option<(u64, u8)> = None;
    let mut i: usize = 0;
    while i < allocs.len()
        invariant
            i <= allocs@.len(),
            found == ecam_for(allocs@.take(i as int), seg, bus),
        decreases allocs@.len() - i,
    {
        let a = allocs[i];
        proof { assert(allocs@.take(i + 1).drop_last() =~= allocs@.take(i as int)); }
        if a.pci_segment == seg && bus >= a.start_bus && bus <= a.end_bus {
            found = Some((a.base_address, a.start_bus));
        }
        i = i + 1;
    }
    assert(allocs@.take(allocs@.len() as int) =~= allocs@);
    found
}

// ---------------------------------------------------------------------------
// Persisted assignments

/// Size of the persisted record.
pub const CFG_CAPACITY: usize = 2048;

/// A device assignment as persisted.
#[derive(Clone, Copy, Debug, PartialEq, Eq, Structural)]
pub struct SavedAssign {
    pub seg: u16,
    pub bus: u8,
    pub dev: u8,
    pub func: u8,
    pub domid: u16,
}

/// The eight bytes of one assignment: segment (LE), bus, device, function,
/// a zero byte, domain id (LE).
pub open spec fn cfg_entry(a: DevAssign) -> Seq<u8> {
    le16(a.seg) + seq![a.bus, a.dev, a.func, 0u8] + le16(a.domid)
}

pub open spec fn cfg_entries(s: Seq<DevAssign>) -> Seq<u8>
    decreases s.len(),
{
    if s.len() == 0 { Seq::empty() } else { cfg_entries(s.drop_last()) + cfg_entry(s.last()) }
}

/// The persisted record of assignments `s`: their count (LE) and then each
/// assignment in order.
pub open spec fn cfg_record(s: Seq<DevAssign>) -> Seq<u8> {
    le16(s.len() as u16) + cfg_entries(s)
}

proof fn lemma_cfg_entries(s: Seq<DevAssign>)
    ensures
        cfg_entries(s).len() == 8 * s.len(),
        forall|k: int, j: int| 0 <= k < s.len() && 0 <= j < 8 ==>
            #[trigger] cfg_entries(s)[8 * k + j] == cfg_entry(s[k])[j],
    decreases s.len(),
{
    if s.len() > 0 {
        lemma_cfg_entries(s.drop_last());
        let p = s.drop_last();
        assert forall|k: int, j: int| 0 <= k < s.len() && 0 <= j < 8 implies
            #[trigger] cfg_entries(s)[8 * k + j] == cfg_entry(s[k])[j] by {
            if k < s.len() - 1 {
                assert(cfg_entries(s)[8 * k + j] == cfg_entries(p)[8 * k + j]);
                assert(p[k] == s[k]);
            } else {
                assert(8 * k + j - 8 * p.len() == j);
            }
        }
    }
}

/// The record that persists the assignments of `st` (all of them fit).
pub fn cfg_save(st: &IommuState) -> (r: Vec<u8>)
    requires
        st.wf(),
    ensures
        r@ == cfg_record(used_assigns(st.assigns@)),
        r@.len() <= CFG_CAPACITY,
{
    let list = list_assignments(st);
    proof { crate::iommu::state::lemma_used_assigns_len(st.assigns@); }
    let count: u16 = list.len() as u16;
    let mut out: Vec<u8> = Vec::new();
    out.push((count & 0xFF) as u8);
    out.push(((count >> 8u16) & 0xFF) as u8);
    assert(out@ =~= le16(count));
    let mut i: usize = 0;
    while i < list.len()
        invariant
            i <= list@.len(),
            list@.len() <= 128,
            count == list@.len(),
            out@ == le16(count) + cfg_entries(list@.take(i as int)),
        decreases list@.len() - i,
    {
        let a = list[i];
        proof { assert(list@.take(i + 1).drop_last() =~= list@.take(i as int)); }
        let ghost before = out@;
        out.push((a.seg & 0xFF) as u8);
        out.push(((a.seg >> 8u16) & 0xFF) as u8);
        out.push(a.bus);
        out.push(a.dev);
        out.push(a.func);
        out.push(0u8);
        out.push((a.domid & 0xFF) as u8);
        out.push(((a.domid >> 8u16) & 0xFF) as u8);
        assert(out@ =~= before + cfg_entry(a));
        assert(list@.take(i + 1).last() == a);
        i = i + 1;
    }
    assert(list@.take(list@.len() as int) =~= list@);
    proof { lemma_cfg_entries(list@); }
    out
}

/// The assignment stored at `off`.
pub open spec fn saved_at(d: Seq<u8>, off: int) -> SavedAssign {
    SavedAssign {
        seg: (d[off] as u16) | ((d[off + 1] as u16) << 8u16),
        bus: d[off + 2],
        dev: d[off + 3],
        func: d[off + 4],
        domid: (d[off + 6] as u16) | ((d[off + 7] as u16) << 8u16),
    }
}

/// The assignments a record holds: as many as its count says, short of those
/// that would run past its end. `None` for a record shorter than the count.
pub open spec fn saved_entries(d: Seq<u8>) -> Option<Seq<SavedAssign>> {
    if d.len() < 2 {
        None
    } else {
        let count: int = d[0] as int + d[1] as int * 256;
        let fit: int = (d.len() - 2) / 8;
        let n: int = if count < fit { count } else { fit };
        Some(Seq::new(n as nat, |k: int| saved_at(d, 2 + 8 * k)))
    }
}

/// Read the assignments back out of a persisted record.
pub fn cfg_load(d: &[u8]) -> (r: Option<Vec<SavedAssign>>)
    ensures
        match r {
            Some(v) => saved_entries(d@) == Some(v@),
            None => saved_entries(d@) is None,
        },
{
    if d.len() < 2 {
        return None;
    }
    let count: usize = (d[0] as usize) | ((d[1] as usize) << 8usize);
    let b0 = d[0] as usize;
    let b1 = d[1] as usize;
    assert(b0 | (b1 << 8usize) == b0 + b1 * 256) by (bit_vector) requires b0 < 256, b1 < 256;
    let mut out: Vec<SavedAssign> = Vec::new();
    let mut off: usize = 2;
    let mut k: usize = 0;
    while k < count
        invariant_except_break
            2 <= off <= d@.len(),
            off == 2 + 8 * k,
            k <= count,
            k <= (d@.len() - 2) / 8,
            count == d@[0] as int + d@[1] as int * 256,
            out@.len() == k,
            forall|j: int| 0 <= j < k ==> out@[j] == saved_at(d@, 2 + 8 * j),
        ensures
            out@ =~= saved_entries(d@).unwrap(),
        decreases count - k,
    {
        if off + 8 > d.len() {
            assert(k == (d@.len() - 2) / 8) by (nonlinear_arith)
                requires off == 2 + 8 * k, off + 8 > d@.len(), off <= d@.len();
            break;
        }
        let seg = (d[off] as u16) | ((d[off + 1] as u16) << 8u16);
        let e = SavedAssign { seg, bus: d[off + 2], dev: d[off + 3], func: d[off + 4],
            domid: (d[off + 6] as u16) | ((d[off + 7] as u16) << 8u16) };
        assert(k + 1 <= (d@.len() - 2) / 8) by (nonlinear_arith)
            requires off == 2 + 8 * k, off + 8 <= d@.len();
        out.push(e);
        off = off + 8;
        k = k + 1;
    }
    Some(out)
}

/// Writing the assignments of `st` and reading the record back gives them
/// again, in order.
pub proof fn lemma_cfg_roundtrip(s: Seq<DevAssign>)
    requires
        s.len() <= 128,
    ensures
        saved_entries(cfg_record(s)) == Some(s.map_values(|a: DevAssign|
            SavedAssign { seg: a.seg, bus: a.bus, dev: a.dev, func: a.func, domid: a.domid })),
{
    lemma_cfg_entries(s);
    let d = cfg_record(s);
    let n = s.len() as u16;
    lemma_le16_roundtrip(n);
    assert(d[0] == le16(n)[0] && d[1] == le16(n)[1]);
    let b0 = le16(n)[0];
    let b1 = le16(n)[1];
    assert((b0 as u16) | ((b1 as u16) << 8u16) == b0 as int + b1 as int * 256) by (bit_vector);
    assert((d.len() - 2) / 8 == s.len());
    let want = s.map_values(|a: DevAssign|
        SavedAssign { seg: a.seg, bus: a.bus, dev: a.dev, func: a.func, domid: a.domid });
    let got = saved_entries(d).unwrap();
    assert forall|k: int| 0 <= k < s.len() implies got[k] == want[k] by {
        let a = s[k];
        assert(d[2 + 8 * k] == cfg_entries(s)[8 * k + 0]);
        assert(d[2 + 8 * k + 1] == cfg_entries(s)[8 * k + 1]);
        assert(d[2 + 8 * k + 2] == cfg_entries(s)[8 * k + 2]);
        assert(d[2 + 8 * k + 3] == cfg_entries(s)[8 * k + 3]);
        assert(d[2 + 8 * k + 4] == cfg_entries(s)[8 * k + 4]);
        assert(d[2 + 8 * k + 6] == cfg_entries(s)[8 * k + 6]);
        assert(d[2 + 8 * k + 7] == cfg_entries(s)[8 * k + 7]);
        lemma_le16_roundtrip(a.seg);
        lemma_le16_roundtrip(a.domid);
    }
    assert(got =~= want);
}

/// The line that reports one PCI endpoint found behind the remapping units.
pub open spec fn endpoint_line_spec(seg: u16, bus: u8, dev: u8, func: u8, vid: u16, did: u16, class: u8, subclass: u8) -> Seq<u8> {
    ascii("IOMMU: dev seg="@) + dec_digits(seg as nat) + ascii(" bus="@) + dec_digits(bus as nat)
        + ascii(" dev="@) + dec_digits(dev as nat) + ascii(" fn="@) + dec_digits(func as nat)
        + ascii(" vid=0x"@) + hex_digits(vid as nat) + ascii(" did=0x"@) + hex_digits(did as nat)
        + ascii(" class="@) + dec_digits(class as nat) + ascii("/"@) + dec_digits(subclass as nat)
        + ascii("\r\n"@)
}

pub fn endpoint_line(seg: u16, bus: u8, dev: u8, func: u8, vid: u16, did: u16, class: u8, subclass: u8) -> (r: Vec<u8>)
    ensures
        r@ == endpoint_line_spec(seg, bus, dev, func, vid, did, class, subclass),
{
    let mut out: Vec<u8> = Vec::new();
    push_str(&mut out, "IOMMU: dev seg=");
    push_dec(&mut out, seg as u32);
    push_str(&mut out, " bus=");
    push_dec(&mut out, bus as u32);
    push_str(&mut out, " dev=");
    push_dec(&mut out, dev as u32);
    push_str(&mut out, " fn=");
    push_dec(&mut out, func as u32);
    push_str(&mut out, " vid=0x");
    push_hex(&mut out, vid as u64);
    push_str(&mut out, " did=0x");
    push_hex(&mut out, did as u64);
    push_str(&mut out, " class=");
    push_dec(&mut out, class as u32);
    push_str(&mut out, "/");
    push_dec(&mut out, subclass as u32);
    push_str(&mut out, "\r\n");
    out
}

/// Whether a function with vendor `v` and device `d` passes the optional
/// vendor and device filters.
pub open spec fn id_filter_spec(vid: Option<u16>, did: Option<u16>, v: u16, d: u16) -> bool {
    (vid matches Some(w) ==> w == v) && (did matches Some(w) ==> w == d)
}

pub fn id_filter(vid: Option<u16>, did: Option<u16>, v: u16, d: u16) -> (r: bool)
    ensures
        r == id_filter_spec(vid, did, v, d),
{
    let vok = match vid { Some(w) => w == v, None => true };
    let dok = match did { Some(w) => w == d, None => true };
    vok && dok
}

/// The line that reports a function matched by a vendor/device search.
pub open spec fn find_line_spec(seg: u16, bus: u8, dev: u8, func: u8, vid: u16, did: u16) -> Seq<u8> {
    ascii("PCI: seg="@) + dec_digits(seg as nat) + ascii(" b="@) + dec_digits(bus as nat)
        + ascii(" d="@) + dec_digits(dev as nat) + ascii(" f="@) + dec_digits(func as nat)
        + ascii(" vid=0x"@) + hex_digits(vid as nat) + ascii(" did=0x"@) + hex_digits(did as nat)
        + ascii("\r\n"@)
}

pub fn find_line(seg: u16, bus: u8, dev: u8, func: u8, vid: u16, did: u16) -> (r: Vec<u8>)
    ensures
        r@ == find_line_spec(seg, bus, dev, func, vid, did),
{
    let mut out: Vec<u8> = Vec::new();
    push_str(&mut out, "PCI: seg=");
    push_dec(&mut out, seg as u32);
    push_str(&mut out, " b=");
    push_dec(&mut out, bus as u32);
    push_str(&mut out, " d=");
    push_dec(&mut out, dev as u32);
    push_str(&mut out, " f=");
    push_dec(&mut out, func as u32);
    push_str(&mut out, " vid=0x");
    push_hex(&mut out, vid as u64);
    push_str(&mut out, " did=0x");
    push_hex(&mut out, did as u64);
    push_str(&mut out, "\r\n");
    out
}

/// The acknowledgement of a class filter.
pub open spec fn class_filter_line_spec(class: u32, subclass: u32) -> Seq<u8> {
    ascii("filter: class="@) + dec_digits(class as nat) + ascii("/"@) + dec_digits(subclass as nat) + ascii("\r\n"@)
}

pub fn class_filter_line(class: u32, subclass: u32) -> (r: Vec<u8>)
    ensures
        r@ == class_filter_line_spec(class, subclass),
{
    let mut out: Vec<u8> = Vec::new();
    push_str(&mut out, "filter: class=");
    push_dec(&mut out, class);
    push_str(&mut out, "/");
    push_dec(&mut out, subclass);
    push_str(&mut out, "\r\n");
    out
}

} // verus!
