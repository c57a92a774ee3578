//! ACPI table parsing over the bytes of each table: checksums, the RSDP, the
//! XSDT/RSDT search, and the MADT, MCFG, DMAR and IVRS entry walks.

use vstd::prelude::*;
use crate::util::bytes::le32_value;
use crate::util::format::{ascii, dec_digits, hex_digits, push_bytes, push_dec, push_hex, push_str};

verus! {

/// Length of a system description table header.
pub const SDT_HEADER_LEN: usize = 36;
/// Offset of the first MADT interrupt controller structure.
pub const MADT_ENTRIES_OFF: usize = 44;
/// Offset of the first MCFG allocation, and the allocation size.
pub const MCFG_ENTRIES_OFF: usize = 44;
pub const MCFG_ALLOC_LEN: usize = 16;
/// Offset of the first DMAR remapping structure.
pub const DMAR_ENTRIES_OFF: usize = 48;
/// Offset of the first IVRS entry.
pub const IVRS_ENTRIES_OFF: usize = 40;

/// Table signatures.
pub open spec fn sig_madt() -> Seq<u8> { seq![65u8, 80, 73, 67] }
pub open spec fn sig_fadt() -> Seq<u8> { seq![70u8, 65, 67, 80] }
pub open spec fn sig_mcfg() -> Seq<u8> { seq![77u8, 67, 70, 71] }
pub open spec fn sig_dmar() -> Seq<u8> { seq![68u8, 77, 65, 82] }
pub open spec fn sig_ivrs() -> Seq<u8> { seq![73u8, 86, 82, 83] }

/// Sum of the bytes modulo 256.
pub open spec fn checksum(s: Seq<u8>) -> u8
    decreases s.len(),
{
    if s.len() == 0 { 0 } else { ((checksum(s.drop_last()) + s.last()) % 256) as u8 }
}

/// Byte sum of `bytes` modulo 256 (zero for a valid table).
pub fn calc_checksum(bytes: &[u8]) -> (sum: u8)
    ensures
        sum == checksum(bytes@),
{
    let mut sum: u8 = 0;
    let mut i: usize = 0;
    while i < bytes.len()
        invariant
            i <= bytes@.len(),
            sum == checksum(bytes@.subrange(0, i as int)),
        decreases bytes@.len() - i,
    {
        proof {
            let s = bytes@.subrange(0, i + 1);
            assert(s.drop_last() =~= bytes@.subrange(0, i as int));
        }
        sum = sum.wrapping_add(bytes[i]);
        i = i + 1;
    }
    assert(bytes@.subrange(0, bytes@.len() as int) =~= bytes@);
    sum
}

/// 16-bit little-endian value at `off`.
pub open spec fn le16_at(t: Seq<u8>, off: int) -> u16 {
    ((t[off] as u16) | ((t[off + 1] as u16) << 8u16)) as u16
}

/// 32-bit little-endian value at `off`.
pub open spec fn le32_at(t: Seq<u8>, off: int) -> u32 {
    le32_value(t.subrange(off, off + 4))
}

/// 64-bit little-endian value at `off`.
pub open spec fn le64_at(t: Seq<u8>, off: int) -> u64 {
    (le32_at(t, off) as u64) | ((le32_at(t, off + 4) as u64) << 32u64)
}

pub fn read_le16(t: &[u8], off: usize) -> (r: u16)
    requires
        off + 2 <= t@.len(),
    ensures
        r == le16_at(t@, off as int),
{
    (t[off] as u16) | ((t[off + 1] as u16) << 8u16)
}

pub fn read_le32(t: &[u8], off: usize) -> (r: u32)
    requires
        off + 4 <= t@.len(),
    ensures
        r == le32_at(t@, off as int),
{
    let r = (t[off] as u32) | ((t[off + 1] as u32) << 8u32) | ((t[off + 2] as u32) << 16u32) | ((t[off + 3] as u32) << 24u32);
    assert(r == le32_value(t@.subrange(off as int, off + 4)));
    r
}

pub fn read_le64(t: &[u8], off: usize) -> (r: u64)
    requires
        off + 8 <= t@.len(),
    ensures
        r == le64_at(t@, off as int),
{
    let _n = t.len();
    let lo = read_le32(t, off);
    let hi = read_le32(t, off + 4);
    (lo as u64) | ((hi as u64) << 32u64)
}

/// The table's length field.
pub open spec fn sdt_length(t: Seq<u8>) -> u32 {
    le32_at(t, 4)
}

/// A table is valid when its header is whole, its length field covers at
/// least the header and at most the bytes at hand, and those `length` bytes
/// sum to zero.
pub open spec fn sdt_valid(t: Seq<u8>) -> bool {
    &&& t.len() >= SDT_HEADER_LEN
    &&& sdt_length(t) >= SDT_HEADER_LEN
    &&& sdt_length(t) <= t.len()
    &&& checksum(t.subrange(0, sdt_length(t) as int)) == 0
}

/// Check a system description table.
pub fn validate_sdt(t: &[u8]) -> (ok: bool)
    ensures
        ok == sdt_valid(t@),
{
    if t.len() < SDT_HEADER_LEN {
        return false;
    }
    let len = read_le32(t, 4);
    if (len as usize) < SDT_HEADER_LEN || len as usize > t.len() {
        return false;
    }
    let sum = calc_checksum(slice_prefix(t, len as usize));
    sum == 0
}

fn slice_prefix(t: &[u8], n: usize) -> (r: &[u8])
    requires
        n <= t@.len(),
    ensures
        r@ == t@.subrange(0, n as int),
{
    let (a, _) = t.split_at(n);
    a
}

/// Whether the table's signature is `sig`.
pub open spec fn has_sig(t: Seq<u8>, sig: Seq<u8>) -> bool {
    t.len() >= 4 && t.subrange(0, 4) == sig
}

fn sig_is(t: &[u8], sig: &[u8; 4]) -> (r: bool)
    ensures
        r == has_sig(t@, sig@),
{
    if t.len() < 4 {
        return false;
    }
    let r = t[0] == sig[0] && t[1] == sig[1] && t[2] == sig[2] && t[3] == sig[3];
    proof {
        if r {
            assert(t@.subrange(0, 4) =~= sig@);
        } else {
            assert(!(t@.subrange(0, 4) =~= sig@) ==> t@.subrange(0, 4) != sig@);
            if t@.subrange(0, 4) == sig@ {
                assert(t@.subrange(0, 4)[0] == sig@[0] && t@.subrange(0, 4)[1] == sig@[1]);
                assert(t@.subrange(0, 4)[2] == sig@[2] && t@.subrange(0, 4)[3] == sig@[3]);
            }
        }
    }
    r
}

// ---------------------------------------------------------------------------
// MADT

/// A processor entry of the MADT.
#[derive(Clone, Copy, Debug, PartialEq, Eq, Structural)]
pub enum CpuEntry {
    /// Processor local APIC (type 0): its 8-bit APIC ID.
    LocalApic(u32),
    /// Processor local x2APIC (type 9): its 32-bit x2APIC ID.
    X2Apic(u32),
}

/// The processor entries of a MADT from offset `off`, up to `total` bytes.
/// A structure with a length below 2 or past the end stops the walk; type 0
/// entries need 8 bytes and type 9 entries 16 to count.
pub open spec fn madt_walk(t: Seq<u8>, off: int, total: int) -> Seq<CpuEntry>
    decreases total - off,
{
    if off < 0 || off + 2 > total || total > t.len() {
        Seq::empty()
    } else {
        let etype = t[off];
        let elen = t[off + 1] as int;
        if elen < 2 || elen > total - off {
            Seq::empty()
        } else {
            let here: Seq<CpuEntry> = if etype == 0 && elen >= 8 {
                seq![CpuEntry::LocalApic(t[off + 3] as u32)]
            } else if etype == 9 && elen >= 16 {
                seq![CpuEntry::X2Apic(le32_at(t, off + 4))]
            } else {
                Seq::empty()
            };
            here + madt_walk(t, off + elen, total)
        }
    }
}

/// The processor entries of the MADT `t`, in table order.
pub fn madt_list_cpus_from(t: &[u8]) -> (r: Vec<CpuEntry>)
    requires
        t@.len() >= SDT_HEADER_LEN,
        sdt_length(t@) <= t@.len(),
    ensures
        r@ == madt_walk(t@, MADT_ENTRIES_OFF as int, sdt_length(t@) as int),
{
    let total = read_le32(t, 4) as usize;
    let mut off: usize = MADT_ENTRIES_OFF;
    let mut out: Vec<CpuEntry> = Vec::new();
    while off <= total && total - off >= 2
        invariant
            total == sdt_length(t@),
            total <= t@.len(),
            off >= MADT_ENTRIES_OFF,
            out@ + madt_walk(t@, off as int, total as int)
                == madt_walk(t@, MADT_ENTRIES_OFF as int, total as int),
        decreases total - off,
    {
        let etype = t[off];
        let elen = t[off + 1] as usize;
        if elen < 2 || elen > total - off {
            proof {
                assert(madt_walk(t@, off as int, total as int) == Seq::<CpuEntry>::empty());
                assert(out@ + Seq::<CpuEntry>::empty() =~= out@);
            }
            return out;
        }
        let ghost before = out@;
        if etype == 0 && elen >= 8 {
            out.push(CpuEntry::LocalApic(t[off + 3] as u32));
        } else if etype == 9 && elen >= 16 {
            let id = read_le32(t, off + 4);
            out.push(CpuEntry::X2Apic(id));
        }
        proof {
            let here: Seq<CpuEntry> = if etype == 0 && elen >= 8 {
                seq![CpuEntry::LocalApic(t@[off + 3] as u32)]
            } else if etype == 9 && elen >= 16 {
                seq![CpuEntry::X2Apic(le32_at(t@, off + 4))]
            } else {
                Seq::empty()
            };
            assert(out@ =~= before + here);
            assert(madt_walk(t@, off as int, total as int) == here + madt_walk(t@, off + elen, total as int));
            assert(before + (here + madt_walk(t@, off + elen, total as int))
                =~= out@ + madt_walk(t@, off + elen, total as int));
        }
        off = off + elen;
    }
    proof {
        assert(madt_walk(t@, off as int, total as int) == Seq::<CpuEntry>::empty());
        assert(out@ + Seq::<CpuEntry>::empty() =~= out@);
    }
    out
}

/// Whether `e` is what the interrupt controller structure at `o` (ending by
/// `total`) describes: a processor local APIC (type 0, at least 8 bytes) with
/// the APIC ID of byte 3, or a processor local x2APIC (type 9, at least 16
/// bytes) with the x2APIC ID of bytes 4..8.
pub open spec fn madt_entry_at(t: Seq<u8>, o: int, total: int, e: CpuEntry) -> bool {
    &&& 0 <= o
    &&& o + 2 <= total <= t.len()
    &&& o + t[o + 1] <= total
    &&& {
        ||| t[o] == 0 && t[o + 1] >= 8 && e == CpuEntry::LocalApic(t[o + 3] as u32)
        ||| t[o] == 9 && t[o + 1] >= 16 && e == CpuEntry::X2Apic(le32_at(t, o + 4))
    }
}

/// Every processor entry of the walk is read from a structure of the table at
/// or after `off`, in table order: the `k`-th entry is what the structure at
/// the returned offset describes, and the entries after it are those of the
/// structures that follow that one.
pub proof fn law_madt_walk(t: Seq<u8>, off: int, total: int, k: int) -> (o: int)
    requires
        0 <= k < madt_walk(t, off, total).len(),
    ensures
        off <= o,
        madt_entry_at(t, o, total, madt_walk(t, off, total)[k]),
        madt_walk(t, o + t[o + 1], total) =~= madt_walk(t, off, total).skip(k + 1),
    decreases total - off,
{
    let w = madt_walk(t, off, total);
    let etype = t[off];
    let elen = t[off + 1] as int;
    let here: Seq<CpuEntry> = if etype == 0 && elen >= 8 {
        seq![CpuEntry::LocalApic(t[off + 3] as u32)]
    } else if etype == 9 && elen >= 16 {
        seq![CpuEntry::X2Apic(le32_at(t, off + 4))]
    } else {
        Seq::empty()
    };
    let rest = madt_walk(t, off + elen, total);
    assert(w == here + rest);
    if k < here.len() {
        assert(rest =~= w.skip(k + 1));
        off
    } else {
        let k2 = k - here.len();
        assert(w[k] == rest[k2]);
        let o = law_madt_walk(t, off + elen, total, k2);
        assert(rest.skip(k2 + 1) =~= w.skip(k + 1));
        o
    }
}

/// The local APIC IDs (type 0 entries) other than the bootstrap processor's
/// `bsp_apic`: the processors that INIT/SIPI must start.
pub open spec fn ap_ids(cpus: Seq<CpuEntry>, bsp_apic: u32) -> Seq<u32>
    decreases cpus.len(),
{
    if cpus.len() == 0 {
        Seq::empty()
    } else {
        let rest = ap_ids(cpus.drop_last(), bsp_apic);
        match cpus.last() {
            CpuEntry::LocalApic(id) => if id != bsp_apic { rest.push(id) } else { rest },
            CpuEntry::X2Apic(_) => rest,
        }
    }
}

/// APIC IDs of the application processors listed in the MADT `t`.
pub fn madt_ap_ids(t: &[u8], bsp_apic: u32) -> (r: Vec<u32>)
    requires
        t@.len() >= SDT_HEADER_LEN,
        sdt_length(t@) <= t@.len(),
    ensures
        r@ == ap_ids(madt_walk(t@, MADT_ENTRIES_OFF as int, sdt_length(t@) as int), bsp_apic),
        forall|k: int| 0 <= k < r@.len() ==> #[trigger] r@[k] != bsp_apic,
        forall|x: u32| r@.contains(x) <==> x != bsp_apic
            && madt_walk(t@, MADT_ENTRIES_OFF as int, sdt_length(t@) as int).contains(CpuEntry::LocalApic(x)),
{
    let cpus = madt_list_cpus_from(t);
    let mut out: Vec<u32> = Vec::new();
    let mut i: usize = 0;
    while i < cpus.len()
        invariant
            i <= cpus@.len(),
            out@ == ap_ids(cpus@.subrange(0, i as int), bsp_apic),
        decreases cpus@.len() - i,
    {
        proof {
            assert(cpus@.subrange(0, i + 1).drop_last() =~= cpus@.subrange(0, i as int));
        }
        match cpus[i] {
            CpuEntry::LocalApic(id) => {
                if id != bsp_apic {
                    out.push(id);
                }
            },
            CpuEntry::X2Apic(_) => {},
        }
        i = i + 1;
    }
    assert(cpus@.subrange(0, cpus@.len() as int) =~= cpus@);
    proof {
        law_ap_ids(cpus@, bsp_apic);
    }
    out
}

/// The application processors are exactly the local APIC entries other than
/// the bootstrap processor: no id in the list is `bsp_apic`, every local APIC
/// id but `bsp_apic` is in it, nothing else is, and none of them is left out
/// or doubled (one per local APIC entry that is not the bootstrap processor).
pub proof fn law_ap_ids(cpus: Seq<CpuEntry>, bsp_apic: u32)
    ensures
        forall|k: int| 0 <= k < ap_ids(cpus, bsp_apic).len() ==> #[trigger] ap_ids(cpus, bsp_apic)[k] != bsp_apic,
        forall|x: u32| ap_ids(cpus, bsp_apic).contains(x) <==> x != bsp_apic && cpus.contains(CpuEntry::LocalApic(x)),
        ap_ids(cpus, bsp_apic).len() == cpus.filter(|c: CpuEntry| c matches CpuEntry::LocalApic(id) && id != bsp_apic).len(),
    decreases cpus.len(),
{
    let ap = ap_ids(cpus, bsp_apic);
    let pred = |c: CpuEntry| c matches CpuEntry::LocalApic(id) && id != bsp_apic;
    if cpus.len() > 0 {
        let init = cpus.drop_last();
        law_ap_ids(init, bsp_apic);
        let rest = ap_ids(init, bsp_apic);
        assert(cpus =~= init.push(cpus.last()));
        init.lemma_filter_push(cpus.last(), pred);
        assert forall|x: u32| ap.contains(x) <==> x != bsp_apic && cpus.contains(CpuEntry::LocalApic(x)) by {
            if ap.contains(x) {
                let k = choose|k: int| 0 <= k < ap.len() && ap[k] == x;
                if k < rest.len() {
                    assert(rest[k] == x);
                    assert(rest.contains(x));
                    let i = choose|i: int| 0 <= i < init.len() && init[i] == CpuEntry::LocalApic(x);
                    assert(cpus[i] == CpuEntry::LocalApic(x));
                } else {
                    assert(cpus[cpus.len() - 1] == CpuEntry::LocalApic(x));
                }
            }
            if x != bsp_apic && cpus.contains(CpuEntry::LocalApic(x)) {
                let i = choose|i: int| 0 <= i < cpus.len() && cpus[i] == CpuEntry::LocalApic(x);
                if i < init.len() {
                    assert(init[i] == CpuEntry::LocalApic(x));
                    assert(init.contains(CpuEntry::LocalApic(x)));
                    assert(rest.contains(x));
                    let k = choose|k: int| 0 <= k < rest.len() && rest[k] == x;
                    match cpus.last() {
                        CpuEntry::LocalApic(id) => {
                            if id != bsp_apic {
                                assert(ap == rest.push(id));
                            } else {
                                assert(ap == rest);
                            }
                        },
                        CpuEntry::X2Apic(_) => {
                            assert(ap == rest);
                        },
                    }
                    assert(ap[k] == x);
                } else {
                    assert(ap[ap.len() - 1] == x);
                }
            }
        }
    } else {
        assert(cpus.filter(pred) =~= Seq::<CpuEntry>::empty()) by {
            reveal_with_fuel(Seq::filter, 1);
        }
    }
}

// ---------------------------------------------------------------------------
// MCFG

/// One PCIe enhanced configuration space allocation.
#[derive(Clone, Copy, Debug, PartialEq, Eq, Structural)]
pub struct McfgAllocation {
    pub base_address: u64,
    pub pci_segment: u16,
    pub start_bus: u8,
    pub end_bus: u8,
}

pub open spec fn mcfg_alloc_at(t: Seq<u8>, off: int) -> McfgAllocation {
    McfgAllocation {
        base_address: le64_at(t, off),
        pci_segment: le16_at(t, off + 8),
        start_bus: t[off + 10],
        end_bus: t[off + 11],
    }
}

/// The whole 16-byte allocations between `off` and `total`.
pub open spec fn mcfg_walk(t: Seq<u8>, off: int, total: int) -> Seq<McfgAllocation>
    decreases total - off,
{
    if off < 0 || off + MCFG_ALLOC_LEN > total || total > t.len() {
        Seq::empty()
    } else {
        seq![mcfg_alloc_at(t, off)] + mcfg_walk(t, off + MCFG_ALLOC_LEN, total)
    }
}

/// The ECAM allocations of the MCFG `t`, in table order.
pub fn mcfg_list_segments_from(t: &[u8]) -> (r: Vec<McfgAllocation>)
    requires
        t@.len() >= SDT_HEADER_LEN,
        sdt_length(t@) <= t@.len(),
    ensures
        r@ == mcfg_walk(t@, MCFG_ENTRIES_OFF as int, sdt_length(t@) as int),
        forall|k: int| 0 <= k < r@.len() ==> {
            let o = MCFG_ENTRIES_OFF + 16 * k;
            &&& o + 16 <= sdt_length(t@)
            &&& (#[trigger] r@[k]).base_address == le64_at(t@, o)
            &&& r@[k].pci_segment == le16_at(t@, o + 8)
            &&& r@[k].start_bus == t@[o + 10]
            &&& r@[k].end_bus == t@[o + 11]
        },
{
    let total = read_le32(t, 4) as usize;
    let mut off: usize = MCFG_ENTRIES_OFF;
    let mut out: Vec<McfgAllocation> = Vec::new();
    while off <= total && total - off >= MCFG_ALLOC_LEN
        invariant
            total == sdt_length(t@),
            total <= t@.len(),
            off >= MCFG_ENTRIES_OFF,
            out@ + mcfg_walk(t@, off as int, total as int)
                == mcfg_walk(t@, MCFG_ENTRIES_OFF as int, total as int),
        decreases total - off,
    {
        let a = McfgAllocation {
            base_address: read_le64(t, off),
            pci_segment: read_le16(t, off + 8),
            start_bus: t[off + 10],
            end_bus: t[off + 11],
        };
        let ghost before = out@;
        out.push(a);
        proof {
            assert(mcfg_walk(t@, off as int, total as int)
                == seq![a] + mcfg_walk(t@, off + MCFG_ALLOC_LEN, total as int));
            assert(before + (seq![a] + mcfg_walk(t@, off + MCFG_ALLOC_LEN, total as int))
                =~= out@ + mcfg_walk(t@, off + MCFG_ALLOC_LEN, total as int));
        }
        off = off + MCFG_ALLOC_LEN;
    }
    proof {
        assert(out@ + Seq::<McfgAllocation>::empty() =~= out@);
        law_mcfg_walk(t@, MCFG_ENTRIES_OFF as int, total as int);
    }
    out
}

/// The allocations follow one another every 16 bytes from `off` while a
/// whole one fits below `total`, and the `k`-th is read from its own bytes:
/// the base address from bytes 0..8, the segment from 8..10, the start bus
/// from byte 10 and the end bus from byte 11.
pub proof fn law_mcfg_walk(t: Seq<u8>, off: int, total: int)
    ensures
        0 <= off && total <= t.len() && off <= total
            ==> mcfg_walk(t, off, total).len() == (total - off) / 16,
        forall|k: int| 0 <= k < mcfg_walk(t, off, total).len() ==> {
            let o = off + 16 * k;
            &&& 0 <= off
            &&& o + 16 <= total <= t.len()
            &&& (#[trigger] mcfg_walk(t, off, total)[k]).base_address == le64_at(t, o)
            &&& mcfg_walk(t, off, total)[k].pci_segment == le16_at(t, o + 8)
            &&& mcfg_walk(t, off, total)[k].start_bus == t[o + 10]
            &&& mcfg_walk(t, off, total)[k].end_bus == t[o + 11]
        },
    decreases total - off,
{
    let w = mcfg_walk(t, off, total);
    if !(off < 0 || off + MCFG_ALLOC_LEN > total || total > t.len()) {
        law_mcfg_walk(t, off + 16, total);
        let rest = mcfg_walk(t, off + 16, total);
        assert(w == seq![mcfg_alloc_at(t, off)] + rest);
        assert forall|k: int| 0 <= k < w.len() implies {
            let o = off + 16 * k;
            &&& 0 <= off
            &&& o + 16 <= total <= t.len()
            &&& (#[trigger] w[k]).base_address == le64_at(t, o)
            &&& w[k].pci_segment == le16_at(t, o + 8)
            &&& w[k].start_bus == t[o + 10]
            &&& w[k].end_bus == t[o + 11]
        } by {
            if k > 0 {
                assert(w[k] == rest[k - 1]);
                assert(off + 16 + 16 * (k - 1) == off + 16 * k);
            }
        }
    }
}

// ---------------------------------------------------------------------------
// IVRS

/// An IVRS entry: its type and length.
#[derive(Clone, Copy, Debug, PartialEq, Eq, Structural)]
pub struct IvrsEntry {
    pub entry_type: u8,
    pub len: u16,
}

/// The IVRS entries from `off` to `total`; an entry shorter than 4 bytes or
/// running past the end stops the walk.
pub open spec fn ivrs_walk(t: Seq<u8>, off: int, total: int) -> Seq<IvrsEntry>
    decreases total - off,
{
    if off < 0 || off + 4 > total || total > t.len() {
        Seq::empty()
    } else {
        let len = le16_at(t, off + 2) as int;
        if len < 4 || len > total - off {
            Seq::empty()
        } else {
            seq![IvrsEntry { entry_type: t[off], len: len as u16 }] + ivrs_walk(t, off + len, total)
        }
    }
}

/// The IVRS entries follow one another in the table from `off`: the `k`-th
/// is the entry at the returned offset (the first at `off`), with the type of
/// its byte 0 and the length of its bytes 2..4, which it fits in, and the
/// entries after it start where it ends.
pub proof fn law_ivrs_walk(t: Seq<u8>, off: int, total: int, k: int) -> (o: int)
    requires
        0 <= k < ivrs_walk(t, off, total).len(),
    ensures
        off <= o,
        k == 0 ==> o == off,
        o + 4 <= total <= t.len(),
        4 <= le16_at(t, o + 2) <= total - o,
        ivrs_walk(t, off, total)[k] == (IvrsEntry { entry_type: t[o], len: le16_at(t, o + 2) }),
        ivrs_walk(t, o + le16_at(t, o + 2), total) =~= ivrs_walk(t, off, total).skip(k + 1),
    decreases total - off,
{
    let w = ivrs_walk(t, off, total);
    let len = le16_at(t, off + 2) as int;
    let rest = ivrs_walk(t, off + len, total);
    assert(w == seq![IvrsEntry { entry_type: t[off], len: len as u16 }] + rest);
    if k == 0 {
        assert(rest =~= w.skip(1));
        off
    } else {
        assert(w[k] == rest[k - 1]);
        let o = law_ivrs_walk(t, off + len, total, k - 1);
        assert(rest.skip(k) =~= w.skip(k + 1));
        o
    }
}

/// The entries of the IVRS `t`, in table order.
pub fn ivrs_list_entries_from(t: &[u8]) -> (r: Vec<IvrsEntry>)
    requires
        t@.len() >= SDT_HEADER_LEN,
        sdt_length(t@) <= t@.len(),
    ensures
        r@ == ivrs_walk(t@, IVRS_ENTRIES_OFF as int, sdt_length(t@) as int),
{
    let total = read_le32(t, 4) as usize;
    let mut off: usize = IVRS_ENTRIES_OFF;
    let mut out: Vec<IvrsEntry> = Vec::new();
    while off <= total && total - off >= 4
        invariant
            total == sdt_length(t@),
            total <= t@.len(),
            off >= IVRS_ENTRIES_OFF,
            out@ + ivrs_walk(t@, off as int, total as int)
                == ivrs_walk(t@, IVRS_ENTRIES_OFF as int, total as int),
        decreases total - off,
    {
        let len = read_le16(t, off + 2) as usize;
        if len < 4 || len > total - off {
            proof {
                assert(out@ + Seq::<IvrsEntry>::empty() =~= out@);
            }
            return out;
        }
        let e = IvrsEntry { entry_type: t[off], len: len as u16 };
        let ghost before = out@;
        out.push(e);
        proof {
            assert(ivrs_walk(t@, off as int, total as int) == seq![e] + ivrs_walk(t@, off + len, total as int));
            assert(before + (seq![e] + ivrs_walk(t@, off + len, total as int))
                =~= out@ + ivrs_walk(t@, off + len, total as int));
        }
        off = off + len;
    }
    proof {
        assert(out@ + Seq::<IvrsEntry>::empty() =~= out@);
    }
    out
}

// ---------------------------------------------------------------------------
// DMAR

/// Fields of a DMAR remapping structure, by type.
#[derive(Clone, Copy, Debug, PartialEq, Eq, Structural)]
pub enum DmarDetail {
    /// Remapping hardware unit (type 0, at least 16 bytes): segment and register base.
    Drhd { seg: u16, reg_base: u64 },
    /// Reserved memory region (type 1, at least 24 bytes): the 16-bit field at
    /// offset 4 and the 64-bit fields at offsets 6 and 14.
    Rmrr { seg: u16, base: u64, limit: u64 },
    /// Root port ATS capability (type 2, at least 8 bytes): segment and flags.
    Atsr { seg: u16, flags: u8 },
    /// Any other type, or a structure too short for its type.
    Other,
}

/// One item of the DMAR listing: a remapping structure, or a device scope
/// entry of the structure before it.
#[derive(Clone, Copy, Debug, PartialEq, Eq, Structural)]
pub enum DmarItem {
    Struct { typ: u16, len: u16, detail: DmarDetail },
    Scope { scope_type: u8, scope_len: u16, start_bus: u8 },
}

/// The decoded fields of the structure at `off`, and where its device scopes
/// start (0 when it has none).
pub open spec fn dmar_detail(t: Seq<u8>, off: int, typ: u16, len: int) -> (DmarDetail, int) {
    if typ == 0 && len >= 16 {
        (DmarDetail::Drhd { seg: le16_at(t, off + 6), reg_base: le64_at(t, off + 8) }, 16)
    } else if typ == 1 && len >= 24 {
        (DmarDetail::Rmrr { seg: le16_at(t, off + 4), base: le64_at(t, off + 6), limit: le64_at(t, off + 14) }, 24)
    } else if typ == 2 && len >= 8 {
        (DmarDetail::Atsr { seg: le16_at(t, off + 6), flags: t[off + 4] }, 8)
    } else {
        (DmarDetail::Other, 0)
    }
}

/// Device scope entries from `s_off` to `end`; an entry shorter than 6 bytes
/// or running past the end stops the walk.
pub open spec fn dmar_scopes(t: Seq<u8>, s_off: int, end: int) -> Seq<DmarItem>
    decreases end - s_off,
{
    if s_off < 0 || s_off + 6 > end || end > t.len() {
        Seq::empty()
    } else {
        let s_len = le16_at(t, s_off + 1) as int;
        if s_len < 6 || s_off + s_len > end {
            Seq::empty()
        } else {
            seq![DmarItem::Scope { scope_type: t[s_off], scope_len: s_len as u16, start_bus: t[s_off + 4] }]
                + dmar_scopes(t, s_off + s_len, end)
        }
    }
}

/// The items of one structure at `off` of length `len`.
pub open spec fn dmar_struct_items(t: Seq<u8>, off: int, typ: u16, len: int) -> Seq<DmarItem> {
    let (detail, hs) = dmar_detail(t, off, typ, len);
    seq![DmarItem::Struct { typ, len: len as u16, detail }]
        + if hs > 0 && hs < len { dmar_scopes(t, off + hs, off + len) } else { Seq::empty() }
}

/// The remapping structures (each followed by its device scopes) from `off`
/// to `total`; a structure shorter than 4 bytes or running past the end stops the walk.
pub open spec fn dmar_walk(t: Seq<u8>, off: int, total: int) -> Seq<DmarItem>
    decreases total - off,
{
    if off < 0 || off + 4 > total || total > t.len() {
        Seq::empty()
    } else {
        let typ = le16_at(t, off);
        let len = le16_at(t, off + 2) as int;
        if len < 4 || off + len > total {
            Seq::empty()
        } else {
            dmar_struct_items(t, off, typ, len) + dmar_walk(t, off + len, total)
        }
    }
}

/// Whether `item` is what the DMAR bytes at `o` describe, within `total`: a
/// remapping structure with the type of bytes 0..2 and the length of bytes
/// 2..4 (at least 4), whose fields are those its type places (a DRHD of at
/// least 16 bytes: segment at 6, register base at 8; an RMRR of at least 24:
/// the fields at 4, 6 and 14; an ATSR of at least 8: flags at 4, segment at
/// 6); or a device scope entry with the type of byte 0, the length of bytes
/// 1..3 (at least 6) and the start bus of byte 4.
pub open spec fn dmar_item_at(t: Seq<u8>, o: int, total: int, item: DmarItem) -> bool {
    &&& 0 <= o
    &&& total <= t.len()
    &&& match item {
        DmarItem::Struct { typ, len, detail } => {
            &&& o + 4 <= total
            &&& typ == le16_at(t, o)
            &&& len == le16_at(t, o + 2)
            &&& 4 <= len && o + len <= total
            &&& detail == if typ == 0 && len >= 16 {
                DmarDetail::Drhd { seg: le16_at(t, o + 6), reg_base: le64_at(t, o + 8) }
            } else if typ == 1 && len >= 24 {
                DmarDetail::Rmrr { seg: le16_at(t, o + 4), base: le64_at(t, o + 6), limit: le64_at(t, o + 14) }
            } else if typ == 2 && len >= 8 {
                DmarDetail::Atsr { seg: le16_at(t, o + 6), flags: t[o + 4] }
            } else {
                DmarDetail::Other
            }
        },
        DmarItem::Scope { scope_type, scope_len, start_bus } => {
            &&& o + 6 <= total
            &&& scope_type == t[o]
            &&& scope_len == le16_at(t, o + 1)
            &&& 6 <= scope_len && o + scope_len <= total
            &&& start_bus == t[o + 4]
        },
    }
}

proof fn lemma_dmar_scopes(t: Seq<u8>, s_off: int, end: int, k: int) -> (o: int)
    requires
        0 <= k < dmar_scopes(t, s_off, end).len(),
    ensures
        s_off <= o,
        dmar_item_at(t, o, end, dmar_scopes(t, s_off, end)[k]),
        dmar_scopes(t, s_off, end)[k] is Scope,
    decreases end - s_off,
{
    let w = dmar_scopes(t, s_off, end);
    let s_len = le16_at(t, s_off + 1) as int;
    let rest = dmar_scopes(t, s_off + s_len, end);
    assert(w == seq![w[0]] + rest);
    if k == 0 {
        s_off
    } else {
        assert(w[k] == rest[k - 1]);
        lemma_dmar_scopes(t, s_off + s_len, end, k - 1)
    }
}

/// Every item of the DMAR walk is read from the table at or after `off`: the
/// `k`-th is what the bytes at the returned offset describe (a remapping
/// structure, or a device scope entry inside the structure before it).
pub proof fn law_dmar_walk(t: Seq<u8>, off: int, total: int, k: int) -> (o: int)
    requires
        0 <= k < dmar_walk(t, off, total).len(),
    ensures
        off <= o,
        dmar_item_at(t, o, total, dmar_walk(t, off, total)[k]),
    decreases total - off,
{
    let w = dmar_walk(t, off, total);
    let typ = le16_at(t, off);
    let len = le16_at(t, off + 2) as int;
    let items = dmar_struct_items(t, off, typ, len);
    let rest = dmar_walk(t, off + len, total);
    assert(w == items + rest);
    let (detail, hs) = dmar_detail(t, off, typ, len);
    let scopes: Seq<DmarItem> = if hs > 0 && hs < len { dmar_scopes(t, off + hs, off + len) } else { Seq::empty() };
    assert(items == seq![DmarItem::Struct { typ, len: len as u16, detail }] + scopes);
    if k == 0 {
        assert(w[0] == items[0]);
        off
    } else if k < items.len() {
        assert(w[k] == scopes[k - 1]);
        let o = lemma_dmar_scopes(t, off + hs, off + len, k - 1);
        o
    } else {
        assert(w[k] == rest[k - items.len()]);
        law_dmar_walk(t, off + len, total, k - items.len())
    }
}

fn dmar_scope_items(t: &[u8], start: usize, end: usize, out: &mut Vec<DmarItem>)
    requires
        end <= t@.len(),
    ensures
        final(out)@ == old(out)@ + dmar_scopes(t@, start as int, end as int),
{
    let mut s_off = start;
    while s_off <= end && end - s_off >= 6
        invariant
            end <= t@.len(),
            old(out)@ + dmar_scopes(t@, start as int, end as int)
                == out@ + dmar_scopes(t@, s_off as int, end as int),
        decreases end - s_off,
    {
        let s_len = read_le16(t, s_off + 1) as usize;
        if s_len < 6 || s_len > end - s_off {
            proof {
                assert(out@ + Seq::<DmarItem>::empty() =~= out@);
            }
            return;
        }
        let item = DmarItem::Scope { scope_type: t[s_off], scope_len: s_len as u16, start_bus: t[s_off + 4] };
        let ghost before = out@;
        out.push(item);
        proof {
            assert(dmar_scopes(t@, s_off as int, end as int) == seq![item] + dmar_scopes(t@, s_off + s_len, end as int));
            assert(before + (seq![item] + dmar_scopes(t@, s_off + s_len, end as int))
                =~= out@ + dmar_scopes(t@, s_off + s_len, end as int));
        }
        s_off = s_off + s_len;
    }
    proof {
        assert(out@ + Seq::<DmarItem>::empty() =~= out@);
    }
}

/// The remapping structures of the DMAR `t` with their device scopes, in table order.
pub fn dmar_list_structs_from(t: &[u8]) -> (r: Vec<DmarItem>)
    requires
        t@.len() >= SDT_HEADER_LEN,
        sdt_length(t@) <= t@.len(),
    ensures
        r@ == dmar_walk(t@, DMAR_ENTRIES_OFF as int, sdt_length(t@) as int),
{
    let total = read_le32(t, 4) as usize;
    let mut off: usize = DMAR_ENTRIES_OFF;
    let mut out: Vec<DmarItem> = Vec::new();
    while off <= total && total - off >= 4
        invariant
            total == sdt_length(t@),
            total <= t@.len(),
            off >= DMAR_ENTRIES_OFF,
            out@ + dmar_walk(t@, off as int, total as int)
                == dmar_walk(t@, DMAR_ENTRIES_OFF as int, total as int),
        decreases total - off,
    {
        let typ = read_le16(t, off);
        let len = read_le16(t, off + 2) as usize;
        if len < 4 || len > total - off {
            proof {
                assert(out@ + Seq::<DmarItem>::empty() =~= out@);
            }
            return out;
        }
        let ghost before = out@;
        let (detail, hs): (DmarDetail, usize) = if typ == 0 && len >= 16 {
            (DmarDetail::Drhd { seg: read_le16(t, off + 6), reg_base: read_le64(t, off + 8) }, 16)
        } else if typ == 1 && len >= 24 {
            (DmarDetail::Rmrr { seg: read_le16(t, off + 4), base: read_le64(t, off + 6), limit: read_le64(t, off + 14) }, 24)
        } else if typ == 2 && len >= 8 {
            (DmarDetail::Atsr { seg: read_le16(t, off + 6), flags: t[off + 4] }, 8)
        } else {
            (DmarDetail::Other, 0)
        };
        assert((detail, hs as int) == dmar_detail(t@, off as int, typ, len as int));
        out.push(DmarItem::Struct { typ, len: len as u16, detail });
        if hs > 0 && hs < len {
            dmar_scope_items(t, off + hs, off + len, &mut out);
        }
        proof {
            assert(out@ =~= before + dmar_struct_items(t@, off as int, typ, len as int));
            assert(dmar_walk(t@, off as int, total as int)
                == dmar_struct_items(t@, off as int, typ, len as int) + dmar_walk(t@, off + len, total as int));
            assert(before + (dmar_struct_items(t@, off as int, typ, len as int) + dmar_walk(t@, off + len, total as int))
                =~= out@ + dmar_walk(t@, off + len, total as int));
        }
        off = off + len;
    }
    proof {
        assert(out@ + Seq::<DmarItem>::empty() =~= out@);
    }
    out
}

// ---------------------------------------------------------------------------
// RSDP and the root tables

/// The Root System Description Pointer fields used to find the tables.
#[derive(Clone, Copy, Debug, PartialEq, Eq, Structural)]
pub struct Rsdp20 {
    pub revision: u8,
    pub rsdt_address: u32,
    pub length: u32,
    pub xsdt_address: u64,
}

/// Length of the RSDP structure (ACPI 2.0).
pub const RSDP_LEN: usize = 36;

/// "RSD PTR ".
pub open spec fn rsdp_sig() -> Seq<u8> {
    seq![82u8, 83, 68, 32, 80, 84, 82, 32]
}

/// Bytes the RSDP checksum covers: `length` from revision 2 on, else the first 20.
pub open spec fn rsdp_checked_len(b: Seq<u8>) -> int {
    if b[15] >= 2 { le32_at(b, 20) as int } else { 20 }
}

/// A valid RSDP: its signature, and a zero checksum over the covered bytes
/// (which must be at hand).
pub open spec fn rsdp_valid(b: Seq<u8>) -> bool {
    &&& b.len() >= RSDP_LEN
    &&& b.subrange(0, 8) == rsdp_sig()
    &&& rsdp_checked_len(b) <= b.len()
    &&& checksum(b.subrange(0, rsdp_checked_len(b))) == 0
}

pub open spec fn rsdp_fields(b: Seq<u8>) -> Rsdp20 {
    Rsdp20 { revision: b[15], rsdt_address: le32_at(b, 16), length: le32_at(b, 20), xsdt_address: le64_at(b, 24) }
}

/// Decode and check an RSDP.
pub fn parse_rsdp(b: &[u8]) -> (r: Option<Rsdp20>)
    ensures
        r == if rsdp_valid(b@) { Some(rsdp_fields(b@)) } else { None },
        r matches Some(x) ==> {
            &&& b@.len() >= 36
            &&& b@[0] == 0x52 && b@[1] == 0x53 && b@[2] == 0x44 && b@[3] == 0x20
            &&& b@[4] == 0x50 && b@[5] == 0x54 && b@[6] == 0x52 && b@[7] == 0x20
            &&& x.revision == b@[15]
            &&& x.rsdt_address == le32_at(b@, 16)
            &&& x.length == le32_at(b@, 20)
            &&& x.xsdt_address == le64_at(b@, 24)
            &&& checksum(b@.subrange(0, if b@[15] >= 2 { x.length as int } else { 20 })) == 0
        },
{
    if b.len() < RSDP_LEN {
        return None;
    }
    let sig_ok = b[0] == 82 && b[1] == 83 && b[2] == 68 && b[3] == 32
        && b[4] == 80 && b[5] == 84 && b[6] == 82 && b[7] == 32;
    proof {
        if sig_ok {
            assert(b@.subrange(0, 8) =~= rsdp_sig());
        } else if b@.subrange(0, 8) == rsdp_sig() {
            assert(b@.subrange(0, 8)[0] == 82 && b@.subrange(0, 8)[1] == 83 && b@.subrange(0, 8)[2] == 68);
            assert(b@.subrange(0, 8)[3] == 32 && b@.subrange(0, 8)[4] == 80 && b@.subrange(0, 8)[5] == 84);
            assert(b@.subrange(0, 8)[6] == 82 && b@.subrange(0, 8)[7] == 32);
        }
    }
    if !sig_ok {
        return None;
    }
    let length = read_le32(b, 20);
    let len: usize = if b[15] >= 2 { length as usize } else { 20 };
    if len > b.len() {
        return None;
    }
    if calc_checksum(slice_prefix(b, len)) != 0 {
        return None;
    }
    proof {
        let v = b@.subrange(0, 8);
        assert(v[0] == b@[0] && v[1] == b@[1] && v[2] == b@[2] && v[3] == b@[3]);
        assert(v[4] == b@[4] && v[5] == b@[5] && v[6] == b@[6] && v[7] == b@[7]);
    }
    Some(Rsdp20 { revision: b[15], rsdt_address: read_le32(b, 16), length, xsdt_address: read_le64(b, 24) })
}

/// The first valid RSDP among the structures found at the firmware's ACPI
/// configuration entries, in order; an entry at address zero (`None`) ends the search.
pub open spec fn rsdp_scan(c: Seq<Option<Vec<u8>>>, i: int) -> Option<Rsdp20>
    decreases c.len() - i,
{
    if i < 0 || i >= c.len() {
        None
    } else {
        match c[i] {
            None => None,
            Some(b) => if rsdp_valid(b@) { Some(rsdp_fields(b@)) } else { rsdp_scan(c, i + 1) },
        }
    }
}

/// Find the RSDP among the candidate structures.
pub fn find_rsdp(candidates: &Vec<Option<Vec<u8>>>) -> (r: Option<Rsdp20>)
    ensures
        r == rsdp_scan(candidates@, 0),
{
    let mut i: usize = 0;
    while i < candidates.len()
        invariant
            i <= candidates@.len(),
            rsdp_scan(candidates@, 0) == rsdp_scan(candidates@, i as int),
        decreases candidates@.len() - i,
    {
        match &candidates[i] {
            None => return None,
            Some(b) => {
                if let Some(r) = parse_rsdp(b.as_slice()) {
                    return Some(r);
                }
            },
        }
        i = i + 1;
    }
    None
}

/// The table addresses an XSDT lists (64-bit entries after the header).
pub open spec fn xsdt_entry_list(t: Seq<u8>) -> Seq<u64> {
    Seq::new(((sdt_length(t) - SDT_HEADER_LEN) / 8) as nat, |i: int| le64_at(t, SDT_HEADER_LEN + 8 * i))
}

/// The table addresses an RSDT lists (32-bit entries after the header).
pub open spec fn rsdt_entry_list(t: Seq<u8>) -> Seq<u32> {
    Seq::new(((sdt_length(t) - SDT_HEADER_LEN) / 4) as nat, |i: int| le32_at(t, SDT_HEADER_LEN + 4 * i))
}

/// Entries of the XSDT `t`.
pub fn xsdt_entries(t: &[u8]) -> (r: Vec<u64>)
    requires
        t@.len() >= SDT_HEADER_LEN,
        SDT_HEADER_LEN <= sdt_length(t@) <= t@.len(),
    ensures
        r@ == xsdt_entry_list(t@),
{
    let total = read_le32(t, 4) as usize;
    let count = (total - SDT_HEADER_LEN) / 8;
    let mut out: Vec<u64> = Vec::new();
    let mut i: usize = 0;
    while i < count
        invariant
            total == sdt_length(t@),
            total <= t@.len(),
            count == (total - SDT_HEADER_LEN) / 8,
            i <= count,
            out@ == xsdt_entry_list(t@).subrange(0, i as int),
        decreases count - i,
    {
        assert(SDT_HEADER_LEN + 8 * i + 8 <= total) by (nonlinear_arith)
            requires i < count, count == (total - 36) / 8, total >= 36;
        out.push(read_le64(t, SDT_HEADER_LEN + 8 * i));
        i = i + 1;
        assert(out@ =~= xsdt_entry_list(t@).subrange(0, i as int));
    }
    assert(out@ =~= xsdt_entry_list(t@));
    out
}

/// Entries of the RSDT `t`.
pub fn rsdt_entries(t: &[u8]) -> (r: Vec<u32>)
    requires
        t@.len() >= SDT_HEADER_LEN,
        SDT_HEADER_LEN <= sdt_length(t@) <= t@.len(),
    ensures
        r@ == rsdt_entry_list(t@),
{
    let total = read_le32(t, 4) as usize;
    let count = (total - SDT_HEADER_LEN) / 4;
    let mut out: Vec<u32> = Vec::new();
    let mut i: usize = 0;
    while i < count
        invariant
            total == sdt_length(t@),
            total <= t@.len(),
            count == (total - SDT_HEADER_LEN) / 4,
            i <= count,
            out@ == rsdt_entry_list(t@).subrange(0, i as int),
        decreases count - i,
    {
        assert(SDT_HEADER_LEN + 4 * i + 4 <= total) by (nonlinear_arith)
            requires i < count, count == (total - 36) / 4, total >= 36;
        out.push(read_le32(t, SDT_HEADER_LEN + 4 * i));
        i = i + 1;
        assert(out@ =~= rsdt_entry_list(t@).subrange(0, i as int));
    }
    assert(out@ =~= rsdt_entry_list(t@));
    out
}

/// Where a table was found: the index of its entry in the XSDT or the RSDT.
#[derive(Clone, Copy, Debug, PartialEq, Eq, Structural)]
pub enum TableHit {
    Xsdt(usize),
    Rsdt(usize),
}

/// XSDT search: the first table with signature `sig`; an entry at address
/// zero (`None`) or an invalid table ends the search.
pub open spec fn xsdt_scan(ts: Seq<Option<Vec<u8>>>, sig: Seq<u8>, i: int) -> Option<int>
    decreases ts.len() - i,
{
    if i < 0 || i >= ts.len() {
        None
    } else {
        match ts[i] {
            None => None,
            Some(t) => if !sdt_valid(t@) { None } else if has_sig(t@, sig) { Some(i) } else { xsdt_scan(ts, sig, i + 1) },
        }
    }
}

/// RSDT search: the first valid table with signature `sig`, skipping invalid
/// ones; an entry at address zero (`None`) ends the search.
pub open spec fn rsdt_scan(ts: Seq<Option<Vec<u8>>>, sig: Seq<u8>, i: int) -> Option<int>
    decreases ts.len() - i,
{
    if i < 0 || i >= ts.len() {
        None
    } else {
        match ts[i] {
            None => None,
            Some(t) => if sdt_valid(t@) && has_sig(t@, sig) { Some(i) } else { rsdt_scan(ts, sig, i + 1) },
        }
    }
}

/// The table search: the XSDT's tables first, then, when there is an RSDT
/// and it is valid, the RSDT's.
pub open spec fn table_search(sig: Seq<u8>, xsdt: Seq<Option<Vec<u8>>>, rsdt: Option<(Vec<u8>, Vec<Option<Vec<u8>>>)>) -> Option<TableHit> {
    match xsdt_scan(xsdt, sig, 0) {
        Some(i) => Some(TableHit::Xsdt(i as usize)),
        None => match rsdt {
            None => None,
            Some((rt, ts)) => if !sdt_valid(rt@) {
                None
            } else {
                match rsdt_scan(ts@, sig, 0) {
                    Some(i) => Some(TableHit::Rsdt(i as usize)),
                    None => None,
                }
            },
        },
    }
}

/// Whether `o` holds a valid table with signature `sig`.
pub open spec fn table_is(o: Option<Vec<u8>>, sig: Seq<u8>) -> bool {
    o matches Some(t) && sdt_valid(t@) && has_sig(t@, sig)
}

/// Whether `o` holds a valid table with a signature other than `sig`.
pub open spec fn other_table(o: Option<Vec<u8>>, sig: Seq<u8>) -> bool {
    o matches Some(t) && sdt_valid(t@) && !has_sig(t@, sig)
}

proof fn lemma_xsdt_scan(ts: Seq<Option<Vec<u8>>>, sig: Seq<u8>, i0: int)
    requires
        0 <= i0,
    ensures
        xsdt_scan(ts, sig, i0) matches Some(i) ==> i0 <= i < ts.len() && table_is(ts[i], sig)
            && forall|j: int| i0 <= j < i ==> other_table(#[trigger] ts[j], sig),
    decreases ts.len() - i0,
{
    if i0 < ts.len() {
        lemma_xsdt_scan(ts, sig, i0 + 1);
    }
}

proof fn lemma_rsdt_scan(ts: Seq<Option<Vec<u8>>>, sig: Seq<u8>, i0: int)
    requires
        0 <= i0,
    ensures
        rsdt_scan(ts, sig, i0) matches Some(i) ==> i0 <= i < ts.len() && table_is(ts[i], sig)
            && forall|j: int| i0 <= j < i ==> (#[trigger] ts[j]) is Some && !table_is(ts[j], sig),
    decreases ts.len() - i0,
{
    if i0 < ts.len() {
        lemma_rsdt_scan(ts, sig, i0 + 1);
    }
}

/// A table found is a valid table with the signature sought, and the first
/// one: through the XSDT, every entry before it is a valid table with another
/// signature; through the RSDT (itself valid), every entry before it is
/// present and not a valid table with that signature.
pub proof fn law_table_search(sig: Seq<u8>, xsdt: Seq<Option<Vec<u8>>>, rsdt: Option<(Vec<u8>, Vec<Option<Vec<u8>>>)>)
    requires
        xsdt.len() <= usize::MAX,
        rsdt matches Some(p) ==> p.1@.len() <= usize::MAX,
    ensures
        table_search(sig, xsdt, rsdt) matches Some(TableHit::Xsdt(i)) ==> i < xsdt.len() && table_is(xsdt[i as int], sig)
            && forall|j: int| 0 <= j < i ==> other_table(#[trigger] xsdt[j], sig),
        table_search(sig, xsdt, rsdt) matches Some(TableHit::Rsdt(i)) ==> rsdt matches Some((rt, ts))
            && sdt_valid(rt@) && i < ts@.len() && table_is(ts@[i as int], sig)
            && forall|j: int| 0 <= j < i ==> (#[trigger] ts@[j]) is Some && !table_is(ts@[j], sig),
{
    lemma_xsdt_scan(xsdt, sig, 0);
    if let Some((rt, ts)) = rsdt {
        lemma_rsdt_scan(ts@, sig, 0);
        if let Some(i) = rsdt_scan(ts@, sig, 0) {
            assert(i < ts@.len() && ts@.len() <= usize::MAX);
        }
    }
}

/// Find the table with signature `sig`. `xsdt` holds the tables the XSDT's
/// entries point at (empty without an XSDT); `rsdt` the RSDT and the tables
/// its entries point at (`None` without an RSDT). An entry at address zero is `None`.
pub fn find_table(sig: &[u8; 4], xsdt: &Vec<Option<Vec<u8>>>, rsdt: &Option<(Vec<u8>, Vec<Option<Vec<u8>>>)>) -> (r: Option<TableHit>)
    ensures
        r == table_search(sig@, xsdt@, *rsdt),
{
    let mut i: usize = 0;
    while i < xsdt.len()
        invariant
            i <= xsdt@.len(),
            xsdt_scan(xsdt@, sig@, 0) == xsdt_scan(xsdt@, sig@, i as int),
        ensures
            xsdt_scan(xsdt@, sig@, 0) is None,
        decreases xsdt@.len() - i,
    {
        match &xsdt[i] {
            None => break,
            Some(t) => {
                if !validate_sdt(t.as_slice()) {
                    break;
                }
                if sig_is(t.as_slice(), sig) {
                    return Some(TableHit::Xsdt(i));
                }
            },
        }
        i = i + 1;
    }
    assert(xsdt_scan(xsdt@, sig@, 0) is None);
    match rsdt {
        None => None,
        Some((rt, ts)) => {
            if !validate_sdt(rt.as_slice()) {
                return None;
            }
            let ghost want = table_search(sig@, xsdt@, *rsdt);
            assert(want == match rsdt_scan(ts@, sig@, 0) {
                Some(i) => Some(TableHit::Rsdt(i as usize)),
                None => None,
            });
            let mut j: usize = 0;
            while j < ts.len()
                invariant
                    j <= ts@.len(),
                    want == table_search(sig@, xsdt@, *rsdt),
                    want == match rsdt_scan(ts@, sig@, 0) {
                        Some(i) => Some(TableHit::Rsdt(i as usize)),
                        None => None,
                    },
                    rsdt_scan(ts@, sig@, 0) == rsdt_scan(ts@, sig@, j as int),
                decreases ts@.len() - j,
            {
                match &ts[j] {
                    None => return None,
                    Some(t) => {
                        if validate_sdt(t.as_slice()) && sig_is(t.as_slice(), sig) {
                            return Some(TableHit::Rsdt(j));
                        }
                    },
                }
                j = j + 1;
            }
            None
        },
    }
}

/// Find the MADT ("APIC").
pub fn find_madt(xsdt: &Vec<Option<Vec<u8>>>, rsdt: &Option<(Vec<u8>, Vec<Option<Vec<u8>>>)>) -> (r: Option<TableHit>)
    ensures
        r == table_search(sig_madt(), xsdt@, *rsdt),
{
    let sig: [u8; 4] = [65, 80, 73, 67];
    assert(sig@ =~= sig_madt());
    find_table(&sig, xsdt, rsdt)
}

/// Find the FADT ("FACP").
pub fn find_fadt(xsdt: &Vec<Option<Vec<u8>>>, rsdt: &Option<(Vec<u8>, Vec<Option<Vec<u8>>>)>) -> (r: Option<TableHit>)
    ensures
        r == table_search(sig_fadt(), xsdt@, *rsdt),
{
    let sig: [u8; 4] = [70, 65, 67, 80];
    assert(sig@ =~= sig_fadt());
    find_table(&sig, xsdt, rsdt)
}

/// Find the MCFG.
pub fn find_mcfg(xsdt: &Vec<Option<Vec<u8>>>, rsdt: &Option<(Vec<u8>, Vec<Option<Vec<u8>>>)>) -> (r: Option<TableHit>)
    ensures
        r == table_search(sig_mcfg(), xsdt@, *rsdt),
{
    let sig: [u8; 4] = [77, 67, 70, 71];
    assert(sig@ =~= sig_mcfg());
    find_table(&sig, xsdt, rsdt)
}

/// Find the Intel VT-d remapping table (DMAR).
pub fn find_dmar(xsdt: &Vec<Option<Vec<u8>>>, rsdt: &Option<(Vec<u8>, Vec<Option<Vec<u8>>>)>) -> (r: Option<TableHit>)
    ensures
        r == table_search(sig_dmar(), xsdt@, *rsdt),
{
    let sig: [u8; 4] = [68, 77, 65, 82];
    assert(sig@ =~= sig_dmar());
    find_table(&sig, xsdt, rsdt)
}

/// Find the AMD I/O virtualization table (IVRS).
pub fn find_ivrs(xsdt: &Vec<Option<Vec<u8>>>, rsdt: &Option<(Vec<u8>, Vec<Option<Vec<u8>>>)>) -> (r: Option<TableHit>)
    ensures
        r == table_search(sig_ivrs(), xsdt@, *rsdt),
{
    let sig: [u8; 4] = [73, 86, 82, 83];
    assert(sig@ =~= sig_ivrs());
    find_table(&sig, xsdt, rsdt)
}

// ---------------------------------------------------------------------------
// Header summaries

/// Length of `s` without its trailing spaces.
pub open spec fn trimmed_len(s: Seq<u8>) -> nat
    decreases s.len(),
{
    if s.len() > 0 && s.last() == 32 { trimmed_len(s.drop_last()) } else { s.len() }
}

/// Visible ASCII kept, anything else shown as '.'.
pub open spec fn printable(b: u8) -> u8 {
    if 0x20 <= b <= 0x7E { b } else { 46 }
}

/// `s` without trailing spaces, non-printable bytes replaced by '.'.
pub open spec fn ascii_trim(s: Seq<u8>) -> Seq<u8> {
    Seq::new(trimmed_len(s), |i: int| printable(s[i]))
}

proof fn lemma_trimmed_len(s: Seq<u8>)
    ensures
        trimmed_len(s) <= s.len(),
    decreases s.len(),
{
    if s.len() > 0 && s.last() == 32 {
        lemma_trimmed_len(s.drop_last());
    }
}

proof fn lemma_trimmed_len_step(s: Seq<u8>, end: int)
    requires
        0 <= end <= s.len(),
        forall|j: int| end <= j < s.len() ==> s[j] == 32,
    ensures
        trimmed_len(s) == trimmed_len(s.subrange(0, end)),
    decreases s.len() - end,
{
    if end < s.len() {
        assert(s.drop_last().subrange(0, end) =~= s.subrange(0, end));
        lemma_trimmed_len_step(s.drop_last(), end);
    } else {
        assert(s.subrange(0, end) =~= s);
    }
}

/// Copy `src` into `out` without trailing spaces, non-printable bytes as '.',
/// as far as `out` has room. Returns the number of bytes written.
pub fn write_ascii_trim(src: &[u8], out: &mut [u8]) -> (n: usize)
    ensures
        n == if ascii_trim(src@).len() <= old(out)@.len() { ascii_trim(src@).len() } else { old(out)@.len() },
        final(out)@ == ascii_trim(src@).take(n as int) + old(out)@.subrange(n as int, old(out)@.len() as int),
{
    let mut end = src.len();
    while end > 0 && src[end - 1] == 32
        invariant
            end <= src@.len(),
            forall|j: int| end <= j < src@.len() ==> src@[j] == 32,
        decreases end,
    {
        end = end - 1;
    }
    proof {
        lemma_trimmed_len_step(src@, end as int);
        assert(trimmed_len(src@.subrange(0, end as int)) == end) by {
            if end > 0 {
                assert(src@.subrange(0, end as int).last() == src@[end - 1]);
            }
        }
    }
    let ghost want = ascii_trim(src@);
    let mut n: usize = 0;
    while n < end && n < out.len()
        invariant
            end == want.len(),
            end <= src@.len(),
            want == ascii_trim(src@),
            n <= end,
            n <= out@.len(),
            out@.len() == old(out)@.len(),
            out@ == want.take(n as int) + old(out)@.subrange(n as int, old(out)@.len() as int),
        decreases end - n,
    {
        let b = src[n];
        let ch: u8 = if b >= 0x20 && b <= 0x7E { b } else { 46 };
        out[n] = ch;
        n = n + 1;
        assert(out@ =~= want.take(n as int) + old(out)@.subrange(n as int, old(out)@.len() as int));
    }
    n
}

/// "LABL: len=<length> rev=<revision> oem=<OEM ID> table=<OEM table ID>\r\n".
pub open spec fn header_summary(label: Seq<u8>, h: Seq<u8>) -> Seq<u8> {
    label + seq![58u8, 32] + seq![108u8, 101, 110, 61] + dec_digits(sdt_length(h) as nat)
        + seq![32u8, 114, 101, 118, 61] + dec_digits(h[8] as nat)
        + seq![32u8, 111, 101, 109, 61] + ascii_trim(h.subrange(10, 16))
        + seq![32u8, 116, 97, 98, 108, 101, 61] + ascii_trim(h.subrange(16, 24))
        + seq![13u8, 10]
}

fn push_ascii_trim(out: &mut Vec<u8>, src: &[u8])
    requires
        src@.len() <= 16,
    ensures
        final(out)@ == old(out)@ + ascii_trim(src@),
{
    let mut buf = [0u8; 16];
    proof {
        lemma_trimmed_len(src@);
    }
    let n = write_ascii_trim(src, &mut buf);
    let mut i: usize = 0;
    let ghost w = ascii_trim(src@);
    while i < n
        invariant
            n <= buf@.len(),
            buf@.len() == 16,
            buf@.subrange(0, n as int) == w.take(n as int),
            n == if w.len() <= 16 { w.len() as usize } else { 16 },
            i <= n,
            out@ == old(out)@ + w.take(i as int),
        decreases n - i,
    {
        out.push(buf[i]);
        i = i + 1;
        assert(out@ =~= old(out)@ + w.take(i as int));
    }
    assert(w.take(n as int) =~= w);
}

/// One-line summary of the table header `h` under `label`.
pub fn sdt_header_summary(label: &[u8; 4], h: &[u8]) -> (line: Vec<u8>)
    requires
        h@.len() >= SDT_HEADER_LEN,
    ensures
        line@ == header_summary(label@, h@),
{
    let mut out: Vec<u8> = Vec::new();
    push_bytes(&mut out, label);
    push_bytes(&mut out, &[58u8, 32, 108, 101, 110, 61]);
    push_dec(&mut out, read_le32(h, 4));
    push_bytes(&mut out, &[32u8, 114, 101, 118, 61]);
    push_dec(&mut out, h[8] as u32);
    push_bytes(&mut out, &[32u8, 111, 101, 109, 61]);
    push_ascii_trim(&mut out, slice_range(h, 10, 16));
    push_bytes(&mut out, &[32u8, 116, 97, 98, 108, 101, 61]);
    push_ascii_trim(&mut out, slice_range(h, 16, 24));
    push_bytes(&mut out, &[13u8, 10]);
    assert(out@ =~= header_summary(label@, h@));
    out
}

fn slice_range(t: &[u8], a: usize, b: usize) -> (r: &[u8])
    requires
        a <= b <= t@.len(),
    ensures
        r@ == t@.subrange(a as int, b as int),
{
    let (x, _) = t.split_at(b);
    let (_, y) = x.split_at(a);
    y
}

/// Summary line of the DMAR header `h`.
pub fn dmar_summary(h: &[u8]) -> (line: Vec<u8>)
    requires
        h@.len() >= SDT_HEADER_LEN,
    ensures
        line@ == header_summary(sig_dmar(), h@),
{
    let label: [u8; 4] = [68, 77, 65, 82];
    assert(label@ =~= sig_dmar());
    sdt_header_summary(&label, h)
}

/// Summary line of the IVRS header `h`.
pub fn ivrs_summary(h: &[u8]) -> (line: Vec<u8>)
    requires
        h@.len() >= SDT_HEADER_LEN,
    ensures
        line@ == header_summary(sig_ivrs(), h@),
{
    let label: [u8; 4] = [73, 86, 82, 83];
    assert(label@ =~= sig_ivrs());
    sdt_header_summary(&label, h)
}

/// The report line of one MCFG allocation.
pub open spec fn mcfg_line_spec(a: McfgAllocation) -> Seq<u8> {
    ascii("PCIe ECAM: seg="@) + dec_digits(a.pci_segment as nat) + ascii(" bus="@) + dec_digits(a.start_bus as nat)
        + ascii("-"@) + dec_digits(a.end_bus as nat) + ascii(" base=0x"@) + hex_digits(a.base_address as nat)
        + ascii("\r\n"@)
}

pub fn mcfg_line(a: McfgAllocation) -> (r: Vec<u8>)
    ensures
        r@ == mcfg_line_spec(a),
{
    let mut out: Vec<u8> = Vec::new();
    push_str(&mut out, "PCIe ECAM: seg=");
    push_dec(&mut out, a.pci_segment as u32);
    push_str(&mut out, " bus=");
    push_dec(&mut out, a.start_bus as u32);
    push_str(&mut out, "-");
    push_dec(&mut out, a.end_bus as u32);
    push_str(&mut out, " base=0x");
    push_hex(&mut out, a.base_address);
    push_str(&mut out, "\r\n");
    out
}

/// The report line of one IVRS entry.
pub open spec fn ivrs_line_spec(e: IvrsEntry) -> Seq<u8> {
    ascii("IVRS: entry type="@) + dec_digits(e.entry_type as nat) + ascii(" len="@) + dec_digits(e.len as nat)
        + ascii("\r\n"@)
}

pub fn ivrs_line(e: IvrsEntry) -> (r: Vec<u8>)
    ensures
        r@ == ivrs_line_spec(e),
{
    let mut out: Vec<u8> = Vec::new();
    push_str(&mut out, "IVRS: entry type=");
    push_dec(&mut out, e.entry_type as u32);
    push_str(&mut out, " len=");
    push_dec(&mut out, e.len as u32);
    push_str(&mut out, "\r\n");
    out
}

/// The fields a decoded remapping structure adds to its line.
pub open spec fn dmar_detail_text(d: DmarDetail) -> Seq<u8> {
    match d {
        DmarDetail::Drhd { seg, reg_base } =>
            ascii(" seg="@) + dec_digits(seg as nat) + ascii(" reg=0x"@) + hex_digits(reg_base as nat),
        DmarDetail::Rmrr { seg, base, limit } =>
            ascii(" seg="@) + dec_digits(seg as nat) + ascii(" range=0x"@) + hex_digits(base as nat)
                + ascii("-0x"@) + hex_digits(limit as nat),
        DmarDetail::Atsr { seg, flags } =>
            ascii(" seg="@) + dec_digits(seg as nat) + ascii(" flags=0x"@) + hex_digits(flags as nat),
        DmarDetail::Other => Seq::empty(),
    }
}

/// The report line of one item of the DMAR listing.
pub open spec fn dmar_line_spec(item: DmarItem) -> Seq<u8> {
    match item {
        DmarItem::Struct { typ, len, detail } =>
            ascii("DMAR: struct type="@) + dec_digits(typ as nat) + ascii(" len="@) + dec_digits(len as nat)
                + dmar_detail_text(detail) + ascii("\r\n"@),
        DmarItem::Scope { scope_type, scope_len, start_bus } =>
            ascii("DMAR:   scope type="@) + dec_digits(scope_type as nat) + ascii(" len="@)
                + dec_digits(scope_len as nat) + ascii(" bus="@) + dec_digits(start_bus as nat) + ascii("\r\n"@),
    }
}

pub fn dmar_line(item: DmarItem) -> (r: Vec<u8>)
    ensures
        r@ == dmar_line_spec(item),
{
    let mut out: Vec<u8> = Vec::new();
    match item {
        DmarItem::Struct { typ, len, detail } => {
            push_str(&mut out, "DMAR: struct type=");
            push_dec(&mut out, typ as u32);
            push_str(&mut out, " len=");
            push_dec(&mut out, len as u32);
            let ghost head = out@;
            match detail {
                DmarDetail::Drhd { seg, reg_base } => {
                    push_str(&mut out, " seg=");
                    push_dec(&mut out, seg as u32);
                    push_str(&mut out, " reg=0x");
                    push_hex(&mut out, reg_base);
                },
                DmarDetail::Rmrr { seg, base, limit } => {
                    push_str(&mut out, " seg=");
                    push_dec(&mut out, seg as u32);
                    push_str(&mut out, " range=0x");
                    push_hex(&mut out, base);
                    push_str(&mut out, "-0x");
                    push_hex(&mut out, limit);
                },
                DmarDetail::Atsr { seg, flags } => {
                    push_str(&mut out, " seg=");
                    push_dec(&mut out, seg as u32);
                    push_str(&mut out, " flags=0x");
                    push_hex(&mut out, flags as u64);
                },
                DmarDetail::Other => {},
            }
            assert(out@ =~= head + dmar_detail_text(detail));
            push_str(&mut out, "\r\n");
        },
        DmarItem::Scope { scope_type, scope_len, start_bus } => {
            push_str(&mut out, "DMAR:   scope type=");
            push_dec(&mut out, scope_type as u32);
            push_str(&mut out, " len=");
            push_dec(&mut out, scope_len as u32);
            push_str(&mut out, " bus=");
            push_dec(&mut out, start_bus as u32);
            push_str(&mut out, "\r\n");
        },
    }
    out
}

} // verus!
