//! VirtIO over PCI: reading a function's configuration space. The caller
//! copies the space out of the ECAM window; these functions find the VirtIO
//! vendor capabilities, decode memory BARs and locate the register windows.

use vstd::prelude::*;
use crate::util::bytes::le32_value;

verus! {

/// Bytes of a function's configuration space in an ECAM window.
pub const CFG_SPACE_LEN: usize = 4096;
/// PCI vendor id of VirtIO devices.
pub const VIRTIO_VENDOR: u16 = 0x1AF4;
/// Capability id of vendor-specific capabilities.
pub const CAP_VENDOR_SPECIFIC: u8 = 9;
/// `virtio_pci_cap.cfg_type` values.
pub const CAP_COMMON: u8 = 1;
pub const CAP_NOTIFY: u8 = 2;
pub const CAP_ISR: u8 = 3;
pub const CAP_DEVICE: u8 = 4;
/// Offset of the capability pointer.
pub const CAP_PTR_OFF: usize = 0x34;
/// Longest capability chain followed.
pub const CAP_GUARD: usize = 64;

/// A VirtIO vendor-specific capability.
#[derive(Clone, Copy, Debug, PartialEq, Eq, Structural)]
pub struct VirtioCap {
    pub cfg_type: u8,
    pub bar: u8,
    pub off: u32,
    pub len: u32,
    /// The notify offset multiplier that follows a notify capability.
    pub notify_mul: u32,
}

/// Little-endian `u32` at `i`.
pub open spec fn le32_at(cfg: Seq<u8>, i: int) -> u32 {
    le32_value(cfg.subrange(i, i + 4))
}

/// Vendor id of the function.
pub open spec fn vendor_of(cfg: Seq<u8>) -> u16 {
    ((cfg[0] as u16) | ((cfg[1] as u16) << 8u16)) as u16
}

/// Device id of the function.
pub open spec fn device_of(cfg: Seq<u8>) -> u16 {
    ((cfg[2] as u16) | ((cfg[3] as u16) << 8u16)) as u16
}

pub fn vendor_id(cfg: &[u8]) -> (v: u16)
    requires
        cfg@.len() >= CFG_SPACE_LEN,
    ensures
        v == vendor_of(cfg@),
{
    (cfg[0] as u16) | ((cfg[1] as u16) << 8u16)
}

pub fn device_id(cfg: &[u8]) -> (v: u16)
    requires
        cfg@.len() >= CFG_SPACE_LEN,
    ensures
        v == device_of(cfg@),
{
    (cfg[2] as u16) | ((cfg[3] as u16) << 8u16)
}

fn le32_of(cfg: &[u8], i: usize) -> (v: u32)
    requires
        i + 4 <= cfg@.len(),
    ensures
        v == le32_at(cfg@, i as int),
{
    (cfg[i] as u32) | ((cfg[i + 1] as u32) << 8u32) | ((cfg[i + 2] as u32) << 16u32) | ((cfg[i + 3] as u32) << 24u32)
}

/// The capability whose header is at `p`.
pub open spec fn cap_at(cfg: Seq<u8>, p: int) -> VirtioCap {
    VirtioCap {
        cfg_type: cfg[p + 3],
        bar: cfg[p + 4],
        off: le32_at(cfg, p + 8),
        len: le32_at(cfg, p + 12),
        notify_mul: le32_at(cfg, p + 16),
    }
}

/// The VirtIO capabilities met following the chain from `p`: headers at
/// 0x40..0x100, vendor-specific ones at least 16 bytes long, until a link
/// of 0 or to itself, at most 64 links.
pub open spec fn cap_walk(cfg: Seq<u8>, p: int, guard: int) -> Seq<VirtioCap>
    decreases CAP_GUARD - guard,
{
    if !(0x40 <= p < 0x100 && guard < CAP_GUARD) {
        Seq::empty()
    } else {
        let next = cfg[p + 1] as int;
        let here = if cfg[p] == CAP_VENDOR_SPECIFIC && cfg[p + 2] >= 16 { seq![cap_at(cfg, p)] } else { Seq::empty() };
        if next == 0 || next == p { here } else { here + cap_walk(cfg, next, guard + 1) }
    }
}

/// The VirtIO capabilities of a function, in chain order.
pub open spec fn caps_of(cfg: Seq<u8>) -> Seq<VirtioCap> {
    cap_walk(cfg, cfg[CAP_PTR_OFF as int] as int, 0)
}

/// Every capability the walk reports comes from a vendor-specific (id 9)
/// capability header of the chain, in 0x40..0x100 and at least 16 bytes
/// long: the `k`-th is read from the header at the returned offset, with the
/// configuration type at byte 3, the BAR at byte 4, the offset at 8..12, the
/// length at 12..16 and the notify multiplier at 16..20.
pub proof fn law_cap_walk(cfg: Seq<u8>, p: int, guard: int, k: int) -> (q: int)
    requires
        0 <= k < cap_walk(cfg, p, guard).len(),
    ensures
        0x40 <= q < 0x100,
        cfg[q] == CAP_VENDOR_SPECIFIC,
        cfg[q + 2] >= 16,
        cap_walk(cfg, p, guard)[k] == (VirtioCap {
            cfg_type: cfg[q + 3],
            bar: cfg[q + 4],
            off: le32_at(cfg, q + 8),
            len: le32_at(cfg, q + 12),
            notify_mul: le32_at(cfg, q + 16),
        }),
    decreases CAP_GUARD - guard,
{
    let w = cap_walk(cfg, p, guard);
    let next = cfg[p + 1] as int;
    let here = if cfg[p] == CAP_VENDOR_SPECIFIC && cfg[p + 2] >= 16 { seq![cap_at(cfg, p)] } else { Seq::<VirtioCap>::empty() };
    if k < here.len() {
        if !(next == 0 || next == p) {
            assert(w == here + cap_walk(cfg, next, guard + 1));
        }
        assert(w[k] == here[k]);
        p
    } else {
        let rest = cap_walk(cfg, next, guard + 1);
        assert(w == here + rest);
        assert(w[k] == rest[k - here.len()]);
        law_cap_walk(cfg, next, guard + 1, k - here.len())
    }
}

/// Walk the capability chain of a function.
pub fn virtio_caps(cfg: &[u8]) -> (r: Vec<VirtioCap>)
    requires
        cfg@.len() >= CFG_SPACE_LEN,
    ensures
        r@ == caps_of(cfg@),
{
    let mut out: Vec<VirtioCap> = Vec::new();
    let mut p: usize = cfg[CAP_PTR_OFF] as usize;
    let mut guard: usize = 0;
    let mut done = false;
    while !done && p >= 0x40 && p < 0x100 && guard < CAP_GUARD
        invariant
            cfg@.len() >= CFG_SPACE_LEN,
            guard <= CAP_GUARD,
            p < 0x100,
            caps_of(cfg@) == out@ + if done { Seq::empty() } else { cap_walk(cfg@, p as int, guard as int) },
        decreases CAP_GUARD - guard + if done { 0int } else { 1int },
    {
        let next = cfg[p + 1] as usize;
        let ghost before = out@;
        if cfg[p] == CAP_VENDOR_SPECIFIC && cfg[p + 2] >= 16 {
            let c = VirtioCap {
                cfg_type: cfg[p + 3],
                bar: cfg[p + 4],
                off: le32_of(cfg, p + 8),
                len: le32_of(cfg, p + 12),
                notify_mul: le32_of(cfg, p + 16),
            };
            out.push(c);
        }
        if next == 0 || next == p {
            done = true;
            assert(out@ =~= before + cap_walk(cfg@, p as int, guard as int));
        } else {
            assert(before + cap_walk(cfg@, p as int, guard as int)
                =~= out@ + cap_walk(cfg@, next as int, guard + 1));
            p = next;
            guard = guard + 1;
        }
    }
    proof {
        if !done {
            assert(cap_walk(cfg@, p as int, guard as int) =~= Seq::<VirtioCap>::empty());
        }
    }
    assert(out@ =~= caps_of(cfg@));
    out
}

/// The last capability of type `t`.
pub open spec fn last_cap(cs: Seq<VirtioCap>, t: u8) -> Option<VirtioCap>
    decreases cs.len(),
{
    if cs.len() == 0 {
        None
    } else if cs.last().cfg_type == t {
        Some(cs.last())
    } else {
        last_cap(cs.drop_last(), t)
    }
}

/// The first capability of type `t`.
pub open spec fn first_cap(cs: Seq<VirtioCap>, t: u8) -> Option<VirtioCap>
    decreases cs.len(),
{
    if cs.len() == 0 {
        None
    } else if cs[0].cfg_type == t {
        Some(cs[0])
    } else {
        first_cap(cs.drop_first(), t)
    }
}

pub fn find_last_cap(cs: &Vec<VirtioCap>, t: u8) -> (r: Option<VirtioCap>)
    ensures
        r == last_cap(cs@, t),
{
    let mut found: Option<VirtioCap> = None;
    let mut i: usize = 0;
    while i < cs.len()
        invariant
            i <= cs@.len(),
            found == last_cap(cs@.take(i as int), t),
        decreases cs@.len() - i,
    {
        proof { assert(cs@.take(i + 1).drop_last() =~= cs@.take(i as int)); }
        if cs[i].cfg_type == t {
            found = Some(cs[i]);
        }
        i = i + 1;
    }
    assert(cs@.take(cs@.len() as int) =~= cs@);
    found
}

pub fn find_first_cap(cs: &Vec<VirtioCap>, t: u8) -> (r: Option<VirtioCap>)
    ensures
        r == first_cap(cs@, t),
{
    let mut i: usize = 0;
    assert(cs@.skip(0) =~= cs@);
    while i < cs.len()
        invariant
            i <= cs@.len(),
            first_cap(cs@, t) == first_cap(cs@.skip(i as int), t),
        decreases cs@.len() - i,
    {
        proof {
            assert(cs@.skip(i as int).drop_first() =~= cs@.skip(i + 1));
            assert(cs@.skip(i as int)[0] == cs@[i as int]);
        }
        if cs[i].cfg_type == t {
            return Some(cs[i]);
        }
        i = i + 1;
    }
    None
}

/// Base address of memory BAR `idx` (0..6): the low dword without its flag
/// bits, with the high dword above it for a 64-bit BAR below the last slot.
/// `None` for an I/O BAR or an index past the last BAR.
pub open spec fn bar_base(cfg: Seq<u8>, idx: u8) -> Option<u64> {
    if idx >= 6 {
        None
    } else {
        let lo = le32_at(cfg, 0x10 + idx * 4);
        if lo & 1 != 0 {
            None
        } else {
            let base = (lo as u64) & 0xFFFF_FFF0;
            if (lo >> 1u32) & 3 == 2 && idx < 5 {
                Some(base | ((le32_at(cfg, 0x14 + idx * 4) as u64) << 32u64))
            } else {
                Some(base)
            }
        }
    }
}

/// Decode memory BAR `idx` of a function.
pub fn decode_bar(cfg: &[u8], idx: u8) -> (r: Option<u64>)
    requires
        cfg@.len() >= CFG_SPACE_LEN,
    ensures
        r == bar_base(cfg@, idx),
{
    if idx >= 6 {
        return None;
    }
    let off = 0x10 + (idx as usize) * 4;
    let lo = le32_of(cfg, off);
    if lo & 1 != 0 {
        return None;
    }
    let base = (lo as u64) & 0xFFFF_FFF0;
    if (lo >> 1u32) & 3 == 2 && idx < 5 {
        let hi = le32_of(cfg, off + 4);
        Some(base | ((hi as u64) << 32u64))
    } else {
        Some(base)
    }
}

/// Address of a register window at `off` in BAR `bar` (wrapping).
pub open spec fn window(cfg: Seq<u8>, bar: u8, off: u32) -> Option<usize> {
    match bar_base(cfg, bar) {
        Some(b) => Some(vstd::wrapping::usize_specs::wrapping_add(b as usize, off as usize)),
        None => None,
    }
}

pub fn window_addr(cfg: &[u8], bar: u8, off: u32) -> (r: Option<usize>)
    requires
        cfg@.len() >= CFG_SPACE_LEN,
    ensures
        r == window(cfg@, bar, off),
{
    match decode_bar(cfg, bar) {
        Some(b) => Some((b as usize).wrapping_add(off as usize)),
        None => None,
    }
}

} // verus!
