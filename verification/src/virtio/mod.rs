//! VirtIO devices over PCI: configuration-space probing, split virtqueue
//! layout and the receive/transmit ring decisions.

pub mod pci;
pub mod queue;

use vstd::prelude::*;
use crate::util::format::{ascii, dec_digits, hex_digits, push_str, push_dec, push_hex};
use crate::virtio::pci::{VirtioCap, caps_of, virtio_caps, vendor_of, vendor_id, last_cap, first_cap,
    find_last_cap, find_first_cap, window, window_addr, VIRTIO_VENDOR, CAP_COMMON, CAP_NOTIFY,
    CAP_ISR, CAP_DEVICE, CFG_SPACE_LEN};

verus! {

/// Which VirtIO capabilities a function has.
#[derive(Clone, Copy, Debug, PartialEq, Eq, Structural)]
pub struct CapFlags {
    pub common: bool,
    pub notify: bool,
    pub isr: bool,
    pub device: bool,
}

pub open spec fn cap_flags_of(cs: Seq<VirtioCap>) -> CapFlags {
    CapFlags {
        common: last_cap(cs, CAP_COMMON) is Some,
        notify: last_cap(cs, CAP_NOTIFY) is Some,
        isr: last_cap(cs, CAP_ISR) is Some,
        device: last_cap(cs, CAP_DEVICE) is Some,
    }
}

pub fn cap_flags(cs: &Vec<VirtioCap>) -> (f: CapFlags)
    ensures
        f == cap_flags_of(cs@),
{
    CapFlags {
        common: find_last_cap(cs, CAP_COMMON).is_some(),
        notify: find_last_cap(cs, CAP_NOTIFY).is_some(),
        isr: find_last_cap(cs, CAP_ISR).is_some(),
        device: find_last_cap(cs, CAP_DEVICE).is_some(),
    }
}

/// The function is a VirtIO device.
pub fn is_virtio(cfg: &[u8]) -> (r: bool)
    requires
        cfg@.len() >= CFG_SPACE_LEN,
    ensures
        r == (vendor_of(cfg@) == VIRTIO_VENDOR),
{
    vendor_id(cfg) == VIRTIO_VENDOR
}

/// The common configuration window of the scan's status handshake: the last
/// common capability, in a memory BAR.
pub open spec fn scan_common_window(cfg: Seq<u8>) -> Option<usize> {
    match last_cap(caps_of(cfg), CAP_COMMON) {
        Some(c) => window(cfg, c.bar, c.off),
        None => None,
    }
}

pub fn common_window_for_scan(cfg: &[u8]) -> (r: Option<usize>)
    requires
        cfg@.len() >= CFG_SPACE_LEN,
    ensures
        r == scan_common_window(cfg@),
{
    let cs = virtio_caps(cfg);
    match find_last_cap(&cs, CAP_COMMON) {
        Some(c) => window_addr(cfg, c.bar, c.off),
        None => None,
    }
}

/// The line that reports a VirtIO function.
pub open spec fn device_line_spec(seg: u16, bus: u8, dev: u8, func: u8, vid: u16, did: u16, class: u8, subclass: u8) -> Seq<u8> {
    ascii("VirtIO: seg="@) + dec_digits(seg as nat) + ascii(" bus="@) + dec_digits(bus as nat)
        + ascii(" dev="@) + dec_digits(dev as nat) + ascii(" fn="@) + dec_digits(func as nat)
        + ascii(" vid=0x"@) + hex_digits(vid as nat) + ascii(" did=0x"@) + hex_digits(did as nat)
        + ascii(" class="@) + dec_digits(class as nat) + ascii("/"@) + dec_digits(subclass as nat)
        + ascii("\r\n"@)
}

pub fn device_line(seg: u16, bus: u8, dev: u8, func: u8, vid: u16, did: u16, class: u8, subclass: u8) -> (r: Vec<u8>)
    ensures
        r@ == device_line_spec(seg, bus, dev, func, vid, did, class, subclass),
{
    let mut out: Vec<u8> = Vec::new();
    push_str(&mut out, "VirtIO: seg=");
    push_dec(&mut out, seg as u32);
    push_str(&mut out, " bus=");
    push_dec(&mut out, bus as u32);
    push_str(&mut out, " dev=");
    push_dec(&mut out, dev as u32);
    push_str(&mut out, " fn=");
    push_dec(&mut out, func as u32);
    push_str(&mut out, " vid=0x");
    push_hex(&mut out, vid as u64);
    push_str(&mut out, " did=0x");
    push_hex(&mut out, did as u64);
    push_str(&mut out, " class=");
    push_dec(&mut out, class as u32);
    push_str(&mut out, "/");
    push_dec(&mut out, subclass as u32);
    push_str(&mut out, "\r\n");
    out
}

/// The line that reports one capability.
pub open spec fn cap_line_spec(c: VirtioCap) -> Seq<u8> {
    ascii("  cap: type="@) + dec_digits(c.cfg_type as nat) + ascii(" bar="@) + dec_digits(c.bar as nat)
        + ascii(" off=0x"@) + hex_digits(c.off as nat) + ascii(" len=0x"@) + hex_digits(c.len as nat)
        + ascii("\r\n"@)
}

pub fn cap_line(c: VirtioCap) -> (r: Vec<u8>)
    ensures
        r@ == cap_line_spec(c),
{
    let mut out: Vec<u8> = Vec::new();
    push_str(&mut out, "  cap: type=");
    push_dec(&mut out, c.cfg_type as u32);
    push_str(&mut out, " bar=");
    push_dec(&mut out, c.bar as u32);
    push_str(&mut out, " off=0x");
    push_hex(&mut out, c.off as u64);
    push_str(&mut out, " len=0x");
    push_hex(&mut out, c.len as u64);
    push_str(&mut out, "\r\n");
    out
}

pub open spec fn flag_digit(b: bool) -> Seq<u8> {
    if b { ascii("1"@) } else { ascii("0"@) }
}

/// The line that sums up which capabilities were seen.
pub open spec fn caps_line_spec(f: CapFlags) -> Seq<u8> {
    ascii("  caps: common="@) + flag_digit(f.common) + ascii(" notify="@) + flag_digit(f.notify)
        + ascii(" isr="@) + flag_digit(f.isr) + ascii(" device="@) + flag_digit(f.device) + ascii("\r\n"@)
}

fn push_flag(out: &mut Vec<u8>, b: bool)
    ensures
        final(out)@ == old(out)@ + flag_digit(b),
{
    if b { push_str(out, "1") } else { push_str(out, "0") }
}

pub fn caps_line(f: CapFlags) -> (r: Vec<u8>)
    ensures
        r@ == caps_line_spec(f),
{
    let mut out: Vec<u8> = Vec::new();
    push_str(&mut out, "  caps: common=");
    push_flag(&mut out, f.common);
    push_str(&mut out, " notify=");
    push_flag(&mut out, f.notify);
    push_str(&mut out, " isr=");
    push_flag(&mut out, f.isr);
    push_str(&mut out, " device=");
    push_flag(&mut out, f.device);
    push_str(&mut out, "\r\n");
    out
}

/// Class code of a function.
pub open spec fn class_of(cfg: Seq<u8>) -> u8 {
    cfg[0x0B]
}

/// The VirtIO console's common window: the first common capability of a
/// VirtIO function, in a memory BAR.
pub open spec fn console_window(cfg: Seq<u8>) -> Option<usize> {
    if vendor_of(cfg) != VIRTIO_VENDOR {
        None
    } else {
        match first_cap(caps_of(cfg), CAP_COMMON) {
            Some(c) => window(cfg, c.bar, c.off),
            None => None,
        }
    }
}

/// Locate the common window a console bring-up drives on this function.
pub fn console_init_minimal(cfg: &[u8]) -> (r: Option<usize>)
    requires
        cfg@.len() >= CFG_SPACE_LEN,
    ensures
        r == console_window(cfg@),
{
    if !is_virtio(cfg) {
        return None;
    }
    let cs = virtio_caps(cfg);
    match find_first_cap(&cs, CAP_COMMON) {
        Some(c) => window_addr(cfg, c.bar, c.off),
        None => None,
    }
}

/// A VirtIO network function with a common capability.
pub open spec fn net_present_spec(cfg: Seq<u8>) -> bool {
    vendor_of(cfg) == VIRTIO_VENDOR && class_of(cfg) == 2 && first_cap(caps_of(cfg), CAP_COMMON) is Some
}

pub fn net_present(cfg: &[u8]) -> (r: bool)
    requires
        cfg@.len() >= CFG_SPACE_LEN,
    ensures
        r == net_present_spec(cfg@),
{
    if !is_virtio(cfg) || cfg[0x0B] != 2 {
        return false;
    }
    let cs = virtio_caps(cfg);
    find_first_cap(&cs, CAP_COMMON).is_some()
}

/// Register windows of a VirtIO network function.
#[derive(Clone, Copy, Debug, PartialEq, Eq, Structural)]
pub struct NetWindows {
    pub common_base: usize,
    pub notify_mul: u32,
    pub notify_base: usize,
}

/// The windows of a VirtIO network function: common and notify from their
/// last capabilities (BAR 0 at offset 0 when absent); none when the common
/// one is BAR 0 at offset 0 or either BAR is not a memory BAR.
pub open spec fn net_windows_spec(cfg: Seq<u8>) -> Option<NetWindows> {
    if vendor_of(cfg) != VIRTIO_VENDOR || class_of(cfg) != 2 {
        None
    } else {
        let cs = caps_of(cfg);
        let (cbar, coff) = match last_cap(cs, CAP_COMMON) { Some(c) => (c.bar, c.off), None => (0u8, 0u32) };
        let (nbar, noff, nmul) = match last_cap(cs, CAP_NOTIFY) {
            Some(c) => (c.bar, c.off, c.notify_mul),
            None => (0u8, 0u32, 0u32),
        };
        if cbar == 0 && coff == 0 {
            None
        } else {
            match (window(cfg, cbar, coff), window(cfg, nbar, noff)) {
                (Some(cb), Some(nb)) => Some(NetWindows { common_base: cb, notify_mul: nmul, notify_base: nb }),
                _ => None,
            }
        }
    }
}

pub fn net_windows(cfg: &[u8]) -> (r: Option<NetWindows>)
    requires
        cfg@.len() >= CFG_SPACE_LEN,
    ensures
        r == net_windows_spec(cfg@),
{
    if !is_virtio(cfg) || cfg[0x0B] != 2 {
        return None;
    }
    let cs = virtio_caps(cfg);
    let (cbar, coff) = match find_last_cap(&cs, CAP_COMMON) { Some(c) => (c.bar, c.off), None => (0u8, 0u32) };
    let (nbar, noff, nmul) = match find_last_cap(&cs, CAP_NOTIFY) {
        Some(c) => (c.bar, c.off, c.notify_mul),
        None => (0u8, 0u32, 0u32),
    };
    if cbar == 0 && coff == 0 {
        return None;
    }
    match (window_addr(cfg, cbar, coff), window_addr(cfg, nbar, noff)) {
        (Some(cb), Some(nb)) => Some(NetWindows { common_base: cb, notify_mul: nmul, notify_base: nb }),
        _ => None,
    }
}

/// The device configuration window of a VirtIO block function: from its last
/// device capability (BAR 0 at offset 0 when absent).
pub open spec fn blk_window_spec(cfg: Seq<u8>) -> Option<usize> {
    if vendor_of(cfg) != VIRTIO_VENDOR || class_of(cfg) != 1 {
        None
    } else {
        match last_cap(caps_of(cfg), CAP_DEVICE) {
            Some(c) => window(cfg, c.bar, c.off),
            None => window(cfg, 0, 0),
        }
    }
}

pub fn blk_window(cfg: &[u8]) -> (r: Option<usize>)
    requires
        cfg@.len() >= CFG_SPACE_LEN,
    ensures
        r == blk_window_spec(cfg@),
{
    if !is_virtio(cfg) || cfg[0x0B] != 1 {
        return None;
    }
    let cs = virtio_caps(cfg);
    match find_last_cap(&cs, CAP_DEVICE) {
        Some(c) => window_addr(cfg, c.bar, c.off),
        None => window_addr(cfg, 0, 0),
    }
}

/// Capacity in MiB of a block device of `(hi << 32) | lo` 512-byte sectors
/// (the byte count saturates; the result keeps the low 32 bits).
pub open spec fn capacity_mib_spec(lo: u32, hi: u32) -> u32 {
    let sectors: int = hi as int * 0x1_0000_0000 + lo as int;
    let bytes: int = if sectors * 512 > u64::MAX { u64::MAX as int } else { sectors * 512 };
    ((bytes / 1_048_576) as u64) as u32
}

pub fn capacity_mib(lo: u32, hi: u32) -> (r: u32)
    ensures
        r == capacity_mib_spec(lo, hi),
{
    let sectors: u64 = ((hi as u64) << 32u64) | (lo as u64);
    let h = hi as u64;
    let l = lo as u64;
    assert((h << 32u64) | l == h * 0x1_0000_0000 + l) by (bit_vector)
        requires h < 0x1_0000_0000, l < 0x1_0000_0000;
    let bytes = crate::time::saturating_mul_u64(sectors, 512);
    (bytes / 1_048_576) as u32
}

/// The tail of the block capacity report: the MiB count and its unit.
pub open spec fn mib_line_spec(mib: u32) -> Seq<u8> {
    dec_digits(mib as nat) + ascii(" MiB\r\n"@)
}

pub fn mib_line(mib: u32) -> (r: Vec<u8>)
    ensures
        r@ == mib_line_spec(mib),
{
    let mut out: Vec<u8> = Vec::new();
    push_dec(&mut out, mib);
    push_str(&mut out, " MiB\r\n");
    assert(out@ =~= mib_line_spec(mib));
    out
}

} // verus!
