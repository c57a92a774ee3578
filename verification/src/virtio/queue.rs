//! Split virtqueues: ring layout and page counts, queue notification
//! addresses, the transmit slot decision and the scan of received network
//! payloads for migration frames.

use vstd::prelude::*;
use vstd::slice::slice_subrange;
use crate::util::crc32::{crc32, crc32_spec};
use crate::migrate::frame::MAGIC;
use crate::virtio::pci::le32_at;

verus! {

/// Bytes of a descriptor.
pub const DESC_SIZE: usize = 16;
/// Bytes of a used-ring element.
pub const USED_ELEM_SIZE: usize = 8;
/// Length of the virtio-net header before each packet.
pub const NET_HDR_LEN: usize = 10;
/// Size of each receive buffer.
pub const RX_BUF_LEN: usize = 2048 + 64;
/// Capacity of the transmit buffer (header and packet).
pub const TX_BUF_CAP: usize = 4096 + 2048;
/// Descriptor flag: the device writes the buffer.
pub const DESC_F_WRITE: u16 = 2;
/// Bytes of a migration frame header.
pub const FRAME_HDR_LEN: usize = 28;

/// Where the parts of a queue of `size` entries lie in its memory: the
/// descriptor table, then the available ring (flags, index, ring, event),
/// then the used ring; a page of slack follows.
#[derive(Clone, Copy, Debug, PartialEq, Eq, Structural)]
pub struct RingLayout {
    pub desc_bytes: usize,
    pub avail_off: usize,
    pub avail_ring_off: usize,
    pub used_off: usize,
    pub ring_bytes: usize,
}

pub open spec fn ring_layout_spec(size: u16) -> RingLayout {
    let d = 16 * size;
    let a = 2 * (3 + size);
    let u = 6 + 8 * size;
    RingLayout {
        desc_bytes: d as usize,
        avail_off: d as usize,
        avail_ring_off: (d + 4) as usize,
        used_off: (d + a) as usize,
        ring_bytes: (d + a + u + 4096) as usize,
    }
}

pub fn ring_layout(size: u16) -> (r: RingLayout)
    ensures
        r == ring_layout_spec(size),
{
    let q = size as usize;
    let d = DESC_SIZE * q;
    let a = 2 * (3 + q);
    let u = 6 + USED_ELEM_SIZE * q;
    RingLayout { desc_bytes: d, avail_off: d, avail_ring_off: d + 4, used_off: d + a, ring_bytes: d + a + u + 4096 }
}

/// Pages for a transmit queue of `size` entries.
pub fn tx_pages(size: u16) -> (n: usize)
    ensures
        n == (ring_layout_spec(size).ring_bytes + 4095) / 4096,
{
    let l = ring_layout(size);
    (l.ring_bytes + 4095) / 4096
}

/// Layout of a receive queue: its rings, then one buffer per entry.
#[derive(Clone, Copy, Debug, PartialEq, Eq, Structural)]
pub struct RxLayout {
    pub ring: RingLayout,
    pub slab_off: usize,
    pub slab_bytes: usize,
    pub pages: usize,
}

pub fn rx_layout(size: u16) -> (r: RxLayout)
    ensures
        r.ring == ring_layout_spec(size),
        r.slab_off == r.ring.ring_bytes,
        r.slab_bytes == RX_BUF_LEN * size,
        r.pages == (r.ring.ring_bytes + r.slab_bytes + 4095) / 4096,
{
    let ring = ring_layout(size);
    let slab_bytes = RX_BUF_LEN * (size as usize);
    RxLayout { ring, slab_off: ring.ring_bytes, slab_bytes, pages: (ring.ring_bytes + slab_bytes + 4095) / 4096 }
}

/// Address of the receive buffer of entry `i` in a slab at `slab`.
pub fn rx_buffer_addr(slab: u64, i: u16) -> (a: u64)
    requires
        slab + RX_BUF_LEN * i <= u64::MAX,
    ensures
        a == slab + RX_BUF_LEN * i,
{
    slab + (RX_BUF_LEN as u64) * (i as u64)
}

/// The doorbell of a queue: the notify window plus the queue's notify
/// offset times the multiplier (saturating), wrapping at the address width.
pub open spec fn notify_addr_spec(notify_base: usize, queue_notify_off: u16, mul: u32) -> usize {
    let prod: int = queue_notify_off as int * mul as int;
    let p: u32 = if prod > u32::MAX { u32::MAX } else { prod as u32 };
    vstd::wrapping::usize_specs::wrapping_add(notify_base, p as usize)
}

pub fn notify_addr(notify_base: usize, queue_notify_off: u16, mul: u32) -> (a: usize)
    ensures
        a == notify_addr_spec(notify_base, queue_notify_off, mul),
{
    let p: u32 = match (queue_notify_off as u32).checked_mul(mul) {
        Some(v) => v,
        None => u32::MAX,
    };
    notify_base.wrapping_add(p as usize)
}

/// What to do with a packet to transmit.
#[derive(Clone, Copy, Debug, PartialEq, Eq, Structural)]
pub enum TxSlot {
    /// Header and packet exceed the transmit buffer.
    TooLarge,
    /// The ring has no free entry.
    Full,
    /// Put a descriptor of `total` bytes at `slot`.
    Use { slot: u16, total: usize },
}

/// The transmit decision for a packet of `len` bytes with available index
/// `avail`, used index `used` and `size` entries: refused when header and
/// packet exceed the buffer or when `size - 1` entries are in flight; else
/// the slot of the available index.
pub open spec fn tx_slot_spec(avail: u16, used: u16, size: u16, len: usize) -> TxSlot {
    let pending: int = (avail as int - used as int + 0x1_0000) % 0x1_0000;
    if NET_HDR_LEN + len > TX_BUF_CAP {
        TxSlot::TooLarge
    } else if pending >= size - 1 {
        TxSlot::Full
    } else {
        TxSlot::Use { slot: (avail % size) as u16, total: (NET_HDR_LEN + len) as usize }
    }
}

pub fn tx_slot(avail: u16, used: u16, size: u16, len: usize) -> (r: TxSlot)
    requires
        size > 0,
    ensures
        r == tx_slot_spec(avail, used, size, len),
{
    if len > TX_BUF_CAP - NET_HDR_LEN {
        return TxSlot::TooLarge;
    }
    let pending = avail.wrapping_sub(used);
    assert(pending as int == (avail as int - used as int + 0x1_0000) % 0x1_0000);
    if pending >= size - 1 {
        return TxSlot::Full;
    }
    TxSlot::Use { slot: avail % size, total: NET_HDR_LEN + len }
}

/// The migration frames found in a received payload from `pos` on: at each
/// position holding the frame magic, a frame whose body (its length at
/// header offset 20) fits and whose CRC-32 matches the header (offset 24)
/// is taken whole; a mismatching one counts as bad and the search moves one
/// byte on; a frame that runs past the end stops the search. Frames are
/// given as (start, length).
pub open spec fn rx_scan(p: Seq<u8>, pos: int) -> (Seq<(usize, usize)>, nat)
    decreases p.len() - pos,
{
    if pos < 0 || pos + FRAME_HDR_LEN > p.len() {
        (Seq::empty(), 0)
    } else if p.subrange(pos, pos + 4) != MAGIC@ {
        rx_scan(p, pos + 1)
    } else {
        let plen = le32_at(p, pos + 20) as int;
        if pos + FRAME_HDR_LEN + plen > p.len() {
            (Seq::empty(), 0)
        } else if crc32_spec(0, p.subrange(pos + FRAME_HDR_LEN, pos + FRAME_HDR_LEN + plen)) == le32_at(p, pos + 24) {
            let rest = rx_scan(p, pos + FRAME_HDR_LEN + plen);
            (seq![(pos as usize, (FRAME_HDR_LEN + plen) as usize)] + rest.0, rest.1)
        } else {
            let rest = rx_scan(p, pos + 1);
            (rest.0, rest.1 + 1)
        }
    }
}

/// Every frame the scan reports is a whole migration frame of the payload
/// from `pos` on, and they come in order without overlapping: the `k`-th
/// starts with the frame magic, its length is the header's plus the payload
/// length of header offset 20, it fits in the payload, its payload's CRC-32
/// is the one of header offset 24, and the next one starts after it.
pub proof fn law_rx_scan(p: Seq<u8>, pos: int, k: int)
    requires
        p.len() <= usize::MAX,
        0 <= k < rx_scan(p, pos).0.len(),
    ensures
        ({
            let f = rx_scan(p, pos).0[k];
            let o = f.0 as int;
            let l = f.1 as int;
            &&& pos <= o
            &&& o + l <= p.len()
            &&& p.subrange(o, o + 4) == MAGIC@
            &&& l == FRAME_HDR_LEN + le32_at(p, o + 20)
            &&& crc32_spec(0, p.subrange(o + FRAME_HDR_LEN, o + l)) == le32_at(p, o + 24)
            &&& k + 1 < rx_scan(p, pos).0.len() ==> o + l <= rx_scan(p, pos).0[k + 1].0
        }),
    decreases p.len() - pos,
{
    if p.subrange(pos, pos + 4) != MAGIC@ {
        law_rx_scan(p, pos + 1, k);
    } else {
        let plen = le32_at(p, pos + 20) as int;
        if crc32_spec(0, p.subrange(pos + FRAME_HDR_LEN, pos + FRAME_HDR_LEN + plen)) == le32_at(p, pos + 24) {
            let rest = rx_scan(p, pos + FRAME_HDR_LEN + plen);
            let all = rx_scan(p, pos).0;
            assert(all == seq![(pos as usize, (FRAME_HDR_LEN + plen) as usize)] + rest.0);
            if k == 0 {
                if rest.0.len() > 0 {
                    law_rx_scan(p, pos + FRAME_HDR_LEN + plen, 0);
                }
            } else {
                assert(all[k] == rest.0[k - 1]);
                law_rx_scan(p, pos + FRAME_HDR_LEN + plen, k - 1);
                if k + 1 < all.len() {
                    assert(all[k + 1] == rest.0[k]);
                }
            }
        } else {
            law_rx_scan(p, pos + 1, k);
        }
    }
}

/// Frames found in a payload, and the count of bad ones.
pub struct RxFrames {
    pub frames: Vec<(usize, usize)>,
    pub bad: usize,
}

fn le32_in(p: &[u8], i: usize) -> (v: u32)
    requires
        i + 4 <= p@.len(),
    ensures
        v == le32_at(p@, i as int),
{
    (p[i] as u32) | ((p[i + 1] as u32) << 8u32) | ((p[i + 2] as u32) << 16u32) | ((p[i + 3] as u32) << 24u32)
}

/// Scan a received payload for migration frames.
pub fn scan_rx_payload(p: &[u8]) -> (r: RxFrames)
    ensures
        r.frames@ == rx_scan(p@, 0).0,
        r.bad == rx_scan(p@, 0).1,
{
    let mut frames: Vec<(usize, usize)> = Vec::new();
    let mut bad: usize = 0;
    let mut pos: usize = 0;
    let mut done = false;
    while !done && pos <= p.len() && p.len() - pos >= FRAME_HDR_LEN
        invariant
            pos <= p@.len() + 1,
            bad <= pos,
            rx_scan(p@, 0).0 == frames@ + if done { Seq::empty() } else { rx_scan(p@, pos as int).0 },
            rx_scan(p@, 0).1 == bad + if done { 0nat } else { rx_scan(p@, pos as int).1 },
        decreases p@.len() + 1 - pos + if done { 0int } else { 1int },
    {
        let m = [p[pos], p[pos + 1], p[pos + 2], p[pos + 3]];
        let magic = m[0] == MAGIC[0] && m[1] == MAGIC[1] && m[2] == MAGIC[2] && m[3] == MAGIC[3];
        proof {
            if magic {
                assert(p@.subrange(pos as int, pos + 4) =~= MAGIC@);
            } else {
                assert(p@.subrange(pos as int, pos + 4) != MAGIC@) by {
                    if p@.subrange(pos as int, pos + 4) == MAGIC@ {
                        assert(p@.subrange(pos as int, pos + 4)[0] == MAGIC@[0]);
                        assert(p@.subrange(pos as int, pos + 4)[1] == MAGIC@[1]);
                        assert(p@.subrange(pos as int, pos + 4)[2] == MAGIC@[2]);
                        assert(p@.subrange(pos as int, pos + 4)[3] == MAGIC@[3]);
                    }
                }
            }
        }
        if !magic {
            pos = pos + 1;
        } else {
            let plen = le32_in(p, pos + 20) as usize;
            if p.len() - pos - FRAME_HDR_LEN < plen {
                done = true;
            } else {
                let body = slice_subrange(p, pos + FRAME_HDR_LEN, pos + FRAME_HDR_LEN + plen);
                let want = le32_in(p, pos + 24);
                if crc32(body) == want {
                    let ghost before = frames@;
                    frames.push((pos, FRAME_HDR_LEN + plen));
                    assert(frames@ + rx_scan(p@, (pos + FRAME_HDR_LEN + plen) as int).0
                        =~= before + rx_scan(p@, pos as int).0);
                    pos = pos + FRAME_HDR_LEN + plen;
                } else {
                    bad = bad + 1;
                    pos = pos + 1;
                }
            }
        }
    }
    proof {
        if !done {
            assert(rx_scan(p@, pos as int).0 =~= Seq::<(usize, usize)>::empty());
        }
    }
    assert(frames@ =~= rx_scan(p@, 0).0);
    RxFrames { frames, bad }
}

} // verus!
