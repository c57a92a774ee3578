use zerovisor::virtio::pci::{decode_bar, virtio_caps, VirtioCap, CFG_SPACE_LEN};
use zerovisor::virtio::queue::{
    notify_addr, ring_layout, rx_layout, scan_rx_payload, tx_pages, tx_slot, RingLayout, TxSlot,
};
use zerovisor::virtio::{
    blk_window, cap_flags, cap_line, caps_line, capacity_mib, common_window_for_scan, console_init_minimal,
    device_line, net_present, net_windows, CapFlags, NetWindows,
};
use zerovisor::util::crc32::crc32;

fn put_cap(cfg: &mut [u8], at: usize, next: u8, ty: u8, bar: u8, off: u32, len: u32, mul: u32) {
    cfg[at] = 9;
    cfg[at + 1] = next;
    cfg[at + 2] = 20;
    cfg[at + 3] = ty;
    cfg[at + 4] = bar;
    cfg[at + 8..at + 12].copy_from_slice(&off.to_le_bytes());
    cfg[at + 12..at + 16].copy_from_slice(&len.to_le_bytes());
    cfg[at + 16..at + 20].copy_from_slice(&mul.to_le_bytes());
}

fn net_function() -> Vec<u8> {
    let mut cfg = vec![0u8; CFG_SPACE_LEN];
    cfg[0] = 0xF4;
    cfg[1] = 0x1A;
    cfg[2] = 0x41;
    cfg[3] = 0x10;
    cfg[0x0B] = 2;
    // BAR 4: 64-bit memory at 0x1_2345_0000.
    cfg[0x20..0x24].copy_from_slice(&0x2345_0004u32.to_le_bytes());
    cfg[0x24..0x28].copy_from_slice(&1u32.to_le_bytes());
    // BAR 1: I/O.
    cfg[0x14..0x18].copy_from_slice(&0xC001u32.to_le_bytes());
    cfg[0x34] = 0x40;
    put_cap(&mut cfg, 0x40, 0x60, 1, 4, 0x0, 0x38, 0);
    cfg[0x60] = 0x11; // MSI-X, not vendor-specific
    cfg[0x61] = 0x70;
    put_cap(&mut cfg, 0x70, 0x84, 2, 4, 0x3000, 0x1000, 4);
    put_cap(&mut cfg, 0x84, 0x84, 4, 4, 0x2000, 0x1000, 0);
    cfg
}

#[test]
fn capability_chain_is_followed() {
    let cfg = net_function();
    let caps = virtio_caps(&cfg);
    assert_eq!(caps, vec![
        VirtioCap { cfg_type: 1, bar: 4, off: 0, len: 0x38, notify_mul: 0 },
        VirtioCap { cfg_type: 2, bar: 4, off: 0x3000, len: 0x1000, notify_mul: 4 },
        VirtioCap { cfg_type: 4, bar: 4, off: 0x2000, len: 0x1000, notify_mul: 0 },
    ]);
    assert_eq!(cap_flags(&caps), CapFlags { common: true, notify: true, isr: false, device: true });
}

#[test]
fn chains_outside_the_capability_area_end_at_once() {
    let mut cfg = net_function();
    cfg[0x34] = 0x20;
    assert!(virtio_caps(&cfg).is_empty());
}

#[test]
fn bars_decode() {
    let cfg = net_function();
    assert_eq!(decode_bar(&cfg, 4), Some(0x1_2345_0000));
    assert_eq!(decode_bar(&cfg, 1), None);
    assert_eq!(decode_bar(&cfg, 0), Some(0));
    assert_eq!(decode_bar(&cfg, 6), None);
}

#[test]
fn device_windows() {
    let cfg = net_function();
    assert!(net_present(&cfg));
    assert_eq!(common_window_for_scan(&cfg), Some(0x1_2345_0000));
    assert_eq!(console_init_minimal(&cfg), Some(0x1_2345_0000));
    // The common capability sits at BAR 4 offset 0, so it counts as present.
    assert_eq!(net_windows(&cfg), Some(NetWindows { common_base: 0x1_2345_0000, notify_mul: 4, notify_base: 0x1_2345_3000 }));
    assert_eq!(blk_window(&cfg), None);
    let mut blk = cfg.clone();
    blk[0x0B] = 1;
    assert_eq!(blk_window(&blk), Some(0x1_2345_2000));
    assert!(!net_present(&blk));
    let mut other = cfg.clone();
    other[0] = 0x86;
    other[1] = 0x80;
    assert!(!net_present(&other));
    assert_eq!(console_init_minimal(&other), None);
}

#[test]
fn report_lines() {
    assert_eq!(device_line(0, 0, 3, 0, 0x1AF4, 0x1041, 2, 0),
        b"VirtIO: seg=0 bus=0 dev=3 fn=0 vid=0x1AF4 did=0x1041 class=2/0\r\n".to_vec());
    assert_eq!(cap_line(VirtioCap { cfg_type: 2, bar: 4, off: 0x3000, len: 0x1000, notify_mul: 4 }),
        b"  cap: type=2 bar=4 off=0x3000 len=0x1000\r\n".to_vec());
    assert_eq!(caps_line(CapFlags { common: true, notify: false, isr: true, device: false }),
        b"  caps: common=1 notify=0 isr=1 device=0\r\n".to_vec());
}

#[test]
fn block_capacity() {
    assert_eq!(capacity_mib(2048, 0), 1);
    assert_eq!(capacity_mib(0, 1), 2_097_152);
    assert_eq!(capacity_mib(u32::MAX, u32::MAX), (u64::MAX / 1_048_576) as u32);
}

#[test]
fn queue_layout_and_doorbell() {
    assert_eq!(ring_layout(256), RingLayout { desc_bytes: 4096, avail_off: 4096, avail_ring_off: 4100,
        used_off: 4096 + 518, ring_bytes: 4096 + 518 + 2054 + 4096 });
    assert_eq!(tx_pages(256), 3);
    let rx = rx_layout(8);
    assert_eq!(rx.slab_bytes, 8 * 2112);
    assert_eq!(rx.slab_off, rx.ring.ring_bytes);
    assert_eq!(notify_addr(0x1000, 3, 4), 0x100C);
    assert_eq!(notify_addr(0x1000, 0xFFFF, u32::MAX), 0x1000 + u32::MAX as usize);
}

#[test]
fn transmit_slots() {
    assert_eq!(tx_slot(5, 3, 8, 100), TxSlot::Use { slot: 5, total: 110 });
    assert_eq!(tx_slot(13, 6, 8, 100), TxSlot::Full);
    assert_eq!(tx_slot(2, 0xFFFE, 8, 100), TxSlot::Use { slot: 2, total: 110 });
    assert_eq!(tx_slot(0, 0, 8, 6134), TxSlot::Use { slot: 0, total: 6144 });
    assert_eq!(tx_slot(0, 0, 8, 6135), TxSlot::TooLarge);
}

fn frame(body: &[u8], crc: u32) -> Vec<u8> {
    let mut h = vec![0x5A, 0x4D, 0x49, 0x47, 1, 1, 0, 0];
    h.extend_from_slice(&[0u8; 12]);
    h.extend_from_slice(&(body.len() as u32).to_le_bytes());
    h.extend_from_slice(&crc.to_le_bytes());
    h.extend_from_slice(body);
    h
}

#[test]
fn received_payload_scan() {
    let good = frame(b"hello", crc32(b"hello"));
    let bad = frame(b"oops", 0);
    let mut p = vec![0xEE, 0xEE];
    p.extend_from_slice(&good);
    p.extend_from_slice(&bad);
    p.extend_from_slice(&good);
    let r = scan_rx_payload(&p);
    assert_eq!(r.frames, vec![(2, 33), (2 + 33 + 32, 33)]);
    assert_eq!(r.bad, 1);
    // A frame that runs past the end stops the scan.
    let mut cut = good.clone();
    cut.truncate(30);
    let r = scan_rx_payload(&cut);
    assert!(r.frames.is_empty());
    assert_eq!(r.bad, 0);
}
