use zerovisor::hv::vm::{HvVendor, VmInfo, VmRegistry};
use zerovisor::migrate::control::start_tracking_by_id;
use zerovisor::migrate::chan::ChanBuffer;
use zerovisor::migrate::writer::{BufferWriter, MigrWriter, NullWriter};
use zerovisor::migrate::control::{chan_new, chan_write_bytes};
use zerovisor::migrate::dirty::{DirtyBitmap, DirtyTracker, TrackerKind};
use zerovisor::migrate::export::{chan_dump_pieces, export_console_lines, export_to_chan, hex_line_of, txlog_entries, txlog_line_of};
use zerovisor::migrate::precopy::{dirty_run_pages, precopy, scan_round, tracker_stats};
use zerovisor::migrate::receive::{chan_replay, ctrl_reaction, replay_frames};
use zerovisor::migrate::session::{send_replies, MigState, TrackerState, TxEntry};
use zerovisor::migrate::sink::ExportSink;
use zerovisor::migrate::transfer::{resend_from, resend_plan, send_dirty_pages};
use zerovisor::mm::pages::PhysPages;
use zerovisor::obs::metrics::{dump, mig_add, observe_vmx_smoke_us, reset, Metrics, MIG_LAST_SEQ, MIG_SESSIONS,
    MIG_BYTES_TX, MIG_DIRTY_PAGES, MIG_HASH_SKIPPED, MIG_PRECOPY_PAGES, MIG_PRECOPY_ROUNDS, MIG_SCAN_ROUNDS,
    MIG_ZERO_BYTES_SAVED, MIG_ZERO_SKIPPED, MIG_FRAMES, MIG_COMPRESSED_PAGES, MIG_RAW_PAGES, MIG_MANIFESTS,
    MIG_REPLAY_BYTES, MIG_REPLAY_ERRORS, MIG_REPLAY_PAGES, MIG_RESEND_TRIGGERS,
    MIG_ACKS, MIG_CB_WRITTEN_BYTES, MIG_CTRL_AUTO_ACK_SENT, MIG_CTRL_AUTO_NAK_SENT, MIG_CTRL_FRAMES, MIG_NAKS};

/// EPT at 0x1000 (PML4, PDPT, PD, PT); pages 1, 2 and 3 dirty, page 4 clean.
fn ept() -> PhysPages {
    let mut words = vec![0u64; 2048];
    words[0] = 0x2000 | 1;
    words[512] = 0x3000 | 1;
    words[1024] = 0x4000 | 1;
    for p in 1..4u64 {
        words[1536 + p as usize] = (p << 12) | 1 | 0x300;
    }
    words[1536 + 4] = (4 << 12) | 1;
    PhysPages { base: 0x1000, words }
}

fn tracker() -> DirtyTracker {
    DirtyTracker { vm_id: 7, root_phys: 0x1000, memory_limit: 0x20_0000, kind: TrackerKind::IntelEpt }
}

/// 512 guest pages: page 1 all zero, the others full of their index.
fn guest() -> Vec<Vec<u8>> {
    (0..512u32).map(|i| if i == 1 { vec![0u8; 4096] } else { vec![(i as u8) | 0x80; 4096] }).collect()
}

#[test]
fn scan_round_marks_dirty_pages() {
    let mut mem = ept();
    let mut bm = DirtyBitmap::allocate(512).unwrap();
    assert_eq!(scan_round(&mut mem, &tracker(), &mut bm, false, &mut Metrics::new()), 3);
    assert_eq!(bm.for_each_set(), vec![1, 2, 3]);
    let unknown = DirtyTracker { kind: TrackerKind::Unknown, ..tracker() };
    assert_eq!(scan_round(&mut mem, &unknown, &mut bm, false, &mut Metrics::new()), 0);
}

#[test]
fn precopy_elides_zero_pages_and_stops_when_clean() {
    let mut mem = ept();
    let mut bm = DirtyBitmap::allocate(512).unwrap();
    let r = precopy(&mut mem, &tracker(), &mut bm, &guest(), 3, true, &mut Metrics::new());
    assert_eq!(r.rounds, 2);
    assert_eq!(r.sent, vec![2, 3]);
    assert_eq!(r.zero_skipped, 1);
    assert_eq!(r.hash_skipped, 0);
}

#[test]
fn precopy_without_clearing_resends_every_round() {
    let mut mem = ept();
    let mut bm = DirtyBitmap::allocate(512).unwrap();
    let r = precopy(&mut mem, &tracker(), &mut bm, &guest(), 2, false, &mut Metrics::new());
    assert_eq!(r.rounds, 2);
    assert_eq!(r.sent, vec![2, 3, 2, 3]);
    assert_eq!(r.zero_skipped, 2);
    let r0 = precopy(&mut mem, &tracker(), &mut bm, &guest(), 0, false, &mut Metrics::new());
    assert_eq!(r0.rounds, 0);
    assert!(r0.sent.is_empty());
}

#[test]
fn precopy_counts_rounds_pages_and_elisions() {
    let mut mem = ept();
    let mut bm = DirtyBitmap::allocate(512).unwrap();
    let mut m = Metrics::new();
    let r = precopy(&mut mem, &tracker(), &mut bm, &guest(), 3, true, &mut m);
    assert_eq!(r.rounds, 2);
    assert_eq!(m.mig[MIG_SCAN_ROUNDS], 2);
    assert_eq!(m.mig[MIG_DIRTY_PAGES], 3);
    assert_eq!(m.mig[MIG_PRECOPY_ROUNDS], 1);
    assert_eq!(m.mig[MIG_PRECOPY_PAGES], 3);
    assert_eq!(m.mig[MIG_BYTES_TX], 3 * 4096);
    assert_eq!(m.mig[MIG_ZERO_SKIPPED], 1);
    assert_eq!(m.mig[MIG_ZERO_BYTES_SAVED], 4096);
    assert_eq!(m.mig[MIG_HASH_SKIPPED], 0);
    let mut m2 = Metrics::new();
    let _ = scan_round(&mut mem, &tracker(), &mut bm, false, &mut m2);
    assert_eq!(m2.mig[MIG_SCAN_ROUNDS], 1);
    assert_eq!(m2.mig[MIG_DIRTY_PAGES], 0);
}

#[test]
fn dirty_runs_list_the_dirty_pages() {
    let mut mem = ept();
    let mut bm = DirtyBitmap::allocate(512).unwrap();
    assert_eq!(dirty_run_pages(&mut mem, &tracker(), &mut bm, &mut Metrics::new()), (3, vec![1, 2, 3]));
}

#[test]
fn console_export_lists_sixteen_bytes_per_line() {
    let data = vec![0xABu8; 20];
    let lines = export_console_lines(0x1000, &data);
    assert_eq!(lines.len(), 2);
    assert_eq!(lines[0], b"0x1000: AB AB AB AB AB AB AB AB AB AB AB AB AB AB AB AB \r\n".to_vec());
    assert_eq!(lines[1], b"0x1010: AB AB AB AB \r\n".to_vec());
    assert!(export_console_lines(0, &[]).is_empty());
    assert_eq!(export_console_lines(0, &[0x0F])[0], b"0x0: F \r\n".to_vec());
}

#[test]
fn channel_export_and_dump() {
    let mut st = MigState::new();
    assert_eq!(export_to_chan(&mut st, &[1, 2, 3], &mut Metrics::new()), 3);
    assert!(chan_dump_pieces(&st, 0, true).is_none());
    assert!(chan_new(&mut st, 1));
    let data: Vec<u8> = (0..40u8).collect();
    assert_eq!(export_to_chan(&mut st, &data, &mut Metrics::new()), 40);
    let pieces = chan_dump_pieces(&st, 0, true).unwrap();
    assert_eq!(pieces.len(), 3);
    assert_eq!(pieces[2], (32..40u8).collect::<Vec<u8>>());
    assert_eq!(chan_dump_pieces(&st, 20, false).unwrap(), vec![(0..20u8).collect::<Vec<u8>>()]);
    assert_eq!(hex_line_of(&[0x00, 0x1F]), b"0 1F \r\n".to_vec());
    assert_eq!(chan_write_bytes(&mut st, &[9], &mut Metrics::new()), 1);
}

#[test]
fn transmit_log_lines() {
    let mut st = MigState::new();
    st.tx_log.record(TxEntry { kind: 1, seq: 5, page_index: 0x1_0000_0002 });
    st.tx_log.record(TxEntry { kind: 2, seq: 6, page_index: 0 });
    st.tx_log.record(TxEntry { kind: 9, seq: 7, page_index: 0 });
    let all = txlog_entries(&st, 0);
    assert_eq!(all.len(), 3);
    let last = txlog_entries(&st, 1);
    assert_eq!(last, vec![TxEntry { kind: 9, seq: 7, page_index: 0 }]);
    assert_eq!(txlog_line_of(&all[0]), b"txlog: kind=page seq=5 page=2\r\n".to_vec());
    assert_eq!(txlog_line_of(&all[1]), b"txlog: kind=manifest seq=6\r\n".to_vec());
    assert_eq!(txlog_line_of(&all[2]), b"txlog: kind=? seq=7\r\n".to_vec());
}

fn header(flags: u16, plen: u32) -> Vec<u8> {
    let mut h = vec![0x5A, 0x4D, 0x49, 0x47, 1, 1];
    h.extend_from_slice(&flags.to_le_bytes());
    h.extend_from_slice(&1u32.to_le_bytes());
    h.extend_from_slice(&0u64.to_le_bytes());
    h.extend_from_slice(&plen.to_le_bytes());
    h.extend_from_slice(&0u32.to_le_bytes());
    h
}

#[test]
fn replay_counts_raw_and_compressed_pages() {
    // A raw frame of 8 bytes, with room behind it.
    let mut raw = header(0, 8);
    raw.extend_from_slice(&[7u8; 8]);
    raw.extend_from_slice(&[0u8; 32]);
    let r = replay_frames(&raw, 0);
    assert_eq!((r.pages, r.bytes, r.errors), (1, 4096, 0));
    // A raw frame that ends the stream is cut short by the header read.
    let mut tail = header(0, 8);
    tail.extend_from_slice(&[7u8; 8]);
    assert_eq!(replay_frames(&tail, 0).pages, 0);
    // A compressed page: the pairs after the 32 header bytes fill 4 KiB.
    let mut comp = header(1, 4);
    comp.extend_from_slice(&[0u8; 4]);
    for _ in 0..16 {
        comp.extend_from_slice(&[0, 255]);
    }
    comp.extend_from_slice(&[0, 16]);
    let r = replay_frames(&comp, 0);
    assert_eq!((r.pages, r.errors), (1, 0));
    // A run past the page is an error.
    let mut bad = header(1, 4);
    bad.extend_from_slice(&[0u8; 4]);
    for _ in 0..16 {
        bad.extend_from_slice(&[0, 255]);
    }
    bad.extend_from_slice(&[0, 17]);
    let r = replay_frames(&bad, 0);
    assert_eq!((r.pages, r.errors), (1, 1));
    // The page limit stops the replay.
    let mut two = raw.clone();
    two.extend_from_slice(&raw);
    assert_eq!(replay_frames(&two, 0).pages, 2);
    assert_eq!(replay_frames(&two, 1).pages, 1);
}

#[test]
fn replay_needs_a_channel() {
    let mut st = MigState::new();
    assert!(chan_replay(&st, 0, &mut Metrics::new()).is_none());
    assert!(chan_new(&mut st, 1));
    assert_eq!(chan_replay(&st, 0, &mut Metrics::new()).unwrap().pages, 0);
    assert!(tracker_stats(&st).is_none());
}

#[test]
fn metrics_dump_lines() {
    let mut m = Metrics::new();
    observe_vmx_smoke_us(&mut m, 7);
    observe_vmx_smoke_us(&mut m, 5000);
    m.vm_created.inc();
    mig_add(&mut m, MIG_SESSIONS, 2);
    mig_add(&mut m, MIG_LAST_SEQ, 0x1_0000_0009);
    let lines = dump(&m);
    assert_eq!(lines.len(), 60);
    assert_eq!(lines[0], b"metrics: vm_created=1\r\n".to_vec());
    assert_eq!(lines[11], b"metrics: iommu_inval_bdf=0\r\n".to_vec());
    assert_eq!(lines[12], b"metrics: mig_sessions=2\r\n".to_vec());
    assert_eq!(lines[13], b"metrics: mig_scan_rounds=0\r\n".to_vec());
    assert_eq!(lines[47], b"metrics: mig_poll_cycles=0\r\n".to_vec());
    assert_eq!(lines[58], b"metrics: mig_last_seq=9\r\n".to_vec());
    assert_eq!(
        lines[59],
        b"metrics: vmx_smoke_us=[<=1:0],[<=5:0],[<=10:1],[<=25:0],[<=50:0],[<=100:0],[<=250:0],[<=1000:0],[>1000:1]\r\n".to_vec()
    );
    // A reset zeroes the core counters and keeps the migration counters.
    reset(&mut m);
    let lines = dump(&m);
    assert_eq!(lines[0], b"metrics: vm_created=0\r\n".to_vec());
    assert_eq!(lines[12], b"metrics: mig_sessions=2\r\n".to_vec());
}

#[test]
fn writers_drop_or_append() {
    let mut null = NullWriter;
    assert_eq!(null.write(&[1, 2, 3]), 0);
    let mut w = BufferWriter { chan: ChanBuffer::new(4) };
    assert_eq!(w.write(&[1, 2, 3]), 3);
    assert_eq!(w.write(&[4, 5]), 2);
    // The channel keeps the four most recent bytes.
    assert_eq!(w.chan.read_all(), vec![2, 3, 4, 5]);
}

#[test]
fn tracking_by_id_finds_the_registered_vm() {
    let mut reg = VmRegistry::new();
    reg.infos.push(VmInfo { id: 3, vendor: HvVendor::Unknown, pml4_phys: 0x1000, memory_bytes: 0x4000_0000 });
    reg.infos.push(VmInfo { id: 7, vendor: HvVendor::Intel, pml4_phys: 0x2000, memory_bytes: 0x4000_0000 });
    let mut st = MigState::new();
    assert!(!start_tracking_by_id(&mut st, &reg, 9, &mut Metrics::new()));
    assert!(!start_tracking_by_id(&mut st, &reg, 3, &mut Metrics::new()));
    assert!(st.tracker.is_none());
    assert!(start_tracking_by_id(&mut st, &reg, 7, &mut Metrics::new()));
    let t = st.tracker.as_ref().unwrap();
    assert_eq!(t.tracker.vm_id, 7);
    assert_eq!(t.tracker.root_phys, 0x2000);
    assert_eq!(t.bitmap.bits.len(), 0x40000 / 8);
}

/// Pages 0..4: page 1 all zero, page 2 one repeated byte, page 3 alternating bytes.
fn transfer_pages() -> Vec<Vec<u8>> {
    (0..4u32).map(|i| match i {
        1 => vec![0u8; 4096],
        3 => (0..4096usize).map(|k| if k % 2 == 0 { 0x11u8 } else { 0x22u8 }).collect(),
        _ => vec![0x82u8; 4096],
    }).collect()
}

fn tracked_state(dirty: &[u64]) -> MigState {
    let mut st = MigState::new();
    let mut bm = DirtyBitmap::allocate(16).unwrap();
    for &p in dirty {
        bm.set_bit(p);
    }
    st.tracker = Some(TrackerState { tracker: tracker(), bitmap: bm });
    st
}

#[test]
fn send_dirty_pages_elides_zero_pages_and_counts_frames() {
    let mut st = tracked_state(&[1, 2, 3]);
    let all = transfer_pages();
    let pages = vec![all[1].clone(), all[2].clone(), all[3].clone()];
    let mut out = Vec::new();
    let mut m = Metrics::new();
    let r = send_dirty_pages(&mut st, &pages, true, ExportSink::Null, &mut out, &mut m);
    // page 2 compresses to 17 runs of (value, length); page 3 does not shrink
    assert_eq!(r, (2, 2, (28 + 34) + (28 + 4096)));
    assert_eq!(st.seq, 4);
    assert_eq!(m.mig[MIG_FRAMES], 2);
    assert_eq!(m.mig[MIG_COMPRESSED_PAGES], 1);
    assert_eq!(m.mig[MIG_RAW_PAGES], 1);
    assert_eq!(m.mig[MIG_ZERO_SKIPPED], 1);
    assert_eq!(m.mig[MIG_ZERO_BYTES_SAVED], 4096);
    assert_eq!(m.mig[MIG_MANIFESTS], 1);
    let log: Vec<(u8, u32, u64)> = st.tx_log.recent().iter().map(|e| (e.kind, e.seq, e.page_index)).collect();
    assert_eq!(log, vec![(1, 1, 2), (1, 2, 3), (2, 3, 0)]);
}

#[test]
fn send_dirty_pages_without_tracker_sends_nothing() {
    let mut st = MigState::new();
    let mut out = Vec::new();
    let mut m = Metrics::new();
    assert_eq!(send_dirty_pages(&mut st, &vec![], false, ExportSink::Console, &mut out, &mut m), (0, 0, 0));
    assert!(out.is_empty());
    assert_eq!(m.mig[MIG_MANIFESTS], 0);
}

#[test]
fn resend_from_resends_logged_pages_with_new_sequence_numbers() {
    let mut st = tracked_state(&[2, 3]);
    let all = transfer_pages();
    let mut out = Vec::new();
    let mut m = Metrics::new();
    let _ = send_dirty_pages(&mut st, &vec![all[2].clone(), all[3].clone()], false, ExportSink::Null, &mut out, &mut m);
    assert_eq!(resend_plan(&st, 2, 0), vec![3]);
    let mut m2 = Metrics::new();
    let r = resend_from(&mut st, 2, 0, &vec![all[3].clone()], false, ExportSink::Null, &mut out, &mut m2);
    assert_eq!(r, (1, 28 + 4096));
    assert_eq!(m2.mig[MIG_FRAMES], 1);
    assert_eq!(m2.mig[MIG_RAW_PAGES], 1);
    assert_eq!(m2.mig[MIG_MANIFESTS], 1);
    let log: Vec<(u8, u32, u64)> = st.tx_log.recent().iter().map(|e| (e.kind, e.seq, e.page_index)).collect();
    assert_eq!(log[3..].to_vec(), vec![(1, 4, 3), (2, 5, 0)]);
}

#[test]
fn channel_replay_is_counted() {
    let mut st = MigState::new();
    assert!(chan_new(&mut st, 1));
    let mut raw = header(0, 8);
    raw.extend_from_slice(&[7u8; 8]);
    raw.extend_from_slice(&[0u8; 32]);
    let mut bad = header(1, 4);
    bad.extend_from_slice(&[0u8; 4]);
    for _ in 0..16 {
        bad.extend_from_slice(&[0, 255]);
    }
    bad.extend_from_slice(&[0, 17]);
    let mut data = raw.clone();
    data.extend_from_slice(&bad);
    data.extend_from_slice(&[0u8; 32]);
    assert_eq!(chan_write_bytes(&mut st, &data, &mut Metrics::new()), data.len());
    let mut m = Metrics::new();
    let r = chan_replay(&st, 0, &mut m).unwrap();
    assert_eq!((r.pages, r.errors), (2, 1));
    assert_eq!(m.mig[MIG_REPLAY_PAGES], 2);
    assert_eq!(m.mig[MIG_REPLAY_BYTES], 8192);
    assert_eq!(m.mig[MIG_REPLAY_ERRORS], 1);
}

#[test]
fn control_reactions_and_resend_triggers() {
    let mut st = MigState::new();
    let mut m = Metrics::new();
    let r = ctrl_reaction(&st, 2, 7, &mut m);
    assert_eq!(r.resend, Some((7, ExportSink::Buffer)));
    assert!(r.reply.is_none());
    assert_eq!(m.mig[MIG_RESEND_TRIGGERS], 1);
    let r = ctrl_reaction(&st, 1, 7, &mut m);
    assert!(r.resend.is_none() && r.reply.is_none());
    st.auto_ack = true;
    st.auto_nak = true;
    let r = ctrl_reaction(&st, 1, 8, &mut m);
    assert_eq!(r.reply, Some((true, 8, ExportSink::Buffer)));
    let r = ctrl_reaction(&st, 2, 9, &mut m);
    assert_eq!(r.reply, Some((false, 9, ExportSink::Buffer)));
    assert_eq!(m.mig[MIG_RESEND_TRIGGERS], 2);
}

#[test]
fn automatic_replies_are_sent_and_counted() {
    let mut st = MigState::new();
    assert!(chan_new(&mut st, 1));
    let mut out = Vec::new();
    let mut m = Metrics::new();
    send_replies(&mut st, &vec![(true, 5), (false, 9)], &mut out, &mut m);
    assert_eq!(st.seq, 3);
    assert_eq!(m.mig[MIG_CTRL_FRAMES], 2);
    assert_eq!(m.mig[MIG_ACKS], 1);
    assert_eq!(m.mig[MIG_NAKS], 1);
    assert_eq!(m.mig[MIG_CB_WRITTEN_BYTES], 66);
    assert_eq!(m.mig[MIG_CTRL_AUTO_ACK_SENT], 1);
    assert_eq!(m.mig[MIG_CTRL_AUTO_NAK_SENT], 1);
    let c = st.chan.as_ref().unwrap().read_all();
    assert_eq!(c.len(), 66);
    assert_eq!(&c[0..4], b"ZMIG");
    assert_eq!(&c[28..33], &[1, 5, 0, 0, 0]);
    assert_eq!(&c[61..66], &[2, 9, 0, 0, 0]);
    assert!(out.is_empty());
}
