use zerovisor::obs::metrics::{
    Metrics, MIG_ACKS, MIG_CB_WRITTEN_BYTES, MIG_CTRL_FRAMES, MIG_LAST_SEQ, MIG_NAKS, MIG_RX_BYTES, MIG_RX_FRAMES_BAD,
    MIG_RX_FRAMES_OK,
};
use zerovisor::migrate::chan::ChanBuffer;
use zerovisor::migrate::control::{
    cfg_load, cfg_save, chan_clear, chan_consume, chan_contents, chan_new, chan_stats, chan_write_bytes,
    ctrl_set_auto_ack, get_chunk_size, net_get_mtu, net_set_dest_mac, net_set_ethertype, net_set_mtu,
    set_chunk_size, set_default_sink,
};
use zerovisor::migrate::frame::{
    ctrl_frame, decode_header, encode_header, manifest_frame, page_frame, rle_compress_page, rle_expand_page,
    FrameHeader, CTRL_ACK, CTRL_NAK, FLAG_COMP, TYP_CTRL, TYP_MANIFEST, TYP_PAGE,
};
use zerovisor::migrate::pacing::{elapsed_us_since, poll_step, session_kbps, stall_for_rate, PollState};
use zerovisor::migrate::receive::{chan_verify, ctrl_messages, verify_frames, verify_report, SeqOrder};
use zerovisor::migrate::session::{send_ctrl, MigState};
use zerovisor::migrate::sink::{u8_to_sink, sink_to_u8, ExportSink};
use zerovisor::migrate::transfer::page_skip_reason;
use zerovisor::util::crc32::crc32;

#[test]
fn header_encodes_little_endian_and_decodes_back() {
    let h = FrameHeader { magic: [0x5A, 0x4D, 0x49, 0x47], ver: 1, typ: TYP_PAGE, flags: FLAG_COMP, seq: 0x0102_0304,
        page_index: 0x1122_3344_5566_7788, payload_len: 9, crc32: 0xDEAD_BEEF };
    let b = encode_header(&h);
    assert_eq!(b.len(), 28);
    assert_eq!(&b[0..8], &[0x5A, 0x4D, 0x49, 0x47, 1, 1, 1, 0]);
    assert_eq!(&b[8..12], &[4, 3, 2, 1]);
    let d = decode_header(&b);
    assert_eq!(d.magic, h.magic);
    assert_eq!(d.seq, h.seq);
    assert_eq!(d.page_index, h.page_index);
    assert_eq!(d.payload_len, 9);
    assert_eq!(d.crc32, 0xDEAD_BEEF);
    assert_eq!(d.flags, FLAG_COMP);
}

#[test]
fn run_length_pages_expand_back() {
    let mut page = vec![0u8; 4096];
    for i in 1000..1300 {
        page[i] = 7;
    }
    let mut out = vec![0u8; 8192];
    let n = rle_compress_page(&page, &mut out).unwrap();
    // Runs of 255 at most: 1000 zeros, 300 sevens, 2796 zeros.
    assert_eq!(n, 2 * (4 + 2 + 11));
    assert_eq!(&out[0..4], &[0, 255, 0, 255]);
    let (back, used) = rle_expand_page(&out[..n]).unwrap();
    assert_eq!(back, page);
    assert_eq!(used, n);
    let mut small = vec![0u8; 4];
    assert_eq!(rle_compress_page(&page, &mut small), None);
    assert_eq!(rle_expand_page(&[1, 255]), None);
}

#[test]
fn page_frames_compress_when_it_pays() {
    let page = vec![0u8; 4096];
    let (hdr, payload, comp) = page_frame(5, 42, &page, true);
    assert!(comp);
    assert_eq!(payload.len(), 2 * 17);
    let h = decode_header(&hdr);
    assert_eq!(h.typ, TYP_PAGE);
    assert_eq!(h.flags, FLAG_COMP);
    assert_eq!(h.seq, 5);
    assert_eq!(h.page_index, 42);
    assert_eq!(h.crc32, crc32(&payload));
    let (_, raw, comp) = page_frame(5, 42, &page, false);
    assert!(!comp);
    assert_eq!(raw, page);
    let (mh, mp) = manifest_frame(6, 3, 12288);
    assert_eq!(decode_header(&mh).typ, TYP_MANIFEST);
    assert_eq!(mp.len(), 16);
    let (ch, cp) = ctrl_frame(7, CTRL_NAK, 3);
    assert_eq!(decode_header(&ch).typ, TYP_CTRL);
    assert_eq!(cp, vec![CTRL_NAK, 3, 0, 0, 0]);
}

#[test]
fn frames_are_checked_in_order() {
    let mut data = vec![0xFF];
    for seq in [1u32, 2, 5] {
        let (h, p) = ctrl_frame(seq, CTRL_ACK, 0);
        data.extend_from_slice(&h);
        data.extend_from_slice(&p);
    }
    let checks = verify_frames(&data, 0);
    assert_eq!(checks.len(), 3);
    assert!(checks.iter().all(|c| c.good));
    assert_eq!(checks[0].order, SeqOrder::First);
    assert_eq!(checks[1].order, SeqOrder::InOrder);
    assert_eq!(checks[2].order, SeqOrder::Missing { expected: 3 });
    assert_eq!(verify_frames(&data, 2).len(), 2);
    let msgs = ctrl_messages(&data, 0);
    assert_eq!(msgs, vec![(CTRL_ACK, 0), (CTRL_ACK, 0), (CTRL_ACK, 0)]);
}

#[test]
fn channel_keeps_the_newest_bytes() {
    let mut c = ChanBuffer::new(4);
    assert_eq!(c.write(&[1, 2, 3]), 3);
    assert_eq!(c.write(&[4, 5]), 2);
    assert_eq!(c.read_all(), vec![2, 3, 4, 5]);
    c.consume(3);
    assert_eq!(c.read_all(), vec![5]);
    assert_eq!(c.stats(), (1, 4));
    c.clear();
    assert!(c.read_all().is_empty());
}

#[test]
fn state_channel_and_settings() {
    let mut st = MigState::new();
    assert_eq!(chan_write_bytes(&mut st, &[1, 2], &mut Metrics::new()), 0);
    assert!(!chan_new(&mut st, 0));
    assert!(chan_new(&mut st, 1));
    assert_eq!(chan_write_bytes(&mut st, &[1, 2, 3], &mut Metrics::new()), 3);
    assert_eq!(chan_contents(&st), vec![1, 2, 3]);
    chan_consume(&mut st, 1);
    assert_eq!(chan_stats(&st), (2, 4096));
    chan_clear(&mut st);
    assert_eq!(chan_stats(&st), (0, 4096));
    net_set_mtu(&mut st, 100);
    assert_eq!(net_get_mtu(&st), 576);
    set_chunk_size(&mut st, 0);
    assert_eq!(get_chunk_size(&st), 1500);
}

#[test]
fn saved_settings_load_back() {
    let mut st = MigState::new();
    net_set_dest_mac(&mut st, [1, 2, 3, 4, 5, 6]);
    net_set_mtu(&mut st, 9000);
    net_set_ethertype(&mut st, 0x1234);
    set_chunk_size(&mut st, 512);
    ctrl_set_auto_ack(&mut st, true);
    set_default_sink(&mut st, ExportSink::Null);
    let (cfg, net) = cfg_save(&st, &mut Metrics::new());
    let mut other = MigState::new();
    cfg_load(&mut other, Some(&cfg), Some(&net), &mut Metrics::new());
    assert_eq!(other.dest_mac, [1, 2, 3, 4, 5, 6]);
    assert_eq!(other.mtu, 9000);
    assert_eq!(other.ether_type, 0x1234);
    assert_eq!(get_chunk_size(&other), 512);
    assert!(other.auto_ack);
    assert_eq!(other.default_sink, ExportSink::Null);
}

#[test]
fn sinks_round_trip_through_their_codes() {
    for s in [ExportSink::Console, ExportSink::Null, ExportSink::Buffer, ExportSink::Snp, ExportSink::Virtio] {
        assert_eq!(u8_to_sink(sink_to_u8(s)), s);
    }
}

#[test]
fn zero_pages_are_skipped() {
    assert!(page_skip_reason(&vec![0u8; 4096]).is_some());
    let mut p = vec![0u8; 4096];
    p[7] = 1;
    assert_eq!(page_skip_reason(&p), None);
}

#[test]
fn poll_loop_stops() {
    let s = PollState { cycles: 2, empty_runs: 0 };
    let (s, go) = poll_step(s, false, 0, false, false, 0);
    assert!(go);
    let (_, go) = poll_step(s, false, 0, false, false, 0);
    assert!(!go);
    let u = PollState { cycles: 0, empty_runs: 1 };
    assert_eq!(poll_step(u, false, 10, false, false, 2), (PollState { cycles: 0, empty_runs: 2 }, false));
    assert_eq!(poll_step(u, true, 10, false, false, 2), (PollState { cycles: 0, empty_runs: 0 }, true));
    assert!(!poll_step(u, true, 0, false, false, 0).1);
}

#[test]
fn pacing_arithmetic() {
    assert_eq!(stall_for_rate(4096, 0), 0);
    assert_eq!(stall_for_rate(4096, 1000), 4096);
    assert_eq!(elapsed_us_since(0, 100, 1_000_000), 0);
    assert_eq!(elapsed_us_since(1000, 3000, 1_000_000), 2000);
    assert_eq!(session_kbps(5000, 0), None);
    assert_eq!(session_kbps(5000, 1000), Some(5000));
}

#[test]
fn control_frames_and_verification_are_counted_and_reported() {
    let mut st = MigState::new();
    let mut m = Metrics::new();
    assert!(chan_new(&mut st, 1));
    let mut out: Vec<Vec<u8>> = Vec::new();
    send_ctrl(&mut st, true, 7, ExportSink::Buffer, &mut out, &mut m);
    send_ctrl(&mut st, false, 9, ExportSink::Buffer, &mut out, &mut m);
    assert_eq!(m.mig[MIG_CTRL_FRAMES], 2);
    assert_eq!(m.mig[MIG_ACKS], 1);
    assert_eq!(m.mig[MIG_NAKS], 1);
    assert_eq!(m.mig[MIG_CB_WRITTEN_BYTES], 66);
    let checks = chan_verify(&st, 0, &mut m).unwrap();
    assert_eq!(checks.len(), 2);
    assert_eq!(m.mig[MIG_RX_FRAMES_OK], 2);
    assert_eq!(m.mig[MIG_RX_FRAMES_BAD], 0);
    assert_eq!(m.mig[MIG_RX_BYTES], 66);
    assert_eq!(m.mig[MIG_LAST_SEQ], 2);
    let lines: Vec<String> = verify_report(&checks, false).into_iter().map(|l| String::from_utf8(l).unwrap()).collect();
    assert_eq!(lines, vec![
        "verify: typ=page seq=1 page=0 len=5 ok\r\n".to_string(),
        "verify: typ=page seq=2 page=0 len=5 ok\r\n".to_string(),
        "verify: frames=2 ok=2 bad=0\r\n".to_string(),
    ]);
    assert_eq!(verify_report(&checks, true).len(), 1);
}
