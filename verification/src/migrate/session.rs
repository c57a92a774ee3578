//! The migration session: sequence numbering, the transmit log, the channel,
//! the network and control settings, and sending frames to a sink.

use vstd::prelude::*;
use crate::obs::metrics::{Metrics, mig_add, mig_bump, add_wrapped, lemma_add_wrapped_step,
    MIG_ACKS, MIG_CB_WRITTEN_BYTES, MIG_CTRL_FRAMES, MIG_NAKS, MIG_CTRL_AUTO_ACK_SENT, MIG_CTRL_AUTO_NAK_SENT};
use crate::obs::ring::Ring;
use crate::migrate::chan::{ChanBuffer, take_last};
use crate::migrate::frame::{
    page_frame, manifest_frame, ctrl_frame, header_bytes, frame_header, page_payload, page_compressed,
    manifest_body, ctrl_body, TYP_PAGE, TYP_MANIFEST, TYP_CTRL, FLAG_COMP, PAGE_LEN, HEADER_LEN, CTRL_ACK, CTRL_NAK,
};
use crate::migrate::sink::{
    ExportSink, apply_chan, apply_console, console_view, push_writes, lemma_apply_compose, flat, parts_writes,
};
use crate::migrate::dirty::{DirtyTracker, DirtyBitmap};

verus! {

/// One transmitted frame, remembered for resends.
#[derive(Clone, Copy, Debug, PartialEq, Eq, Structural)]
pub struct TxEntry {
    pub kind: u8,
    pub seq: u32,
    pub page_index: u64,
}

/// Frames remembered for resends.
pub const TX_LOG_CAP: usize = 1024;
/// Default chunk size for chunked writes, and default MTU.
pub const DEFAULT_CHUNK: usize = 1500;
pub const DEFAULT_MTU: usize = 1500;
/// Smallest MTU accepted.
pub const MIN_MTU: usize = 576;
/// Experimental EtherType for migration frames.
pub const DEFAULT_ETHER_TYPE: u16 = 0x88B5;

/// An active tracker with its bitmap.
pub struct TrackerState {
    pub tracker: DirtyTracker,
    pub bitmap: DirtyBitmap,
}

/// The migration session.
pub struct MigState {
    /// Sequence number of the next frame.
    pub seq: u32,
    pub chunk: usize,
    pub tx_log: Ring<TxEntry>,
    pub chan: Option<ChanBuffer>,
    pub dest_mac: [u8; 6],
    pub mtu: usize,
    pub ether_type: u16,
    pub resend_sink: ExportSink,
    pub auto_ack: bool,
    pub auto_nak: bool,
    pub default_sink: ExportSink,
    pub tracker: Option<TrackerState>,
}

impl MigState {
    pub open spec fn wf(&self) -> bool {
        &&& self.tx_log.wf()
        &&& self.tx_log.cap() == TX_LOG_CAP
        &&& (self.chan matches Some(c) ==> c.wf())
        &&& (self.tracker matches Some(t) ==> t.bitmap.bits@.len() * 8 <= u64::MAX)
    }

    /// The dirty pages of the active tracker, ascending; none without a tracker.
    pub open spec fn dirty_view(&self) -> Seq<u64> {
        match self.tracker {
            Some(t) => t.bitmap.set_indices(),
            None => Seq::empty(),
        }
    }

    /// The channel's bytes, when there is a channel.
    pub open spec fn chan_view(&self) -> Option<Seq<u8>> {
        match self.chan {
            Some(c) => Some(c.contents()),
            None => None,
        }
    }

    pub open spec fn chan_cap(&self) -> nat {
        match self.chan {
            Some(c) => c.cap(),
            None => 0,
        }
    }

    /// The chunk size in force: 1500 when unset.
    pub open spec fn chunk_size(&self) -> nat {
        if self.chunk == 0 { DEFAULT_CHUNK as nat } else { self.chunk as nat }
    }

    /// Everything but the channel, the sequence number and the transmit log is as in `other`.
    pub open spec fn same_config(&self, other: &MigState) -> bool {
        &&& self.chunk == other.chunk
        &&& self.dest_mac == other.dest_mac
        &&& self.mtu == other.mtu
        &&& self.ether_type == other.ether_type
        &&& self.resend_sink == other.resend_sink
        &&& self.auto_ack == other.auto_ack
        &&& self.auto_nak == other.auto_nak
        &&& self.default_sink == other.default_sink
        &&& self.tracker == other.tracker
        &&& self.chan_cap() == other.chan_cap()
    }

    /// A fresh session: sequence 1, empty log, no channel, default settings.
    pub fn new() -> (s: MigState)
        ensures
            s.wf(),
            s.seq == 1,
            s.tx_log.hist@ == Seq::<TxEntry>::empty(),
            s.chan is None,
            s.tracker is None,
            s.chunk == DEFAULT_CHUNK,
            s.mtu == DEFAULT_MTU,
            s.ether_type == DEFAULT_ETHER_TYPE,
            s.resend_sink == ExportSink::Buffer,
            s.default_sink == ExportSink::Buffer,
            !s.auto_ack && !s.auto_nak,
            s.dest_mac@ == seq![0u8, 0, 0, 0, 0, 0],
    {
        let s = MigState {
            seq: 1,
            chunk: DEFAULT_CHUNK,
            tx_log: Ring::new(TX_LOG_CAP, TxEntry { kind: 0, seq: 0, page_index: 0 }),
            chan: None,
            dest_mac: [0; 6],
            mtu: DEFAULT_MTU,
            ether_type: DEFAULT_ETHER_TYPE,
            resend_sink: ExportSink::Buffer,
            auto_ack: false,
            auto_nak: false,
            default_sink: ExportSink::Buffer,
            tracker: None,
        };
        assert(s.dest_mac@ =~= seq![0u8, 0, 0, 0, 0, 0]);
        s
    }

    /// Send `data` as one part to `sink`: into the channel for the buffer
    /// sink, as console writes for the console, nowhere otherwise.
    fn emit(&mut self, sink: ExportSink, data: &[u8], chunked: bool, out: &mut Vec<Vec<u8>>)
        requires
            old(self).wf(),
        ensures
            final(self).wf(),
            final(self).seq == old(self).seq,
            final(self).tx_log == old(self).tx_log,
            final(self).same_config(&*old(self)),
            final(self).chan_view() == apply_chan(old(self).chan_view(), old(self).chan_cap(), sink, seq![data@]),
            console_view(final(out)@) == apply_console(console_view(old(out)@), sink, seq![data@], chunked, old(self).chunk_size()),
    {
        proof {
            crate::migrate::sink::lemma_single(data@, chunked, self.chunk_size());
        }
        match sink {
            ExportSink::Buffer => {
                let mut c = self.chan.take();
                match &mut c {
                    Some(b) => {
                        b.write(data);
                    },
                    None => {},
                }
                self.chan = c;
            },
            ExportSink::Console => {
                let size = if self.chunk == 0 { DEFAULT_CHUNK } else { self.chunk };
                push_writes(out, data, chunked, size);
            },
            _ => {},
        }
    }
}

/// The two parts of a page frame: header and payload.
pub open spec fn page_parts(seq: u32, page_index: u64, page: Seq<u8>, compress: bool) -> Seq<Seq<u8>> {
    let payload = page_payload(page, compress);
    let flags: u16 = if page_compressed(page, compress) { FLAG_COMP } else { 0 };
    seq![header_bytes(frame_header(TYP_PAGE, flags, seq, page_index, payload)), payload]
}

/// The two parts of a manifest frame.
pub open spec fn manifest_parts(seq: u32, pages: u64, bytes: u64) -> Seq<Seq<u8>> {
    seq![header_bytes(frame_header(TYP_MANIFEST, 0, seq, 0, manifest_body(pages, bytes))), manifest_body(pages, bytes)]
}

/// The two parts of a control frame.
pub open spec fn ctrl_parts(seq: u32, code: u8, seq_ref: u32) -> Seq<Seq<u8>> {
    seq![header_bytes(frame_header(TYP_CTRL, 0, seq, 0, ctrl_body(code, seq_ref))), ctrl_body(code, seq_ref)]
}

pub open spec fn next_seq(s: u32) -> u32 {
    vstd::wrapping::u32_specs::wrapping_add(s, 1)
}

impl MigState {
    fn emit_two(&mut self, sink: ExportSink, a: &[u8], b: &[u8], chunked: bool, out: &mut Vec<Vec<u8>>)
        requires
            old(self).wf(),
        ensures
            final(self).wf(),
            final(self).seq == old(self).seq,
            final(self).tx_log == old(self).tx_log,
            final(self).same_config(&*old(self)),
            final(self).chan_view() == apply_chan(old(self).chan_view(), old(self).chan_cap(), sink, seq![a@, b@]),
            console_view(final(out)@) == apply_console(console_view(old(out)@), sink, seq![a@, b@], chunked, old(self).chunk_size()),
    {
        let ghost c0 = self.chan_view();
        let ghost cap = self.chan_cap();
        let ghost o0 = console_view(out@);
        let ghost size = self.chunk_size();
        self.emit(sink, a, chunked, out);
        self.emit(sink, b, chunked, out);
        proof {
            lemma_apply_compose(c0, cap, o0, sink, seq![a@], seq![b@], chunked, size);
            assert(seq![a@] + seq![b@] =~= seq![a@, b@]);
        }
    }

    /// Frame page `page_index` (contents `page`) with the next sequence
    /// number, compressing when asked and worthwhile, send it to `sink`, and
    /// log it. Returns whether it went compressed and the payload length.
    pub fn frame_and_send_page(&mut self, sink: ExportSink, page_index: u64, page: &[u8], compress: bool, chunked: bool,
        out: &mut Vec<Vec<u8>>) -> (r: (bool, usize))
        requires
            old(self).wf(),
            old(self).tx_log.count() < usize::MAX,
            page@.len() == PAGE_LEN,
        ensures
            final(self).wf(),
            final(self).same_config(&*old(self)),
            final(self).seq == next_seq(old(self).seq),
            final(self).tx_log.hist@ == old(self).tx_log.hist@.push(TxEntry { kind: TYP_PAGE, seq: old(self).seq, page_index }),
            final(self).chan_view() == apply_chan(old(self).chan_view(), old(self).chan_cap(), sink,
                page_parts(old(self).seq, page_index, page@, compress)),
            console_view(final(out)@) == apply_console(console_view(old(out)@), sink,
                page_parts(old(self).seq, page_index, page@, compress), chunked, old(self).chunk_size()),
            r.0 == page_compressed(page@, compress),
            r.1 == page_payload(page@, compress).len(),
    {
        let seq = self.seq;
        let (hdr, payload, comp) = page_frame(seq, page_index, page, compress);
        self.seq = self.seq.wrapping_add(1);
        self.emit_two(sink, hdr.as_slice(), payload.as_slice(), chunked, out);
        self.tx_log.record(TxEntry { kind: TYP_PAGE, seq, page_index });
        (comp, payload.len())
    }

    /// Send a manifest closing a transfer of `pages` pages and `bytes` bytes, and log it.
    pub fn frame_and_send_manifest(&mut self, sink: ExportSink, pages: u64, bytes: u64, chunked: bool,
        out: &mut Vec<Vec<u8>>)
        requires
            old(self).wf(),
            old(self).tx_log.count() < usize::MAX,
        ensures
            final(self).wf(),
            final(self).same_config(&*old(self)),
            final(self).seq == next_seq(old(self).seq),
            final(self).tx_log.hist@ == old(self).tx_log.hist@.push(TxEntry { kind: TYP_MANIFEST, seq: old(self).seq, page_index: 0 }),
            final(self).chan_view() == apply_chan(old(self).chan_view(), old(self).chan_cap(), sink,
                manifest_parts(old(self).seq, pages, bytes)),
            console_view(final(out)@) == apply_console(console_view(old(out)@), sink,
                manifest_parts(old(self).seq, pages, bytes), chunked, old(self).chunk_size()),
    {
        let seq = self.seq;
        let (hdr, body) = manifest_frame(seq, pages, bytes);
        self.seq = self.seq.wrapping_add(1);
        self.emit_two(sink, hdr.as_slice(), body.as_slice(), chunked, out);
        self.tx_log.record(TxEntry { kind: TYP_MANIFEST, seq, page_index: 0 });
    }

    /// Send a control frame (always chunked); control frames are not logged.
    pub fn frame_and_send_ctrl(&mut self, sink: ExportSink, code: u8, seq_ref: u32, out: &mut Vec<Vec<u8>>)
        requires
            old(self).wf(),
        ensures
            final(self).wf(),
            final(self).same_config(&*old(self)),
            final(self).seq == next_seq(old(self).seq),
            final(self).tx_log == old(self).tx_log,
            final(self).chan_view() == apply_chan(old(self).chan_view(), old(self).chan_cap(), sink,
                ctrl_parts(old(self).seq, code, seq_ref)),
            console_view(final(out)@) == apply_console(console_view(old(out)@), sink,
                ctrl_parts(old(self).seq, code, seq_ref), true, old(self).chunk_size()),
    {
        let seq = self.seq;
        let (hdr, body) = ctrl_frame(seq, code, seq_ref);
        self.seq = self.seq.wrapping_add(1);
        self.emit_two(sink, hdr.as_slice(), body.as_slice(), true, out);
    }
}

/// Send an ACK (or, with `ack` false, a NAK) referring to `seq_ref`; count
/// the control frame, the ACK or NAK, and the bytes the channel took.
pub fn send_ctrl(st: &mut MigState, ack: bool, seq_ref: u32, sink: ExportSink, out: &mut Vec<Vec<u8>>, m: &mut Metrics)
    requires
        old(st).wf(),
        old(m).wf(),
    ensures
        final(st).wf(),
        final(m).wf(),
        final(m).same_core(&*old(m)),
        final(m).mig@ == mig_bump(mig_bump(mig_bump(old(m).mig@, MIG_CTRL_FRAMES as int, 1),
            if ack { MIG_ACKS as int } else { MIG_NAKS as int }, 1),
            MIG_CB_WRITTEN_BYTES as int, if sink == ExportSink::Buffer && old(st).chan is Some { (HEADER_LEN + 5) as u64 } else { 0 }),
        final(st).same_config(&*old(st)),
        final(st).seq == next_seq(old(st).seq),
        final(st).tx_log == old(st).tx_log,
        final(st).chan_view() == apply_chan(old(st).chan_view(), old(st).chan_cap(), sink,
            ctrl_parts(old(st).seq, if ack { CTRL_ACK } else { CTRL_NAK }, seq_ref)),
        console_view(final(out)@) == apply_console(console_view(old(out)@), sink,
            ctrl_parts(old(st).seq, if ack { CTRL_ACK } else { CTRL_NAK }, seq_ref), true, old(st).chunk_size()),
{
    let code = if ack { CTRL_ACK } else { CTRL_NAK };
    st.frame_and_send_ctrl(sink, code, seq_ref, out);
    mig_add(m, MIG_CTRL_FRAMES, 1);
    mig_add(m, if ack { MIG_ACKS } else { MIG_NAKS }, 1);
    let took: u64 = if sink == ExportSink::Buffer && st.chan.is_some() { (HEADER_LEN + 5) as u64 } else { 0 };
    mig_add(m, MIG_CB_WRITTEN_BYTES, took);
}

/// The control frames of replies `rs` (ACK when `true`, else NAK, with the
/// number referred to) sent from sequence number `seq` on.
pub open spec fn replies_parts(seq: u32, rs: Seq<(bool, u32)>) -> Seq<Seq<u8>>
    decreases rs.len(),
{
    if rs.len() == 0 {
        Seq::empty()
    } else {
        ctrl_parts(seq, if rs[0].0 { CTRL_ACK } else { CTRL_NAK }, rs[0].1)
            + replies_parts(next_seq(seq), rs.subrange(1, rs.len() as int))
    }
}

/// Sequence number `seq` advanced `n` times.
pub open spec fn seq_after(seq: u32, n: nat) -> u32
    decreases n,
{
    if n == 0 { seq } else { seq_after(next_seq(seq), (n - 1) as nat) }
}

/// Number of ACKs among the replies `rs`.
pub open spec fn ack_count(rs: Seq<(bool, u32)>) -> nat
    decreases rs.len(),
{
    if rs.len() == 0 { 0 } else { (if rs[0].0 { 1nat } else { 0nat }) + ack_count(rs.subrange(1, rs.len() as int)) }
}

/// The migration counters `c` after sending `n` replies, `acks` of them ACKs,
/// each taking `each` bytes of the channel (all wrapping).
pub open spec fn replies_counters(c: Seq<u64>, n: nat, acks: nat, each: nat) -> Seq<u64> {
    c.update(MIG_CTRL_FRAMES as int, add_wrapped(c[MIG_CTRL_FRAMES as int], n))
        .update(MIG_ACKS as int, add_wrapped(c[MIG_ACKS as int], acks))
        .update(MIG_NAKS as int, add_wrapped(c[MIG_NAKS as int], (n - acks) as nat))
        .update(MIG_CB_WRITTEN_BYTES as int, add_wrapped(c[MIG_CB_WRITTEN_BYTES as int], n * each))
        .update(MIG_CTRL_AUTO_ACK_SENT as int, add_wrapped(c[MIG_CTRL_AUTO_ACK_SENT as int], acks))
        .update(MIG_CTRL_AUTO_NAK_SENT as int, add_wrapped(c[MIG_CTRL_AUTO_NAK_SENT as int], (n - acks) as nat))
}

proof fn lemma_replies_step(seq: u32, rs: Seq<(bool, u32)>, i: int)
    requires
        0 <= i < rs.len(),
    ensures
        replies_parts(seq, rs.subrange(i, rs.len() as int))
            == ctrl_parts(seq, if rs[i].0 { CTRL_ACK } else { CTRL_NAK }, rs[i].1)
                + replies_parts(next_seq(seq), rs.subrange(i + 1, rs.len() as int)),
        ack_count(rs.subrange(i, rs.len() as int))
            == (if rs[i].0 { 1nat } else { 0nat }) + ack_count(rs.subrange(i + 1, rs.len() as int)),
        seq_after(seq, (rs.len() - i) as nat) == seq_after(next_seq(seq), (rs.len() - (i + 1)) as nat),
{
    let t = rs.subrange(i, rs.len() as int);
    assert(t.subrange(1, t.len() as int) =~= rs.subrange(i + 1, rs.len() as int));
    assert(t[0] == rs[i]);
}

proof fn lemma_replies_counters_step(c0: Seq<u64>, n: nat, acks: nat, each: nat, ack: bool, e: u64)
    requires
        c0.len() > MIG_CTRL_AUTO_NAK_SENT,
        acks <= n,
        e == each,
    ensures ({
        let c = replies_counters(c0, n, acks, each);
        let c1 = mig_bump(mig_bump(mig_bump(c, MIG_CTRL_FRAMES as int, 1),
            if ack { MIG_ACKS as int } else { MIG_NAKS as int }, 1), MIG_CB_WRITTEN_BYTES as int, e);
        let c2 = mig_bump(c1, if ack { MIG_CTRL_AUTO_ACK_SENT as int } else { MIG_CTRL_AUTO_NAK_SENT as int }, 1);
        c2 == replies_counters(c0, n + 1, acks + if ack { 1nat } else { 0nat }, each)
    }),
        replies_counters(c0, 0, 0, each) == c0,
{
    lemma_add_wrapped_step(c0[MIG_CTRL_FRAMES as int], n, 1);
    lemma_add_wrapped_step(c0[MIG_ACKS as int], acks, 1);
    lemma_add_wrapped_step(c0[MIG_NAKS as int], (n - acks) as nat, 1);
    lemma_add_wrapped_step(c0[MIG_CB_WRITTEN_BYTES as int], n * each, e);
    lemma_add_wrapped_step(c0[MIG_CTRL_AUTO_ACK_SENT as int], acks, 1);
    lemma_add_wrapped_step(c0[MIG_CTRL_AUTO_NAK_SENT as int], (n - acks) as nat, 1);
    lemma_add_wrapped_step(c0[MIG_CTRL_FRAMES as int], 0, 0);
    lemma_add_wrapped_step(c0[MIG_ACKS as int], 0, 0);
    lemma_add_wrapped_step(c0[MIG_NAKS as int], 0, 0);
    lemma_add_wrapped_step(c0[MIG_CB_WRITTEN_BYTES as int], 0, 0);
    lemma_add_wrapped_step(c0[MIG_CTRL_AUTO_ACK_SENT as int], 0, 0);
    lemma_add_wrapped_step(c0[MIG_CTRL_AUTO_NAK_SENT as int], 0, 0);
    assert((n + 1) * each == n * each + each) by (nonlinear_arith);
    assert(0 * each == 0) by (nonlinear_arith);
    let c = replies_counters(c0, n, acks, each);
    let c1 = mig_bump(mig_bump(mig_bump(c, MIG_CTRL_FRAMES as int, 1),
        if ack { MIG_ACKS as int } else { MIG_NAKS as int }, 1), MIG_CB_WRITTEN_BYTES as int, e);
    let c2 = mig_bump(c1, if ack { MIG_CTRL_AUTO_ACK_SENT as int } else { MIG_CTRL_AUTO_NAK_SENT as int }, 1);
    assert(c2 =~= replies_counters(c0, n + 1, acks + if ack { 1nat } else { 0nat }, each));
    assert(replies_counters(c0, 0, 0, each) =~= c0);
}

/// Send the automatic replies `rs` in order to the resend sink (see
/// [`send_ctrl`]), counting each also as an automatic ACK or NAK sent.
pub fn send_replies(st: &mut MigState, rs: &Vec<(bool, u32)>, out: &mut Vec<Vec<u8>>, m: &mut Metrics)
    requires
        old(st).wf(),
        old(m).wf(),
    ensures
        final(st).wf(),
        final(st).same_config(&*old(st)),
        final(st).tx_log == old(st).tx_log,
        final(st).seq == seq_after(old(st).seq, rs@.len()),
        final(st).chan_view() == apply_chan(old(st).chan_view(), old(st).chan_cap(), old(st).resend_sink,
            replies_parts(old(st).seq, rs@)),
        console_view(final(out)@) == apply_console(console_view(old(out)@), old(st).resend_sink,
            replies_parts(old(st).seq, rs@), true, old(st).chunk_size()),
        final(m).wf(),
        final(m).same_core(&*old(m)),
        final(m).mig@ == replies_counters(old(m).mig@, rs@.len(), ack_count(rs@),
            if old(st).resend_sink == ExportSink::Buffer && old(st).chan is Some { (HEADER_LEN + 5) as nat } else { 0 }),
{
    let ghost seq0 = st.seq;
    let ghost c0 = st.chan_view();
    let ghost cap = st.chan_cap();
    let ghost o0 = console_view(out@);
    let ghost size = st.chunk_size();
    let ghost m0 = m.mig@;
    let ghost core0 = *m;
    let ghost each: nat = if st.resend_sink == ExportSink::Buffer && st.chan is Some { (HEADER_LEN + 5) as nat } else { 0 };
    let ghost mut parts: Seq<Seq<u8>> = Seq::empty();
    let ghost mut acks: nat = 0;
    let sink = st.resend_sink;
    let mut i: usize = 0;
    proof {
        lemma_replies_counters_step(m0, 0, 0, each, true, each as u64);
        lemma_apply_compose(c0, cap, o0, sink, Seq::empty(), Seq::empty(), true, size);
        assert(apply_chan(c0, cap, sink, Seq::empty()) == c0) by {
            assert(crate::migrate::sink::flat(Seq::<Seq<u8>>::empty()) == Seq::<u8>::empty());
            if let Some(c) = c0 {
                assert(c + Seq::<u8>::empty() =~= c);
            }
        }
        assert(apply_console(o0, sink, Seq::empty(), true, size) == o0) by {
            assert(crate::migrate::sink::parts_writes(Seq::<Seq<u8>>::empty(), true, size) == Seq::<Seq<u8>>::empty());
            assert(o0 + Seq::<Seq<u8>>::empty() =~= o0);
        }
        assert(rs@.subrange(0, rs@.len() as int) =~= rs@);
        assert(parts + replies_parts(seq0, rs@) =~= replies_parts(seq0, rs@));
    }
    while i < rs.len()
        invariant
            st.wf(),
            st.same_config(&*old(st)),
            st.tx_log == old(st).tx_log,
            sink == old(st).resend_sink,
            st.chan_cap() == cap,
            st.chunk_size() == size,
            (st.chan is Some) == (old(st).chan is Some),
            i <= rs@.len(),
            acks <= i,
            rs@.subrange(0, rs@.len() as int) == rs@,
            parts + replies_parts(st.seq, rs@.subrange(i as int, rs@.len() as int)) == replies_parts(seq0, rs@),
            seq_after(st.seq, (rs@.len() - i) as nat) == seq_after(seq0, rs@.len()),
            acks + ack_count(rs@.subrange(i as int, rs@.len() as int)) == ack_count(rs@),
            st.chan_view() == apply_chan(c0, cap, sink, parts),
            console_view(out@) == apply_console(o0, sink, parts, true, size),
            m.wf(),
            m.same_core(&core0),
            m0.len() > MIG_CTRL_AUTO_NAK_SENT,
            each == if old(st).resend_sink == ExportSink::Buffer && old(st).chan is Some { (HEADER_LEN + 5) as nat } else { 0 },
            m.mig@ == replies_counters(m0, i as nat, acks, each),
        decreases rs@.len() - i,
    {
        let (ack, seq_ref) = rs[i];
        let ghost seq_i = st.seq;
        let ghost parts_old = parts;
        proof {
            lemma_replies_step(seq_i, rs@, i as int);
        }
        send_ctrl(st, ack, seq_ref, sink, out, m);
        mig_add(m, if ack { MIG_CTRL_AUTO_ACK_SENT } else { MIG_CTRL_AUTO_NAK_SENT }, 1);
        proof {
            let pp = ctrl_parts(seq_i, if ack { CTRL_ACK } else { CTRL_NAK }, seq_ref);
            lemma_apply_compose(c0, cap, o0, sink, parts_old, pp, true, size);
            parts = parts_old + pp;
            assert(parts + replies_parts(st.seq, rs@.subrange(i + 1, rs@.len() as int))
                =~= parts_old + (pp + replies_parts(st.seq, rs@.subrange(i + 1, rs@.len() as int))));
            lemma_replies_counters_step(m0, i as nat, acks, each, ack, if sink == ExportSink::Buffer && old(st).chan is Some { (HEADER_LEN + 5) as u64 } else { 0 });
            if ack {
                acks = acks + 1;
            }
        }
        i = i + 1;
    }
    proof {
        assert(rs@.subrange(rs@.len() as int, rs@.len() as int) =~= Seq::<(bool, u32)>::empty());
        assert(parts + Seq::<Seq<u8>>::empty() =~= parts);
    }
}

} // verus!
