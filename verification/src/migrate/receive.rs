//! The receiving side of the channel: frame verification with sequence
//! diagnostics, and control messages (ACK/NAK) with the reactions they call for.

use vstd::prelude::*;
use crate::obs::metrics::{
    Metrics, mig_add, mig_bump, mig_set, MIG_DUP_FRAMES, MIG_LAST_SEQ, MIG_MISSING_FRAMES, MIG_RX_BYTES, MIG_RX_FRAMES_BAD,
    MIG_RX_FRAMES_OK, MIG_REPLAY_PAGES, MIG_REPLAY_BYTES, MIG_REPLAY_ERRORS, MIG_RESEND_TRIGGERS,
};
use crate::util::format::{ascii, dec_digits, push_dec, push_str};
use crate::firmware::acpi::{le32_at, le64_at, read_le32, read_le64};
use crate::util::crc32::{crc32, crc32_spec};
use crate::migrate::frame::{HEADER_LEN, TYP_CTRL, TYP_MANIFEST, CTRL_ACK, CTRL_NAK, FLAG_COMP};
use crate::migrate::sink::ExportSink;
use crate::migrate::session::MigState;

verus! {

/// Bytes a reader looks at before taking a header: frames are only read
/// while at least this many bytes remain.
pub const PEEK_LEN: usize = 32;

/// Whether a frame header starts at `pos`: the bytes "ZMIG".
pub open spec fn magic_at(s: Seq<u8>, pos: int) -> bool {
    s[pos] == 0x5A && s[pos + 1] == 0x4D && s[pos + 2] == 0x49 && s[pos + 3] == 0x47
}

/// How a frame's sequence number relates to the one expected after the previous frame.
#[derive(Clone, Copy, Debug, PartialEq, Eq, Structural)]
pub enum SeqOrder {
    /// No expectation yet (first frame, or the expectation wrapped to 0).
    First,
    InOrder,
    /// Lower than expected: a duplicate.
    Duplicate,
    /// Higher than expected: frames from `expected` on are missing.
    Missing { expected: u32 },
}

/// The result of checking one frame.
#[derive(Clone, Copy, Debug, PartialEq, Eq, Structural)]
pub struct FrameCheck {
    pub typ: u8,
    pub seq: u32,
    pub page_index: u64,
    pub payload_len: u32,
    /// The payload's CRC-32 matches the header.
    pub good: bool,
    pub order: SeqOrder,
}

pub open spec fn order_of(expected: u32, seq: u32) -> SeqOrder {
    if expected == 0 {
        SeqOrder::First
    } else if seq == expected {
        SeqOrder::InOrder
    } else if seq < expected {
        SeqOrder::Duplicate
    } else {
        SeqOrder::Missing { expected }
    }
}

/// Frames checked in `s` from `pos`, `count` having been checked and
/// `expected` expected next: bytes before a "ZMIG" are skipped one at a
/// time; the walk ends when fewer than a header's bytes remain, when a
/// payload is cut short, or when `limit` (0: none) frames were checked.
pub open spec fn verify_walk(s: Seq<u8>, pos: int, limit: nat, count: nat, expected: u32) -> Seq<FrameCheck>
    decreases s.len() - pos,
{
    if pos < 0 || s.len() - pos < PEEK_LEN || (limit != 0 && count >= limit) {
        Seq::empty()
    } else if !magic_at(s, pos) {
        verify_walk(s, pos + 1, limit, count, expected)
    } else {
        let plen = le32_at(s, pos + 20);
        let body = pos + HEADER_LEN;
        if s.len() - body < plen {
            Seq::empty()
        } else {
            let seq = le32_at(s, pos + 8);
            let check = FrameCheck {
                typ: s[pos + 5],
                seq,
                page_index: le64_at(s, pos + 12),
                payload_len: plen,
                good: crc32_spec(0, s.subrange(body, body + plen)) == le32_at(s, pos + 24),
                order: order_of(expected, seq),
            };
            seq![check] + verify_walk(s, body + plen, limit, count + 1, vstd::wrapping::u32_specs::wrapping_add(seq, 1))
        }
    }
}

/// Every checked frame is read from a frame of the stream at or after `pos`,
/// in stream order: the `k`-th check describes the frame whose "ZMIG" header
/// starts at the returned offset and whose payload lies within the stream;
/// its fields are those of that header (type at byte 5, sequence number at
/// 8..12, page index at 12..20, payload length at 20..24), it is good exactly
/// when the payload's CRC-32 equals the header's (24..28), and its order is
/// judged against the number after the previous frame's (`expected` for the
/// first).
pub proof fn law_verify_walk(s: Seq<u8>, pos: int, limit: nat, count: nat, expected: u32, k: int) -> (o: int)
    requires
        0 <= k < verify_walk(s, pos, limit, count, expected).len(),
    ensures
        pos <= o,
        o + PEEK_LEN <= s.len(),
        magic_at(s, o),
        o + HEADER_LEN + le32_at(s, o + 20) <= s.len(),
        ({
            let c = verify_walk(s, pos, limit, count, expected)[k];
            let body = o + HEADER_LEN;
            &&& c.typ == s[o + 5]
            &&& c.seq == le32_at(s, o + 8)
            &&& c.page_index == le64_at(s, o + 12)
            &&& c.payload_len == le32_at(s, o + 20)
            &&& c.good == (crc32_spec(0, s.subrange(body, body + le32_at(s, o + 20))) == le32_at(s, o + 24))
            &&& k == 0 ==> c.order == order_of(expected, c.seq)
            &&& k > 0 ==> c.order == order_of(
                vstd::wrapping::u32_specs::wrapping_add(verify_walk(s, pos, limit, count, expected)[k - 1].seq, 1), c.seq)
        }),
    decreases s.len() - pos, k,
{
    let w = verify_walk(s, pos, limit, count, expected);
    if !magic_at(s, pos) {
        assert(w == verify_walk(s, pos + 1, limit, count, expected));
        law_verify_walk(s, pos + 1, limit, count, expected, k)
    } else {
        let plen = le32_at(s, pos + 20);
        let body = pos + HEADER_LEN;
        let seq = le32_at(s, pos + 8);
        let e2 = vstd::wrapping::u32_specs::wrapping_add(seq, 1);
        let rest = verify_walk(s, body + plen, limit, count + 1, e2);
        assert(w == seq![w[0]] + rest);
        if k == 0 {
            pos
        } else {
            assert(w[k] == rest[k - 1]);
            let o = law_verify_walk(s, body + plen, limit, count + 1, e2, k - 1);
            if k > 1 {
                assert(w[k - 1] == rest[k - 2]);
            }
            o
        }
    }
}

fn slice_between(s: &[u8], a: usize, b: usize) -> (r: &[u8])
    requires
        a <= b <= s@.len(),
    ensures
        r@ == s@.subrange(a as int, b as int),
{
    let (x, _) = s.split_at(b);
    let (_, y) = x.split_at(a);
    y
}

/// Check the frames in the byte stream `data` (at most `limit`, 0 for all).
pub fn verify_frames(data: &[u8], limit: usize) -> (r: Vec<FrameCheck>)
    ensures
        r@ == verify_walk(data@, 0, limit as nat, 0, 0),
{
    let len = data.len();
    let mut pos: usize = 0;
    let mut count: usize = 0;
    let mut expected: u32 = 0;
    let mut out: Vec<FrameCheck> = Vec::new();
    while len - pos >= PEEK_LEN && (limit == 0 || count < limit)
        invariant
            len == data@.len(),
            pos <= len,
            count == out@.len(),
            out@ + verify_walk(data@, pos as int, limit as nat, count as nat, expected)
                == verify_walk(data@, 0, limit as nat, 0, 0),
        ensures
            out@ == verify_walk(data@, 0, limit as nat, 0, 0),
        decreases len - pos,
    {
        let is_magic = data[pos] == 0x5A && data[pos + 1] == 0x4D && data[pos + 2] == 0x49 && data[pos + 3] == 0x47;
        if !is_magic {
            pos = pos + 1;
            continue;
        }
        let plen = read_le32(data, pos + 20);
        let body = pos + HEADER_LEN;
        if ((len - body) as u64) < plen as u64 {
            proof {
                assert(out@ + Seq::<FrameCheck>::empty() =~= out@);
            }
            break;
        }
        let seq = read_le32(data, pos + 8);
        let page_index = read_le64(data, pos + 12);
        let crc = read_le32(data, pos + 24);
        let end = body + plen as usize;
        let calc = crc32(slice_between(data, body, end));
        let order = if expected == 0 {
            SeqOrder::First
        } else if seq == expected {
            SeqOrder::InOrder
        } else if seq < expected {
            SeqOrder::Duplicate
        } else {
            SeqOrder::Missing { expected }
        };
        let check = FrameCheck { typ: data[pos + 5], seq, page_index, payload_len: plen, good: calc == crc, order };
        let ghost before = out@;
        out.push(check);
        proof {
            let rest = verify_walk(data@, end as int, limit as nat, (count + 1) as nat, vstd::wrapping::u32_specs::wrapping_add(seq, 1));
            assert(verify_walk(data@, pos as int, limit as nat, count as nat, expected) == seq![check] + rest);
            assert(before + (seq![check] + rest) =~= out@ + rest);
        }
        pos = end;
        count = out.len();
        expected = seq.wrapping_add(1);
    }
    proof {
        assert(out@ + Seq::<FrameCheck>::empty() =~= out@);
    }
    out
}

/// The ACK/NAK replies automatic control sends for the checked frames, in
/// order: an ACK for a duplicate, a NAK of the expected number when frames
/// are missing, then a NAK for a frame whose CRC fails. (`true` = ACK.)
pub open spec fn auto_replies(checks: Seq<FrameCheck>) -> Seq<(bool, u32)>
    decreases checks.len(),
{
    if checks.len() == 0 {
        Seq::empty()
    } else {
        let c = checks.last();
        let ord: Seq<(bool, u32)> = match c.order {
            SeqOrder::Duplicate => seq![(true, c.seq)],
            SeqOrder::Missing { expected } => seq![(false, expected)],
            _ => Seq::empty(),
        };
        let bad: Seq<(bool, u32)> = if c.good { Seq::empty() } else { seq![(false, c.seq)] };
        auto_replies(checks.drop_last()) + ord + bad
    }
}

/// The replies automatic control calls for after `checks`.
pub fn verify_replies(checks: &Vec<FrameCheck>) -> (r: Vec<(bool, u32)>)
    ensures
        r@ == auto_replies(checks@),
        forall|k: int| 0 <= k < checks@.len() && !(#[trigger] checks@[k]).good
            ==> r@.contains((false, checks@[k].seq)),
{
    let mut out: Vec<(bool, u32)> = Vec::new();
    let mut i: usize = 0;
    while i < checks.len()
        invariant
            i <= checks@.len(),
            out@ == auto_replies(checks@.take(i as int)),
        decreases checks@.len() - i,
    {
        let c = checks[i];
        proof {
            assert(checks@.take(i + 1).drop_last() =~= checks@.take(i as int));
        }
        let ghost before = out@;
        match c.order {
            SeqOrder::Duplicate => out.push((true, c.seq)),
            SeqOrder::Missing { expected } => out.push((false, expected)),
            _ => {},
        }
        if !c.good {
            out.push((false, c.seq));
        }
        proof {
            let ord: Seq<(bool, u32)> = match c.order {
                SeqOrder::Duplicate => seq![(true, c.seq)],
                SeqOrder::Missing { expected } => seq![(false, expected)],
                _ => Seq::empty(),
            };
            let bad: Seq<(bool, u32)> = if c.good { Seq::empty() } else { seq![(false, c.seq)] };
            assert(out@ =~= before + ord + bad);
        }
        i = i + 1;
    }
    assert(checks@.take(checks@.len() as int) =~= checks@);
    proof {
        law_auto_replies(checks@);
    }
    out
}

/// Whether the reply `r` answers the checked frame `c`: a NAK of its number
/// for a bad CRC, an ACK of its number for a duplicate, or a NAK of the
/// expected number for a gap before it.
pub open spec fn answers(r: (bool, u32), c: FrameCheck) -> bool {
    ||| (r == (false, c.seq) && !c.good)
    ||| (r == (true, c.seq) && c.order == SeqOrder::Duplicate)
    ||| (c.order is Missing && r == (false, c.order->expected))
}

/// Every reply answers one checked frame, and every frame that calls for an
/// answer gets it: a NAK of its own number when its CRC fails, an ACK of its
/// number when it is a duplicate, and a NAK of the expected number when
/// frames before it are missing. A frame in order with a good CRC is
/// answered by nothing.
pub proof fn law_auto_replies(checks: Seq<FrameCheck>)
    ensures
        forall|k: int| 0 <= k < checks.len() && !(#[trigger] checks[k]).good
            ==> auto_replies(checks).contains((false, checks[k].seq)),
        forall|k: int| 0 <= k < checks.len() && (#[trigger] checks[k]).order == SeqOrder::Duplicate
            ==> auto_replies(checks).contains((true, checks[k].seq)),
        forall|k: int| 0 <= k < checks.len() && (#[trigger] checks[k]).order is Missing
            ==> auto_replies(checks).contains((false, checks[k].order->expected)),
        forall|j: int| #![trigger auto_replies(checks)[j]] 0 <= j < auto_replies(checks).len()
            ==> exists|k: int| 0 <= k < checks.len() && answers(auto_replies(checks)[j], #[trigger] checks[k]),
        auto_replies(checks).len() <= 2 * checks.len(),
    decreases checks.len(),
{
    if checks.len() > 0 {
        let init = checks.drop_last();
        law_auto_replies(init);
        let c = checks.last();
        let n = checks.len() - 1;
        let ord: Seq<(bool, u32)> = match c.order {
            SeqOrder::Duplicate => seq![(true, c.seq)],
            SeqOrder::Missing { expected } => seq![(false, expected)],
            _ => Seq::empty(),
        };
        let bad: Seq<(bool, u32)> = if c.good { Seq::empty() } else { seq![(false, c.seq)] };
        let a = auto_replies(init);
        let all = auto_replies(checks);
        assert(all == a + ord + bad);
        assert forall|x: (bool, u32)| a.contains(x) implies all.contains(x) by {
            let i = choose|i: int| 0 <= i < a.len() && a[i] == x;
            assert(all[i] == x);
        }
        assert forall|k: int| 0 <= k < checks.len() && !(#[trigger] checks[k]).good
            implies all.contains((false, checks[k].seq)) by {
            if k < n {
                assert(init[k] == checks[k]);
            } else {
                assert(all[all.len() - 1] == (false, c.seq));
            }
        }
        assert forall|k: int| 0 <= k < checks.len() && (#[trigger] checks[k]).order == SeqOrder::Duplicate
            implies all.contains((true, checks[k].seq)) by {
            if k < n {
                assert(init[k] == checks[k]);
            } else {
                assert(all[a.len() as int] == (true, c.seq));
            }
        }
        assert forall|k: int| 0 <= k < checks.len() && (#[trigger] checks[k]).order is Missing
            implies all.contains((false, checks[k].order->expected)) by {
            if k < n {
                assert(init[k] == checks[k]);
            } else {
                assert(all[a.len() as int] == (false, c.order->expected));
            }
        }
        assert forall|j: int| #![trigger all[j]] 0 <= j < all.len()
            implies exists|k: int| 0 <= k < checks.len() && answers(all[j], #[trigger] checks[k]) by {
            if j < a.len() {
                assert(a[j] == all[j]);
                let k = choose|k: int| 0 <= k < init.len() && answers(a[j], #[trigger] init[k]);
                assert(checks[k] == init[k]);
            } else {
                assert(checks[n] == c);
                assert(answers(all[j], checks[n]));
            }
        }
    }
}

/// The migration counters after one checked frame: a duplicate or a gap is
/// counted, the last sequence number kept, the frame's bytes (header and
/// payload) and its verdict counted.
pub open spec fn count_check(s: Seq<u64>, c: FrameCheck) -> Seq<u64> {
    let s1 = match c.order {
        SeqOrder::Duplicate => mig_bump(s, MIG_DUP_FRAMES as int, 1),
        SeqOrder::Missing { .. } => mig_bump(s, MIG_MISSING_FRAMES as int, 1),
        _ => s,
    };
    let s2 = s1.update(MIG_LAST_SEQ as int, c.seq as u64);
    let s3 = mig_bump(s2, MIG_RX_BYTES as int, (HEADER_LEN + c.payload_len) as u64);
    if c.good { mig_bump(s3, MIG_RX_FRAMES_OK as int, 1) } else { mig_bump(s3, MIG_RX_FRAMES_BAD as int, 1) }
}

/// The migration counters after the frames `checks`, in order.
pub open spec fn count_checks(s: Seq<u64>, checks: Seq<FrameCheck>) -> Seq<u64>
    decreases checks.len(),
{
    if checks.len() == 0 {
        s
    } else {
        count_check(count_checks(s, checks.drop_last()), checks.last())
    }
}

/// Count the frames `checks` in the migration counters.
pub fn count_frame_checks(checks: &Vec<FrameCheck>, m: &mut Metrics)
    requires
        old(m).wf(),
    ensures
        final(m).wf(),
        final(m).same_core(&*old(m)),
        final(m).mig@ == count_checks(old(m).mig@, checks@),
{
    let mut i: usize = 0;
    while i < checks.len()
        invariant
            i <= checks@.len(),
            m.wf(),
            m.same_core(&*old(m)),
            m.mig@ == count_checks(old(m).mig@, checks@.take(i as int)),
        decreases checks@.len() - i,
    {
        let c = checks[i];
        proof {
            assert(checks@.take(i + 1).drop_last() =~= checks@.take(i as int));
        }
        match c.order {
            SeqOrder::Duplicate => mig_add(m, MIG_DUP_FRAMES, 1),
            SeqOrder::Missing { .. } => mig_add(m, MIG_MISSING_FRAMES, 1),
            _ => {},
        }
        mig_set(m, MIG_LAST_SEQ, c.seq as u64);
        mig_add(m, MIG_RX_BYTES, (HEADER_LEN as u64) + (c.payload_len as u64));
        if c.good {
            mig_add(m, MIG_RX_FRAMES_OK, 1);
        } else {
            mig_add(m, MIG_RX_FRAMES_BAD, 1);
        }
        i = i + 1;
    }
    proof { assert(checks@.take(checks@.len() as int) =~= checks@); }
}

/// Verify the frames held in the channel, and count them in the migration
/// counters; `None`, with nothing counted, without a channel.
pub fn chan_verify(st: &MigState, limit: usize, m: &mut Metrics) -> (r: Option<Vec<FrameCheck>>)
    requires
        st.wf(),
        old(m).wf(),
    ensures
        r is Some <==> st.chan is Some,
        r matches Some(v) ==> (st.chan_view() matches Some(c) && v@ == verify_walk(c, 0, limit as nat, 0, 0)),
        final(m).wf(),
        final(m).same_core(&*old(m)),
        final(m).mig@ == match r {
            Some(v) => count_checks(old(m).mig@, v@),
            None => old(m).mig@,
        },
{
    match &st.chan {
        Some(b) => {
            let data = b.read_all();
            let v = verify_frames(data.as_slice(), limit);
            count_frame_checks(&v, m);
            Some(v)
        },
        None => None,
    }
}

/// The frames of `checks` that passed.
pub open spec fn good_count(checks: Seq<FrameCheck>) -> nat
    decreases checks.len(),
{
    if checks.len() == 0 { 0 } else { good_count(checks.drop_last()) + if checks.last().good { 1nat } else { 0nat } }
}

/// A frame's report line: `verify: typ=<manifest|page> seq=<n>[ page=<n>]
/// len=<n> <ok|bad>` (numbers in decimal, the page index's low 32 bits).
pub open spec fn check_line(c: FrameCheck) -> Seq<u8> {
    ascii("verify: typ="@) + (if c.typ == TYP_MANIFEST { ascii("manifest"@) } else { ascii("page"@) })
        + ascii(" seq="@) + dec_digits(c.seq as nat)
        + (if c.typ != TYP_MANIFEST { ascii(" page="@) + dec_digits((c.page_index as u32) as nat) } else { Seq::empty() })
        + ascii(" len="@) + dec_digits(c.payload_len as nat)
        + (if c.good { ascii(" ok"@) } else { ascii(" bad"@) }) + seq![13u8, 10u8]
}

/// The closing report line: `verify: frames=<n> ok=<n> bad=<n>` (low 32 bits).
pub open spec fn summary_line(checks: Seq<FrameCheck>) -> Seq<u8> {
    ascii("verify: frames="@) + dec_digits((checks.len() as u32) as nat)
        + ascii(" ok="@) + dec_digits((good_count(checks) as u32) as nat)
        + ascii(" bad="@) + dec_digits(((checks.len() - good_count(checks)) as u32) as nat) + seq![13u8, 10u8]
}

proof fn lemma_good_count_bound(checks: Seq<FrameCheck>)
    ensures
        good_count(checks) <= checks.len(),
    decreases checks.len(),
{
    if checks.len() > 0 {
        lemma_good_count_bound(checks.drop_last());
    }
}

fn check_line_of(c: FrameCheck) -> (r: Vec<u8>)
    ensures
        r@ == check_line(c),
{
    let mut out: Vec<u8> = Vec::new();
    push_str(&mut out, "verify: typ=");
    if c.typ == TYP_MANIFEST { push_str(&mut out, "manifest"); } else { push_str(&mut out, "page"); }
    push_str(&mut out, " seq=");
    push_dec(&mut out, c.seq);
    if c.typ != TYP_MANIFEST {
        push_str(&mut out, " page=");
        push_dec(&mut out, c.page_index as u32);
    }
    push_str(&mut out, " len=");
    push_dec(&mut out, c.payload_len);
    if c.good { push_str(&mut out, " ok"); } else { push_str(&mut out, " bad"); }
    out.push(13);
    out.push(10);
    assert(out@ =~= check_line(c));
    out
}

/// The verification report: a line per frame unless `quiet`, then the summary.
pub fn verify_report(checks: &Vec<FrameCheck>, quiet: bool) -> (r: Vec<Vec<u8>>)
    ensures
        quiet ==> r@.len() == 1 && r@[0]@ == summary_line(checks@),
        !quiet ==> r@.len() == checks@.len() + 1
            && (forall|k: int| 0 <= k < checks@.len() ==> #[trigger] r@[k]@ == check_line(checks@[k]))
            && r@[checks@.len() as int]@ == summary_line(checks@),
{
    let mut out: Vec<Vec<u8>> = Vec::new();
    let mut ok: usize = 0;
    let mut i: usize = 0;
    while i < checks.len()
        invariant
            i <= checks@.len(),
            ok == good_count(checks@.take(i as int)),
            quiet ==> out@.len() == 0,
            !quiet ==> out@.len() == i && forall|k: int| 0 <= k < i ==> #[trigger] out@[k]@ == check_line(checks@[k]),
        decreases checks@.len() - i,
    {
        proof {
            assert(checks@.take(i + 1).drop_last() =~= checks@.take(i as int));
            lemma_good_count_bound(checks@.take(i as int));
        }
        let c = checks[i];
        if c.good {
            ok = ok + 1;
        }
        if !quiet {
            out.push(check_line_of(c));
        }
        i = i + 1;
    }
    proof {
        assert(checks@.take(checks@.len() as int) =~= checks@);
        lemma_good_count_bound(checks@);
    }
    let n = checks.len();
    let mut line: Vec<u8> = Vec::new();
    push_str(&mut line, "verify: frames=");
    push_dec(&mut line, n as u32);
    push_str(&mut line, " ok=");
    push_dec(&mut line, ok as u32);
    push_str(&mut line, " bad=");
    push_dec(&mut line, (n - ok) as u32);
    line.push(13);
    line.push(10);
    assert(line@ =~= summary_line(checks@));
    out.push(line);
    out
}

// ---------------------------------------------------------------------------
// Replay

/// What a replay of the channel reconstructed (bytes: 4 KiB per page,
/// wrapping at the word size).
#[derive(Clone, Copy, Debug, PartialEq, Eq, Structural)]
pub struct ReplayStats {
    pub pages: usize,
    pub bytes: usize,
    pub errors: usize,
}

/// Expand RLE pairs from `pos` until `wrote` reaches a page: gives where
/// reading stopped and whether it failed (the bytes ran out, or a run went
/// past the page; the offending pair is consumed).
pub open spec fn rle_consume(s: Seq<u8>, pos: int, wrote: int) -> (int, bool)
    decreases s.len() - pos,
{
    if pos < 0 || wrote >= 4096 {
        (pos, false)
    } else if s.len() - pos < 2 {
        (pos, true)
    } else if wrote + s[pos + 1] > 4096 {
        (pos + 2, true)
    } else {
        rle_consume(s, pos + 2, wrote + s[pos + 1])
    }
}

/// Replay frames from `pos`, `pages` having been rebuilt: bytes before a
/// "ZMIG" are skipped one at a time; a header takes [`PEEK_LEN`] bytes
/// (its own and the first payload bytes); a raw frame then takes its payload, a
/// compressed one the RLE pairs that fill a page; the walk ends when fewer
/// than a header's bytes remain, a payload is cut short, or `max` (0: none)
/// pages were rebuilt. Gives the pages and the failed expansions.
pub open spec fn replay_walk(s: Seq<u8>, pos: int, max: nat, pages: nat) -> (nat, nat)
    decreases s.len() - pos,
{
    if pos < 0 || s.len() - pos < PEEK_LEN || (max != 0 && pages >= max) {
        (pages, 0)
    } else if !magic_at(s, pos) {
        replay_walk(s, pos + 1, max, pages)
    } else {
        let plen = le32_at(s, pos + 20);
        let flags = s[pos + 6] as u16 | ((s[pos + 7] as u16) << 8u16);
        let body = pos + PEEK_LEN;
        if s.len() - body < plen {
            (pages, 0)
        } else if flags & FLAG_COMP == 0 {
            replay_walk(s, body + plen, max, pages + 1)
        } else {
            proof { lemma_rle_consume_bounds(s, body, 0); }
            let c = rle_consume(s, body, 0);
            let r = replay_walk(s, c.0, max, pages + 1);
            (r.0, r.1 + if c.1 { 1nat } else { 0nat })
        }
    }
}

pub proof fn lemma_rle_consume_bounds(s: Seq<u8>, pos: int, wrote: int)
    requires
        0 <= pos <= s.len(),
    ensures
        pos <= rle_consume(s, pos, wrote).0 <= s.len(),
    decreases s.len() - pos,
{
    if wrote < 4096 && s.len() - pos >= 2 && wrote + s[pos + 1] <= 4096 {
        lemma_rle_consume_bounds(s, pos + 2, wrote + s[pos + 1]);
    }
}

fn rle_consume_exec(data: &[u8], pos: usize) -> (r: (usize, bool))
    requires
        pos <= data@.len(),
    ensures
        r.0 == rle_consume(data@, pos as int, 0).0,
        r.1 == rle_consume(data@, pos as int, 0).1,
{
    let len = data.len();
    let mut p = pos;
    let mut wrote: usize = 0;
    while wrote < 4096
        invariant
            len == data@.len(),
            pos <= p <= len,
            wrote <= 4096,
            rle_consume(data@, p as int, wrote as int) == rle_consume(data@, pos as int, 0),
        decreases len - p,
    {
        if len - p < 2 {
            return (p, true);
        }
        let run = data[p + 1] as usize;
        if wrote + run > 4096 {
            return (p + 2, true);
        }
        wrote = wrote + run;
        p = p + 2;
    }
    (p, false)
}

/// Rebuild the pages of the frames in `data` (at most `max_pages`, 0 for all).
pub fn replay_frames(data: &[u8], max_pages: usize) -> (r: ReplayStats)
    ensures
        r.pages == replay_walk(data@, 0, max_pages as nat, 0).0,
        r.errors == replay_walk(data@, 0, max_pages as nat, 0).1,
        r.bytes == vstd::wrapping::usize_specs::wrapping_mul(r.pages, 4096),
{
    let len = data.len();
    let mut pos: usize = 0;
    let mut pages: usize = 0;
    let mut errors: usize = 0;
    while len - pos >= PEEK_LEN && (max_pages == 0 || pages < max_pages)
        invariant
            len == data@.len(),
            pos <= len,
            pages * 32 <= pos,
            errors <= pages,
            replay_walk(data@, pos as int, max_pages as nat, pages as nat).0 == replay_walk(data@, 0, max_pages as nat, 0).0,
            errors + replay_walk(data@, pos as int, max_pages as nat, pages as nat).1 == replay_walk(data@, 0, max_pages as nat, 0).1,
        ensures
            pages == replay_walk(data@, 0, max_pages as nat, 0).0,
            errors == replay_walk(data@, 0, max_pages as nat, 0).1,
            pages * 32 <= len,
        decreases len - pos,
    {
        let is_magic = data[pos] == 0x5A && data[pos + 1] == 0x4D && data[pos + 2] == 0x49 && data[pos + 3] == 0x47;
        if !is_magic {
            pos = pos + 1;
            continue;
        }
        let plen = read_le32(data, pos + 20) as usize;
        let flags = (data[pos + 6] as u16) | ((data[pos + 7] as u16) << 8u16);
        let body = pos + PEEK_LEN;
        if len - body < plen {
            break;
        }
        if flags & FLAG_COMP == 0 {
            pos = body + plen;
        } else {
            proof { lemma_rle_consume_bounds(data@, body as int, 0); }
            let (p2, err) = rle_consume_exec(data, body);
            pos = p2;
            if err {
                errors = errors + 1;
            }
        }
        pages = pages + 1;
    }
    ReplayStats { pages, bytes: pages.wrapping_mul(4096), errors }
}

/// Replay the frames held in the channel; `None` without a channel. The pages
/// rebuilt (4 KiB each) and the errors met are counted.
pub fn chan_replay(st: &MigState, max_pages: usize, m: &mut Metrics) -> (r: Option<ReplayStats>)
    requires
        st.wf(),
        old(m).wf(),
    ensures
        final(m).wf(),
        final(m).same_core(&*old(m)),
        final(m).mig@ == match r {
            Some(x) => mig_bump(mig_bump(mig_bump(old(m).mig@, MIG_REPLAY_PAGES as int, x.pages as u64),
                MIG_REPLAY_BYTES as int, vstd::wrapping::u64_specs::wrapping_mul(x.pages as u64, 4096)),
                MIG_REPLAY_ERRORS as int, x.errors as u64),
            None => old(m).mig@,
        },
        r is Some <==> st.chan is Some,
        r matches Some(x) ==> (st.chan_view() matches Some(c)
            && x.pages == replay_walk(c, 0, max_pages as nat, 0).0
            && x.errors == replay_walk(c, 0, max_pages as nat, 0).1
            && x.bytes == vstd::wrapping::usize_specs::wrapping_mul(x.pages, 4096)),
{
    match &st.chan {
        Some(b) => {
            let data = b.read_all();
            let x = replay_frames(data.as_slice(), max_pages);
            mig_add(m, MIG_REPLAY_PAGES, x.pages as u64);
            mig_add(m, MIG_REPLAY_BYTES, (x.pages as u64).wrapping_mul(4096));
            mig_add(m, MIG_REPLAY_ERRORS, x.errors as u64);
            Some(x)
        },
        None => None,
    }
}

// ---------------------------------------------------------------------------
// Control messages

/// Control messages (code, referenced sequence number) in `s` from `pos`,
/// `count` handled so far: frames of other types are skipped whole; a
/// control body is read as its first 8 bytes at most (missing bytes read as 0).
pub open spec fn ctrl_walk(s: Seq<u8>, pos: int, limit: nat, count: nat) -> Seq<(u8, u32)>
    decreases s.len() - pos,
{
    if pos < 0 || s.len() - pos < PEEK_LEN || (limit != 0 && count >= limit) {
        Seq::empty()
    } else if !magic_at(s, pos) {
        ctrl_walk(s, pos + 1, limit, count)
    } else {
        let plen = le32_at(s, pos + 20);
        let body = pos + HEADER_LEN;
        if s.len() - body < plen {
            Seq::empty()
        } else if s[pos + 5] == TYP_CTRL {
            let b = ctrl_body_bytes(s.subrange(body, body + plen));
            seq![(b[0], crate::util::bytes::le32_value(b.subrange(1, 5)))] + ctrl_walk(s, body + plen, limit, count + 1)
        } else {
            ctrl_walk(s, body + plen, limit, count)
        }
    }
}

/// The first 8 bytes of a control payload, zero-padded.
pub open spec fn ctrl_body_bytes(p: Seq<u8>) -> Seq<u8> {
    Seq::new(8, |i: int| if i < p.len() { p[i] } else { 0u8 })
}

/// The control messages in the byte stream `data` (at most `limit`, 0 for all).
pub fn ctrl_messages(data: &[u8], limit: usize) -> (r: Vec<(u8, u32)>)
    ensures
        r@ == ctrl_walk(data@, 0, limit as nat, 0),
{
    let len = data.len();
    let mut pos: usize = 0;
    let mut count: usize = 0;
    let mut out: Vec<(u8, u32)> = Vec::new();
    while len - pos >= PEEK_LEN && (limit == 0 || count < limit)
        invariant
            len == data@.len(),
            pos <= len,
            count == out@.len(),
            out@ + ctrl_walk(data@, pos as int, limit as nat, count as nat) == ctrl_walk(data@, 0, limit as nat, 0),
        ensures
            out@ == ctrl_walk(data@, 0, limit as nat, 0),
        decreases len - pos,
    {
        let is_magic = data[pos] == 0x5A && data[pos + 1] == 0x4D && data[pos + 2] == 0x49 && data[pos + 3] == 0x47;
        if !is_magic {
            pos = pos + 1;
            continue;
        }
        let plen = read_le32(data, pos + 20);
        let body = pos + HEADER_LEN;
        if ((len - body) as u64) < plen as u64 {
            proof {
                assert(out@ + Seq::<(u8, u32)>::empty() =~= out@);
            }
            break;
        }
        let end = body + plen as usize;
        if data[pos + 5] == TYP_CTRL {
            let mut b = [0u8; 8];
            let take = if (plen as usize) < 8 { plen as usize } else { 8 };
            let mut k: usize = 0;
            while k < take
                invariant
                    take <= 8,
                    body + take <= end,
                    end <= len,
                    len == data@.len(),
                    k <= take,
                    b@.len() == 8,
                    forall|j: int| 0 <= j < k ==> b@[j] == data@[body + j],
                    forall|j: int| k <= j < 8 ==> b@[j] == 0,
                decreases take - k,
            {
                b[k] = data[body + k];
                k = k + 1;
            }
            let code = b[0];
            let seq = (b[1] as u32) | ((b[2] as u32) << 8u32) | ((b[3] as u32) << 16u32) | ((b[4] as u32) << 24u32);
            let ghost before = out@;
            out.push((code, seq));
            proof {
                let pl = data@.subrange(body as int, end as int);
                let bb = ctrl_body_bytes(pl);
                assert(b@ =~= bb);
                assert(seq == crate::util::bytes::le32_value(bb.subrange(1, 5)));
                let rest = ctrl_walk(data@, end as int, limit as nat, (count + 1) as nat);
                assert(ctrl_walk(data@, pos as int, limit as nat, count as nat) == seq![(code, seq)] + rest);
                assert(before + (seq![(code, seq)] + rest) =~= out@ + rest);
            }
            count = out.len();
        }
        pos = end;
    }
    proof {
        assert(out@ + Seq::<(u8, u32)>::empty() =~= out@);
    }
    out
}

/// What a received control message calls for.
#[derive(Clone, Copy, Debug)]
pub struct CtrlReaction {
    /// Resend from this sequence number, uncompressed, to this sink.
    pub resend: Option<(u32, ExportSink)>,
    /// Reply with an ACK (`true`) or NAK referring to this number, to this sink.
    pub reply: Option<(bool, u32, ExportSink)>,
}

/// The reaction to control message (`code`, `seq`): a NAK triggers a resend
/// from `seq` to the resend sink and, with automatic NAK, a NAK reply; an
/// ACK, with automatic ACK, an ACK reply; anything else nothing. Each NAK is
/// counted in `mig_resend_triggers`.
pub fn ctrl_reaction(st: &MigState, code: u8, seq: u32, m: &mut Metrics) -> (r: CtrlReaction)
    requires
        old(m).wf(),
    ensures
        final(m).wf(),
        final(m).same_core(&*old(m)),
        final(m).mig@ == mig_bump(old(m).mig@, MIG_RESEND_TRIGGERS as int, if code == CTRL_NAK { 1u64 } else { 0u64 }),
        r == if code == CTRL_NAK {
            CtrlReaction {
                resend: Some((seq, st.resend_sink)),
                reply: if st.auto_nak { Some((false, seq, st.resend_sink)) } else { None },
            }
        } else if code == CTRL_ACK && st.auto_ack {
            CtrlReaction { resend: None, reply: Some((true, seq, st.resend_sink)) }
        } else {
            CtrlReaction { resend: None, reply: None }
        },
{
    mig_add(m, MIG_RESEND_TRIGGERS, if code == CTRL_NAK { 1 } else { 0 });
    if code == CTRL_NAK {
        CtrlReaction {
            resend: Some((seq, st.resend_sink)),
            reply: if st.auto_nak { Some((false, seq, st.resend_sink)) } else { None },
        }
    } else if code == CTRL_ACK && st.auto_ack {
        CtrlReaction { resend: None, reply: Some((true, seq, st.resend_sink)) }
    } else {
        CtrlReaction { resend: None, reply: None }
    }
}

/// The control messages held in the channel; `None` without a channel.
pub fn chan_handle_ctrl(st: &MigState, limit: usize) -> (r: Option<Vec<(u8, u32)>>)
    requires
        st.wf(),
    ensures
        r is Some <==> st.chan is Some,
        r matches Some(v) ==> (st.chan_view() matches Some(c) && v@ == ctrl_walk(c, 0, limit as nat, 0)),
{
    match &st.chan {
        Some(b) => {
            let data = b.read_all();
            Some(ctrl_messages(data.as_slice(), limit))
        },
        None => None,
    }
}

} // verus!
