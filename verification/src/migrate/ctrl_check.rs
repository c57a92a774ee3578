//! Control frames as the receiving side checks them: every ACK or NAK frame
//! the sender emits verifies as good, in sequence.

use vstd::prelude::*;
use crate::firmware::acpi::{le32_at, le64_at};
use crate::util::bytes::{le16, le32, le64, le32_value, lemma_le32_roundtrip};
use crate::util::crc32::crc32_spec;
use crate::migrate::frame::{TYP_CTRL, CTRL_ACK, CTRL_NAK, FRAME_VERSION, header_bytes, frame_header, ctrl_body};
use crate::migrate::sink::{ExportSink, apply_chan, flat, lemma_flat_append, lemma_apply_compose};
use crate::migrate::chan::take_last;
use crate::migrate::session::{ctrl_parts, next_seq, replies_parts};
use crate::migrate::receive::{FrameCheck, SeqOrder, verify_walk, magic_at, order_of, PEEK_LEN};

verus! {

/// The bytes of one control frame.
pub open spec fn ctrl_bytes(seq: u32, code: u8, seq_ref: u32) -> Seq<u8> {
    header_bytes(frame_header(TYP_CTRL, 0, seq, 0, ctrl_body(code, seq_ref))) + ctrl_body(code, seq_ref)
}

/// How the receiver checks that frame when it expects `expected`.
pub open spec fn ctrl_check(seq: u32, expected: u32) -> FrameCheck {
    FrameCheck { typ: TYP_CTRL, seq, page_index: 0, payload_len: 5, good: true, order: order_of(expected, seq) }
}

/// The checks of the reply frames `rs` sent from `seq` on, `expected` being
/// expected before the first.
pub open spec fn replies_checks(seq: u32, rs: Seq<(bool, u32)>, expected: u32) -> Seq<FrameCheck>
    decreases rs.len(),
{
    if rs.len() == 0 {
        Seq::empty()
    } else {
        seq![ctrl_check(seq, expected)]
            + replies_checks(next_seq(seq), rs.subrange(1, rs.len() as int), vstd::wrapping::u32_specs::wrapping_add(seq, 1))
    }
}

proof fn lemma_ctrl_bytes(seq: u32, code: u8, seq_ref: u32)
    ensures
        ({
            let f = ctrl_bytes(seq, code, seq_ref);
            let body = ctrl_body(code, seq_ref);
            &&& f.len() == 33
            &&& magic_at(f, 0)
            &&& f[5] == TYP_CTRL
            &&& le32_at(f, 8) == seq
            &&& le64_at(f, 12) == 0
            &&& le32_at(f, 20) == 5
            &&& le32_at(f, 24) == crc32_spec(0, body)
            &&& f.subrange(28, 33) == body
        }),
{
    let body = ctrl_body(code, seq_ref);
    let h = frame_header(TYP_CTRL, 0, seq, 0, body);
    let f = ctrl_bytes(seq, code, seq_ref);
    assert(body.len() == 5);
    assert(h.magic@ =~= seq![0x5Au8, 0x4Du8, 0x49u8, 0x47u8]);
    assert((0u64 & 0xFFFF_FFFFu64) as u32 == 0u32 && (0u64 >> 32u64) as u32 == 0u32
        && ((0u32 as u64) | ((0u32 as u64) << 32u64)) == 0u64) by (bit_vector);
    assert(le64(0) =~= le32(0) + le32(0));
    assert(f.len() == 33);
    assert(f.subrange(8, 12) =~= le32(seq));
    assert(f.subrange(12, 16) =~= le32(0));
    assert(f.subrange(16, 20) =~= le32(0));
    assert(f.subrange(20, 24) =~= le32(5));
    assert(f.subrange(24, 28) =~= le32(crc32_spec(0, body)));
    assert(f.subrange(28, 33) =~= body);
    lemma_le32_roundtrip(seq);
    lemma_le32_roundtrip(0);
    lemma_le32_roundtrip(5);
    lemma_le32_roundtrip(crc32_spec(0, body));
}

/// Walking a stream whose first bytes are a control frame: that frame is
/// checked as good, then the walk goes on after it.
proof fn lemma_walk_ctrl(seq: u32, code: u8, seq_ref: u32, rest: Seq<u8>, limit: nat, count: nat, expected: u32)
    requires
        limit == 0 || count < limit,
    ensures
        verify_walk(ctrl_bytes(seq, code, seq_ref) + rest, 0, limit, count, expected)
            == seq![ctrl_check(seq, expected)]
                + verify_walk(ctrl_bytes(seq, code, seq_ref) + rest, 33, limit, count + 1,
                    vstd::wrapping::u32_specs::wrapping_add(seq, 1)),
{
    let f = ctrl_bytes(seq, code, seq_ref);
    let s = f + rest;
    lemma_ctrl_bytes(seq, code, seq_ref);
    assert(s.subrange(8, 12) =~= f.subrange(8, 12));
    assert(s.subrange(12, 16) =~= f.subrange(12, 16));
    assert(s.subrange(16, 20) =~= f.subrange(16, 20));
    assert(s.subrange(20, 24) =~= f.subrange(20, 24));
    assert(s.subrange(24, 28) =~= f.subrange(24, 28));
    assert(s.subrange(28, 33) =~= f.subrange(28, 33));
    assert(magic_at(s, 0));
    assert(s[5] == TYP_CTRL);
}

/// A walk over `a + b` from inside `b` is the walk over `b` alone.
proof fn lemma_walk_shift(a: Seq<u8>, b: Seq<u8>, p: int, limit: nat, count: nat, expected: u32)
    requires
        0 <= p,
    ensures
        verify_walk(a + b, a.len() + p, limit, count, expected) == verify_walk(b, p, limit, count, expected),
    decreases b.len() - p,
{
    let s = a + b;
    let q = a.len() + p;
    if s.len() - q < PEEK_LEN || (limit != 0 && count >= limit) {
    } else {
        assert(s[q] == b[p] && s[q + 1] == b[p + 1] && s[q + 2] == b[p + 2] && s[q + 3] == b[p + 3]);
        if !magic_at(b, p) {
            lemma_walk_shift(a, b, p + 1, limit, count, expected);
        } else {
            assert(s.subrange(q + 20, q + 24) =~= b.subrange(p + 20, p + 24));
            let plen = le32_at(b, p + 20);
            let body = p + 28;
            if b.len() - body >= plen {
                assert(s.subrange(q + 8, q + 12) =~= b.subrange(p + 8, p + 12));
                assert(s.subrange(q + 12, q + 16) =~= b.subrange(p + 12, p + 16));
                assert(s.subrange(q + 16, q + 20) =~= b.subrange(p + 16, p + 20));
                assert(s.subrange(q + 24, q + 28) =~= b.subrange(p + 24, p + 28));
                assert(s.subrange(q + 28, q + 28 + plen) =~= b.subrange(body, body + plen));
                assert(s[q + 5] == b[p + 5]);
                let seqv = le32_at(b, p + 8);
                lemma_walk_shift(a, b, body + plen, limit, count + 1, vstd::wrapping::u32_specs::wrapping_add(seqv, 1));
            }
        }
    }
}

/// The frames of the replies `rs` sent from `seq` on are each checked as a
/// good control frame, in order: verification of exactly that stream gives
/// [`replies_checks`].
pub proof fn law_replies_verify(seq: u32, rs: Seq<(bool, u32)>, expected: u32)
    ensures
        verify_walk(flat(replies_parts(seq, rs)), 0, 0, 0, expected) == replies_checks(seq, rs, expected),
    decreases rs.len(),
{
    lemma_replies_walk(seq, rs, 0, expected);
}

proof fn lemma_replies_walk(seq: u32, rs: Seq<(bool, u32)>, count: nat, expected: u32)
    ensures
        verify_walk(flat(replies_parts(seq, rs)), 0, 0, count, expected) == replies_checks(seq, rs, expected),
    decreases rs.len(),
{
    if rs.len() == 0 {
        assert(flat(replies_parts(seq, rs)) == Seq::<u8>::empty());
    } else {
        let code = if rs[0].0 { CTRL_ACK } else { CTRL_NAK };
        let tail = rs.subrange(1, rs.len() as int);
        let p1 = ctrl_parts(seq, code, rs[0].1);
        let p2 = replies_parts(next_seq(seq), tail);
        lemma_flat_append(p1, p2);
        let f = ctrl_bytes(seq, code, rs[0].1);
        assert(flat(p1) =~= f) by {
            let hb = p1[0];
            assert(p1.drop_last() =~= seq![hb]);
            assert(seq![hb].drop_last() =~= Seq::<Seq<u8>>::empty());
            assert(flat(Seq::<Seq<u8>>::empty()) == Seq::<u8>::empty());
            assert(seq![hb].last() == hb);
            assert(Seq::<u8>::empty() + hb =~= hb);
            assert(flat(seq![hb]) =~= hb);
        }
        let rest = flat(p2);
        assert(flat(replies_parts(seq, rs)) == f + rest);
        lemma_walk_ctrl(seq, code, rs[0].1, rest, 0, count, expected);
        lemma_ctrl_bytes(seq, code, rs[0].1);
        lemma_walk_shift(f, rest, 0, 0, count + 1, vstd::wrapping::u32_specs::wrapping_add(seq, 1));
        lemma_replies_walk(next_seq(seq), tail, count + 1, vstd::wrapping::u32_specs::wrapping_add(seq, 1));
        lemma_walk_count(rest, count + 1, vstd::wrapping::u32_specs::wrapping_add(seq, 1));
        lemma_replies_walk(next_seq(seq), tail, 0, vstd::wrapping::u32_specs::wrapping_add(seq, 1));
    }
}

/// Without a limit, the number of frames checked so far does not matter.
proof fn lemma_walk_count(s: Seq<u8>, count: nat, expected: u32)
    ensures
        verify_walk(s, 0, 0, count, expected) == verify_walk(s, 0, 0, 0, expected),
{
    lemma_walk_count_at(s, 0, count, 0, expected);
}

proof fn lemma_walk_count_at(s: Seq<u8>, pos: int, c1: nat, c2: nat, expected: u32)
    ensures
        verify_walk(s, pos, 0, c1, expected) == verify_walk(s, pos, 0, c2, expected),
    decreases s.len() - pos,
{
    if pos < 0 || s.len() - pos < PEEK_LEN {
    } else if !magic_at(s, pos) {
        lemma_walk_count_at(s, pos + 1, c1, c2, expected);
    } else {
        let plen = le32_at(s, pos + 20);
        let body = pos + 28;
        if s.len() - body >= plen {
            let seqv = le32_at(s, pos + 8);
            lemma_walk_count_at(s, body + plen, c1 + 1, c2 + 1, vstd::wrapping::u32_specs::wrapping_add(seqv, 1));
        }
    }
}

/// Every check of a reply stream verified from no expectation is good, a
/// control frame, and neither a duplicate nor a gap.
pub proof fn law_replies_all_good(seq: u32, rs: Seq<(bool, u32)>, expected: u32)
    requires
        expected == 0 || expected == seq,
    ensures
        replies_checks(seq, rs, expected).len() == rs.len(),
        forall|k: int| 0 <= k < rs.len() ==> {
            let c = #[trigger] replies_checks(seq, rs, expected)[k];
            &&& c.good
            &&& c.typ == TYP_CTRL
            &&& (c.order == SeqOrder::First || c.order == SeqOrder::InOrder)
        },
    decreases rs.len(),
{
    if rs.len() > 0 {
        let tail = rs.subrange(1, rs.len() as int);
        let e2 = vstd::wrapping::u32_specs::wrapping_add(seq, 1);
        law_replies_all_good(next_seq(seq), tail, e2);
        let r = replies_checks(seq, rs, expected);
        assert forall|k: int| 0 <= k < rs.len() implies {
            let c = #[trigger] r[k];
            &&& c.good
            &&& c.typ == TYP_CTRL
            &&& (c.order == SeqOrder::First || c.order == SeqOrder::InOrder)
        } by {
            if k > 0 {
                assert(r[k] == replies_checks(next_seq(seq), tail, e2)[k - 1]);
            }
        }
    }
}

proof fn lemma_replies_len(seq: u32, rs: Seq<(bool, u32)>)
    ensures
        flat(replies_parts(seq, rs)).len() == 33 * rs.len(),
    decreases rs.len(),
{
    if rs.len() == 0 {
        assert(flat(replies_parts(seq, rs)) == Seq::<u8>::empty());
    } else {
        let code = if rs[0].0 { CTRL_ACK } else { CTRL_NAK };
        let tail = rs.subrange(1, rs.len() as int);
        let p1 = ctrl_parts(seq, code, rs[0].1);
        lemma_flat_append(p1, replies_parts(next_seq(seq), tail));
        lemma_replies_len(next_seq(seq), tail);
        lemma_ctrl_bytes(seq, code, rs[0].1);
        let hb = p1[0];
        assert(p1.drop_last() =~= seq![hb]);
        assert(seq![hb].drop_last() =~= Seq::<Seq<u8>>::empty());
        assert(flat(Seq::<Seq<u8>>::empty()) == Seq::<u8>::empty());
        assert(Seq::<u8>::empty() + hb =~= hb);
        assert(seq![hb].last() == hb);
        assert(flat(seq![hb]) =~= hb);
        assert(flat(p1) =~= ctrl_bytes(seq, code, rs[0].1));
    }
}

/// Replies sent to an empty buffer channel large enough for them are what
/// the channel then holds, and verifying the channel checks each as a good
/// control frame in order (the first with no expectation).
pub proof fn law_replies_in_channel(seq: u32, rs: Seq<(bool, u32)>, cap: nat)
    requires
        33 * rs.len() <= cap,
    ensures
        apply_chan(Some(Seq::<u8>::empty()), cap, ExportSink::Buffer, replies_parts(seq, rs))
            == Some(flat(replies_parts(seq, rs))),
        verify_walk(flat(replies_parts(seq, rs)), 0, 0, 0, 0) == replies_checks(seq, rs, 0),
        forall|k: int| 0 <= k < rs.len() ==> (#[trigger] replies_checks(seq, rs, 0)[k]).good,
{
    lemma_replies_len(seq, rs);
    assert(Seq::<u8>::empty() + flat(replies_parts(seq, rs)) =~= flat(replies_parts(seq, rs)));
    law_replies_verify(seq, rs, 0);
    law_replies_all_good(seq, rs, 0);
}

/// An ACK then a NAK sent (as [`send_ctrl`](crate::migrate::session::send_ctrl)
/// does, with consecutive sequence numbers) to an empty buffer channel of at
/// least 66 bytes: the channel holds both frames, and verification finds two
/// good control frames, the second in order.
pub proof fn law_ack_then_nak_verify(seq: u32, r1: u32, r2: u32, cap: nat)
    requires
        66 <= cap,
    ensures
        ({
            let c = apply_chan(apply_chan(Some(Seq::<u8>::empty()), cap, ExportSink::Buffer, ctrl_parts(seq, CTRL_ACK, r1)),
                cap, ExportSink::Buffer, ctrl_parts(next_seq(seq), CTRL_NAK, r2));
            &&& c is Some
            &&& verify_walk(c.unwrap(), 0, 0, 0, 0)
                == seq![ctrl_check(seq, 0), ctrl_check(next_seq(seq), vstd::wrapping::u32_specs::wrapping_add(seq, 1))]
        }),
{
    let rs = seq![(true, r1), (false, r2)];
    let p1 = ctrl_parts(seq, CTRL_ACK, r1);
    let p2 = ctrl_parts(next_seq(seq), CTRL_NAK, r2);
    lemma_apply_compose(Some(Seq::<u8>::empty()), cap, Seq::empty(), ExportSink::Buffer, p1, p2, true, 1);
    let tail = rs.subrange(1, 2);
    assert(tail =~= seq![(false, r2)]);
    assert(tail.subrange(1, 1) =~= Seq::<(bool, u32)>::empty());
    assert(replies_parts(next_seq(next_seq(seq)), tail.subrange(1, 1)) == Seq::<Seq<u8>>::empty());
    assert(replies_parts(next_seq(seq), tail) =~= p2);
    assert(replies_parts(seq, rs) =~= p1 + p2);
    law_replies_in_channel(seq, rs, cap);
    let e2 = vstd::wrapping::u32_specs::wrapping_add(seq, 1);
    assert(replies_checks(next_seq(next_seq(seq)), tail.subrange(1, 1), vstd::wrapping::u32_specs::wrapping_add(next_seq(seq), 1))
        == Seq::<FrameCheck>::empty());
    assert(replies_checks(next_seq(seq), tail, e2) =~= seq![ctrl_check(next_seq(seq), e2)]);
    assert(replies_checks(seq, rs, 0) =~= seq![ctrl_check(seq, 0), ctrl_check(next_seq(seq), e2)]);
}

} // verus!
