//! Unframed export of guest memory: the console hex listing and the raw
//! channel copy of a range.

use vstd::prelude::*;
use crate::obs::metrics::{Metrics, mig_bump, MIG_CB_WRITTEN_BYTES};
use crate::util::format::{hex_digits, dec_digits, ascii, push_hex, push_dec, push_str};
use crate::migrate::session::{MigState, TxEntry};
use crate::migrate::control::chan_write_bytes;
use crate::migrate::chan::{ChanBuffer, take_last};
use crate::migrate::sink::{pieces, console_view, push_writes};
use crate::migrate::frame::{TYP_PAGE, TYP_MANIFEST, TYP_CTRL};

verus! {

/// Each byte in hexadecimal followed by a space.
pub open spec fn hex_bytes(c: Seq<u8>) -> Seq<u8>
    decreases c.len(),
{
    if c.len() == 0 {
        Seq::empty()
    } else {
        hex_bytes(c.drop_last()) + hex_digits(c.last() as nat) + seq![32u8]
    }
}

/// One listing line: `0x<address>: ` then the bytes, then CR LF.
pub open spec fn export_line(addr: u64, chunk: Seq<u8>) -> Seq<u8> {
    seq![48u8, 120u8] + hex_digits(addr as nat) + seq![58u8, 32u8] + hex_bytes(chunk) + seq![13u8, 10u8]
}

/// The listing of `data` read from `start`: a line per 16 bytes (the last
/// one shorter), addresses wrapping.
pub open spec fn export_lines(start: u64, data: Seq<u8>, k: nat) -> Seq<Seq<u8>>
    decreases k,
{
    if k == 0 {
        Seq::empty()
    } else {
        let i = (k - 1) * 16;
        let end = if data.len() < i + 16 { data.len() as int } else { i + 16 };
        export_lines(start, data, (k - 1) as nat).push(
            export_line(vstd::wrapping::u64_specs::wrapping_add(start, i as u64), data.subrange(i, end)))
    }
}

proof fn lemma_export_lines_len(start: u64, data: Seq<u8>, k: nat)
    ensures
        export_lines(start, data, k).len() == k,
    decreases k,
{
    if k > 0 {
        lemma_export_lines_len(start, data, (k - 1) as nat);
    }
}

/// Number of lines of a listing of `n` bytes.
pub open spec fn line_count(n: nat) -> nat {
    (n + 15) / 16
}

fn line_of(addr: u64, data: &[u8], i: usize, end: usize) -> (r: Vec<u8>)
    requires
        i <= end <= data@.len(),
    ensures
        r@ == export_line(addr, data@.subrange(i as int, end as int)),
{
    let mut out: Vec<u8> = Vec::new();
    out.push(48);
    out.push(120);
    push_hex(&mut out, addr);
    out.push(58);
    out.push(32);
    let ghost head = out@;
    let mut j = i;
    while j < end
        invariant
            i <= j <= end,
            end <= data@.len(),
            out@ == head + hex_bytes(data@.subrange(i as int, j as int)),
        decreases end - j,
    {
        let b = data[j];
        push_hex(&mut out, b as u64);
        out.push(32);
        proof {
            assert(data@.subrange(i as int, j + 1).drop_last() =~= data@.subrange(i as int, j as int));
            assert(data@.subrange(i as int, j + 1).last() == b);
        }
        j = j + 1;
        assert(out@ =~= head + hex_bytes(data@.subrange(i as int, j as int)));
    }
    out.push(13);
    out.push(10);
    assert(out@ =~= export_line(addr, data@.subrange(i as int, end as int)));
    out
}

/// The console listing of `data` as read from guest-physical `start`.
pub fn export_console_lines(start: u64, data: &[u8]) -> (r: Vec<Vec<u8>>)
    ensures
        r@.len() == line_count(data@.len()),
        forall|k: int| #![trigger r@[k]] 0 <= k < r@.len() ==> r@[k]@ == export_lines(start, data@, line_count(data@.len()))[k],
{
    let len = data.len();
    let nlines = len / 16 + if len % 16 == 0 { 0 } else { 1 };
    assert(nlines == line_count(len as nat));
    let mut out: Vec<Vec<u8>> = Vec::new();
    let mut k: usize = 0;
    while k < nlines
        invariant
            len == data@.len(),
            nlines == line_count(len as nat),
            k <= nlines,
            out@.len() == k,
            forall|q: int| #![trigger out@[q]] 0 <= q < k ==> out@[q]@ == export_lines(start, data@, k as nat)[q],
        decreases nlines - k,
    {
        assert(k * 16 < len) by (nonlinear_arith)
            requires k < nlines, nlines == (len + 15) / 16;
        let i = k * 16;
        let end = if len - i < 16 { len } else { i + 16 };
        let line = line_of(start.wrapping_add(i as u64), data, i, end);
        out.push(line);
        proof {
            lemma_export_lines_len(start, data@, k as nat);
            assert forall|q: int| #![trigger out@[q]] 0 <= q < k + 1 implies out@[q]@ == export_lines(start, data@, (k + 1) as nat)[q] by {
                if q < k {
                    assert(export_lines(start, data@, (k + 1) as nat)[q] == export_lines(start, data@, k as nat)[q]);
                }
            }
        }
        k = k + 1;
    }
    out
}

/// Copy `data` (the bytes of a guest-physical range) into the channel;
/// returns the bytes exported, all of them. The bytes the channel took are
/// counted in `MIG_CB_WRITTEN_BYTES`.
pub fn export_to_chan(st: &mut MigState, data: &[u8], m: &mut Metrics) -> (n: usize)
    requires
        old(st).wf(),
        old(m).wf(),
    ensures
        final(st).wf(),
        final(m).wf(),
        final(m).same_core(&*old(m)),
        final(m).mig@ == mig_bump(old(m).mig@, MIG_CB_WRITTEN_BYTES as int,
            if old(st).chan is Some { data@.len() as u64 } else { 0 }),
        final(st).chan_view() == match old(st).chan_view() {
            Some(c) => Some(take_last(c + data@, old(st).chan_cap())),
            None => None,
        },
        n == data@.len(),
{
    let _ = chan_write_bytes(st, data, m);
    data.len()
}

// ---------------------------------------------------------------------------
// Channel and transmit-log listings

/// The bytes a channel dump shows: the oldest `want` bytes (all of them when
/// `want` is 0 or too large), as the two runs the ring stores them in (the
/// first up to the end of the ring storage).
pub open spec fn dump_runs(c: ChanBuffer, want: usize) -> (Seq<u8>, Seq<u8>) {
    let n: int = if want == 0 || want > c.len { c.len as int } else { want as int };
    let first: int = if n < c.buf@.len() - c.head { n } else { c.buf@.len() - c.head };
    (c.contents().subrange(0, first), c.contents().subrange(first, n))
}

/// The pieces a channel dump writes: each run cut into 16-byte lines (hex)
/// or 64-byte pieces (raw).
pub open spec fn dump_pieces(c: ChanBuffer, want: usize, hex: bool) -> Seq<Seq<u8>> {
    let r = dump_runs(c, want);
    let size: nat = if hex { 16 } else { 64 };
    pieces(r.0, size) + pieces(r.1, size)
}

/// The pieces of a dump of the channel (`None` without one); with `hex`,
/// each piece is shown as its bytes in hexadecimal.
pub fn chan_dump_pieces(st: &MigState, want: usize, hex: bool) -> (r: Option<Vec<Vec<u8>>>)
    requires
        st.wf(),
    ensures
        r is Some <==> st.chan is Some,
        r matches Some(v) ==> (st.chan matches Some(c) && console_view(v@) == dump_pieces(c, want, hex)),
{
    match &st.chan {
        None => None,
        Some(b) => {
            let data = b.read_all();
            let n = if want == 0 || want > b.len { b.len } else { want };
            let room = b.buf.len() - b.head;
            let first = if n < room { n } else { room };
            assert(data@ == b.contents());
            let (head, rest) = data.as_slice().split_at(first);
            let (second, _) = rest.split_at(n - first);
            assert(head@ =~= b.contents().subrange(0, first as int));
            assert(second@ =~= b.contents().subrange(first as int, n as int));
            let size: usize = if hex { 16 } else { 64 };
            let mut out: Vec<Vec<u8>> = Vec::new();
            push_writes(&mut out, head, true, size);
            push_writes(&mut out, second, true, size);
            assert(console_view(out@) =~= dump_pieces(*b, want, hex));
            Some(out)
        },
    }
}

/// One hexadecimal dump line: each byte in hexadecimal and a space, CR LF.
pub open spec fn hex_line(piece: Seq<u8>) -> Seq<u8> {
    hex_bytes(piece) + seq![13u8, 10u8]
}

pub fn hex_line_of(piece: &[u8]) -> (r: Vec<u8>)
    ensures
        r@ == hex_line(piece@),
{
    let mut out: Vec<u8> = Vec::new();
    let mut j: usize = 0;
    while j < piece.len()
        invariant
            j <= piece@.len(),
            out@ == hex_bytes(piece@.subrange(0, j as int)),
        decreases piece@.len() - j,
    {
        push_hex(&mut out, piece[j] as u64);
        out.push(32);
        proof {
            assert(piece@.subrange(0, j + 1).drop_last() =~= piece@.subrange(0, j as int));
        }
        j = j + 1;
        assert(out@ =~= hex_bytes(piece@.subrange(0, j as int)));
    }
    out.push(13);
    out.push(10);
    assert(piece@.subrange(0, piece@.len() as int) =~= piece@);
    out
}

/// The last `count` entries of the transmit log (all retained ones when
/// `count` is 0 or too large), oldest first.
pub open spec fn txlog_tail(retained: Seq<TxEntry>, count: usize) -> Seq<TxEntry> {
    let n: int = if count == 0 || count > retained.len() { retained.len() as int } else { count as int };
    retained.subrange(retained.len() - n, retained.len() as int)
}

pub fn txlog_entries(st: &MigState, count: usize) -> (r: Vec<TxEntry>)
    requires
        st.wf(),
    ensures
        r@ == txlog_tail(st.tx_log.retained(), count),
{
    let all = st.tx_log.recent();
    let total = all.len();
    let n = if count == 0 || count > total { total } else { count };
    let (_, tail) = all.as_slice().split_at(total - n);
    let mut out: Vec<TxEntry> = Vec::new();
    let mut i: usize = 0;
    while i < tail.len()
        invariant
            i <= tail@.len(),
            out@ == tail@.subrange(0, i as int),
        decreases tail@.len() - i,
    {
        out.push(tail[i]);
        i = i + 1;
        assert(out@ =~= tail@.subrange(0, i as int));
    }
    assert(tail@.subrange(0, tail@.len() as int) =~= tail@);
    assert(tail@ =~= txlog_tail(st.tx_log.retained(), count));
    out
}

/// The kind's name in a log line.
pub open spec fn kind_name(kind: u8) -> Seq<u8> {
    if kind == TYP_PAGE { seq![112u8, 97, 103, 101] }
    else if kind == TYP_MANIFEST { seq![109u8, 97, 110, 105, 102, 101, 115, 116] }
    else if kind == TYP_CTRL { seq![99u8, 116, 114, 108] }
    else { seq![63u8] }
}

/// A transmit-log line: kind, sequence number, and for pages the page index
/// (its low 32 bits), CR LF.
pub open spec fn txlog_line(e: TxEntry) -> Seq<u8> {
    ascii("txlog: kind="@) + kind_name(e.kind) + ascii(" seq="@) + dec_digits(e.seq as nat)
        + (if e.kind == TYP_PAGE { ascii(" page="@) + dec_digits((e.page_index as u32) as nat) } else { Seq::empty() })
        + seq![13u8, 10u8]
}

pub fn txlog_line_of(e: &TxEntry) -> (r: Vec<u8>)
    ensures
        r@ == txlog_line(*e),
{
    let mut out: Vec<u8> = Vec::new();
    push_str(&mut out, "txlog: kind=");
    let ghost a = out@;
    if e.kind == TYP_PAGE {
        out.push(112); out.push(97); out.push(103); out.push(101);
    } else if e.kind == TYP_MANIFEST {
        out.push(109); out.push(97); out.push(110); out.push(105); out.push(102); out.push(101); out.push(115); out.push(116);
    } else if e.kind == TYP_CTRL {
        out.push(99); out.push(116); out.push(114); out.push(108);
    } else {
        out.push(63);
    }
    assert(out@ =~= a + kind_name(e.kind));
    push_str(&mut out, " seq=");
    push_dec(&mut out, e.seq);
    let ghost b = out@;
    if e.kind == TYP_PAGE {
        push_str(&mut out, " page=");
        push_dec(&mut out, e.page_index as u32);
    }
    out.push(13);
    out.push(10);
    assert(out@ =~= txlog_line(*e));
    out
}

} // verus!
