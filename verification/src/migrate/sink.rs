//! Where migration output goes: the export sinks and their effect, as the
//! sequence of writes each sink receives.

use vstd::prelude::*;
use crate::migrate::chan::take_last;

verus! {

/// Data sink for migration output.
#[derive(Clone, Copy, Debug, PartialEq, Eq, Structural)]
pub enum ExportSink {
    Console,
    Null,
    Buffer,
    Snp,
    Virtio,
}

/// Storage code of a sink.
pub open spec fn sink_code(s: ExportSink) -> u8 {
    match s {
        ExportSink::Console => 0,
        ExportSink::Null => 1,
        ExportSink::Buffer => 2,
        ExportSink::Snp => 3,
        ExportSink::Virtio => 4,
    }
}

/// The sink a storage code stands for; unknown codes mean the buffer.
pub open spec fn sink_of_code(v: u8) -> ExportSink {
    if v == 0 {
        ExportSink::Console
    } else if v == 1 {
        ExportSink::Null
    } else if v == 3 {
        ExportSink::Snp
    } else if v == 4 {
        ExportSink::Virtio
    } else {
        ExportSink::Buffer
    }
}

pub fn sink_to_u8(s: ExportSink) -> (v: u8)
    ensures
        v == sink_code(s),
{
    match s {
        ExportSink::Console => 0,
        ExportSink::Null => 1,
        ExportSink::Buffer => 2,
        ExportSink::Snp => 3,
        ExportSink::Virtio => 4,
    }
}

pub fn u8_to_sink(v: u8) -> (s: ExportSink)
    ensures
        s == sink_of_code(v),
{
    match v {
        0 => ExportSink::Console,
        1 => ExportSink::Null,
        3 => ExportSink::Snp,
        4 => ExportSink::Virtio,
        _ => ExportSink::Buffer,
    }
}

/// A sink stored and read back is the same sink.
pub proof fn lemma_sink_roundtrip(s: ExportSink)
    ensures
        sink_of_code(sink_code(s)) == s,
{
}

/// The parts concatenated.
pub open spec fn flat(parts: Seq<Seq<u8>>) -> Seq<u8>
    decreases parts.len(),
{
    if parts.len() == 0 { Seq::empty() } else { flat(parts.drop_last()) + parts.last() }
}

/// `d` cut into pieces of `size` bytes (the last one shorter).
pub open spec fn pieces(d: Seq<u8>, size: nat) -> Seq<Seq<u8>>
    decreases d.len(),
{
    if d.len() == 0 || size == 0 {
        Seq::empty()
    } else if d.len() <= size {
        seq![d]
    } else {
        seq![d.take(size as int)] + pieces(d.skip(size as int), size)
    }
}

/// The writes one part becomes: pieces of the chunk size when chunked, else one write.
pub open spec fn writes_of(d: Seq<u8>, chunked: bool, size: nat) -> Seq<Seq<u8>> {
    if chunked { pieces(d, size) } else { seq![d] }
}

/// The writes a list of parts becomes.
pub open spec fn parts_writes(parts: Seq<Seq<u8>>, chunked: bool, size: nat) -> Seq<Seq<u8>>
    decreases parts.len(),
{
    if parts.len() == 0 {
        Seq::empty()
    } else {
        parts_writes(parts.drop_last(), chunked, size) + writes_of(parts.last(), chunked, size)
    }
}

/// The channel after `parts` went to `sink`: appended (keeping the last
/// `cap` bytes) when the sink is the buffer and there is a channel.
pub open spec fn apply_chan(chan: Option<Seq<u8>>, cap: nat, sink: ExportSink, parts: Seq<Seq<u8>>) -> Option<Seq<u8>> {
    match chan {
        Some(c) => if sink == ExportSink::Buffer { Some(take_last(c + flat(parts), cap)) } else { Some(c) },
        None => None,
    }
}

/// The console writes after `parts` went to `sink`.
pub open spec fn apply_console(console: Seq<Seq<u8>>, sink: ExportSink, parts: Seq<Seq<u8>>, chunked: bool, size: nat) -> Seq<Seq<u8>> {
    if sink == ExportSink::Console { console + parts_writes(parts, chunked, size) } else { console }
}

/// The bytes of each write.
pub open spec fn console_view(out: Seq<Vec<u8>>) -> Seq<Seq<u8>> {
    out.map_values(|v: Vec<u8>| v@)
}

pub proof fn lemma_take_last_twice(x: Seq<u8>, p: Seq<u8>, q: Seq<u8>, cap: nat)
    ensures
        take_last(take_last(x + p, cap) + q, cap) == take_last(x + p + q, cap),
{
    let a = x + p;
    if a.len() > cap {
        let t = a.subrange(a.len() - cap, a.len() as int);
        assert((t + q).len() >= cap);
        assert(take_last(t + q, cap) =~= take_last(a + q, cap));
    } else {
        assert(take_last(a, cap) == a);
    }
    assert(x + p + q =~= a + q);
}

pub proof fn lemma_flat_append(p: Seq<Seq<u8>>, q: Seq<Seq<u8>>)
    ensures
        flat(p + q) == flat(p) + flat(q),
    decreases q.len(),
{
    if q.len() == 0 {
        assert(p + q =~= p);
        assert(flat(p) + flat(q) =~= flat(p));
    } else {
        assert((p + q).drop_last() =~= p + q.drop_last());
        lemma_flat_append(p, q.drop_last());
        assert(flat(p) + flat(q) =~= flat(p) + flat(q.drop_last()) + q.last());
    }
}

pub proof fn lemma_parts_writes_append(p: Seq<Seq<u8>>, q: Seq<Seq<u8>>, chunked: bool, size: nat)
    ensures
        parts_writes(p + q, chunked, size) == parts_writes(p, chunked, size) + parts_writes(q, chunked, size),
    decreases q.len(),
{
    if q.len() == 0 {
        assert(p + q =~= p);
        assert(parts_writes(p, chunked, size) + parts_writes(q, chunked, size) =~= parts_writes(p, chunked, size));
    } else {
        assert((p + q).drop_last() =~= p + q.drop_last());
        lemma_parts_writes_append(p, q.drop_last(), chunked, size);
        assert(parts_writes(p, chunked, size) + parts_writes(q, chunked, size)
            =~= parts_writes(p, chunked, size) + parts_writes(q.drop_last(), chunked, size) + writes_of(q.last(), chunked, size));
    }
}

/// Sending `p` then `q` to a sink has the effect of sending `p + q`.
pub proof fn lemma_apply_compose(chan: Option<Seq<u8>>, cap: nat, console: Seq<Seq<u8>>, sink: ExportSink,
    p: Seq<Seq<u8>>, q: Seq<Seq<u8>>, chunked: bool, size: nat)
    ensures
        apply_chan(apply_chan(chan, cap, sink, p), cap, sink, q) == apply_chan(chan, cap, sink, p + q),
        apply_console(apply_console(console, sink, p, chunked, size), sink, q, chunked, size)
            == apply_console(console, sink, p + q, chunked, size),
{
    lemma_flat_append(p, q);
    lemma_parts_writes_append(p, q, chunked, size);
    if let Some(c) = chan {
        lemma_take_last_twice(c, flat(p), flat(q), cap);
        assert(c + flat(p + q) =~= c + flat(p) + flat(q));
    }
    assert(console + parts_writes(p, chunked, size) + parts_writes(q, chunked, size)
        =~= console + parts_writes(p + q, chunked, size));
}

/// One part alone.
pub proof fn lemma_single(d: Seq<u8>, chunked: bool, size: nat)
    ensures
        flat(seq![d]) == d,
        parts_writes(seq![d], chunked, size) == writes_of(d, chunked, size),
{
    let p = seq![d];
    assert(p.drop_last() =~= Seq::<Seq<u8>>::empty());
    assert(p.last() == d);
    assert(flat(p.drop_last()) == Seq::<u8>::empty());
    assert(parts_writes(p.drop_last(), chunked, size) == Seq::<Seq<u8>>::empty());
    assert(Seq::<u8>::empty() + d =~= d);
    assert(Seq::<Seq<u8>>::empty() + writes_of(d, chunked, size) =~= writes_of(d, chunked, size));
}

/// A copy of `data`.
pub fn copy_bytes(data: &[u8]) -> (r: Vec<u8>)
    ensures
        r@ == data@,
{
    let mut v: Vec<u8> = Vec::new();
    let mut i: usize = 0;
    while i < data.len()
        invariant
            i <= data@.len(),
            v@ == data@.subrange(0, i as int),
        decreases data@.len() - i,
    {
        v.push(data[i]);
        i = i + 1;
        assert(v@ =~= data@.subrange(0, i as int));
    }
    assert(v@ =~= data@);
    v
}

/// Append the writes of one part to `out`: pieces of `size` bytes when
/// `chunked`, else a single write.
pub fn push_writes(out: &mut Vec<Vec<u8>>, data: &[u8], chunked: bool, size: usize)
    requires
        size > 0,
    ensures
        console_view(final(out)@) == console_view(old(out)@) + writes_of(data@, chunked, size as nat),
{
    if !chunked {
        let v = copy_bytes(data);
        let ghost o = old(out)@;
        out.push(v);
        assert(console_view(out@) =~= console_view(o) + seq![data@]);
        return;
    }
    let len = data.len();
    let mut off: usize = 0;
    assert(data@.skip(0) =~= data@);
    while off < len
        invariant
            size > 0,
            len == data@.len(),
            off <= len,
            console_view(out@) + pieces(data@.skip(off as int), size as nat)
                == console_view(old(out)@) + pieces(data@, size as nat),
        decreases len - off,
    {
        let take = if len - off < size { len - off } else { size };
        let mut piece: Vec<u8> = Vec::new();
        let mut j: usize = 0;
        while j < take
            invariant
                off + take <= len,
                len == data@.len(),
                j <= take,
                piece@ == data@.subrange(off as int, off + j),
            decreases take - j,
        {
            piece.push(data[off + j]);
            j = j + 1;
            assert(piece@ =~= data@.subrange(off as int, off + j));
        }
        let ghost rest = data@.skip(off as int);
        let ghost before = console_view(out@);
        out.push(piece);
        proof {
            assert(console_view(out@) =~= before.push(piece@));
            if rest.len() <= size {
                assert(piece@ =~= rest);
                assert(pieces(rest, size as nat) == seq![rest]);
                assert(data@.skip(off + take) =~= Seq::<u8>::empty());
                assert(pieces(data@.skip(off + take), size as nat) == Seq::<Seq<u8>>::empty());
            } else {
                assert(piece@ =~= rest.take(size as int));
                assert(rest.skip(size as int) =~= data@.skip(off + take));
            }
            assert(console_view(out@) + pieces(data@.skip(off + take), size as nat)
                =~= before + pieces(rest, size as nat));
        }
        off = off + take;
    }
    assert(pieces(data@.skip(len as int), size as nat) == Seq::<Seq<u8>>::empty());
    assert(console_view(out@) + Seq::<Seq<u8>>::empty() =~= console_view(out@));
}

} // verus!
