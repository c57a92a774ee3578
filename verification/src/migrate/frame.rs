//! Migration wire format: little-endian fields, the 28-byte frame header,
//! and run-length page compression.

use vstd::prelude::*;
use crate::util::bytes::{le16, le32, le64, le32_value, lemma_le16_roundtrip, lemma_le32_roundtrip, lemma_le64_roundtrip};
use crate::util::crc32::{crc32, crc32_spec};

verus! {

/// Frame magic "ZMIG".
pub const MAGIC: [u8; 4] = [0x5A, 0x4D, 0x49, 0x47];
pub const FRAME_VERSION: u8 = 1;
/// Frame types.
pub const TYP_PAGE: u8 = 1;
pub const TYP_MANIFEST: u8 = 2;
pub const TYP_CTRL: u8 = 3;
/// Control codes.
pub const CTRL_ACK: u8 = 1;
pub const CTRL_NAK: u8 = 2;
/// Header flag: payload is run-length compressed.
pub const FLAG_COMP: u16 = 1;
/// Encoded header size in bytes.
pub const HEADER_LEN: usize = 28;
/// Guest page size.
pub const PAGE_LEN: usize = 4096;

pub open spec fn magic_seq() -> Seq<u8> {
    seq![0x5Au8, 0x4Du8, 0x49u8, 0x47u8]
}

/// A migration frame header.
#[derive(Clone, Copy)]
pub struct FrameHeader {
    pub magic: [u8; 4],
    pub ver: u8,
    pub typ: u8,
    pub flags: u16,
    pub seq: u32,
    pub page_index: u64,
    pub payload_len: u32,
    pub crc32: u32,
}

/// The 28 header bytes: magic, version, type, then flags, sequence number,
/// page index, payload length and CRC-32, all little-endian.
pub open spec fn header_bytes(h: FrameHeader) -> Seq<u8> {
    h.magic@ + seq![h.ver, h.typ] + le16(h.flags) + le32(h.seq) + le64(h.page_index)
        + le32(h.payload_len) + le32(h.crc32)
}

fn push_le16(out: &mut Vec<u8>, v: u16)
    ensures
        final(out)@ == old(out)@ + le16(v),
{
    out.push((v & 0xFF) as u8);
    out.push(((v >> 8u16) & 0xFF) as u8);
    assert(final(out)@ =~= old(out)@ + le16(v));
}

fn push_le32(out: &mut Vec<u8>, v: u32)
    ensures
        final(out)@ == old(out)@ + le32(v),
{
    out.push((v & 0xFF) as u8);
    out.push(((v >> 8u32) & 0xFF) as u8);
    out.push(((v >> 16u32) & 0xFF) as u8);
    out.push(((v >> 24u32) & 0xFF) as u8);
    assert(final(out)@ =~= old(out)@ + le32(v));
}

/// Append the little-endian bytes of `v`.
pub fn push_le64(out: &mut Vec<u8>, v: u64)
    ensures
        final(out)@ == old(out)@ + le64(v),
{
    push_le32(out, (v & 0xFFFF_FFFF) as u32);
    push_le32(out, (v >> 32u64) as u32);
    assert(final(out)@ =~= old(out)@ + le64(v));
}

/// Encode a header.
pub fn encode_header(h: &FrameHeader) -> (r: Vec<u8>)
    ensures
        r@ == header_bytes(*h),
        r@.len() == HEADER_LEN,
{
    let mut out: Vec<u8> = Vec::new();
    out.push(h.magic[0]);
    out.push(h.magic[1]);
    out.push(h.magic[2]);
    out.push(h.magic[3]);
    out.push(h.ver);
    out.push(h.typ);
    proof { assert(out@ =~= h.magic@ + seq![h.ver, h.typ]); }
    push_le16(&mut out, h.flags);
    push_le32(&mut out, h.seq);
    push_le64(&mut out, h.page_index);
    push_le32(&mut out, h.payload_len);
    push_le32(&mut out, h.crc32);
    out
}

/// Decode the header in the first 28 bytes of `b`.
pub fn decode_header(b: &[u8]) -> (h: FrameHeader)
    requires
        b@.len() >= HEADER_LEN,
    ensures
        h.magic@ == b@.subrange(0, 4),
        h.ver == b@[4],
        h.typ == b@[5],
        h.flags == (b@[6] as u16) | ((b@[7] as u16) << 8u16),
        h.seq == le32_value(b@.subrange(8, 12)),
        h.page_index == (le32_value(b@.subrange(12, 16)) as u64) | ((le32_value(b@.subrange(16, 20)) as u64) << 32u64),
        h.payload_len == le32_value(b@.subrange(20, 24)),
        h.crc32 == le32_value(b@.subrange(24, 28)),
{
    let magic = [b[0], b[1], b[2], b[3]];
    assert(magic@ =~= b@.subrange(0, 4));
    let flags = (b[6] as u16) | ((b[7] as u16) << 8u16);
    let seq = (b[8] as u32) | ((b[9] as u32) << 8u32) | ((b[10] as u32) << 16u32) | ((b[11] as u32) << 24u32);
    let lo = (b[12] as u32) | ((b[13] as u32) << 8u32) | ((b[14] as u32) << 16u32) | ((b[15] as u32) << 24u32);
    let hi = (b[16] as u32) | ((b[17] as u32) << 8u32) | ((b[18] as u32) << 16u32) | ((b[19] as u32) << 24u32);
    let len = (b[20] as u32) | ((b[21] as u32) << 8u32) | ((b[22] as u32) << 16u32) | ((b[23] as u32) << 24u32);
    let crc = (b[24] as u32) | ((b[25] as u32) << 8u32) | ((b[26] as u32) << 16u32) | ((b[27] as u32) << 24u32);
    FrameHeader {
        magic,
        ver: b[4],
        typ: b[5],
        flags,
        seq,
        page_index: (lo as u64) | ((hi as u64) << 32u64),
        payload_len: len,
        crc32: crc,
    }
}

/// Decoding an encoded header gives the header back.
pub proof fn lemma_header_roundtrip(h: FrameHeader)
    ensures
        ({
            let b = header_bytes(h);
            &&& b.len() == HEADER_LEN
            &&& b.subrange(0, 4) == h.magic@
            &&& b[4] == h.ver
            &&& b[5] == h.typ
            &&& (b[6] as u16) | ((b[7] as u16) << 8u16) == h.flags
            &&& le32_value(b.subrange(8, 12)) == h.seq
            &&& (le32_value(b.subrange(12, 16)) as u64) | ((le32_value(b.subrange(16, 20)) as u64) << 32u64) == h.page_index
            &&& le32_value(b.subrange(20, 24)) == h.payload_len
            &&& le32_value(b.subrange(24, 28)) == h.crc32
        }),
{
    let b = header_bytes(h);
    lemma_le16_roundtrip(h.flags);
    lemma_le32_roundtrip(h.seq);
    lemma_le64_roundtrip(h.page_index);
    lemma_le32_roundtrip(h.payload_len);
    lemma_le32_roundtrip(h.crc32);
    assert(b.subrange(0, 4) =~= h.magic@);
    assert(b.subrange(8, 12) =~= le32(h.seq));
    assert(b.subrange(12, 16) =~= le64(h.page_index).subrange(0, 4));
    assert(le32_value(b.subrange(12, 16)) == le32_value(le64(h.page_index)));
    assert(b.subrange(16, 20) =~= le64(h.page_index).subrange(4, 8));
    assert(b.subrange(20, 24) =~= le32(h.payload_len));
    assert(b.subrange(24, 28) =~= le32(h.crc32));
}

// ---------------------------------------------------------------------------
// Run-length compression of a page: (value, run length) byte pairs, runs of at
// most 255 equal bytes.

/// End of the run of bytes equal to `s[i]` that starts at `i`, scanning from `k`;
/// runs stop at 255 bytes.
pub open spec fn run_end(s: Seq<u8>, i: int, k: int) -> int
    decreases s.len() - k,
{
    if k < s.len() && k - i < 255 && s[k] == s[i] { run_end(s, i, k + 1) } else { k }
}

/// Run-length encoding of `s` from position `i` on.
pub open spec fn rle_from(s: Seq<u8>, i: int) -> Seq<u8>
    decreases s.len() - i,
{
    if i < 0 || i >= s.len() {
        Seq::empty()
    } else {
        let e = run_end(s, i, i + 1);
        if e <= i || e > s.len() {
            Seq::empty()
        } else {
            seq![s[i], (e - i) as u8] + rle_from(s, e)
        }
    }
}

/// Run-length encoding of `s`.
pub open spec fn rle_encode(s: Seq<u8>) -> Seq<u8> {
    rle_from(s, 0)
}

/// Expand (value, run) pairs onto `out` until it holds a whole page; `None` when
/// the pairs run out first or a run would overflow the page.
pub open spec fn rle_decode_into(s: Seq<u8>, out: Seq<u8>) -> Option<Seq<u8>>
    decreases s.len(),
{
    if out.len() >= PAGE_LEN {
        if out.len() == PAGE_LEN { Some(out) } else { None }
    } else if s.len() < 2 {
        None
    } else if out.len() + s[1] > PAGE_LEN {
        None
    } else {
        rle_decode_into(s.skip(2), out + Seq::new(s[1] as nat, |j: int| s[0]))
    }
}

proof fn lemma_run_end(s: Seq<u8>, i: int, k: int)
    requires
        0 <= i < k <= s.len(),
        k - i <= 255,
        forall|j: int| i <= j < k ==> s[j] == s[i],
    ensures
        k <= run_end(s, i, k) <= s.len(),
        run_end(s, i, k) - i <= 255,
        forall|j: int| i <= j < run_end(s, i, k) ==> s[j] == s[i],
    decreases s.len() - k,
{
    if k < s.len() && k - i < 255 && s[k] == s[i] {
        lemma_run_end(s, i, k + 1);
    }
}

/// Run-length encoding followed by decoding gives the page back.
pub proof fn lemma_rle_roundtrip(page: Seq<u8>)
    requires
        page.len() == PAGE_LEN,
    ensures
        rle_decode_into(rle_encode(page), Seq::empty()) == Some(page),
{
    assert(page.take(0) =~= Seq::<u8>::empty());
    lemma_rle_decode_from(page, 0);
}

proof fn lemma_rle_decode_from(s: Seq<u8>, i: int)
    requires
        s.len() == PAGE_LEN,
        0 <= i <= s.len(),
    ensures
        rle_decode_into(rle_from(s, i), s.take(i)) == Some(s),
    decreases s.len() - i,
{
    if i == s.len() {
        assert(s.take(i) =~= s);
    } else {
        lemma_run_end(s, i, i + 1);
        let e = run_end(s, i, i + 1);
        let enc = rle_from(s, i);
        let rest = rle_from(s, e);
        assert(enc == seq![s[i], (e - i) as u8] + rest);
        assert(enc.skip(2) =~= rest);
        assert(enc[1] == (e - i) as u8);
        assert(s.take(i) + Seq::new(enc[1] as nat, |j: int| enc[0]) =~= s.take(e));
        lemma_rle_decode_from(s, e);
    }
}

/// Run-length compress a page into `out`. `None` when the encoding does not fit,
/// in which case `out` holds as many whole pairs as fit.
pub fn rle_compress_page(page: &[u8], out: &mut [u8]) -> (r: Option<usize>)
    requires
        page@.len() == PAGE_LEN,
    ensures
        final(out)@.len() == old(out)@.len(),
        r is Some <==> rle_encode(page@).len() <= old(out)@.len(),
        r matches Some(n) ==> n == rle_encode(page@).len()
            && final(out)@ == rle_encode(page@) + old(out)@.subrange(n as int, old(out)@.len() as int),
{
    let ghost s = page@;
    let n = page.len();
    let mut i: usize = 0;
    let mut w: usize = 0;
    while i < n
        invariant
            n == s.len() == PAGE_LEN,
            page@ == s,
            i <= n,
            w <= out@.len(),
            out@.len() == old(out)@.len(),
            w % 2 == 0,
            rle_encode(s) == out@.subrange(0, w as int) + rle_from(s, i as int),
            out@.subrange(w as int, out@.len() as int) == old(out)@.subrange(w as int, old(out)@.len() as int),
        decreases n - i,
    {
        let v = page[i];
        let mut run: usize = 1;
        while i + run < n && run < 255 && page[i + run] == v
            invariant
                n == s.len() == PAGE_LEN,
                page@ == s,
                i < n,
                1 <= run <= 255,
                i + run <= n,
                v == s[i as int],
                run_end(s, i as int, i as int + 1) == run_end(s, i as int, (i + run) as int),
                forall|j: int| i <= j < i + run ==> s[j] == s[i as int],
            decreases n - i - run,
        {
            run = run + 1;
        }
        proof {
            lemma_run_end(s, i as int, i as int + 1);
            assert(run_end(s, i as int, (i + run) as int) == (i + run) as int);
            assert(rle_from(s, i as int) == seq![v, run as u8] + rle_from(s, (i + run) as int));
        }
        if out.len() - w < 2 {
            proof {
                // the encoding from here on is non-empty, so it cannot fit
                assert(rle_encode(s).len() > out@.len());
            }
            return None;
        }
        let ghost before = out@;
        out[w] = v;
        out[w + 1] = run as u8;
        proof {
            assert(out@.subrange(0, w + 2) =~= before.subrange(0, w as int) + seq![v, run as u8]);
            assert(out@.subrange(w + 2, out@.len() as int) =~= before.subrange(w + 2, before.len() as int));
            assert forall|j: int| w + 2 <= j < before.len() implies before[j] == old(out)@[j] by {
                assert(before.subrange(w as int, before.len() as int)[j - w] == before[j]);
                assert(old(out)@.subrange(w as int, old(out)@.len() as int)[j - w] == old(out)@[j]);
            }
            assert(before.subrange(w + 2, before.len() as int) =~= old(out)@.subrange(w + 2, old(out)@.len() as int));
        }
        w = w + 2;
        i = i + run;
    }
    proof {
        assert(rle_from(s, n as int) == Seq::<u8>::empty());
        assert(rle_encode(s) =~= out@.subrange(0, w as int));
        assert(out@ =~= rle_encode(s) + old(out)@.subrange(w as int, old(out)@.len() as int));
    }
    Some(w)
}

/// Expand run-length pairs from the front of `stream` into a page.
/// Returns the page and the number of stream bytes consumed, or `None` when the
/// pairs run out or a run would overflow the page.
pub fn rle_expand_page(stream: &[u8]) -> (r: Option<(Vec<u8>, usize)>)
    ensures
        r is Some <==> rle_decode_into(stream@, Seq::empty()) is Some,
        r matches Some((p, used)) ==> rle_decode_into(stream@, Seq::empty()) == Some(p@)
            && used <= stream@.len()
            && rle_decode_into(stream@.subrange(0, used as int), Seq::empty()) == Some(p@),
{
    let mut out: Vec<u8> = Vec::new();
    let mut pos: usize = 0;
    let ghost s = stream@;
    assert(s.skip(0) =~= s);
    while out.len() < PAGE_LEN
        invariant
            stream@ == s,
            pos <= s.len(),
            pos % 2 == 0,
            out@.len() <= PAGE_LEN,
            rle_decode_into(s, Seq::empty()) == rle_decode_into(s.skip(pos as int), out@),
            forall|t: Seq<u8>| rle_decode_into(s.subrange(0, pos as int) + t, Seq::empty())
                == rle_decode_into(t, out@),
        decreases s.len() - pos,
    {
        if stream.len() - pos < 2 {
            return None;
        }
        let v = stream[pos];
        let run = stream[pos + 1] as usize;
        if out.len() + run > PAGE_LEN {
            return None;
        }
        let ghost before = out@;
        let mut k: usize = 0;
        while k < run
            invariant
                k <= run,
                out@ =~= before + Seq::new(k as nat, |j: int| v),
            decreases run - k,
        {
            out.push(v);
            k = k + 1;
        }
        proof {
            let rest = s.skip(pos as int);
            assert(rest[0] == v && rest[1] == run as u8);
            assert(rest.skip(2) =~= s.skip(pos + 2));
            assert(before + Seq::new(rest[1] as nat, |j: int| rest[0]) =~= out@);
            assert forall|t: Seq<u8>| rle_decode_into(s.subrange(0, pos + 2) + t, Seq::empty())
                == rle_decode_into(t, out@) by {
                let t2 = seq![v, run as u8] + t;
                assert(s.subrange(0, pos + 2) + t =~= s.subrange(0, pos as int) + t2);
                assert(t2.skip(2) =~= t);
                assert(before + Seq::new(t2[1] as nat, |j: int| t2[0]) =~= out@);
                assert(rle_decode_into(t2, before) == rle_decode_into(t, out@));
            }
        }
        pos = pos + 2;
    }
    proof {
        assert(rle_decode_into(s.skip(pos as int), out@) == Some(out@));
        let e = Seq::<u8>::empty();
        assert(rle_decode_into(s.subrange(0, pos as int) + e, e) == rle_decode_into(e, out@));
        assert(s.subrange(0, pos as int) + e =~= s.subrange(0, pos as int));
        assert(rle_decode_into(e, out@) == Some(out@));
    }
    Some((out, pos))
}

// ---------------------------------------------------------------------------
// Frame construction

/// The header of a frame of type `typ` carrying `payload`.
pub open spec fn frame_header(typ: u8, flags: u16, seq: u32, page_index: u64, payload: Seq<u8>) -> FrameHeader {
    FrameHeader {
        magic: [0x5Au8, 0x4Du8, 0x49u8, 0x47u8],
        ver: FRAME_VERSION,
        typ,
        flags,
        seq,
        page_index,
        payload_len: payload.len() as u32,
        crc32: crc32_spec(0, payload),
    }
}

/// Whether a page goes out run-length compressed: when asked to and the
/// encoding is shorter than the page.
pub open spec fn page_compressed(page: Seq<u8>, compress: bool) -> bool {
    compress && rle_encode(page).len() < PAGE_LEN
}

/// The payload of a page frame: the encoding when compressed, else the page.
pub open spec fn page_payload(page: Seq<u8>, compress: bool) -> Seq<u8> {
    if page_compressed(page, compress) { rle_encode(page) } else { page }
}

fn make_header(typ: u8, flags: u16, seq: u32, page_index: u64, payload: &[u8]) -> (h: FrameHeader)
    requires
        payload@.len() <= u32::MAX,
    ensures
        h == frame_header(typ, flags, seq, page_index, payload@),
{
    let h = FrameHeader {
        magic: [0x5A, 0x4D, 0x49, 0x47],
        ver: FRAME_VERSION,
        typ,
        flags,
        seq,
        page_index,
        payload_len: payload.len() as u32,
        crc32: crc32(payload),
    };
    assert(h.magic@ =~= [0x5Au8, 0x4Du8, 0x49u8, 0x47u8]@);
    h
}

/// A page frame: header bytes, payload, and whether the payload is compressed.
pub fn page_frame(seq: u32, page_index: u64, page: &[u8], compress: bool) -> (r: (Vec<u8>, Vec<u8>, bool))
    requires
        page@.len() == PAGE_LEN,
    ensures
        r.2 == page_compressed(page@, compress),
        r.1@ == page_payload(page@, compress),
        r.0@ == header_bytes(frame_header(TYP_PAGE, if r.2 { FLAG_COMP } else { 0 }, seq, page_index, r.1@)),
{
    let mut payload: Vec<u8> = Vec::new();
    let mut comp = false;
    if compress {
        let mut buf: Vec<u8> = Vec::new();
        let mut k: usize = 0;
        while k < 8192
            invariant
                buf@.len() == k,
                k <= 8192,
            decreases 8192 - k,
        {
            buf.push(0);
            k = k + 1;
        }
        let res = rle_compress_page(page, buf.as_mut_slice());
        match res {
            Some(n) => {
                assert(buf@.subrange(0, n as int) =~= rle_encode(page@));
                if n < PAGE_LEN {
                    let mut i: usize = 0;
                    while i < n
                        invariant
                            i <= n,
                            n <= buf@.len(),
                            buf@.subrange(0, n as int) == rle_encode(page@),
                            payload@ == buf@.subrange(0, i as int),
                        decreases n - i,
                    {
                        payload.push(buf[i]);
                        i = i + 1;
                        assert(payload@ =~= buf@.subrange(0, i as int));
                    }
                    comp = true;
                }
            },
            None => {},
        }
    }
    if !comp {
        let mut i: usize = 0;
        payload = Vec::new();
        while i < page.len()
            invariant
                i <= page@.len(),
                payload@ == page@.subrange(0, i as int),
            decreases page@.len() - i,
        {
            payload.push(page[i]);
            i = i + 1;
            assert(payload@ =~= page@.subrange(0, i as int));
        }
        assert(payload@ =~= page@);
    }
    assert(payload@ == page_payload(page@, compress));
    let flags: u16 = if comp { FLAG_COMP } else { 0 };
    let h = make_header(TYP_PAGE, flags, seq, page_index, payload.as_slice());
    (encode_header(&h), payload, comp)
}

/// Manifest body: page count then byte count, little-endian.
pub open spec fn manifest_body(pages: u64, bytes: u64) -> Seq<u8> {
    le64(pages) + le64(bytes)
}

/// A manifest frame closing a transfer of `pages` pages and `bytes` bytes.
pub fn manifest_frame(seq: u32, pages: u64, bytes: u64) -> (r: (Vec<u8>, Vec<u8>))
    ensures
        r.1@ == manifest_body(pages, bytes),
        r.0@ == header_bytes(frame_header(TYP_MANIFEST, 0, seq, 0, r.1@)),
{
    let mut body: Vec<u8> = Vec::new();
    push_le64(&mut body, pages);
    push_le64(&mut body, bytes);
    assert(body@ =~= manifest_body(pages, bytes));
    let h = make_header(TYP_MANIFEST, 0, seq, 0, body.as_slice());
    (encode_header(&h), body)
}

/// Control body: the code then the referenced sequence number, little-endian.
pub open spec fn ctrl_body(code: u8, seq_ref: u32) -> Seq<u8> {
    seq![code] + le32(seq_ref)
}

/// A control frame (ACK or NAK) referring to sequence number `seq_ref`.
pub fn ctrl_frame(seq: u32, code: u8, seq_ref: u32) -> (r: (Vec<u8>, Vec<u8>))
    ensures
        r.1@ == ctrl_body(code, seq_ref),
        r.0@ == header_bytes(frame_header(TYP_CTRL, 0, seq, 0, r.1@)),
{
    let mut body: Vec<u8> = Vec::new();
    body.push(code);
    push_le32(&mut body, seq_ref);
    assert(body@ =~= ctrl_body(code, seq_ref));
    let h = make_header(TYP_CTRL, 0, seq, 0, body.as_slice());
    (encode_header(&h), body)
}

} // verus!
