//! Sending pages: zero/hash elision, the dirty-page transfer with its closing
//! manifest, and resends from the transmit log.

use vstd::prelude::*;
use crate::firmware::acpi::{le64_at, read_le64};
use crate::migrate::frame::{page_payload, page_compressed, PAGE_LEN, HEADER_LEN, TYP_PAGE, TYP_MANIFEST};
use crate::obs::metrics::{Metrics, mig_add, mig_bump, add_wrapped, lemma_add_wrapped_step, lemma_add_wrapped_twice,
    MIG_FRAMES, MIG_RAW_PAGES, MIG_COMPRESSED_PAGES, MIG_MANIFESTS, MIG_ZERO_SKIPPED, MIG_HASH_SKIPPED,
    MIG_ZERO_BYTES_SAVED, MIG_HASH_BYTES_SAVED};
use crate::migrate::sink::{ExportSink, apply_chan, apply_console, console_view, lemma_apply_compose};
use crate::migrate::session::{MigState, TxEntry, page_parts, manifest_parts, next_seq};
use crate::obs::ring::Ring;

verus! {

/// FNV-1a 64-bit offset basis and prime.
pub const FNV_OFFSET: u64 = 1469598103934665603;
pub const FNV_PRIME: u64 = 1099511628211;

/// The `k`-th 64-bit little-endian word of a page.
pub open spec fn page_word(p: Seq<u8>, k: int) -> u64 {
    le64_at(p, 8 * k)
}

/// FNV-style hash over the first `n` words of a page.
pub open spec fn fnv_words(p: Seq<u8>, n: int) -> u64
    decreases n,
{
    if n <= 0 {
        FNV_OFFSET
    } else {
        vstd::wrapping::u64_specs::wrapping_mul(fnv_words(p, n - 1) ^ page_word(p, n - 1), FNV_PRIME)
    }
}

/// Why a page need not be sent: 1 when every word is zero, 2 when its hash is
/// zero; `None` when it must be sent.
pub open spec fn skip_reason(p: Seq<u8>) -> Option<u8> {
    if forall|k: int| 0 <= k < 512 ==> #[trigger] page_word(p, k) == 0 {
        Some(1)
    } else if fnv_words(p, 512) == 0 {
        Some(2)
    } else {
        None
    }
}

/// Decide whether page contents `page` may be skipped.
pub fn page_skip_reason(page: &[u8]) -> (r: Option<u8>)
    requires
        page@.len() == PAGE_LEN,
    ensures
        r == skip_reason(page@),
{
    let mut all_zero = true;
    let mut k: usize = 0;
    while k < 512
        invariant
            page@.len() == PAGE_LEN,
            k <= 512,
            all_zero == forall|j: int| 0 <= j < k ==> #[trigger] page_word(page@, j) == 0,
        decreases 512 - k,
    {
        let w = read_le64(page, 8 * k);
        assert(page_word(page@, k as int) == w);
        if w != 0 {
            all_zero = false;
        }
        k = k + 1;
    }
    if all_zero {
        return Some(1);
    }
    let mut h: u64 = FNV_OFFSET;
    let mut k: usize = 0;
    while k < 512
        invariant
            page@.len() == PAGE_LEN,
            k <= 512,
            h == fnv_words(page@, k as int),
        decreases 512 - k,
    {
        let w = read_le64(page, 8 * k);
        h = (h ^ w).wrapping_mul(FNV_PRIME);
        k = k + 1;
    }
    if h == 0 { Some(2) } else { None }
}

/// The outcome of sending pages `idxs[i..]` (contents `pages[i..]`) from
/// sequence number `seq`, skipping elidable pages when `skip`: the frame
/// parts, the log entries, the next sequence number, and the pages and bytes
/// (headers included) sent.
pub open spec fn send_run(idxs: Seq<u64>, pages: Seq<Seq<u8>>, i: int, seq: u32, compress: bool, skip: bool)
    -> (Seq<Seq<u8>>, Seq<TxEntry>, u32, nat, nat)
    decreases idxs.len() - i,
{
    if i < 0 || i >= idxs.len() {
        (Seq::empty(), Seq::empty(), seq, 0, 0)
    } else if skip && skip_reason(pages[i]) is Some {
        send_run(idxs, pages, i + 1, seq, compress, skip)
    } else {
        let rest = send_run(idxs, pages, i + 1, next_seq(seq), compress, skip);
        (
            page_parts(seq, idxs[i], pages[i], compress) + rest.0,
            seq![TxEntry { kind: TYP_PAGE, seq, page_index: idxs[i] }] + rest.1,
            rest.2,
            rest.3 + 1,
            (rest.4 + HEADER_LEN + page_payload(pages[i], compress).len()) as nat,
        )
    }
}

/// What one page adds to the transfer counts (compressed frames, raw frames,
/// zero-page and hash elisions), from its elision reason and compression.
pub open spec fn tally_of(skipped: Option<u8>, comp: bool) -> (nat, nat, nat, nat) {
    match skipped {
        Some(k) => if k == 1 { (0, 0, 1, 0) } else { (0, 0, 0, 1) },
        None => if comp { (1, 0, 0, 0) } else { (0, 1, 0, 0) },
    }
}

/// The counts page `page` adds when sent with `compress`, elided when `skip` allows.
pub open spec fn page_tally(page: Seq<u8>, compress: bool, skip: bool) -> (nat, nat, nat, nat) {
    tally_of(if skip { skip_reason(page) } else { None }, page_compressed(page, compress))
}

/// The counts of sending pages `i..` (see [`send_run`]).
pub open spec fn send_tally(idxs: Seq<u64>, pages: Seq<Seq<u8>>, i: int, compress: bool, skip: bool) -> (nat, nat, nat, nat)
    decreases idxs.len() - i,
{
    if i < 0 || i >= idxs.len() {
        (0, 0, 0, 0)
    } else {
        let t = page_tally(pages[i], compress, skip);
        let r = send_tally(idxs, pages, i + 1, compress, skip);
        (t.0 + r.0, t.1 + r.1, t.2 + r.2, t.3 + r.3)
    }
}

/// The migration counters `c` after frames and elisions tallied `t`: every
/// frame in `mig_frames`, split into compressed and raw, and each elision with
/// the 4 KiB it saved (all wrapping).
pub open spec fn send_counters(c: Seq<u64>, t: (nat, nat, nat, nat)) -> Seq<u64> {
    c.update(MIG_FRAMES as int, add_wrapped(c[MIG_FRAMES as int], t.0 + t.1))
        .update(MIG_COMPRESSED_PAGES as int, add_wrapped(c[MIG_COMPRESSED_PAGES as int], t.0))
        .update(MIG_RAW_PAGES as int, add_wrapped(c[MIG_RAW_PAGES as int], t.1))
        .update(MIG_ZERO_SKIPPED as int, add_wrapped(c[MIG_ZERO_SKIPPED as int], t.2))
        .update(MIG_ZERO_BYTES_SAVED as int, add_wrapped(c[MIG_ZERO_BYTES_SAVED as int], t.2 * 4096))
        .update(MIG_HASH_SKIPPED as int, add_wrapped(c[MIG_HASH_SKIPPED as int], t.3))
        .update(MIG_HASH_BYTES_SAVED as int, add_wrapped(c[MIG_HASH_BYTES_SAVED as int], t.3 * 4096))
}

proof fn lemma_send_counters_add(c: Seq<u64>, a: (nat, nat, nat, nat), d: (nat, nat, nat, nat))
    requires
        c.len() > MIG_MANIFESTS,
    ensures
        send_counters(send_counters(c, a), d) == send_counters(c, (a.0 + d.0, a.1 + d.1, a.2 + d.2, a.3 + d.3)),
        send_counters(c, (0, 0, 0, 0)) == c,
{
    lemma_add_wrapped_twice(c[MIG_FRAMES as int], a.0 + a.1, d.0 + d.1);
    lemma_add_wrapped_twice(c[MIG_COMPRESSED_PAGES as int], a.0, d.0);
    lemma_add_wrapped_twice(c[MIG_RAW_PAGES as int], a.1, d.1);
    lemma_add_wrapped_twice(c[MIG_ZERO_SKIPPED as int], a.2, d.2);
    lemma_add_wrapped_twice(c[MIG_ZERO_BYTES_SAVED as int], a.2 * 4096, d.2 * 4096);
    lemma_add_wrapped_twice(c[MIG_HASH_SKIPPED as int], a.3, d.3);
    lemma_add_wrapped_twice(c[MIG_HASH_BYTES_SAVED as int], a.3 * 4096, d.3 * 4096);
    assert((a.2 + d.2) * 4096 == a.2 * 4096 + d.2 * 4096) by (nonlinear_arith);
    assert((a.3 + d.3) * 4096 == a.3 * 4096 + d.3 * 4096) by (nonlinear_arith);
    assert(send_counters(send_counters(c, a), d) =~= send_counters(c, (a.0 + d.0, a.1 + d.1, a.2 + d.2, a.3 + d.3)));
    lemma_add_wrapped_step(c[MIG_FRAMES as int], 0, 0);
    lemma_add_wrapped_step(c[MIG_COMPRESSED_PAGES as int], 0, 0);
    lemma_add_wrapped_step(c[MIG_RAW_PAGES as int], 0, 0);
    lemma_add_wrapped_step(c[MIG_ZERO_SKIPPED as int], 0, 0);
    lemma_add_wrapped_step(c[MIG_ZERO_BYTES_SAVED as int], 0, 0);
    lemma_add_wrapped_step(c[MIG_HASH_SKIPPED as int], 0, 0);
    lemma_add_wrapped_step(c[MIG_HASH_BYTES_SAVED as int], 0, 0);
    assert(send_counters(c, (0, 0, 0, 0)) =~= c);
}

/// Count one page: its frame (compressed or raw) or its elision.
fn tally_page(m: &mut Metrics, skipped: Option<u8>, comp: bool)
    requires
        old(m).wf(),
    ensures
        final(m).wf(),
        final(m).same_core(&*old(m)),
        final(m).mig@ == send_counters(old(m).mig@, tally_of(skipped, comp)),
{
    let ghost c = m.mig@;
    proof {
        lemma_add_wrapped_step(c[MIG_FRAMES as int], 0, 0);
        lemma_add_wrapped_step(c[MIG_COMPRESSED_PAGES as int], 0, 0);
        lemma_add_wrapped_step(c[MIG_RAW_PAGES as int], 0, 0);
        lemma_add_wrapped_step(c[MIG_ZERO_SKIPPED as int], 0, 0);
        lemma_add_wrapped_step(c[MIG_ZERO_BYTES_SAVED as int], 0, 0);
        lemma_add_wrapped_step(c[MIG_HASH_SKIPPED as int], 0, 0);
        lemma_add_wrapped_step(c[MIG_HASH_BYTES_SAVED as int], 0, 0);
        lemma_add_wrapped_step(c[MIG_FRAMES as int], 0, 1);
        lemma_add_wrapped_step(c[MIG_COMPRESSED_PAGES as int], 0, 1);
        lemma_add_wrapped_step(c[MIG_RAW_PAGES as int], 0, 1);
        lemma_add_wrapped_step(c[MIG_ZERO_SKIPPED as int], 0, 1);
        lemma_add_wrapped_step(c[MIG_ZERO_BYTES_SAVED as int], 0, 4096);
        lemma_add_wrapped_step(c[MIG_HASH_SKIPPED as int], 0, 1);
        lemma_add_wrapped_step(c[MIG_HASH_BYTES_SAVED as int], 0, 4096);
    }
    match skipped {
        Some(k) => {
            if k == 1 {
                mig_add(m, MIG_ZERO_SKIPPED, 1);
                mig_add(m, MIG_ZERO_BYTES_SAVED, 4096);
            } else {
                mig_add(m, MIG_HASH_SKIPPED, 1);
                mig_add(m, MIG_HASH_BYTES_SAVED, 4096);
            }
        },
        None => {
            mig_add(m, MIG_FRAMES, 1);
            if comp {
                mig_add(m, MIG_COMPRESSED_PAGES, 1);
            } else {
                mig_add(m, MIG_RAW_PAGES, 1);
            }
        },
    }
    assert(m.mig@ =~= send_counters(c, tally_of(skipped, comp)));
}

proof fn lemma_payload_len(page: Seq<u8>, compress: bool)
    requires
        page.len() == PAGE_LEN,
    ensures
        page_payload(page, compress).len() <= PAGE_LEN,
{
}

proof fn lemma_send_run_bounds(idxs: Seq<u64>, pages: Seq<Seq<u8>>, i: int, seq: u32, compress: bool, skip: bool)
    requires
        0 <= i <= idxs.len(),
        pages.len() == idxs.len(),
        forall|j: int| 0 <= j < pages.len() ==> #[trigger] pages[j].len() == PAGE_LEN,
    ensures
        send_run(idxs, pages, i, seq, compress, skip).3 <= idxs.len() - i,
        send_run(idxs, pages, i, seq, compress, skip).4 <= (idxs.len() - i) * (HEADER_LEN + PAGE_LEN),
        send_run(idxs, pages, i, seq, compress, skip).1.len() == send_run(idxs, pages, i, seq, compress, skip).3,
    decreases idxs.len() - i,
{
    if i < idxs.len() {
        lemma_send_run_bounds(idxs, pages, i + 1, seq, compress, skip);
        lemma_send_run_bounds(idxs, pages, i + 1, next_seq(seq), compress, skip);
        lemma_payload_len(pages[i], compress);
        assert((idxs.len() - i) * (HEADER_LEN + PAGE_LEN) == (idxs.len() - (i + 1)) * (HEADER_LEN + PAGE_LEN) + (HEADER_LEN + PAGE_LEN))
            by (nonlinear_arith);
    }
}

/// Most pages one transfer may carry, so that the counts stay in range.
pub const MAX_PAGES_PER_SEND: u64 = 0x10_0000_0000;

/// One step of a page run: send (or skip) page `i`. Returns whether it was
/// sent and the bytes it took (header included).
fn send_step(st: &mut MigState, idxs: &Vec<u64>, pages: &Vec<Vec<u8>>, i: usize, compress: bool, skip: bool,
    sink: ExportSink, chunked: bool, out: &mut Vec<Vec<u8>>, m: &mut Metrics) -> (r: (bool, u64))
    requires
        old(m).wf(),
        old(st).wf(),
        idxs@.len() == pages@.len(),
        i < idxs@.len(),
        old(st).tx_log.count() < usize::MAX,
        pages@[i as int]@.len() == PAGE_LEN,
    ensures
        ({
            let pv = pages@.map_values(|v: Vec<u8>| v@);
            let now = send_run(idxs@, pv, i as int, old(st).seq, compress, skip);
            let rest = send_run(idxs@, pv, i + 1, final(st).seq, compress, skip);
            let pp = if r.0 { page_parts(old(st).seq, idxs@[i as int], pv[i as int], compress) } else { Seq::empty() };
            let te = if r.0 { seq![TxEntry { kind: TYP_PAGE, seq: old(st).seq, page_index: idxs@[i as int] }] } else { Seq::empty() };
            &&& final(st).wf()
            &&& final(st).same_config(&*old(st))
            &&& now.0 == pp + rest.0
            &&& now.1 == te + rest.1
            &&& now.2 == rest.2
            &&& now.3 == rest.3 + (if r.0 { 1nat } else { 0nat })
            &&& now.4 == rest.4 + r.1
            &&& r.1 <= HEADER_LEN + PAGE_LEN
            &&& final(st).tx_log.hist@ == old(st).tx_log.hist@ + te
            &&& final(st).chan_view() == apply_chan(old(st).chan_view(), old(st).chan_cap(), sink, pp)
            &&& console_view(final(out)@) == apply_console(console_view(old(out)@), sink, pp, chunked, old(st).chunk_size())
        }),
        final(m).wf(),
        final(m).same_core(&*old(m)),
        final(m).mig@ == send_counters(old(m).mig@, page_tally(pages@[i as int]@, compress, skip)),
{
    let ghost pv = pages@.map_values(|v: Vec<u8>| v@);
    let ghost seq_i = st.seq;
    assert(pv[i as int] == pages@[i as int]@);
    let page = pages[i].as_slice();
    let reason = if skip { page_skip_reason(page) } else { None };
    let skip_it = reason.is_some();
    if skip_it {
        tally_page(m, reason, false);
        proof {
            assert(st.tx_log.hist@ =~= old(st).tx_log.hist@ + Seq::<TxEntry>::empty());
            assert(Seq::<Seq<u8>>::empty() + send_run(idxs@, pv, i + 1, seq_i, compress, skip).0
                =~= send_run(idxs@, pv, i + 1, seq_i, compress, skip).0);
            assert(Seq::<TxEntry>::empty() + send_run(idxs@, pv, i + 1, seq_i, compress, skip).1
                =~= send_run(idxs@, pv, i + 1, seq_i, compress, skip).1);
            crate::migrate::sink::lemma_single(Seq::<u8>::empty(), chunked, st.chunk_size());
            assert(apply_chan(st.chan_view(), st.chan_cap(), sink, Seq::empty()) == st.chan_view()) by {
                assert(crate::migrate::sink::flat(Seq::<Seq<u8>>::empty()) == Seq::<u8>::empty());
                if let Some(c) = st.chan_view() {
                    assert(c + Seq::<u8>::empty() =~= c);
                    if sink == ExportSink::Buffer {
                        assert(st.chan.unwrap().contents().len() <= st.chan_cap());
                    }
                }
            }
            assert(apply_console(console_view(out@), sink, Seq::empty(), chunked, st.chunk_size()) == console_view(out@)) by {
                assert(crate::migrate::sink::parts_writes(Seq::<Seq<u8>>::empty(), chunked, st.chunk_size()) == Seq::<Seq<u8>>::empty());
                assert(console_view(out@) + Seq::<Seq<u8>>::empty() =~= console_view(out@));
            }
        }
        return (false, 0);
    }
    let (comp, plen) = st.frame_and_send_page(sink, idxs[i], page, compress, chunked, out);
    tally_page(m, None, comp);
    proof {
        lemma_payload_len(pv[i as int], compress);
        let entry = TxEntry { kind: TYP_PAGE, seq: seq_i, page_index: idxs@[i as int] };
        assert(st.tx_log.hist@ =~= old(st).tx_log.hist@ + seq![entry]);
        let rest = send_run(idxs@, pv, i + 1, next_seq(seq_i), compress, skip);
        assert(seq![entry] + rest.1 =~= seq![entry] + rest.1);
    }
    (true, HEADER_LEN as u64 + plen as u64)
}

/// Send pages `idxs` with contents `pages` to `sink` (skipping elidable pages
/// when `skip`), then a manifest with the pages and bytes sent.
/// Returns the pages and the bytes sent.
#[verifier::rlimit(40)]
fn send_pages_and_manifest(st: &mut MigState, idxs: &Vec<u64>, pages: &Vec<Vec<u8>>, compress: bool, skip: bool,
    sink: ExportSink, chunked: bool, out: &mut Vec<Vec<u8>>, m: &mut Metrics) -> (r: (u64, u64))
    requires
        old(m).wf(),
        old(st).wf(),
        idxs@.len() == pages@.len(),
        idxs@.len() <= MAX_PAGES_PER_SEND,
        old(st).tx_log.count() + idxs@.len() + 1 < usize::MAX,
        forall|j: int| 0 <= j < pages@.len() ==> #[trigger] pages@[j]@.len() == PAGE_LEN,
    ensures
        ({
            let run = send_run(idxs@, pages@.map_values(|v: Vec<u8>| v@), 0, old(st).seq, compress, skip);
            let parts = run.0 + manifest_parts(run.2, run.3 as u64, run.4 as u64);
            &&& final(st).wf()
            &&& final(st).same_config(&*old(st))
            &&& r.0 == run.3 && r.1 == run.4
            &&& final(st).seq == next_seq(run.2)
            &&& final(st).tx_log.hist@ == old(st).tx_log.hist@ + run.1
                + seq![TxEntry { kind: TYP_MANIFEST, seq: run.2, page_index: 0 }]
            &&& final(st).chan_view() == apply_chan(old(st).chan_view(), old(st).chan_cap(), sink, parts)
            &&& console_view(final(out)@) == apply_console(console_view(old(out)@), sink, parts, chunked, old(st).chunk_size())
        }),
        final(m).wf(),
        final(m).same_core(&*old(m)),
        final(m).mig@ == mig_bump(send_counters(old(m).mig@, send_tally(idxs@, pages@.map_values(|v: Vec<u8>| v@), 0, compress, skip)),
            MIG_MANIFESTS as int, 1),
{
    let ghost pv = pages@.map_values(|v: Vec<u8>| v@);
    let ghost seq0 = st.seq;
    let ghost m0 = m.mig@;
    let ghost core0 = *m;
    let ghost tall = send_tally(idxs@, pv, 0, compress, skip);
    let ghost mut acc: (nat, nat, nat, nat) = (0, 0, 0, 0);
    let ghost full = send_run(idxs@, pv, 0, seq0, compress, skip);
    let ghost c0 = st.chan_view();
    let ghost cap = st.chan_cap();
    let ghost o0 = console_view(out@);
    let ghost size = st.chunk_size();
    let ghost h0 = st.tx_log.hist@;
    let ghost mut parts: Seq<Seq<u8>> = Seq::empty();
    let ghost mut tx: Seq<TxEntry> = Seq::empty();
    let mut sent: u64 = 0;
    let mut bytes: u64 = 0;
    let mut i: usize = 0;
    proof {
        assert forall|j: int| 0 <= j < pv.len() implies #[trigger] pv[j].len() == PAGE_LEN by {
            assert(pv[j] == pages@[j]@);
        }
        lemma_send_run_bounds(idxs@, pv, 0, seq0, compress, skip);
        assert(apply_chan(c0, cap, sink, Seq::empty()) == c0) by {
            assert(crate::migrate::sink::flat(Seq::<Seq<u8>>::empty()) == Seq::<u8>::empty());
            if let Some(c) = c0 {
                assert(c + Seq::<u8>::empty() =~= c);
            }
        }
        assert(apply_console(o0, sink, Seq::empty(), chunked, size) == o0) by {
            assert(crate::migrate::sink::parts_writes(Seq::<Seq<u8>>::empty(), chunked, size) == Seq::<Seq<u8>>::empty());
            assert(o0 + Seq::<Seq<u8>>::empty() =~= o0);
        }
        assert(h0 + tx =~= h0);
        lemma_send_counters_add(m0, acc, acc);
        assert(full.0 =~= parts + full.0);
        assert(full.1 =~= tx + full.1);
    }
    while i < idxs.len()
        invariant
            st.wf(),
            st.same_config(&*old(st)),
            idxs@.len() == pages@.len(),
            idxs@.len() <= MAX_PAGES_PER_SEND,
            pv == pages@.map_values(|v: Vec<u8>| v@),
            forall|j: int| 0 <= j < pages@.len() ==> #[trigger] pages@[j]@.len() == PAGE_LEN,
            i <= idxs@.len(),
            full == send_run(idxs@, pv, 0, seq0, compress, skip),
            full.0 == parts + send_run(idxs@, pv, i as int, st.seq, compress, skip).0,
            full.1 == tx + send_run(idxs@, pv, i as int, st.seq, compress, skip).1,
            full.2 == send_run(idxs@, pv, i as int, st.seq, compress, skip).2,
            full.3 == sent + send_run(idxs@, pv, i as int, st.seq, compress, skip).3,
            full.4 == bytes + send_run(idxs@, pv, i as int, st.seq, compress, skip).4,
            full.3 <= idxs@.len(),
            full.4 <= idxs@.len() * (HEADER_LEN + PAGE_LEN),
            tx.len() == sent,
            sent <= i,
            st.tx_log.hist@ == h0 + tx,
            h0.len() + idxs@.len() + 1 < usize::MAX,
            st.chan_view() == apply_chan(c0, cap, sink, parts),
            st.chan_cap() == cap,
            console_view(out@) == apply_console(o0, sink, parts, chunked, size),
            st.chunk_size() == size,
            m.wf(),
            m.same_core(&core0),
            m0.len() > MIG_MANIFESTS,
            m.mig@ == send_counters(m0, acc),
            tall == send_tally(idxs@, pv, 0, compress, skip),
            ({
                let rt = send_tally(idxs@, pv, i as int, compress, skip);
                tall == (acc.0 + rt.0, acc.1 + rt.1, acc.2 + rt.2, acc.3 + rt.3)
            }),
        decreases idxs@.len() - i,
    {
        let ghost parts_old = parts;
        let ghost tx_old = tx;
        let ghost seq_i = st.seq;
        proof {
            lemma_send_run_bounds(idxs@, pv, i as int, seq_i, compress, skip);
        }
        let (did, nbytes) = send_step(st, idxs, pages, i, compress, skip, sink, chunked, out, m);
        proof {
            let t = page_tally(pv[i as int], compress, skip);
            lemma_send_counters_add(m0, acc, t);
            acc = (acc.0 + t.0, acc.1 + t.1, acc.2 + t.2, acc.3 + t.3);
            let pp = if did { page_parts(seq_i, idxs@[i as int], pv[i as int], compress) } else { Seq::empty() };
            let te = if did { seq![TxEntry { kind: TYP_PAGE, seq: seq_i, page_index: idxs@[i as int] }] } else { Seq::<TxEntry>::empty() };
            lemma_apply_compose(c0, cap, o0, sink, parts_old, pp, chunked, size);
            parts = parts_old + pp;
            tx = tx_old + te;
            let rest = send_run(idxs@, pv, i + 1, st.seq, compress, skip);
            assert(full.0 =~= parts + rest.0);
            assert(full.1 =~= tx + rest.1);
            assert(st.tx_log.hist@ =~= h0 + tx);
            assert(bytes + nbytes <= full.4);
            let l = idxs@.len();
            assert(full.4 <= 0xFFFF_FFFF_FFFF_FFFFint) by (nonlinear_arith)
                requires full.4 <= l * (HEADER_LEN + PAGE_LEN), l <= MAX_PAGES_PER_SEND;
        }
        if did {
            sent = sent + 1;
        }
        bytes = bytes + nbytes;
        i = i + 1;
    }
    proof {
        assert(send_run(idxs@, pv, i as int, st.seq, compress, skip).0 == Seq::<Seq<u8>>::empty());
        assert(full.0 =~= parts);
        assert(full.1 =~= tx);
    }
    st.frame_and_send_manifest(sink, sent, bytes, chunked, out);
    mig_add(m, MIG_MANIFESTS, 1);
    proof {
        lemma_apply_compose(c0, cap, o0, sink, parts, manifest_parts(full.2, sent, bytes), chunked, size);
        assert(st.tx_log.hist@ =~= h0 + full.1 + seq![TxEntry { kind: TYP_MANIFEST, seq: full.2, page_index: 0 }]);
    }
    (sent, bytes)
}

/// The dirty pages of the active tracker, lowest first (none without a tracker).
pub fn dirty_pages(st: &MigState) -> (r: Vec<u64>)
    requires
        st.wf(),
    ensures
        r@ == st.dirty_view(),
{
    match &st.tracker {
        Some(t) => t.bitmap.for_each_set(),
        None => Vec::new(),
    }
}

/// Send every dirty page of the active tracker as a page frame to `sink`,
/// then a manifest, and return (frames, pages, bytes). `pages[i]` holds the
/// contents of the `i`-th dirty page. Zero pages and pages whose hash is zero
/// are skipped, except on the virtio sink. Without a tracker nothing is sent.
pub fn send_dirty_pages(st: &mut MigState, pages: &Vec<Vec<u8>>, compress: bool, sink: ExportSink, out: &mut Vec<Vec<u8>>,
    m: &mut Metrics) -> (r: (u64, u64, u64))
    requires
        old(m).wf(),
        old(st).wf(),
        pages@.len() == old(st).dirty_view().len(),
        pages@.len() <= MAX_PAGES_PER_SEND,
        old(st).tx_log.count() + pages@.len() + 1 < usize::MAX,
        forall|j: int| 0 <= j < pages@.len() ==> #[trigger] pages@[j]@.len() == PAGE_LEN,
    ensures
        final(st).wf(),
        final(st).same_config(&*old(st)),
        final(m).wf(),
        final(m).same_core(&*old(m)),
        old(st).tracker is None ==> final(m).mig@ == old(m).mig@,
        old(st).tracker is Some ==> final(m).mig@ == mig_bump(send_counters(old(m).mig@,
            send_tally(old(st).dirty_view(), pages@.map_values(|v: Vec<u8>| v@), 0, compress, sink != ExportSink::Virtio)),
            MIG_MANIFESTS as int, 1),
        old(st).tracker is None ==> r == (0u64, 0u64, 0u64) && final(out)@ == old(out)@
            && final(st).seq == old(st).seq && final(st).tx_log == old(st).tx_log && final(st).chan_view() == old(st).chan_view(),
        old(st).tracker is Some ==> ({
            let skip = sink != ExportSink::Virtio;
            let chunked = sink != ExportSink::Snp;
            let run = send_run(old(st).dirty_view(), pages@.map_values(|v: Vec<u8>| v@), 0, old(st).seq, compress, skip);
            let parts = run.0 + manifest_parts(run.2, run.3 as u64, run.4 as u64);
            &&& r.0 == run.3 && r.1 == run.3 && r.2 == run.4
            &&& final(st).seq == next_seq(run.2)
            &&& final(st).tx_log.hist@ == old(st).tx_log.hist@ + run.1
                + seq![TxEntry { kind: TYP_MANIFEST, seq: run.2, page_index: 0 }]
            &&& final(st).chan_view() == apply_chan(old(st).chan_view(), old(st).chan_cap(), sink, parts)
            &&& console_view(final(out)@) == apply_console(console_view(old(out)@), sink, parts, chunked, old(st).chunk_size())
        }),
{
    if st.tracker.is_none() {
        return (0, 0, 0);
    }
    let idxs = dirty_pages(st);
    let skip = sink != ExportSink::Virtio;
    let chunked = sink != ExportSink::Snp;
    let (sent, bytes) = send_pages_and_manifest(st, &idxs, pages, compress, skip, sink, chunked, out, m);
    (sent, sent, bytes)
}

/// Page indices of the logged page frames with sequence numbers from
/// `from_seq` on, oldest first.
pub open spec fn select_pages(entries: Seq<TxEntry>, from_seq: u32) -> Seq<u64>
    decreases entries.len(),
{
    if entries.len() == 0 {
        Seq::empty()
    } else {
        let rest = select_pages(entries.drop_last(), from_seq);
        let e = entries.last();
        if e.seq >= from_seq && e.kind == TYP_PAGE { rest.push(e.page_index) } else { rest }
    }
}

/// The pages a resend from `from_seq` sends: the selected logged pages, at
/// most `max_count` of them unless that is 0.
pub open spec fn resend_selection(entries: Seq<TxEntry>, from_seq: u32, max_count: usize) -> Seq<u64> {
    let sel = select_pages(entries, from_seq);
    if max_count == 0 || sel.len() <= max_count { sel } else { sel.take(max_count as int) }
}

proof fn lemma_select_append(a: Seq<TxEntry>, b: Seq<TxEntry>, from_seq: u32)
    ensures
        select_pages(a + b, from_seq) == select_pages(a, from_seq) + select_pages(b, from_seq),
    decreases b.len(),
{
    if b.len() == 0 {
        assert(a + b =~= a);
        assert(select_pages(a, from_seq) + select_pages(b, from_seq) =~= select_pages(a, from_seq));
    } else {
        assert((a + b).drop_last() =~= a + b.drop_last());
        lemma_select_append(a, b.drop_last(), from_seq);
        let e = b.last();
        if e.seq >= from_seq && e.kind == TYP_PAGE {
            assert(select_pages(a, from_seq) + select_pages(b, from_seq)
                =~= (select_pages(a, from_seq) + select_pages(b.drop_last(), from_seq)).push(e.page_index));
        }
    }
}

/// The pages a resend from `from_seq` would send, at most `max_count` (0: all).
pub fn resend_plan(st: &MigState, from_seq: u32, max_count: usize) -> (r: Vec<u64>)
    requires
        st.wf(),
    ensures
        r@ == resend_selection(st.tx_log.retained(), from_seq, max_count),
{
    let entries = st.tx_log.recent();
    let ghost es = entries@;
    let mut out: Vec<u64> = Vec::new();
    let mut idx: usize = 0;
    while idx < entries.len() && (max_count == 0 || out.len() < max_count)
        invariant
            es == entries@,
            idx <= es.len(),
            out@ == select_pages(es.take(idx as int), from_seq),
            max_count == 0 || out@.len() <= max_count,
        decreases es.len() - idx,
    {
        let e = entries[idx];
        proof {
            assert(es.take(idx + 1).drop_last() =~= es.take(idx as int));
        }
        if e.seq >= from_seq && e.kind == TYP_PAGE {
            out.push(e.page_index);
        }
        idx = idx + 1;
    }
    proof {
        lemma_select_append(es.take(idx as int), es.skip(idx as int), from_seq);
        assert(es.take(idx as int) + es.skip(idx as int) =~= es);
        let sel = select_pages(es, from_seq);
        if idx < es.len() {
            assert(out@.len() == max_count);
            assert(sel.take(max_count as int) =~= out@);
        } else {
            assert(es.take(idx as int) =~= es);
        }
    }
    out
}

/// Resend the pages of the transmit log from `from_seq` on (at most
/// `max_count`, 0 for all) to `sink` with new sequence numbers, then a
/// manifest; `pages[i]` holds the contents of the `i`-th page of the plan.
/// Returns (frames, bytes).
pub fn resend_from(st: &mut MigState, from_seq: u32, max_count: usize, pages: &Vec<Vec<u8>>, compress: bool,
    sink: ExportSink, out: &mut Vec<Vec<u8>>, m: &mut Metrics) -> (r: (u64, u64))
    requires
        old(m).wf(),
        old(st).wf(),
        pages@.len() == resend_selection(old(st).tx_log.retained(), from_seq, max_count).len(),
        pages@.len() <= MAX_PAGES_PER_SEND,
        old(st).tx_log.count() + pages@.len() + 1 < usize::MAX,
        forall|j: int| 0 <= j < pages@.len() ==> #[trigger] pages@[j]@.len() == PAGE_LEN,
    ensures
        ({
            let plan = resend_selection(old(st).tx_log.retained(), from_seq, max_count);
            let chunked = sink != ExportSink::Snp;
            let run = send_run(plan, pages@.map_values(|v: Vec<u8>| v@), 0, old(st).seq, compress, false);
            let parts = run.0 + manifest_parts(run.2, run.3 as u64, run.4 as u64);
            &&& final(st).wf()
            &&& final(st).same_config(&*old(st))
            &&& r.0 == run.3 && r.1 == run.4
            &&& final(st).seq == next_seq(run.2)
            &&& final(st).tx_log.hist@ == old(st).tx_log.hist@ + run.1
                + seq![TxEntry { kind: TYP_MANIFEST, seq: run.2, page_index: 0 }]
            &&& final(st).chan_view() == apply_chan(old(st).chan_view(), old(st).chan_cap(), sink, parts)
            &&& console_view(final(out)@) == apply_console(console_view(old(out)@), sink, parts, chunked, old(st).chunk_size())
        }),
        final(m).wf(),
        final(m).same_core(&*old(m)),
        final(m).mig@ == mig_bump(send_counters(old(m).mig@, send_tally(resend_selection(old(st).tx_log.retained(), from_seq,
            max_count), pages@.map_values(|v: Vec<u8>| v@), 0, compress, false)), MIG_MANIFESTS as int, 1),
{
    let plan = resend_plan(st, from_seq, max_count);
    let chunked = sink != ExportSink::Snp;
    send_pages_and_manifest(st, &plan, pages, compress, false, sink, chunked, out, m)
}

} // verus!
