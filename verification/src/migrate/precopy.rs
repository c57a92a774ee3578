//! Pre-copy: rounds of dirty scanning over the VM's nested tables, deciding
//! for each dirty page whether it is sent or elided.

use vstd::prelude::*;
use crate::mm::pages::PhysPages;
use crate::migrate::dirty::{DirtyTracker, DirtyBitmap, TrackerKind, bit_at, set_below};
use crate::migrate::scan::{WALK_LIMIT, scan_walk, covered, scan_ept, scan_npt};
use crate::migrate::transfer::{skip_reason, page_skip_reason};
use crate::migrate::frame::PAGE_LEN;
use crate::obs::metrics::{Metrics, mig_add, mig_bump, add_wrapped, lemma_add_wrapped_step, lemma_add_wrapped_mod,
    MIG_SCAN_ROUNDS, MIG_DIRTY_PAGES, MIG_PRECOPY_ROUNDS, MIG_PRECOPY_PAGES, MIG_BYTES_TX, MIG_ZERO_SKIPPED,
    MIG_HASH_SKIPPED, MIG_ZERO_BYTES_SAVED, MIG_HASH_BYTES_SAVED};

verus! {

/// One scan of the tracker's tables: the tables afterwards, the dirty runs
/// and the dirty page count (nothing without tables or for an unknown kind).
pub open spec fn round_scan(w: Seq<u64>, base: u64, t: DirtyTracker, clear: bool) -> (Seq<u64>, Seq<(u64, u64)>, nat) {
    if t.root_phys == 0 {
        (w, Seq::empty(), 0)
    } else {
        match t.kind {
            TrackerKind::IntelEpt => scan_walk(w, base, t.root_phys, t.memory_limit, clear, true, 0),
            TrackerKind::AmdNpt => scan_walk(w, base, t.root_phys, t.memory_limit, clear, false, 0),
            TrackerKind::Unknown => (w, Seq::empty(), 0),
        }
    }
}

/// Scan the tracker's tables once, marking the dirty pages in `bitmap`
/// (with `clear_ad`, their accessed and dirty flags are cleared). Gives the
/// number of dirty pages.
/// The round is counted in `mig_scan_rounds` and its dirty pages in
/// `mig_dirty_pages`; every other counter stays.
pub fn scan_round(tables: &mut PhysPages, tracker: &DirtyTracker, bitmap: &mut DirtyBitmap, clear_ad: bool, m: &mut Metrics) -> (dirty: u64)
    requires
        tracker.memory_limit <= WALK_LIMIT,
        old(bitmap).bits@.len() * 8 <= u64::MAX,
        old(m).wf(),
    ensures
        final(m).wf(),
        final(m).same_core(&*old(m)),
        final(m).mig@ == mig_bump(mig_bump(old(m).mig@, MIG_SCAN_ROUNDS as int, 1), MIG_DIRTY_PAGES as int, dirty),
        ({
            let s = round_scan(old(tables).words@, old(tables).base, *tracker, clear_ad);
            &&& dirty == s.2
            &&& final(tables).words@ == s.0
            &&& final(tables).base == old(tables).base
            &&& final(bitmap).bits@.len() == old(bitmap).bits@.len()
            &&& forall|i: int| 0 <= i < old(bitmap).bits@.len() * 8 ==>
                    #[trigger] bit_at(final(bitmap).bits@, i) == (bit_at(old(bitmap).bits@, i) || covered(s.1, i))
        }),
{
    let dirty = match tracker.kind {
        TrackerKind::IntelEpt => scan_ept(tables, tracker.root_phys, tracker.memory_limit, bitmap, clear_ad),
        TrackerKind::AmdNpt => scan_npt(tables, tracker.root_phys, tracker.memory_limit, bitmap, clear_ad),
        TrackerKind::Unknown => 0,
    };
    mig_add(m, MIG_SCAN_ROUNDS, 1);
    mig_add(m, MIG_DIRTY_PAGES, dirty);
    dirty
}

/// The pages below `n` in the runs `marks`, ascending.
pub open spec fn covered_below(marks: Seq<(u64, u64)>, n: int) -> Seq<u64>
    decreases n,
{
    if n <= 0 {
        Seq::empty()
    } else if covered(marks, n - 1) {
        covered_below(marks, n - 1).push((n - 1) as u64)
    } else {
        covered_below(marks, n - 1)
    }
}

proof fn lemma_zero_byte_bits(k: u8)
    ensures
        (0u8 >> k) & 1 == 0,
{
    assert((0u8 >> k) & 1 == 0) by (bit_vector);
}

proof fn lemma_set_below_covered(b: Seq<u8>, marks: Seq<(u64, u64)>, n: int)
    requires
        0 <= n <= b.len() * 8,
        forall|i: int| 0 <= i < b.len() * 8 ==> #[trigger] bit_at(b, i) == covered(marks, i),
    ensures
        set_below(b, n) == covered_below(marks, n),
    decreases n,
{
    if n > 0 {
        lemma_set_below_covered(b, marks, n - 1);
        assert(bit_at(b, n - 1) == covered(marks, n - 1));
    }
}

/// What is done with each page of `pages`: sent, or elided as all-zero or
/// by its hash. Gives the pages sent and the zero and hash elisions.
pub open spec fn page_decisions(pages: Seq<u64>, guest: Seq<Vec<u8>>) -> (Seq<u64>, nat, nat)
    decreases pages.len(),
{
    if pages.len() == 0 {
        (Seq::empty(), 0, 0)
    } else {
        let r = page_decisions(pages.drop_last(), guest);
        let p = pages.last();
        match skip_reason(guest[p as int]@) {
            None => (r.0.push(p), r.1, r.2),
            Some(k) => if k == 1 { (r.0, r.1 + 1, r.2) } else { (r.0, r.1, r.2 + 1) },
        }
    }
}

/// Rounds `done..max` of a pre-copy over `n` pages: each round clears the
/// bitmap and scans; a round that finds nothing dirty is the last. Gives the
/// tables afterwards, the rounds run, the pages sent and the zero and hash
/// elisions.
pub open spec fn precopy_spec(w: Seq<u64>, base: u64, t: DirtyTracker, n: nat, guest: Seq<Vec<u8>>, max: nat, clear: bool, done: nat)
    -> (Seq<u64>, nat, Seq<u64>, nat, nat)
    decreases max - done,
{
    if done >= max {
        (w, done, Seq::empty(), 0, 0)
    } else {
        let s = round_scan(w, base, t, clear);
        if s.2 == 0 {
            (s.0, done + 1, Seq::empty(), 0, 0)
        } else {
            let d = page_decisions(covered_below(s.1, n as int), guest);
            let r = precopy_spec(s.0, base, t, n, guest, max, clear, done + 1);
            (r.0, r.1, d.0 + r.2, d.1 + r.3, d.2 + r.4)
        }
    }
}

/// Dirty pages found in all and rounds that found some, over rounds
/// `done..max` of a pre-copy (see [`precopy_spec`]).
pub open spec fn precopy_dirty(w: Seq<u64>, base: u64, t: DirtyTracker, max: nat, clear: bool, done: nat) -> (nat, nat)
    decreases max - done,
{
    if done >= max {
        (0, 0)
    } else {
        let s = round_scan(w, base, t, clear);
        if s.2 == 0 {
            (0, 0)
        } else {
            let r = precopy_dirty(s.0, base, t, max, clear, done + 1);
            (s.2 + r.0, 1 + r.1)
        }
    }
}

/// The migration counters `c` after a pre-copy of `rounds` scans that found
/// `dirty` pages in all, `sending` of them finding some, and elided `zero`
/// all-zero and `hash` hash-matched pages (4 KiB each; all wrapping).
pub open spec fn precopy_counters(c: Seq<u64>, rounds: nat, dirty: nat, sending: nat, zero: nat, hash: nat) -> Seq<u64> {
    c.update(MIG_SCAN_ROUNDS as int, add_wrapped(c[MIG_SCAN_ROUNDS as int], rounds))
        .update(MIG_DIRTY_PAGES as int, add_wrapped(c[MIG_DIRTY_PAGES as int], dirty))
        .update(MIG_PRECOPY_ROUNDS as int, add_wrapped(c[MIG_PRECOPY_ROUNDS as int], sending))
        .update(MIG_PRECOPY_PAGES as int, add_wrapped(c[MIG_PRECOPY_PAGES as int], dirty))
        .update(MIG_BYTES_TX as int, add_wrapped(c[MIG_BYTES_TX as int], dirty * 4096))
        .update(MIG_ZERO_SKIPPED as int, add_wrapped(c[MIG_ZERO_SKIPPED as int], zero))
        .update(MIG_HASH_SKIPPED as int, add_wrapped(c[MIG_HASH_SKIPPED as int], hash))
        .update(MIG_ZERO_BYTES_SAVED as int, add_wrapped(c[MIG_ZERO_BYTES_SAVED as int], zero * 4096))
        .update(MIG_HASH_BYTES_SAVED as int, add_wrapped(c[MIG_HASH_BYTES_SAVED as int], hash * 4096))
}

/// The counting of one round that found `d` dirty pages and elided `z` and `h` of them.
pub open spec fn round_bumps(c: Seq<u64>, d: u64, z: u64, h: u64) -> Seq<u64> {
    let k: nat = 0x1_0000_0000_0000_0000nat;
    let c1 = mig_bump(mig_bump(c, MIG_SCAN_ROUNDS as int, 1), MIG_DIRTY_PAGES as int, d);
    let c2 = mig_bump(mig_bump(c1, MIG_PRECOPY_ROUNDS as int, 1), MIG_PRECOPY_PAGES as int, d);
    let c3 = mig_bump(c2, MIG_BYTES_TX as int, (((d * 4096) as nat) % k) as u64);
    let c4 = mig_bump(mig_bump(c3, MIG_ZERO_SKIPPED as int, z), MIG_HASH_SKIPPED as int, h);
    mig_bump(mig_bump(c4, MIG_ZERO_BYTES_SAVED as int, (((z * 4096) as nat) % k) as u64), MIG_HASH_BYTES_SAVED as int,
        (((h * 4096) as nat) % k) as u64)
}

proof fn lemma_round_bumps(c0: Seq<u64>, rounds: nat, dirty: nat, sending: nat, zero: nat, hash: nat, d: u64, z: u64, h: u64)
    requires
        c0.len() > MIG_HASH_BYTES_SAVED,
    ensures
        round_bumps(precopy_counters(c0, rounds, dirty, sending, zero, hash), d, z, h)
            == precopy_counters(c0, rounds + 1, (dirty + d) as nat, sending + 1, (zero + z) as nat, (hash + h) as nat),
        mig_bump(mig_bump(precopy_counters(c0, rounds, dirty, sending, zero, hash), MIG_SCAN_ROUNDS as int, 1),
            MIG_DIRTY_PAGES as int, 0) == precopy_counters(c0, rounds + 1, dirty, sending, zero, hash),
        precopy_counters(c0, 0, 0, 0, 0, 0) == c0,
{
    let k: nat = 0x1_0000_0000_0000_0000nat;
    lemma_add_wrapped_step(c0[MIG_SCAN_ROUNDS as int], rounds, 1);
    lemma_add_wrapped_step(c0[MIG_SCAN_ROUNDS as int], 0, 0);
    lemma_add_wrapped_step(c0[MIG_DIRTY_PAGES as int], dirty, d);
    lemma_add_wrapped_step(c0[MIG_DIRTY_PAGES as int], dirty, 0);
    lemma_add_wrapped_step(c0[MIG_PRECOPY_ROUNDS as int], sending, 1);
    lemma_add_wrapped_step(c0[MIG_PRECOPY_PAGES as int], dirty, d);
    lemma_add_wrapped_mod(c0[MIG_BYTES_TX as int], dirty * 4096, (d * 4096) as nat);
    lemma_add_wrapped_step(c0[MIG_ZERO_SKIPPED as int], zero, z);
    lemma_add_wrapped_step(c0[MIG_HASH_SKIPPED as int], hash, h);
    lemma_add_wrapped_mod(c0[MIG_ZERO_BYTES_SAVED as int], zero * 4096, (z * 4096) as nat);
    lemma_add_wrapped_mod(c0[MIG_HASH_BYTES_SAVED as int], hash * 4096, (h * 4096) as nat);
    lemma_add_wrapped_step(c0[MIG_DIRTY_PAGES as int], 0, 0);
    lemma_add_wrapped_step(c0[MIG_PRECOPY_ROUNDS as int], 0, 0);
    lemma_add_wrapped_step(c0[MIG_PRECOPY_PAGES as int], 0, 0);
    lemma_add_wrapped_step(c0[MIG_BYTES_TX as int], 0, 0);
    lemma_add_wrapped_step(c0[MIG_ZERO_SKIPPED as int], 0, 0);
    lemma_add_wrapped_step(c0[MIG_HASH_SKIPPED as int], 0, 0);
    lemma_add_wrapped_step(c0[MIG_ZERO_BYTES_SAVED as int], 0, 0);
    lemma_add_wrapped_step(c0[MIG_HASH_BYTES_SAVED as int], 0, 0);
    assert((dirty + d) * 4096 == dirty * 4096 + d * 4096) by (nonlinear_arith);
    assert((zero + z) * 4096 == zero * 4096 + z * 4096) by (nonlinear_arith);
    assert((hash + h) * 4096 == hash * 4096 + h * 4096) by (nonlinear_arith);
    assert(round_bumps(precopy_counters(c0, rounds, dirty, sending, zero, hash), d, z, h)
        =~= precopy_counters(c0, rounds + 1, (dirty + d) as nat, sending + 1, (zero + z) as nat, (hash + h) as nat));
    assert(mig_bump(mig_bump(precopy_counters(c0, rounds, dirty, sending, zero, hash), MIG_SCAN_ROUNDS as int, 1),
        MIG_DIRTY_PAGES as int, 0) =~= precopy_counters(c0, rounds + 1, dirty, sending, zero, hash));
    assert(precopy_counters(c0, 0, 0, 0, 0, 0) =~= c0);
}

/// The outcome of a pre-copy.
pub struct PrecopyResult {
    pub rounds: u32,
    /// Pages to send, in the order they are sent (4 KiB each).
    pub sent: Vec<u64>,
    pub zero_skipped: u64,
    pub hash_skipped: u64,
}

proof fn lemma_covered_below_bound(marks: Seq<(u64, u64)>, n: int)
    ensures
        covered_below(marks, n).len() <= if n < 0 { 0 } else { n },
        forall|k: int| 0 <= k < covered_below(marks, n).len() ==> #[trigger] covered_below(marks, n)[k] < n,
    decreases n,
{
    if n > 0 {
        lemma_covered_below_bound(marks, n - 1);
    }
}

proof fn lemma_decisions_count(pages: Seq<u64>, guest: Seq<Vec<u8>>)
    ensures
        page_decisions(pages, guest).0.len() + page_decisions(pages, guest).1 + page_decisions(pages, guest).2 == pages.len(),
    decreases pages.len(),
{
    if pages.len() > 0 {
        lemma_decisions_count(pages.drop_last(), guest);
    }
}

/// Each page is sent or elided, never both and never lost: the pages sent
/// and the two elision counts add up to the pages, every page sent is one
/// that may not be skipped, and every page of `pages` that may not be
/// skipped is sent, in the order of `pages`.
pub proof fn law_page_decisions(pages: Seq<u64>, guest: Seq<Vec<u8>>)
    ensures
        page_decisions(pages, guest).0.len() + page_decisions(pages, guest).1 + page_decisions(pages, guest).2 == pages.len(),
        forall|j: int| 0 <= j < page_decisions(pages, guest).0.len()
            ==> skip_reason(guest[#[trigger] page_decisions(pages, guest).0[j] as int]@) is None,
        forall|i: int| 0 <= i < pages.len() && skip_reason(guest[#[trigger] pages[i] as int]@) is None
            ==> page_decisions(pages, guest).0.contains(pages[i]),
        page_decisions(pages, guest).0 == pages.filter(|p: u64| skip_reason(guest[p as int]@) is None),
    decreases pages.len(),
{
    lemma_decisions_count(pages, guest);
    let pred = |p: u64| skip_reason(guest[p as int]@) is None;
    if pages.len() == 0 {
        assert(pages.filter(pred) =~= Seq::<u64>::empty()) by {
            reveal_with_fuel(Seq::filter, 1);
        }
    } else {
        let init = pages.drop_last();
        law_page_decisions(init, guest);
        assert(pages =~= init.push(pages.last()));
        init.lemma_filter_push(pages.last(), pred);
        let d = page_decisions(pages, guest);
        let r = page_decisions(init, guest);
        assert forall|i: int| 0 <= i < pages.len() && skip_reason(guest[#[trigger] pages[i] as int]@) is None
            implies d.0.contains(pages[i]) by {
            if i < init.len() {
                assert(init[i] == pages[i]);
                assert(r.0.contains(pages[i]));
                let j = choose|j: int| 0 <= j < r.0.len() && r.0[j] == pages[i];
                assert(d.0[j] == pages[i]);
            } else {
                assert(d.0[d.0.len() - 1] == pages[i]);
            }
        }
    }
}

/// The decisions for the pages `pages` in order (see [`page_decisions`]).
fn decide_pages(pages: &Vec<u64>, guest: &Vec<Vec<u8>>) -> (r: (Vec<u64>, u64, u64))
    requires
        forall|q: int| 0 <= q < pages@.len() ==> #[trigger] pages@[q] < guest@.len(),
        forall|i: int| 0 <= i < guest@.len() ==> #[trigger] guest@[i]@.len() == PAGE_LEN,
        pages@.len() <= u64::MAX,
    ensures
        r.0@ == page_decisions(pages@, guest@).0,
        r.1 == page_decisions(pages@, guest@).1,
        r.2 == page_decisions(pages@, guest@).2,
{
    let mut sent: Vec<u64> = Vec::new();
    let mut zero: u64 = 0;
    let mut hash: u64 = 0;
    let mut k: usize = 0;
    while k < pages.len()
        invariant
            k <= pages@.len(),
            pages@.len() <= u64::MAX,
            forall|q: int| 0 <= q < pages@.len() ==> #[trigger] pages@[q] < guest@.len(),
            forall|i: int| 0 <= i < guest@.len() ==> #[trigger] guest@[i]@.len() == PAGE_LEN,
            sent@ == page_decisions(pages@.take(k as int), guest@).0,
            zero == page_decisions(pages@.take(k as int), guest@).1,
            hash == page_decisions(pages@.take(k as int), guest@).2,
        decreases pages@.len() - k,
    {
        proof {
            assert(pages@.take(k + 1).drop_last() =~= pages@.take(k as int));
            assert(pages@.take(k + 1).last() == pages@[k as int]);
            lemma_decisions_count(pages@.take(k as int), guest@);
        }
        let p = pages[k];
        let gl = guest.len();
        assert(p < gl);
        let pi = p as usize;
        assert(pi == p);
        let reason = page_skip_reason(guest[pi].as_slice());
        match reason {
            None => { sent.push(p); },
            Some(c) => {
                if c == 1 { zero = zero + 1; } else { hash = hash + 1; }
            },
        }
        k = k + 1;
    }
    assert(pages@.take(pages@.len() as int) =~= pages@);
    (sent, zero, hash)
}

/// Pre-copy with up to `max_rounds` rounds over the tracker's tables; the
/// page contents are `guest` (page `i` at index `i`, covering the bitmap).
/// Each round clears the bitmap, scans (clearing accessed/dirty flags when
/// `clear_each_round`), and for each dirty page in ascending order decides
/// to elide it (all zero, or zero hash) or send it.
pub fn precopy(tables: &mut PhysPages, tracker: &DirtyTracker, bitmap: &mut DirtyBitmap, guest: &Vec<Vec<u8>>,
    max_rounds: u32, clear_each_round: bool, m: &mut Metrics) -> (r: PrecopyResult)
    requires
        old(m).wf(),
        tracker.memory_limit <= WALK_LIMIT,
        old(bitmap).bits@.len() * 8 <= u64::MAX,
        old(bitmap).bits@.len() * 8 <= guest@.len(),
        forall|i: int| 0 <= i < guest@.len() ==> #[trigger] guest@[i]@.len() == PAGE_LEN,
        (max_rounds + 1) * (old(bitmap).bits@.len() * 8) <= u64::MAX,
    ensures
        final(tables).base == old(tables).base,
        final(bitmap).bits@.len() == old(bitmap).bits@.len(),
        ({
            let s = precopy_spec(old(tables).words@, old(tables).base, *tracker, (old(bitmap).bits@.len() * 8) as nat,
                guest@, max_rounds as nat, clear_each_round, 0);
            &&& final(tables).words@ == s.0
            &&& r.rounds == s.1
            &&& r.sent@ == s.2
            &&& r.zero_skipped == s.3
            &&& r.hash_skipped == s.4
        }),
        final(m).wf(),
        final(m).same_core(&*old(m)),
        ({
            let s = precopy_spec(old(tables).words@, old(tables).base, *tracker, (old(bitmap).bits@.len() * 8) as nat,
                guest@, max_rounds as nat, clear_each_round, 0);
            let d = precopy_dirty(old(tables).words@, old(tables).base, *tracker, max_rounds as nat, clear_each_round, 0);
            final(m).mig@ == precopy_counters(old(m).mig@, s.1, d.0, d.1, s.3, s.4)
        }),
{
    let ghost n: nat = (bitmap.bits@.len() * 8) as nat;
    let ghost w0 = tables.words@;
    let ghost base = tables.base;
    let ghost len0 = bitmap.bits@.len();
    let mut rounds: u32 = 0;
    let mut sent: Vec<u64> = Vec::new();
    let mut zero: u64 = 0;
    let mut hash: u64 = 0;
    let ghost m0 = m.mig@;
    let ghost core0 = *m;
    let ghost mut dsum: nat = 0;
    let ghost mut drounds: nat = 0;
    proof { lemma_round_bumps(m0, 0, 0, 0, 0, 0, 0, 0, 0); }
    while rounds < max_rounds
        invariant_except_break
            rounds <= max_rounds,
            sent@.len() + zero + hash <= rounds * n,
            ({
                let fin = precopy_dirty(w0, base, *tracker, max_rounds as nat, clear_each_round, 0);
                let cur = precopy_dirty(tables.words@, base, *tracker, max_rounds as nat, clear_each_round, rounds as nat);
                &&& fin.0 == dsum + cur.0
                &&& fin.1 == drounds + cur.1
            }),
            ({
                let fin = precopy_spec(w0, base, *tracker, n, guest@, max_rounds as nat, clear_each_round, 0);
                let cur = precopy_spec(tables.words@, base, *tracker, n, guest@, max_rounds as nat, clear_each_round, rounds as nat);
                &&& fin.0 == cur.0
                &&& fin.1 == cur.1
                &&& fin.2 == sent@ + cur.2
                &&& fin.3 == zero + cur.3
                &&& fin.4 == hash + cur.4
            }),
        invariant
            tracker.memory_limit <= WALK_LIMIT,
            tables.base == base,
            bitmap.bits@.len() == len0,
            n == len0 * 8,
            n <= u64::MAX,
            n <= guest@.len(),
            forall|i: int| 0 <= i < guest@.len() ==> #[trigger] guest@[i]@.len() == PAGE_LEN,
            (max_rounds + 1) * n <= u64::MAX,
            m.wf(),
            m.same_core(&core0),
            m0.len() > MIG_HASH_BYTES_SAVED,
            m.mig@ == precopy_counters(m0, rounds as nat, dsum, drounds, zero as nat, hash as nat),
        ensures
            ({
                let fin = precopy_spec(w0, base, *tracker, n, guest@, max_rounds as nat, clear_each_round, 0);
                &&& fin.0 == tables.words@
                &&& fin.1 == rounds
                &&& fin.2 == sent@
                &&& fin.3 == zero
                &&& fin.4 == hash
            }),
            ({
                let fin = precopy_dirty(w0, base, *tracker, max_rounds as nat, clear_each_round, 0);
                &&& fin.0 == dsum
                &&& fin.1 == drounds
            }),
        decreases max_rounds - rounds,
    {
        let ghost wr = tables.words@;
        let ghost s = round_scan(wr, base, *tracker, clear_each_round);
        bitmap.clear_all();
        let ghost bz = bitmap.bits@;
        let ghost c_before = m.mig@;
        let dirty = scan_round(tables, tracker, bitmap, clear_each_round, m);
        if dirty == 0 {
            proof {
                lemma_round_bumps(m0, rounds as nat, dsum, drounds, zero as nat, hash as nat, 0, 0, 0);
            }
            rounds = rounds + 1;
            proof {
                assert(sent@ + Seq::<u64>::empty() =~= sent@);
            }
            break;
        }
        mig_add(m, MIG_PRECOPY_ROUNDS, 1);
        mig_add(m, MIG_PRECOPY_PAGES, dirty);
        mig_add(m, MIG_BYTES_TX, dirty.wrapping_mul(4096));
        let pages = bitmap.for_each_set();
        proof {
            assert forall|i: int| 0 <= i < bitmap.bits@.len() * 8 implies #[trigger] bit_at(bitmap.bits@, i) == covered(s.1, i) by {
                assert(bit_at(bitmap.bits@, i) == (bit_at(bz, i) || covered(s.1, i)));
                assert(bz[i / 8] == 0);
                lemma_zero_byte_bits((i % 8) as u8);
            }
            lemma_set_below_covered(bitmap.bits@, s.1, (bitmap.bits@.len() * 8) as int);
            lemma_covered_below_bound(s.1, n as int);
        }
        let (mut more, z, h) = decide_pages(&pages, guest);
        proof {
            lemma_decisions_count(pages@, guest@);
            assert(rounds * n + n <= (max_rounds + 1) * n) by (nonlinear_arith)
                requires rounds < max_rounds;
        }
        mig_add(m, MIG_ZERO_SKIPPED, z);
        mig_add(m, MIG_HASH_SKIPPED, h);
        mig_add(m, MIG_ZERO_BYTES_SAVED, z.wrapping_mul(4096));
        mig_add(m, MIG_HASH_BYTES_SAVED, h.wrapping_mul(4096));
        proof {
            assert(m.mig@ == round_bumps(c_before, dirty, z, h));
            lemma_round_bumps(m0, rounds as nat, dsum, drounds, zero as nat, hash as nat, dirty, z, h);
            dsum = (dsum + dirty) as nat;
            drounds = drounds + 1;
        }
        sent.append(&mut more);
        zero = zero + z;
        hash = hash + h;
        proof {
            assert((rounds + 1) * n == rounds * n + n) by (nonlinear_arith);
        }
        rounds = rounds + 1;
    }
    PrecopyResult { rounds, sent, zero_skipped: zero, hash_skipped: hash }
}

/// One non-clearing round after clearing the bitmap: the dirty pages found,
/// ascending (what an unframed export of the dirty set sends).
pub fn dirty_run_pages(tables: &mut PhysPages, tracker: &DirtyTracker, bitmap: &mut DirtyBitmap, m: &mut Metrics) -> (r: (u64, Vec<u64>))
    requires
        tracker.memory_limit <= WALK_LIMIT,
        old(bitmap).bits@.len() * 8 <= u64::MAX,
        old(m).wf(),
    ensures
        final(m).wf(),
        final(m).same_core(&*old(m)),
        final(m).mig@ == mig_bump(mig_bump(old(m).mig@, MIG_SCAN_ROUNDS as int, 1), MIG_DIRTY_PAGES as int, r.0),
        ({
            let s = round_scan(old(tables).words@, old(tables).base, *tracker, false);
            &&& final(tables).words@ == s.0
            &&& final(tables).base == old(tables).base
            &&& r.0 == s.2
            &&& r.1@ == covered_below(s.1, (old(bitmap).bits@.len() * 8) as int)
        }),
{
    let ghost s = round_scan(tables.words@, tables.base, *tracker, false);
    bitmap.clear_all();
    let ghost bz = bitmap.bits@;
    let dirty = scan_round(tables, tracker, bitmap, false, m);
    let pages = bitmap.for_each_set();
    proof {
        assert forall|i: int| 0 <= i < bitmap.bits@.len() * 8 implies #[trigger] bit_at(bitmap.bits@, i) == covered(s.1, i) by {
            assert(bit_at(bitmap.bits@, i) == (bit_at(bz, i) || covered(s.1, i)));
            assert(bz[i / 8] == 0);
            lemma_zero_byte_bits((i % 8) as u8);
        }
        lemma_set_below_covered(bitmap.bits@, s.1, (bitmap.bits@.len() * 8) as int);
    }
    (dirty, pages)
}

/// The active tracker's VM id and the number of dirty pages its bitmap
/// holds; `None` without a tracker.
pub fn tracker_stats(st: &crate::migrate::session::MigState) -> (r: Option<(u64, u64)>)
    requires
        st.wf(),
    ensures
        match st.tracker {
            None => r is None,
            Some(t) => r == Some((t.tracker.vm_id, t.bitmap.set_indices().len() as u64)),
        },
{
    match &st.tracker {
        None => None,
        Some(t) => Some((t.tracker.vm_id, t.bitmap.count_set())),
    }
}

} // verus!
