//! Fixed-capacity event ring: every record overwrites the oldest slot once the
//! ring is full, and a read returns the most recent events, oldest first.

use vstd::prelude::*;

verus! {

/// A ring of `cap` slots that keeps the last `cap` recorded events.
pub struct Ring<T> {
    pub buf: Vec<T>,
    pub widx: usize,
    /// Every event recorded so far, in order.
    pub hist: Ghost<Seq<T>>,
}

/// Index of the first retained event when `n` have been recorded into `cap` slots.
pub open spec fn window_start(n: nat, cap: nat) -> nat {
    if n > cap { (n - cap) as nat } else { 0 }
}

impl<T: Copy> Ring<T> {
    /// Well-formed: `cap` slots, one history entry per record, and each retained
    /// event in slot `index % cap`.
    pub open spec fn wf(&self) -> bool {
        &&& self.buf@.len() > 0
        &&& self.hist@.len() == self.widx
        &&& forall|k: int| window_start(self.widx as nat, self.buf@.len()) <= k < self.widx
            ==> #[trigger] self.buf@[k % (self.buf@.len() as int)] == self.hist@[k]
    }

    /// Number of slots.
    pub open spec fn cap(&self) -> nat {
        self.buf@.len()
    }

    /// Number of events recorded so far.
    pub open spec fn count(&self) -> nat {
        self.widx as nat
    }

    /// The events a read returns: the last `cap` recorded, oldest first.
    pub open spec fn retained(&self) -> Seq<T> {
        self.hist@.subrange(window_start(self.widx as nat, self.buf@.len()) as int, self.widx as int)
    }

    /// An empty ring of `cap` slots, each holding `fill`.
    pub fn new(cap: usize, fill: T) -> (r: Self)
        requires
            cap > 0,
        ensures
            r.wf(),
            r.cap() == cap,
            r.hist@ == Seq::<T>::empty(),
    {
        let mut buf: Vec<T> = Vec::new();
        while buf.len() < cap
            invariant
                buf@.len() <= cap,
            decreases cap - buf@.len(),
        {
            buf.push(fill);
        }
        Ring { buf, widx: 0, hist: Ghost(Seq::empty()) }
    }

    /// Record `e`, overwriting the oldest event once the ring is full.
    pub fn record(&mut self, e: T)
        requires
            old(self).wf(),
            old(self).count() < usize::MAX,
        ensures
            final(self).wf(),
            final(self).cap() == old(self).cap(),
            final(self).hist@ == old(self).hist@.push(e),
    {
        let cap = self.buf.len();
        let i = self.widx % cap;
        let ghost old_buf = self.buf@;
        let ghost w = self.widx as int;
        self.buf.set(i, e);
        self.widx = self.widx + 1;
        self.hist = Ghost(self.hist@.push(e));
        proof {
            assert forall|k: int| window_start(self.widx as nat, cap as nat) <= k < self.widx
                implies #[trigger] self.buf@[k % (cap as int)] == self.hist@[k] by {
                if k < w {
                    assert(k % (cap as int) != w % (cap as int)) by (nonlinear_arith)
                        requires 0 <= k < w, w - k < cap, cap > 0;
                    assert(old_buf[k % (cap as int)] == old(self).hist@[k]);
                }
            }
        }
    }

    /// The retained events, oldest first.
    pub fn recent(&self) -> (r: Vec<T>)
        requires
            self.wf(),
        ensures
            r@ == self.retained(),
    {
        let cap = self.buf.len();
        let start: usize = if self.widx > cap { self.widx - cap } else { 0 };
        let mut out: Vec<T> = Vec::new();
        let mut idx = start;
        while idx < self.widx
            invariant
                self.wf(),
                cap == self.buf@.len(),
                start == window_start(self.widx as nat, cap as nat),
                start <= idx <= self.widx,
                out@ == self.hist@.subrange(start as int, idx as int),
            decreases self.widx - idx,
        {
            out.push(self.buf[idx % cap]);
            idx = idx + 1;
            assert(out@ =~= self.hist@.subrange(start as int, idx as int));
        }
        out
    }
}

/// A read right after a record returns that event last, after the events
/// retained before it (less the oldest when the ring was full).
pub proof fn lemma_record_then_recent<T: Copy>(before: Ring<T>, after: Ring<T>, e: T)
    requires
        before.wf(),
        after.wf(),
        after.cap() == before.cap(),
        after.hist@ == before.hist@.push(e),
    ensures
        after.retained().last() == e,
        after.retained().len() == if before.count() < before.cap() { before.count() + 1 } else { before.cap() },
        after.retained().drop_last() == if before.count() < before.cap() {
            before.retained()
        } else {
            before.retained().drop_first()
        },
{
    assert(after.retained().drop_last() =~= if before.count() < before.cap() {
            before.retained()
        } else {
            before.retained().drop_first()
        });
}

} // verus!
