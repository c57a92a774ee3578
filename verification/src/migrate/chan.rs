//! The migration channel: a byte ring that keeps the most recent bytes
//! written, oldest first, and from which a reader consumes at the front.

use vstd::prelude::*;

verus! {

/// A byte ring of `buf.len()` bytes holding `len` bytes starting at `head`.
pub struct ChanBuffer {
    pub buf: Vec<u8>,
    pub head: usize,
    pub len: usize,
}

/// Position `x` (below twice the capacity) folded into the ring.
pub open spec fn fold(x: int, cap: int) -> int {
    if x < cap { x } else { x - cap }
}

/// The last `n` items of `s` (all of it when it is shorter).
pub open spec fn take_last(s: Seq<u8>, n: nat) -> Seq<u8> {
    if s.len() <= n { s } else { s.subrange(s.len() - n, s.len() as int) }
}

impl ChanBuffer {
    pub open spec fn cap(&self) -> nat {
        self.buf@.len()
    }

    pub open spec fn wf(&self) -> bool {
        &&& self.buf@.len() > 0
        &&& self.head < self.buf@.len()
        &&& self.len <= self.buf@.len()
    }

    /// The bytes held, oldest first.
    pub open spec fn contents(&self) -> Seq<u8> {
        Seq::new(self.len as nat, |i: int| self.buf@[fold(self.head + i, self.buf@.len() as int)])
    }

    /// An empty channel of `cap` bytes.
    pub fn new(cap: usize) -> (c: ChanBuffer)
        requires
            cap > 0,
        ensures
            c.wf(),
            c.cap() == cap,
            c.contents() == Seq::<u8>::empty(),
    {
        let mut buf: Vec<u8> = Vec::new();
        while buf.len() < cap
            invariant
                buf@.len() <= cap,
            decreases cap - buf@.len(),
        {
            buf.push(0);
        }
        let c = ChanBuffer { buf, head: 0, len: 0 };
        assert(c.contents() =~= Seq::<u8>::empty());
        c
    }

    fn push_byte(&mut self, b: u8)
        requires
            old(self).wf(),
        ensures
            final(self).wf(),
            final(self).cap() == old(self).cap(),
            final(self).contents() == take_last(old(self).contents().push(b), old(self).cap()),
    {
        let cap = self.buf.len();
        let ghost before = self.contents();
        if self.len < cap {
            let pos = if self.head < cap - self.len { self.head + self.len } else { self.head - (cap - self.len) };
            self.buf.set(pos, b);
            self.len = self.len + 1;
            assert(self.contents() =~= before.push(b));
        } else {
            let h = self.head;
            self.buf.set(h, b);
            self.head = if h < cap - 1 { h + 1 } else { 0 };
            assert forall|i: int| 0 <= i < self.len implies #[trigger] self.contents()[i]
                == before.push(b).subrange(1, cap + 1)[i] by {
                if i + 1 < cap {
                    assert(fold(self.head + i, cap as int) == fold(h + i + 1, cap as int));
                }
            }
            assert(self.contents() =~= take_last(before.push(b), cap as nat));
        }
    }

    /// Append `data`, overwriting the oldest bytes once the channel is full.
    /// Returns the number of bytes taken, all of `data`.
    pub fn write(&mut self, data: &[u8]) -> (n: usize)
        requires
            old(self).wf(),
        ensures
            final(self).wf(),
            final(self).cap() == old(self).cap(),
            final(self).contents() == take_last(old(self).contents() + data@, old(self).cap()),
            n == data@.len(),
    {
        let ghost c0 = self.contents();
        let ghost cap = self.cap();
        let mut i: usize = 0;
        while i < data.len()
            invariant
                self.wf(),
                self.cap() == cap,
                i <= data@.len(),
                self.contents() == take_last(c0 + data@.subrange(0, i as int), cap),
            decreases data@.len() - i,
        {
            let ghost prev = c0 + data@.subrange(0, i as int);
            self.push_byte(data[i]);
            proof {
                assert(c0 + data@.subrange(0, i + 1) =~= prev.push(data@[i as int]));
                assert(take_last(take_last(prev, cap).push(data@[i as int]), cap)
                    =~= take_last(prev.push(data@[i as int]), cap));
            }
            i = i + 1;
        }
        assert(data@.subrange(0, data@.len() as int) =~= data@);
        data.len()
    }

    /// Drop everything held.
    pub fn clear(&mut self)
        requires
            old(self).wf(),
        ensures
            final(self).wf(),
            final(self).cap() == old(self).cap(),
            final(self).contents() == Seq::<u8>::empty(),
    {
        self.head = 0;
        self.len = 0;
        assert(self.contents() =~= Seq::<u8>::empty());
    }

    /// Bytes held and capacity.
    pub fn stats(&self) -> (r: (usize, usize))
        requires
            self.wf(),
        ensures
            r.0 == self.contents().len(),
            r.1 == self.cap(),
    {
        (self.len, self.buf.len())
    }

    /// Drop the oldest `bytes` bytes (all of them when fewer are held).
    pub fn consume(&mut self, bytes: usize)
        requires
            old(self).wf(),
        ensures
            final(self).wf(),
            final(self).cap() == old(self).cap(),
            final(self).contents() == old(self).contents().skip(
                if bytes < old(self).contents().len() { bytes as int } else { old(self).contents().len() as int }),
    {
        let ghost before = self.contents();
        let cap = self.buf.len();
        let k = if bytes < self.len { bytes } else { self.len };
        let h = self.head;
        self.head = if h < cap - k { h + k } else { h - (cap - k) };
        self.len = self.len - k;
        assert forall|i: int| 0 <= i < self.len implies #[trigger] self.contents()[i] == before.skip(k as int)[i] by {
            assert(fold(self.head + i, cap as int) == fold(h + k + i, cap as int));
        }
        assert(self.contents() =~= before.skip(k as int));
    }

    /// A copy of the bytes held, oldest first.
    pub fn read_all(&self) -> (r: Vec<u8>)
        requires
            self.wf(),
        ensures
            r@ == self.contents(),
    {
        let cap = self.buf.len();
        let mut out: Vec<u8> = Vec::new();
        let mut i: usize = 0;
        while i < self.len
            invariant
                self.wf(),
                cap == self.buf@.len(),
                i <= self.len,
                out@ == self.contents().subrange(0, i as int),
            decreases self.len - i,
        {
            let p = if self.head < cap - i { self.head + i } else { self.head - (cap - i) };
            out.push(self.buf[p]);
            i = i + 1;
            assert(out@ =~= self.contents().subrange(0, i as int));
        }
        assert(out@ =~= self.contents());
        out
    }
}

/// Channel of `pages` 4 KiB pages; `None` when that is zero bytes.
pub fn chan_new(pages: usize) -> (r: Option<ChanBuffer>)
    ensures
        r is None <==> pages == 0,
        r matches Some(c) ==> c.wf() && c.contents() == Seq::<u8>::empty()
            && c.cap() == (if pages * 4096 > usize::MAX { usize::MAX as int } else { pages * 4096 }),
{
    let bytes = match pages.checked_mul(4096) {
        Some(b) => b,
        None => usize::MAX,
    };
    if bytes == 0 {
        return None;
    }
    Some(ChanBuffer::new(bytes))
}

} // verus!
