//! Sinks that migration output is written to.

use vstd::prelude::*;
use crate::migrate::chan::{take_last, ChanBuffer};

verus! {

/// A destination for migration bytes. `ready` is what the sink needs to take
/// a write; a write takes at most the bytes it is given.
pub trait MigrWriter {
    spec fn ready(&self) -> bool;

    /// Write `buf`; returns the number of bytes taken.
    fn write(&mut self, buf: &[u8]) -> (n: usize)
        requires
            old(self).ready(),
        ensures
            final(self).ready(),
            n <= buf@.len();
}

/// A sink that drops everything.
pub struct NullWriter;

impl MigrWriter for NullWriter {
    open spec fn ready(&self) -> bool {
        true
    }

    /// Takes nothing.
    fn write(&mut self, buf: &[u8]) -> (n: usize)
        ensures
            n == 0,
    {
        0
    }
}

/// A sink that appends to a migration channel.
pub struct BufferWriter {
    pub chan: ChanBuffer,
}

impl MigrWriter for BufferWriter {
    open spec fn ready(&self) -> bool {
        self.chan.wf()
    }

    /// Appends all of `buf` to the channel, which keeps its most recent bytes.
    fn write(&mut self, buf: &[u8]) -> (n: usize)
        ensures
            n == buf@.len(),
            final(self).chan.cap() == old(self).chan.cap(),
            final(self).chan.contents() == take_last(old(self).chan.contents() + buf@, old(self).chan.cap()),
    {
        self.chan.write(buf)
    }
}

} // verus!
