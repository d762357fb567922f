//! The framed reader's accumulator: collects the byte chunks a stream
//! delivers until an exact byte count is reached.
//!
//! The stream itself is read by the surrounding system, in slices of at most
//! its chosen chunk size; each delivery is pushed here. Benign partial reads
//! simply continue the loop; when the peer half-closes before enough bytes
//! arrived, taking the frame reports `ShortRead` instead of slicing a buffer
//! shorter than the requested count.

use vstd::prelude::*;
use vstd::slice::{slice_subrange, slice_to_vec};

use crate::errors::Errors;

verus! {

/// Accumulates stream deliveries toward an exact byte count.
pub struct FrameBuffer {
    needed: usize,
    data: Vec<u8>,
}

impl FrameBuffer {
    /// The exact byte count this frame requires.
    pub closed spec fn spec_needed(&self) -> int {
        self.needed as int
    }

    /// The bytes delivered so far.
    pub closed spec fn buffered(&self) -> Seq<u8> {
        self.data@
    }

    /// The required count is a machine size, never negative — so a complete
    /// frame taken from `take_frame` has exactly `spec_needed()` bytes.
    pub proof fn lemma_needed_nonneg(&self)
        ensures
            self.spec_needed() >= 0,
    {
    }

    /// An empty accumulator for a frame of exactly `needed` bytes.
    pub fn new(needed: usize) -> (r: Self)
        ensures
            r.spec_needed() == needed,
            r.buffered() == Seq::<u8>::empty(),
    {
        FrameBuffer { needed, data: Vec::new() }
    }

    /// The exact byte count this frame requires.
    pub fn needed(&self) -> (r: usize)
        ensures
            r == self.spec_needed(),
    {
        self.needed
    }

    /// Appends one stream delivery; returns whether the frame is complete.
    pub fn push_chunk(&mut self, chunk: &Vec<u8>) -> (done: bool)
        ensures
            final(self).spec_needed() == old(self).spec_needed(),
            final(self).buffered() == old(self).buffered() + chunk@,
            done == (final(self).buffered().len() >= final(self).spec_needed()),
    {
        let ghost base = self.data@;
        let mut i: usize = 0;
        while i < chunk.len()
            invariant
                i <= chunk@.len(),
                self.data@ == base + chunk@.take(i as int),
                self.needed == old(self).needed,
            decreases chunk@.len() - i,
        {
            self.data.push(chunk[i]);
            assert(self.data@ =~= base + chunk@.take(i as int + 1));
            i = i + 1;
        }
        assert(self.data@ =~= base + chunk@);
        self.data.len() >= self.needed
    }

    /// Whether enough bytes have been delivered.
    pub fn is_complete(&self) -> (r: bool)
        ensures
            r == (self.buffered().len() >= self.spec_needed()),
    {
        self.data.len() >= self.needed
    }

    /// The frame: exactly the first `needed` delivered bytes. When the stream
    /// closed before delivering enough — even one byte short — the result is
    /// `ShortRead`; no buffer shorter than the requested count is ever sliced.
    pub fn take_frame(&self) -> (r: Result<Vec<u8>, Errors>)
        ensures
            self.buffered().len() >= self.spec_needed() ==> (r matches Ok(v) && v@
                == self.buffered().take(self.spec_needed())),
            self.buffered().len() < self.spec_needed() ==> r == Err::<Vec<u8>, Errors>(
                Errors::ShortRead,
            ),
    {
        if self.data.len() >= self.needed {
            let v = slice_to_vec(slice_subrange(self.data.as_slice(), 0, self.needed));
            assert(v@ =~= self.buffered().take(self.spec_needed()));
            Ok(v)
        } else {
            Err(Errors::ShortRead)
        }
    }
}

} // verus!
