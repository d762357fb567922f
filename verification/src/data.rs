//! The payload reader's handle: sizes a frame for one chunk of an upload.

use vstd::prelude::*;

use crate::cache::Request;
use crate::read::FrameBuffer;

verus! {

/// Prepares the exact-length payload reads of chunk continuations.
pub struct DataHandler {}

impl DataHandler {
    /// A new handle.
    pub fn new() -> (r: Self) {
        DataHandler {  }
    }

    /// An empty accumulator sized for exactly one chunk of `request`'s
    /// upload; the connection's deliveries are pushed into it until it is
    /// complete.
    pub fn read_chunk(&self, request: &Request) -> (r: FrameBuffer)
        ensures
            r.spec_needed() == request@.chunk_length,
            r.buffered() == Seq::<u8>::empty(),
    {
        FrameBuffer::new(request.chunk_length as usize)
    }
}

} // verus!
