//! Typed failures of the protocol core.
//!
//! Every core operation reports failure as a value of `Errors`; nothing in the
//! library panics or aborts the worker.

use vstd::prelude::*;

verus! {

/// The failure kinds of the protocol core.
#[derive(Clone, Copy, Debug, PartialEq, Eq, Structural)]
pub enum Errors {
    /// Underlying I/O failure while reading from the connection.
    ReadError,
    /// Fewer bytes were available than required before the stream closed.
    ShortRead,
    /// A malformed fixed-width integer field.
    ParseError,
    /// A header combination that is neither valid shape, or a reference to an
    /// unknown or expired upload identifier.
    InvalidRequest,
    /// Failure to create, open, or write the target file.
    FileIOError,
}

} // verus!
