//! The protocol core of a chunked-file-upload server.
//!
//! Files arrive over a raw connection in fixed-size chunks. The library holds
//! the verified heart of the server: the bit-flag binary header codec, the
//! framed reader's exact-count accumulator, the request cache mapping upload
//! identifiers to in-flight state, the upload state machine, and the
//! offset-addressed file reassembly model. The surrounding system supplies
//! sockets, threads and the real file system, and hands this library plain
//! bytes and values.

pub mod assoc;
pub mod cache;
pub mod data;
pub mod errors;
pub mod headers;
pub mod pipeline;
pub mod read;
pub mod store;
pub mod util;
