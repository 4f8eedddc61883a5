//! A bounded-size, append-only log sink.
//!
//! The library holds the capacity-enforcement logic of the sink: given a
//! running file position, a pending chunk, a byte capacity and the
//! filesystem's block size, it decides how much of the file's head must be
//! collapsed (removed, block-aligned) before the chunk is appended, so that
//! the file never grows without bound. It also parses human-readable size
//! specifications ("16K", "2M") and models the whole write path over an
//! in-memory file, so that the composition of collapse and append is itself
//! verified.

pub mod parse;
pub mod policy;
pub mod writer;

pub use parse::parse_size;
pub use parse::SizeSpecError;
pub use policy::decide;
pub use policy::effective_capacity;
pub use writer::BoundedLogWriter;
pub use writer::MemFile;
