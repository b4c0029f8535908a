//! Fixed-width binary records of cache-access trace events.
//!
//! A trace is a file of concatenated 24-byte records with no header, footer,
//! separator or count. Every integer field is stored little-endian at a fixed
//! offset, whatever the byte order of the machine that runs this code.
//!
//! * [`little_endian`]: base-256 digits of an integer, least significant first.
//! * [`entry`]: the record type and its 24-byte layout.
//! * [`error`]: the one fault a trace can have.
//! * [`format`]: the file format as mathematics, and what holds of it.
//! * [`reader`]: a decoder that is fed one chunk at a time, for callers that
//!   own the source.
//! * [`trace`]: writing to a byte sink and reading from a byte source.

pub mod entry;
pub mod error;
pub mod format;
pub mod little_endian;
pub mod reader;
pub mod trace;

pub use entry::{TraceEntry, RECORD_SIZE};
pub use error::TraceError;
pub use reader::TraceReader;
pub use trace::{read_trace, write_trace};
