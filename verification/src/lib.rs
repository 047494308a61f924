//! A seekable, partial-consumption buffered byte reader.
//!
//! The reader sits in front of any blocking, seekable byte source and keeps a
//! contiguous window of read-ahead bytes.  A caller may peek at the buffered
//! window, decide how many bytes a logical unit took, and only then consume
//! that many — decoupling "bytes fetched from the source" from "bytes the
//! caller has used".

pub mod reader;
pub mod source;
