//! Decoder for a binary module container format: a fixed eight-byte
//! preamble followed by self-delimiting sections, each tagged with a
//! one-byte id and a varint byte length.  The code section's payload is
//! further framed into length-prefixed function bodies; every other
//! payload is carried as an opaque byte range.

pub mod code;
pub mod error;
pub mod parser;
pub mod section;
pub mod varint;
