//! The ways a module buffer can be malformed.

use vstd::prelude::*;

verus! {

/// First fatal malformation found while decoding a buffer.
///
/// `Truncated` is returned whenever the input ends before an expected
/// field (preamble byte, section id, varint continuation, payload
/// bytes).  `BadPreamble(expected, found)` reports the first preamble
/// byte that does not match.  `Overflow` marks a varint that does not
/// fit in 32 bits.  `SectionTooShort(have, need)` and
/// `BodyTooShort(have, need)` report a declared length that exceeds the
/// bytes remaining in the enclosing buffer.
#[derive(Debug, Clone, Copy, PartialEq, Eq, Structural)]
pub enum DecodeError {
    Truncated,
    BadPreamble(u8, u8),
    Overflow,
    SectionTooShort(usize, u32),
    BodyTooShort(usize, u32),
}

} // verus!
