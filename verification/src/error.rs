//! The decode error taxonomy. Every malformed input is reported through one
//! of these variants; no input makes the decoder panic.

use vstd::prelude::*;

verus! {

/// A structural violation found while decoding a RESULT message.
///
/// Each variant identifies which expectation the input broke; the first
/// violation found is returned and the rest of the message is not examined.
#[derive(Clone, Copy, Debug, PartialEq, Eq, Structural)]
pub enum DecodeError {
    /// The buffer ended before an expected field.
    Truncated,
    /// A signed length or count field came back negative (column count,
    /// row count, set-element count, bind-index count, or a blob length).
    MalformedCount,
    /// A type-descriptor tag outside the implemented set.
    UnsupportedType(u16),
    /// A top-level result-kind tag outside the five known kinds.
    UnknownResultKind(i32),
    /// An ascii-typed value held a byte above 0x7f.
    NotAscii,
    /// Text content that is not valid UTF-8.
    InvalidUtf8,
    /// A fixed-width scalar's byte blob had the wrong length.
    BadFixedWidth,
    /// A value blob held bytes past the end of the declared value.
    TrailingBytes,
    /// The "more pages follow" flag was set; paging is not supported here.
    UnsupportedPaging,
    /// The "metadata suppressed" flag left a row set without the column
    /// types needed to decode its cells.
    MetadataSuppressed,
}

} // verus!
