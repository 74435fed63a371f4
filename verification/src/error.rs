//! Error descriptors for tokenizing and decoding.
//!
//! Every failure of the decoder is terminal for the current decode call and
//! is reported as one of these variants; no error is ever silently skipped.

use vstd::prelude::*;

verus! {

/// Why a logical line could not be tokenized into a definition.
#[derive(Debug, Clone, Copy, PartialEq, Eq, Structural)]
pub enum LineError {
    /// The line has no `:` separating a key from a value.
    MissingSeparator,
    /// The text before the `:` is empty once trimmed.
    EmptyKey,
}

/// A decoding failure.  Line numbers are 1-based source line numbers.
#[derive(Debug, Clone, Copy, PartialEq, Eq, Structural)]
pub enum Error {
    /// A malformed line was encountered: the reason and its line number.
    FailedParse(LineError, usize),
    /// End of input was reached while a definition was still expected.
    Eof,
    /// A boolean was requested but the value text is neither `true` nor
    /// `false`.
    ExpectedBoolean,
    /// A character was requested but the value text is not exactly one
    /// character long.
    ExpectedChar,
    /// An integer was requested but the value text is not a valid integer
    /// literal for the requested width.
    ExpectedInteger,
    /// An enum was requested; the notation's grammar cannot represent one.
    ExpectedEnum,
    /// A shape with no decoding support was requested (floating point, raw
    /// bytes, or a fully generic "decode whatever is present").
    Unimplemented,
}

} // verus!
