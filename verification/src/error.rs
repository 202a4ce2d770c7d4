//! The failures a parse can surface.
//!
//! Out-of-range block access and non-UTF-8 text abort the current parse;
//! an address-table entry naming a layer role outside the closed role set is
//! a format error of its own. Absent textual attributes are not errors: the
//! decoders resolve them with per-field defaults instead.

use vstd::prelude::*;

verus! {

/// A fatal condition met while decoding a buffer.
#[derive(Clone, Copy, Debug, PartialEq, Eq, Structural)]
pub enum ParseError {
    /// An offset or length computation reaches past the end of the buffer.
    OutOfBounds,
    /// A block payload that should be text is not valid UTF-8.
    EncodingError,
    /// A layer role string outside the closed set of legal roles.
    UnknownLayerRole,
}

impl ParseError {
    /// A short human-readable description of the failure.
    pub fn describe(&self) -> (r: &'static str)
        ensures
            r@ == self.spec_describe(),
    {
        match self {
            ParseError::OutOfBounds => "access beyond buffer length",
            ParseError::EncodingError => "block payload is not valid UTF-8",
            ParseError::UnknownLayerRole => "unrecognized layer role",
        }
    }

    /// What `describe` returns for each failure.
    pub open spec fn spec_describe(&self) -> Seq<char> {
        match self {
            ParseError::OutOfBounds => "access beyond buffer length"@,
            ParseError::EncodingError => "block payload is not valid UTF-8"@,
            ParseError::UnknownLayerRole => "unrecognized layer role"@,
        }
    }
}

} // verus!
