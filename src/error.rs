use vstd::prelude::*;

verus! {

/// What went wrong in a failed decode.
#[derive(Debug, Clone, Copy, PartialEq, Eq, Structural)]
pub enum ErrorKind {
    /// A required literal or character class did not match.
    UnexpectedInput,
    /// The input did not begin with a recognised scheme literal.
    UnknownScheme,
    /// The host grammar `(label '.')+ label` was violated.
    InvalidHost,
    /// A counted match found fewer qualifying characters than required.
    IncompleteMatch,
    /// A delimiter (`:`, `/`, `?`, `&`, `#`) matched but its body did not.
    TrailingDelimiterWithoutBody,
    /// A port number above 65535.
    PortOutOfRange,
}

/// A failed decode: its kind, and the character offset, counted from the
/// start of the input handed to the decoder, at which it occurred.
///
/// A failure never consumes input: the caller still holds its own input.
#[derive(Debug, Clone, Copy, PartialEq, Eq, Structural)]
pub struct ParseError {
    pub kind: ErrorKind,
    pub position: usize,
}

/// The spec value of a failure of kind `kind` at offset `position`.
pub open spec fn fail(kind: ErrorKind, position: int) -> ParseError {
    ParseError { kind, position: position as usize }
}

pub(crate) fn make_error(kind: ErrorKind, position: usize) -> (e: ParseError)
    ensures
        e == fail(kind, position as int),
{
    ParseError { kind, position }
}

} // verus!
