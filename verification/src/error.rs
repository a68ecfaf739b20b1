use vstd::prelude::*;

verus! {

/// Why a message, a start line, a header line or a vocabulary token was
/// rejected. Every failure is reported to the caller as a value; nothing in
/// the crate panics or logs.
#[derive(Clone, Copy, Debug, PartialEq, Eq, Structural)]
pub enum ParseError {
    /// A method or version token matched no known variant.
    InvalidToken,
    /// A numeric status code is not one of the known codes.
    InvalidCode,
    /// The request line carried an unknown method token.
    InvalidMethod,
    /// The start line carried an unknown version token.
    InvalidVersion,
    /// The status line carried an unknown status token.
    InvalidStatus,
    /// No blank-line delimiter separates the head from the body.
    MalformedMessage,
    /// The request line did not split into exactly three tokens.
    MalformedRequestLine,
    /// The status line did not split into version, code and reason phrase.
    MalformedResponseLine,
    /// A header line has no `:` separator.
    MalformedHeader,
}

} // verus!
