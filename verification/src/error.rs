//! The ways in which a specification is refused.

use vstd::prelude::*;

verus! {

/// Why a specification was refused.
#[derive(Clone, Copy, PartialEq, Eq, Structural, Debug)]
pub enum ErrorKind {
    /// The text cannot be split into tokens.
    InvalidToken,
    /// An expression that needs a width is not followed by `:`.
    MissingSeparator,
    /// A `:` is not followed by an integer literal.
    MissingWidth,
    /// A width literal does not denote a non-negative number that fits.
    MalformedWidth,
    /// A bare integer literal carries a minus sign.
    NegativeLiteral,
    /// A bare integer literal is neither a bit pattern nor hexadecimal.
    NotBitSequence,
    /// The tokens at this place start no segment.
    UnrecognizedSegment,
}

/// A refusal, with the index of the token at which it was found. The index
/// equals the number of tokens where the specification ended too early.
#[derive(Clone, Copy, PartialEq, Eq, Structural, Debug)]
pub struct BitSeqError {
    pub kind: ErrorKind,
    pub position: usize,
}

impl ErrorKind {
    /// The message that belongs to the kind.
    pub open spec fn message_text(self) -> Seq<char> {
        match self {
            ErrorKind::InvalidToken => "cannot split the input into tokens"@,
            ErrorKind::MissingSeparator => "expected `:`"@,
            ErrorKind::MissingWidth => "expected integer that specifies size of bit sequence"@,
            ErrorKind::MalformedWidth => "Couldn't be parsed!"@,
            ErrorKind::NegativeLiteral => "negative numbers are not allowed"@,
            ErrorKind::NotBitSequence => "expected bit sequence but got integer instead."@,
            ErrorKind::UnrecognizedSegment => {
                "expected bit sequence, hex or length defined expression"@
            },
        }
    }

    /// The message that belongs to the kind.
    pub fn message(&self) -> (r: &'static str)
        ensures
            r@ == self.message_text(),
    {
        match self {
            ErrorKind::InvalidToken => "cannot split the input into tokens",
            ErrorKind::MissingSeparator => "expected `:`",
            ErrorKind::MissingWidth => "expected integer that specifies size of bit sequence",
            ErrorKind::MalformedWidth => "Couldn't be parsed!",
            ErrorKind::NegativeLiteral => "negative numbers are not allowed",
            ErrorKind::NotBitSequence => "expected bit sequence but got integer instead.",
            ErrorKind::UnrecognizedSegment => {
                "expected bit sequence, hex or length defined expression"
            },
        }
    }
}

impl BitSeqError {
    /// The message that belongs to the error's kind.
    pub fn message(&self) -> (r: &'static str)
        ensures
            r@ == self.kind.message_text(),
    {
        self.kind.message()
    }
}

} // verus!
