use vstd::prelude::*;

use crate::location::{Loc, LocatedError, Location};
use crate::tokenizer::token::{Tok, Token};

verus! {

/// An error raised while parsing tokens into a value tree.  Any kind aborts
/// the whole pass.
#[derive(Debug)]
pub enum ParserError {
    /// The grammar required a specific token and got a different one:
    /// the expected token, the actual token, and its position.
    ExpectedToken(Token, Token, Location),
    /// A token appeared where no production accepts it.
    UnexpectedToken(Token, Location),
    /// The token stream ended while a token was mandatory; there is no
    /// position left to point at.
    UnexpectedEOF,
}

/// The mathematical view of a `ParserError`.
pub enum ParseErr {
    ExpectedToken(Tok, Tok, Loc),
    UnexpectedToken(Tok, Loc),
    UnexpectedEOF,
}

impl View for ParserError {
    type V = ParseErr;

    open spec fn view(&self) -> ParseErr {
        match self {
            ParserError::ExpectedToken(expected, actual, l) => ParseErr::ExpectedToken(
                expected@,
                actual@,
                l@,
            ),
            ParserError::UnexpectedToken(t, l) => ParseErr::UnexpectedToken(t@, l@),
            ParserError::UnexpectedEOF => ParseErr::UnexpectedEOF,
        }
    }
}

impl LocatedError for ParserError {
    open spec fn spec_location(&self) -> Option<Loc> {
        match self {
            ParserError::ExpectedToken(_, _, l) => Some(l@),
            ParserError::UnexpectedToken(_, l) => Some(l@),
            ParserError::UnexpectedEOF => None,
        }
    }

    fn location(&self) -> (l: Option<Location>) {
        match self {
            ParserError::ExpectedToken(_, _, location) => Some(*location),
            ParserError::UnexpectedToken(_, location) => Some(*location),
            ParserError::UnexpectedEOF => None,
        }
    }
}

} // verus!
