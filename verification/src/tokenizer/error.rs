use vstd::prelude::*;

use crate::location::{Loc, LocatedError, Location};

verus! {

/// An error raised while scanning characters into tokens.  Either kind aborts
/// the whole pass.
#[derive(Debug)]
pub enum TokenizerError {
    /// A required closing character was not found before end-of-line or
    /// end-of-input.
    ExpectedCharacter(char, Location),
    /// A character outside the recognized grammar was encountered.
    UnexpectedCharacter(char, Location),
}

/// The mathematical view of a `TokenizerError`.
pub enum LexError {
    ExpectedCharacter(char, Loc),
    UnexpectedCharacter(char, Loc),
}

impl View for TokenizerError {
    type V = LexError;

    open spec fn view(&self) -> LexError {
        match self {
            TokenizerError::ExpectedCharacter(c, l) => LexError::ExpectedCharacter(*c, l@),
            TokenizerError::UnexpectedCharacter(c, l) => LexError::UnexpectedCharacter(*c, l@),
        }
    }
}

impl LocatedError for TokenizerError {
    open spec fn spec_location(&self) -> Option<Loc> {
        match self {
            TokenizerError::ExpectedCharacter(_, l) => Some(l@),
            TokenizerError::UnexpectedCharacter(_, l) => Some(l@),
        }
    }

    fn location(&self) -> (l: Option<Location>) {
        match self {
            TokenizerError::ExpectedCharacter(_, location) => Some(*location),
            TokenizerError::UnexpectedCharacter(_, location) => Some(*location),
        }
    }
}

} // verus!
