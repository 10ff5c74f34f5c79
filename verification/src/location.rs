use vstd::prelude::*;

use crate::element_stream::Duplicable;

verus! {

/// A zero-based (line, column) position in the source text.
///
/// Positions are attached to every emitted token and to every error that has
/// positional meaning.  They are copied by value and never shared.
#[derive(Clone, Copy, Debug, PartialEq, Eq, Structural)]
pub struct Location {
    pub line: usize,
    pub column: usize,
}

/// The mathematical view of a `Location`: an unbounded (line, column) pair.
pub struct Loc {
    pub line: nat,
    pub col: nat,
}

impl Duplicable for Location {
    fn duplicate(&self) -> (r: Self) {
        *self
    }
}

impl View for Location {
    type V = Loc;

    open spec fn view(&self) -> Loc {
        Loc { line: self.line as nat, col: self.column as nat }
    }
}

/// An error that may point at a position in the source text.
///
/// Both error taxonomies (tokenizing and parsing) expose their optional
/// position through this trait, so a diagnostic renderer can stay generic.
pub trait LocatedError {
    /// The position this error points at, if it has one.
    spec fn spec_location(&self) -> Option<Loc>;

    /// Returns the position this error points at, if it has one.
    fn location(&self) -> (l: Option<Location>)
        ensures
            match (l, self.spec_location()) {
                (Some(el), Some(sl)) => el@ == sl,
                (None, None) => true,
                _ => false,
            },
    ;
}

} // verus!
