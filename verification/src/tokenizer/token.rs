use vstd::prelude::*;

use crate::element_stream::Duplicable;
use crate::location::{Loc, Location};

verus! {

/// A classified lexical unit: punctuation, a literal, or an identifier.
/// Equality is structural.
#[derive(Debug)]
pub enum Token {
    /// A string literal, without the enclosing quotes.
    String(String),
    /// A bare word, such as `true`, `false` or `null`.
    Identifier(String),
    /// A numeric literal, kept as the exact text that was scanned.
    Number(String),
    OpenBrace,
    CloseBrace,
    OpenSquareBracket,
    CloseSquareBracket,
    Colon,
    Comma,
}

/// The mathematical view of a `Token`: text as character sequences.
pub enum Tok {
    String(Seq<char>),
    Identifier(Seq<char>),
    Number(Seq<char>),
    OpenBrace,
    CloseBrace,
    OpenSquareBracket,
    CloseSquareBracket,
    Colon,
    Comma,
}

impl View for Token {
    type V = Tok;

    open spec fn view(&self) -> Tok {
        match self {
            Token::String(s) => Tok::String(s@),
            Token::Identifier(s) => Tok::Identifier(s@),
            Token::Number(s) => Tok::Number(s@),
            Token::OpenBrace => Tok::OpenBrace,
            Token::CloseBrace => Tok::CloseBrace,
            Token::OpenSquareBracket => Tok::OpenSquareBracket,
            Token::CloseSquareBracket => Tok::CloseSquareBracket,
            Token::Colon => Tok::Colon,
            Token::Comma => Tok::Comma,
        }
    }
}

impl Duplicable for Token {
    fn duplicate(&self) -> (r: Self) {
        match self {
            Token::String(s) => Token::String(s.clone()),
            Token::Identifier(s) => Token::Identifier(s.clone()),
            Token::Number(s) => Token::Number(s.clone()),
            Token::OpenBrace => Token::OpenBrace,
            Token::CloseBrace => Token::CloseBrace,
            Token::OpenSquareBracket => Token::OpenSquareBracket,
            Token::CloseSquareBracket => Token::CloseSquareBracket,
            Token::Colon => Token::Colon,
            Token::Comma => Token::Comma,
        }
    }
}

impl Token {
    /// Structural equality of two tokens: same variant, same text.
    pub fn same_token(&self, other: &Token) -> (r: bool)
        ensures
            r == (self@ == other@),
    {
        match (self, other) {
            (Token::String(a), Token::String(b)) => *a == *b,
            (Token::Identifier(a), Token::Identifier(b)) => *a == *b,
            (Token::Number(a), Token::Number(b)) => *a == *b,
            (Token::OpenBrace, Token::OpenBrace) => true,
            (Token::CloseBrace, Token::CloseBrace) => true,
            (Token::OpenSquareBracket, Token::OpenSquareBracket) => true,
            (Token::CloseSquareBracket, Token::CloseSquareBracket) => true,
            (Token::Colon, Token::Colon) => true,
            (Token::Comma, Token::Comma) => true,
            _ => false,
        }
    }
}

impl PartialEq for Token {
    fn eq(&self, other: &Token) -> (r: bool) {
        self.same_token(other)
    }
}

impl vstd::std_specs::cmp::PartialEqSpecImpl for Token {
    open spec fn obeys_eq_spec() -> bool {
        true
    }

    open spec fn eq_spec(&self, other: &Token) -> bool {
        self@ == other@
    }
}

/// A token paired with the position just past the text that produced it.
pub type TokenAndLocation = (Token, Location);

/// The view of a token with its location.
pub open spec fn token_location_view(tl: TokenAndLocation) -> (Tok, Loc) {
    (tl.0@, tl.1@)
}

/// The view of a whole token stream.
pub open spec fn tokens_view(s: Seq<TokenAndLocation>) -> Seq<(Tok, Loc)> {
    s.map_values(|tl: TokenAndLocation| token_location_view(tl))
}

} // verus!
