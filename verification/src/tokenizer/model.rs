use vstd::prelude::*;

use crate::location::Loc;
use crate::tokenizer::chars::{is_alphanumeric_char, is_numeric_char};
use crate::tokenizer::error::LexError;
use crate::tokenizer::number::is_valid_number_text;
use crate::tokenizer::token::Tok;

verus! {

/// A character that begins or continues a numeric scan.
pub open spec fn is_json_number_char(c: char) -> bool {
    c == '-' || c == '.' || c == 'e' || c == 'E' || is_numeric_char(c)
}

/// Index of the character that ends a line comment: the next newline, or the
/// end of the input.
pub open spec fn comment_end(cs: Seq<char>, i: int) -> int
    decreases cs.len() - i,
{
    if 0 <= i < cs.len() && cs[i] != '\n' {
        comment_end(cs, i + 1)
    } else {
        i
    }
}

pub proof fn lemma_comment_end_bounds(cs: Seq<char>, i: int)
    requires
        0 <= i <= cs.len(),
    ensures
        i <= comment_end(cs, i) <= cs.len(),
        forall|k: int| i <= k < comment_end(cs, i) ==> cs[k] != '\n',
        comment_end(cs, i) < cs.len() ==> cs[comment_end(cs, i)] == '\n',
    decreases cs.len() - i,
{
    if i < cs.len() && cs[i] != '\n' {
        lemma_comment_end_bounds(cs, i + 1);
    }
}

/// Index of the first character at or after `i` that cannot continue a
/// numeric scan.
pub open spec fn number_end(cs: Seq<char>, i: int) -> int
    decreases cs.len() - i,
{
    if 0 <= i < cs.len() && is_json_number_char(cs[i]) {
        number_end(cs, i + 1)
    } else {
        i
    }
}

pub proof fn lemma_number_end_bounds(cs: Seq<char>, i: int)
    requires
        0 <= i <= cs.len(),
    ensures
        i <= number_end(cs, i) <= cs.len(),
        forall|k: int| i <= k < number_end(cs, i) ==> is_json_number_char(cs[k]),
        number_end(cs, i) < cs.len() ==> !is_json_number_char(cs[number_end(cs, i)]),
    decreases cs.len() - i,
{
    if i < cs.len() && is_json_number_char(cs[i]) {
        lemma_number_end_bounds(cs, i + 1);
    }
}

/// Index of the first character at or after `i` that cannot continue an
/// identifier scan.
pub open spec fn alnum_end(cs: Seq<char>, i: int) -> int
    decreases cs.len() - i,
{
    if 0 <= i < cs.len() && is_alphanumeric_char(cs[i]) {
        alnum_end(cs, i + 1)
    } else {
        i
    }
}

pub proof fn lemma_alnum_end_bounds(cs: Seq<char>, i: int)
    requires
        0 <= i <= cs.len(),
    ensures
        i <= alnum_end(cs, i) <= cs.len(),
        forall|k: int| i <= k < alnum_end(cs, i) ==> is_alphanumeric_char(cs[k]),
        alnum_end(cs, i) < cs.len() ==> !is_alphanumeric_char(cs[alnum_end(cs, i)]),
    decreases cs.len() - i,
{
    if i < cs.len() && is_alphanumeric_char(cs[i]) {
        lemma_alnum_end_bounds(cs, i + 1);
    }
}

/// One step of a string scan starting just after the opening quote, at index
/// `i`, with the column counter at `col`.  On success: the text up to the
/// closing quote, the index just past it, and the new column.  On failure (a
/// newline or the end of the input before the closing quote): the position
/// the error points at.
pub open spec fn string_scan(cs: Seq<char>, i: int, line: nat, col: nat) -> Result<
    (Seq<char>, int, nat),
    Loc,
>
    decreases cs.len() - i,
{
    if !(0 <= i < cs.len()) {
        Err(Loc { line, col })
    } else if cs[i] == '"' {
        Ok((Seq::empty(), i + 1, (col + 1) as nat))
    } else if cs[i] == '\n' {
        Err(Loc { line, col: (col + 1) as nat })
    } else {
        match string_scan(cs, i + 1, line, (col + 1) as nat) {
            Ok((text, j, c2)) => Ok((seq![cs[i]] + text, j, c2)),
            Err(l) => Err(l),
        }
    }
}

pub proof fn lemma_string_scan_bounds(cs: Seq<char>, i: int, line: nat, col: nat)
    requires
        0 <= i <= cs.len(),
    ensures
        string_scan(cs, i, line, col) matches Ok((text, j, c2)) ==> i < j <= cs.len(),
    decreases cs.len() - i,
{
    if 0 <= i < cs.len() && cs[i] != '"' && cs[i] != '\n' {
        lemma_string_scan_bounds(cs, i + 1, line, (col + 1) as nat);
    }
}

/// Prepends one located token to a scan result.
pub open spec fn lex_emit(t: Tok, l: Loc, rest: Result<Seq<(Tok, Loc)>, LexError>) -> Result<
    Seq<(Tok, Loc)>,
    LexError,
> {
    match rest {
        Ok(ts) => Ok(seq![(t, l)] + ts),
        Err(e) => Err(e),
    }
}

/// The token stream that scanning produces from index `i` of `cs` onwards,
/// with the line and column counters at `line` and `col`; or the first error.
///
/// Each consumed character advances the column by one; a newline advances the
/// line and resets the column; every token is paired with the position just
/// past the character that completed it.  Comments and blanks produce no
/// token, and a numeric scan whose text is not a valid numeric literal is
/// dropped.
pub open spec fn lex_from(cs: Seq<char>, i: int, line: nat, col: nat) -> Result<
    Seq<(Tok, Loc)>,
    LexError,
>
    decreases cs.len() - i,
{
    if !(0 <= i < cs.len()) {
        Ok(Seq::empty())
    } else {
        let c = cs[i];
        let col1 = (col + 1) as nat;
        if c == '{' {
            lex_emit(Tok::OpenBrace, Loc { line, col: col1 }, lex_from(cs, i + 1, line, col1))
        } else if c == '}' {
            lex_emit(Tok::CloseBrace, Loc { line, col: col1 }, lex_from(cs, i + 1, line, col1))
        } else if c == ':' {
            lex_emit(Tok::Colon, Loc { line, col: col1 }, lex_from(cs, i + 1, line, col1))
        } else if c == ',' {
            lex_emit(Tok::Comma, Loc { line, col: col1 }, lex_from(cs, i + 1, line, col1))
        } else if c == '[' {
            lex_emit(
                Tok::OpenSquareBracket,
                Loc { line, col: col1 },
                lex_from(cs, i + 1, line, col1),
            )
        } else if c == ']' {
            lex_emit(
                Tok::CloseSquareBracket,
                Loc { line, col: col1 },
                lex_from(cs, i + 1, line, col1),
            )
        } else if c == '"' {
            match string_scan(cs, i + 1, line, col1) {
                Err(l) => Err(LexError::ExpectedCharacter('"', l)),
                Ok((text, j, c2)) => {
                    proof {
                        lemma_string_scan_bounds(cs, i + 1, line, col1);
                    }
                    lex_emit(Tok::String(text), Loc { line, col: c2 }, lex_from(cs, j, line, c2))
                },
            }
        } else if c == '/' {
            let j = comment_end(cs, i + 1);
            proof {
                lemma_comment_end_bounds(cs, i + 1);
            }
            lex_from(cs, j, line, col1)
        } else if c == ' ' {
            lex_from(cs, i + 1, line, col1)
        } else if c == '\n' {
            lex_from(cs, i + 1, (line + 1) as nat, 0)
        } else if is_json_number_char(c) {
            let j = number_end(cs, i + 1);
            proof {
                lemma_number_end_bounds(cs, i + 1);
            }
            let text = cs.subrange(i, j);
            let col2 = (col + (j - i)) as nat;
            if is_valid_number_text(text) {
                lex_emit(Tok::Number(text), Loc { line, col: col2 }, lex_from(cs, j, line, col2))
            } else {
                lex_from(cs, j, line, col2)
            }
        } else if is_alphanumeric_char(c) {
            let j = alnum_end(cs, i + 1);
            proof {
                lemma_alnum_end_bounds(cs, i + 1);
            }
            let text = cs.subrange(i, j);
            let col2 = (col + (j - i)) as nat;
            lex_emit(Tok::Identifier(text), Loc { line, col: col2 }, lex_from(cs, j, line, col2))
        } else {
            Err(LexError::UnexpectedCharacter(c, Loc { line, col: col1 }))
        }
    }
}

/// The normalization of `cs` from index `i` onwards: every carriage return
/// followed by a newline is reduced to the newline alone.
pub open spec fn normalize_from(cs: Seq<char>, i: int) -> Seq<char>
    decreases cs.len() - i,
{
    if !(0 <= i < cs.len()) {
        Seq::empty()
    } else if i + 1 < cs.len() && cs[i] == '\r' && cs[i + 1] == '\n' {
        seq!['\n'] + normalize_from(cs, i + 2)
    } else {
        seq![cs[i]] + normalize_from(cs, i + 1)
    }
}

/// The whole-text normalization that scanning starts from.
pub open spec fn normalize(cs: Seq<char>) -> Seq<char> {
    normalize_from(cs, 0)
}

} // verus!
