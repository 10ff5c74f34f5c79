pub mod chars;
pub mod error;
pub mod model;
pub mod number;
pub mod token;

use vstd::prelude::*;
use vstd::string::StrSliceExecFns;

use crate::element_stream::ElementStream;
use crate::location::{Loc, Location};
use crate::tokenizer::chars::{char_is_alphanumeric, char_is_numeric};
use crate::tokenizer::error::{LexError, TokenizerError};
use crate::tokenizer::model::{
    alnum_end, comment_end, is_json_number_char, lemma_alnum_end_bounds,
    lemma_comment_end_bounds, lemma_number_end_bounds, lemma_string_scan_bounds, lex_emit,
    lex_from, normalize, normalize_from, number_end, string_scan,
};
use crate::tokenizer::number::{check_number_text, is_valid_number_text};
use crate::tokenizer::token::{tokens_view, Tok, Token, TokenAndLocation};

verus! {

/// Relies on String::push: appends exactly one character.
#[verifier::external_body]
fn push_char(s: &mut String, c: char)
    ensures
        final(s)@ == old(s)@.push(c),
{
    s.push(c);
}

/// The characters of `s`, in order.
fn chars_of(s: &str) -> (r: Vec<char>)
    ensures
        r@ == s@,
{
    let n = s.unicode_len();
    let mut r: Vec<char> = Vec::new();
    let mut i: usize = 0;
    while i < n
        invariant
            n == s@.len(),
            i <= n,
            r@ == s@.take(i as int),
        decreases n - i,
    {
        let c = s.get_char(i);
        r.push(c);
        i = i + 1;
        proof {
            assert(r@ =~= s@.take(i as int));
        }
    }
    proof {
        assert(r@ =~= s@);
    }
    r
}

/// Reduces every carriage return followed by a newline to the newline alone.
fn normalize_chars(cs: &Vec<char>) -> (r: Vec<char>)
    ensures
        r@ == normalize(cs@),
{
    let mut r: Vec<char> = Vec::new();
    let mut i: usize = 0;
    proof {
        assert(Seq::<char>::empty() + normalize_from(cs@, 0) =~= normalize_from(cs@, 0));
    }
    while i < cs.len()
        invariant
            i <= cs@.len(),
            normalize(cs@) == r@ + normalize_from(cs@, i as int),
        decreases cs@.len() - i,
    {
        let ghost r_old = r@;
        if cs[i] == '\r' && i + 1 < cs.len() && cs[i + 1] == '\n' {
            r.push('\n');
            i = i + 2;
            proof {
                assert(r@ =~= r_old + seq!['\n']);
                lemma_append_cons(r_old, '\n', normalize_from(cs@, i as int));
            }
        } else {
            let c = cs[i];
            r.push(c);
            i = i + 1;
            proof {
                assert(r@ =~= r_old + seq![c]);
                lemma_append_cons(r_old, c, normalize_from(cs@, i as int));
            }
        }
    }
    proof {
        assert(r@ + Seq::<char>::empty() =~= r@);
    }
    r
}

proof fn lemma_append_cons<A>(a: Seq<A>, x: A, b: Seq<A>)
    ensures
        (a + seq![x]) + b == a + (seq![x] + b),
{
    assert((a + seq![x]) + b =~= a + (seq![x] + b));
}

/// Consumes characters from a cursor, emitting tokens paired with the
/// position just past the text that produced them.
///
/// The line and column counters are seeded at (0, 0); every consumed
/// character advances the column, and a newline advances the line and resets
/// the column.
pub struct Tokenizer {
    element_stream: ElementStream<char>,
    line: usize,
    column: usize,
}

impl Tokenizer {
    /// The scanned characters, after normalization.
    pub closed spec fn chars(&self) -> Seq<char> {
        self.element_stream.seq()
    }

    /// The cursor position.
    pub closed spec fn pos(&self) -> int {
        self.element_stream.pos()
    }

    /// The current line counter.
    pub closed spec fn cur_line(&self) -> nat {
        self.line as nat
    }

    /// The current column counter.
    pub closed spec fn cur_col(&self) -> nat {
        self.column as nat
    }

    /// The cursor stays inside the text, and the counters never outrun the
    /// cursor.
    pub closed spec fn wf(&self) -> bool {
        &&& self.element_stream.wf()
        &&& self.cur_col() <= self.pos()
        &&& self.cur_line() <= self.pos()
    }

    /// Makes a tokenizer over `content`, with line endings normalized and the
    /// position counters at zero.
    pub fn new(content: String) -> (t: Tokenizer)
        ensures
            t.chars() == normalize(content@),
            t.pos() == 0,
            t.cur_line() == 0,
            t.cur_col() == 0,
            t.wf(),
    {
        let cs = chars_of(content.as_str());
        let normalized = normalize_chars(&cs);
        Tokenizer { element_stream: ElementStream::new(normalized), line: 0, column: 0 }
    }

    /// The current position as a `Location`.
    fn location(&self) -> (l: Location)
        ensures
            l@ == (Loc { line: self.cur_line(), col: self.cur_col() }),
    {
        Location { line: self.line, column: self.column }
    }

    /// Consumes one character, advancing the column counter with the cursor.
    fn consume(&mut self) -> (r: Option<char>)
        requires
            old(self).wf(),
        ensures
            final(self).wf(),
            final(self).chars() == old(self).chars(),
            final(self).cur_line() == old(self).cur_line(),
            old(self).pos() < old(self).chars().len() ==> {
                &&& r == Some(old(self).chars()[old(self).pos()])
                &&& final(self).pos() == old(self).pos() + 1
                &&& final(self).cur_col() == old(self).cur_col() + 1
            },
            old(self).pos() >= old(self).chars().len() ==> {
                &&& r is None
                &&& final(self).pos() == old(self).pos()
                &&& final(self).cur_col() == old(self).cur_col()
            },
    {
        let r = self.element_stream.consume();
        if r.is_some() {
            self.column = self.column + 1;
        }
        r
    }

    /// Advances the cursor and the column counter past a character already
    /// seen by a peek.
    fn skip(&mut self)
        requires
            old(self).wf(),
            old(self).pos() < old(self).chars().len(),
        ensures
            final(self).wf(),
            final(self).chars() == old(self).chars(),
            final(self).cur_line() == old(self).cur_line(),
            final(self).pos() == old(self).pos() + 1,
            final(self).cur_col() == old(self).cur_col() + 1,
    {
        self.column = self.column + 1;
        self.element_stream.skip();
    }

    /// A character that begins or continues a numeric scan: a numeric
    /// character, a minus sign, a dot, or an exponent letter.
    fn is_json_number(character: char) -> (r: bool)
        ensures
            r == is_json_number_char(character),
    {
        character == '-' || character == '.' || character == 'e' || character == 'E'
            || char_is_numeric(character)
    }

    /// Discards every character up to, and not including, the next newline.
    /// The column counter is left alone: the newline that follows resets it.
    fn skip_comment(&mut self)
        requires
            old(self).wf(),
        ensures
            final(self).wf(),
            final(self).chars() == old(self).chars(),
            final(self).cur_line() == old(self).cur_line(),
            final(self).cur_col() == old(self).cur_col(),
            final(self).pos() == comment_end(old(self).chars(), old(self).pos()),
    {
        let ghost pre = *self;
        loop
            invariant
                pre == *old(self),
                self.wf(),
                self.chars() == pre.chars(),
                self.cur_line() == pre.cur_line(),
                self.cur_col() == pre.cur_col(),
                comment_end(pre.chars(), pre.pos()) == comment_end(self.chars(), self.pos()),
            decreases self.chars().len() - self.pos(),
        {
            let next = self.element_stream.peek();
            match next {
                None => {
                    return ;
                },
                Some(character) => {
                    if character == '\n' {
                        return ;
                    }
                    self.element_stream.skip();
                },
            }
        }
    }

    /// Scans the inside of a string literal: everything up to the closing
    /// quote becomes the token's text; a newline or the end of the input
    /// before the closing quote is an error.
    fn try_parse_string(&mut self) -> (r: Result<Token, TokenizerError>)
        requires
            old(self).wf(),
        ensures
            final(self).wf(),
            final(self).chars() == old(self).chars(),
            final(self).cur_line() == old(self).cur_line(),
            match string_scan(
                old(self).chars(),
                old(self).pos(),
                old(self).cur_line(),
                old(self).cur_col(),
            ) {
                Ok((text, j, c2)) => {
                    &&& r matches Ok(t) && t@ == Tok::String(text)
                    &&& final(self).pos() == j
                    &&& final(self).cur_col() == c2
                },
                Err(l) => r matches Err(e) && e@ == LexError::ExpectedCharacter('"', l),
            },
    {
        let mut characters = String::new();
        let ghost pre = *self;
        loop
            invariant
                pre == *old(self),
                self.wf(),
                self.chars() == pre.chars(),
                self.cur_line() == pre.cur_line(),
                string_scan(pre.chars(), pre.pos(), pre.cur_line(), pre.cur_col()) == (match string_scan(
                    self.chars(),
                    self.pos(),
                    self.cur_line(),
                    self.cur_col(),
                ) {
                    Ok((text, j, c2)) => Ok::<_, Loc>((characters@ + text, j, c2)),
                    Err(l) => Err(l),
                }),
            decreases self.chars().len() - self.pos(),
        {
            let ghost cur = *self;
            let copt = self.consume();
            match copt {
                None => {
                    return Err(TokenizerError::ExpectedCharacter('"', self.location()));
                },
                Some(character) => {
                    if character == '"' {
                        proof {
                            assert(characters@ + Seq::<char>::empty() =~= characters@);
                        }
                        return Ok(Token::String(characters));
                    }
                    if character == '\n' {
                        return Err(TokenizerError::ExpectedCharacter('"', self.location()));
                    }
                    let ghost text_old = characters@;
                    push_char(&mut characters, character);
                    proof {
                        assert forall|t2: Seq<char>| #[trigger] (characters@ + t2) == text_old + (
                        seq![character] + t2) by {
                            assert(characters@ + t2 =~= text_old + (seq![character] + t2));
                        }
                    }
                },
            }
        }
    }

    /// Scans an identifier: the first character is already consumed, and
    /// every following alphanumeric character joins the text.
    fn try_parse_identifier(&mut self, character: char) -> (r: Result<Token, TokenizerError>)
        requires
            old(self).wf(),
        ensures
            final(self).wf(),
            final(self).chars() == old(self).chars(),
            final(self).cur_line() == old(self).cur_line(),
            final(self).pos() == alnum_end(old(self).chars(), old(self).pos()),
            final(self).cur_col() == old(self).cur_col() + (final(self).pos() - old(self).pos()),
            r matches Ok(t) && t@ == Tok::Identifier(
                seq![character] + old(self).chars().subrange(old(self).pos(), final(self).pos()),
            ),
    {
        let mut characters = String::new();
        push_char(&mut characters, character);
        let ghost pre = *self;
        loop
            invariant
                pre == *old(self),
                self.wf(),
                self.chars() == pre.chars(),
                self.cur_line() == pre.cur_line(),
                pre.pos() <= self.pos(),
                self.cur_col() == pre.cur_col() + (self.pos() - pre.pos()),
                characters@ == seq![character] + pre.chars().subrange(pre.pos(), self.pos()),
                alnum_end(pre.chars(), pre.pos()) == alnum_end(self.chars(), self.pos()),
            ensures
                pre == *old(self),
                self.wf(),
                self.chars() == pre.chars(),
                self.cur_line() == pre.cur_line(),
                pre.pos() <= self.pos(),
                self.cur_col() == pre.cur_col() + (self.pos() - pre.pos()),
                characters@ == seq![character] + pre.chars().subrange(pre.pos(), self.pos()),
                self.pos() == alnum_end(pre.chars(), pre.pos()),
            decreases self.chars().len() - self.pos(),
        {
            let next = self.element_stream.peek();
            match next {
                None => {
                    break ;
                },
                Some(c) => {
                    if !char_is_alphanumeric(c) {
                        break ;
                    }
                    if c == '\n' {
                        proof {
                            assert(false);
                        }
                        return Err(TokenizerError::UnexpectedCharacter(' ', self.location()));
                    }
                    let ghost p = self.pos();
                    self.skip();
                    push_char(&mut characters, c);
                    proof {
                        assert(pre.chars().subrange(pre.pos(), p + 1) =~= pre.chars().subrange(
                            pre.pos(),
                            p,
                        ).push(c));
                        assert(characters@ =~= seq![character] + pre.chars().subrange(
                            pre.pos(),
                            p + 1,
                        ));
                    }
                },
            }
        }
        Ok(Token::Identifier(characters))
    }

    /// Scans a numeric literal: the first character is already consumed, and
    /// every following numeric-scan character joins the text.  Text that is
    /// not a valid numeric literal yields no token.
    fn try_parse_number(&mut self, character: char) -> (r: Option<Token>)
        requires
            old(self).wf(),
        ensures
            final(self).wf(),
            final(self).chars() == old(self).chars(),
            final(self).cur_line() == old(self).cur_line(),
            final(self).pos() == number_end(old(self).chars(), old(self).pos()),
            final(self).cur_col() == old(self).cur_col() + (final(self).pos() - old(self).pos()),
            ({
                let text = seq![character] + old(self).chars().subrange(
                    old(self).pos(),
                    final(self).pos(),
                );
                if is_valid_number_text(text) {
                    r matches Some(t) && t@ == Tok::Number(text)
                } else {
                    r is None
                }
            }),
    {
        let mut characters: Vec<char> = Vec::new();
        characters.push(character);
        let ghost pre = *self;
        loop
            invariant
                pre == *old(self),
                self.wf(),
                self.chars() == pre.chars(),
                self.cur_line() == pre.cur_line(),
                pre.pos() <= self.pos(),
                self.cur_col() == pre.cur_col() + (self.pos() - pre.pos()),
                characters@ == seq![character] + pre.chars().subrange(pre.pos(), self.pos()),
                number_end(pre.chars(), pre.pos()) == number_end(self.chars(), self.pos()),
            ensures
                pre == *old(self),
                self.wf(),
                self.chars() == pre.chars(),
                self.cur_line() == pre.cur_line(),
                pre.pos() <= self.pos(),
                self.cur_col() == pre.cur_col() + (self.pos() - pre.pos()),
                characters@ == seq![character] + pre.chars().subrange(pre.pos(), self.pos()),
                self.pos() == number_end(pre.chars(), pre.pos()),
            decreases self.chars().len() - self.pos(),
        {
            let next = self.element_stream.peek();
            match next {
                None => {
                    break ;
                },
                Some(c) => {
                    if !Tokenizer::is_json_number(c) {
                        break ;
                    }
                    let ghost p = self.pos();
                    self.skip();
                    characters.push(c);
                    proof {
                        assert(pre.chars().subrange(pre.pos(), p + 1) =~= pre.chars().subrange(
                            pre.pos(),
                            p,
                        ).push(c));
                        assert(characters@ =~= seq![character] + pre.chars().subrange(
                            pre.pos(),
                            p + 1,
                        ));
                    }
                },
            }
        }
        if check_number_text(&characters) {
            let mut text = String::new();
            let mut k: usize = 0;
            while k < characters.len()
                invariant
                    k <= characters@.len(),
                    text@ == characters@.take(k as int),
                decreases characters@.len() - k,
            {
                let c = characters[k];
                push_char(&mut text, c);
                k = k + 1;
                proof {
                    assert(text@ =~= characters@.take(k as int));
                }
            }
            proof {
                assert(characters@.take(characters@.len() as int) =~= characters@);
            }
            Some(Token::Number(text))
        } else {
            None
        }
    }

    /// Scans the whole text into a sequence of located tokens, or stops at
    /// the first malformed character.
    pub fn process(&mut self) -> (r: Result<Vec<TokenAndLocation>, TokenizerError>)
        requires
            old(self).wf(),
        ensures
            final(self).wf(),
            final(self).chars() == old(self).chars(),
            match lex_from(
                old(self).chars(),
                old(self).pos(),
                old(self).cur_line(),
                old(self).cur_col(),
            ) {
                Ok(ts) => r matches Ok(v) && tokens_view(v@) == ts,
                Err(e) => r matches Err(err) && err@ == e,
            },
    {
        let mut tokens: Vec<TokenAndLocation> = Vec::new();
        let ghost pre = *self;
        loop
            invariant
                pre == *old(self),
                self.wf(),
                self.chars() == pre.chars(),
                lex_from(pre.chars(), pre.pos(), pre.cur_line(), pre.cur_col()) == (match lex_from(
                    self.chars(),
                    self.pos(),
                    self.cur_line(),
                    self.cur_col(),
                ) {
                    Ok(ts) => Ok::<_, LexError>(tokens_view(tokens@) + ts),
                    Err(e) => Err(e),
                }),
            decreases self.chars().len() - self.pos(),
        {
            let ghost cur = *self;
            let copt = self.consume();
            let character = match copt {
                None => {
                    proof {
                        assert(tokens_view(tokens@) + Seq::<(Tok, Loc)>::empty() =~= tokens_view(
                            tokens@,
                        ));
                    }
                    return Ok(tokens);
                },
                Some(c) => c,
            };
            let token: Option<Token> = if character == '{' {
                Some(Token::OpenBrace)
            } else if character == '}' {
                Some(Token::CloseBrace)
            } else if character == ':' {
                Some(Token::Colon)
            } else if character == ',' {
                Some(Token::Comma)
            } else if character == '[' {
                Some(Token::OpenSquareBracket)
            } else if character == ']' {
                Some(Token::CloseSquareBracket)
            } else if character == '"' {
                let got = match self.try_parse_string() {
                    Ok(t) => Some(t),
                    Err(e) => {
                        return Err(e);
                    },
                };
                proof {
                    lemma_string_scan_bounds(
                        cur.chars(),
                        cur.pos() + 1,
                        cur.cur_line(),
                        (cur.cur_col() + 1) as nat,
                    );
                }
                got
            } else if character == '/' {
                self.skip_comment();
                proof {
                    lemma_comment_end_bounds(cur.chars(), cur.pos() + 1);
                }
                None
            } else if character == ' ' {
                None
            } else if character == '\n' {
                self.line = self.line + 1;
                self.column = 0;
                None
            } else if Tokenizer::is_json_number(character) {
                let got = self.try_parse_number(character);
                proof {
                    lemma_number_end_bounds(cur.chars(), cur.pos() + 1);
                    assert(cur.chars().subrange(cur.pos(), self.pos()) =~= seq![character]
                        + cur.chars().subrange(cur.pos() + 1, self.pos()));
                }
                got
            } else if char_is_alphanumeric(character) {
                let got = match self.try_parse_identifier(character) {
                    Ok(t) => Some(t),
                    Err(e) => {
                        return Err(e);
                    },
                };
                proof {
                    lemma_alnum_end_bounds(cur.chars(), cur.pos() + 1);
                    assert(cur.chars().subrange(cur.pos(), self.pos()) =~= seq![character]
                        + cur.chars().subrange(cur.pos() + 1, self.pos()));
                }
                got
            } else {
                return Err(TokenizerError::UnexpectedCharacter(character, self.location()));
            };
            match token {
                Some(t) => {
                    let location = self.location();
                    proof {
                        assert(lex_from(cur.chars(), cur.pos(), cur.cur_line(), cur.cur_col())
                            == lex_emit(
                            t@,
                            location@,
                            lex_from(self.chars(), self.pos(), self.cur_line(), self.cur_col()),
                        ));
                        let rest = lex_from(
                            self.chars(),
                            self.pos(),
                            self.cur_line(),
                            self.cur_col(),
                        );
                        if rest is Ok {
                            lemma_append_cons(tokens_view(tokens@), (t@, location@), rest->Ok_0);
                        }
                        assert(tokens_view(tokens@.push((t, location))) =~= tokens_view(tokens@)
                            + seq![(t@, location@)]);
                    }
                        tokens.push((t, location));
                },
                None => {},
            }
        }
    }
}

} // verus!
