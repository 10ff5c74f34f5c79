pub mod error;
pub mod model;
pub mod value;

use vstd::prelude::*;
use vstd::string::StringExecFns;

use crate::element_stream::ElementStream;
use crate::location::{Loc, Location};
use crate::parser::error::{ParseErr, ParserError};
use crate::parser::model::{
    array_items, lemma_pair_from_progress, lemma_parse_progress, object_items, pair_from,
    parse_array, parse_object, parse_value,
};
use crate::parser::value::{
    insert_pair, lemma_value_models_push, pair_models, value_models, JsonValue, ValueModel,
};
use crate::tokenizer::token::{token_location_view, tokens_view, Tok, Token, TokenAndLocation};

verus! {

/// Consumes located tokens from a cursor, applying a recursive-descent
/// grammar to build a value tree.
pub struct Parser {
    element_stream: ElementStream<TokenAndLocation>,
}

impl Parser {
    /// The token stream being parsed.
    pub closed spec fn toks(&self) -> Seq<(Tok, Loc)> {
        tokens_view(self.element_stream.seq())
    }

    /// The cursor position.
    pub closed spec fn pos(&self) -> int {
        self.element_stream.pos()
    }

    /// The cursor stays inside the stream.
    pub closed spec fn wf(&self) -> bool {
        self.element_stream.wf()
    }

    /// Makes a parser over the tokenizer's output.
    pub fn new(tokens: Vec<TokenAndLocation>) -> (p: Parser)
        ensures
            p.toks() == tokens_view(tokens@),
            p.pos() == 0,
            p.wf(),
    {
        Parser { element_stream: ElementStream::new(tokens) }
    }

    /// Consumes one token; the stream ending here is an error.
    fn try_consume(&mut self) -> (r: Result<TokenAndLocation, ParserError>)
        requires
            old(self).wf(),
        ensures
            final(self).wf(),
            final(self).toks() == old(self).toks(),
            old(self).pos() < old(self).toks().len() ==> {
                &&& r matches Ok(tl) && token_location_view(tl) == old(self).toks()[old(
                    self,
                ).pos()]
                &&& final(self).pos() == old(self).pos() + 1
            },
            old(self).pos() >= old(self).toks().len() ==> {
                &&& r matches Err(e) && e@ == ParseErr::UnexpectedEOF
                &&& final(self).pos() == old(self).pos()
            },
    {
        match self.element_stream.consume() {
            Some(value) => Ok(value),
            None => Err(ParserError::UnexpectedEOF),
        }
    }

    /// Peeks at the next token; the stream ending here is an error.
    fn try_peek(&self) -> (r: Result<TokenAndLocation, ParserError>)
        requires
            self.wf(),
        ensures
            self.pos() < self.toks().len() ==> (r matches Ok(tl) && token_location_view(tl)
                == self.toks()[self.pos()]),
            self.pos() >= self.toks().len() ==> (r matches Err(e) && e@
                == ParseErr::UnexpectedEOF),
    {
        match self.element_stream.peek() {
            Some(value) => {
                proof {
                    assert(self.toks().len() == self.element_stream.seq().len());
                    assert(self.toks()[self.pos()] == token_location_view(
                        self.element_stream.seq()[self.pos()],
                    ));
                }
                Ok(value)
            },
            None => Err(ParserError::UnexpectedEOF),
        }
    }

    /// Consumes the next token, which must be `token`.
    fn expect_token(&mut self, token: Token) -> (r: Result<(), ParserError>)
        requires
            old(self).wf(),
        ensures
            final(self).wf(),
            final(self).toks() == old(self).toks(),
            old(self).pos() >= old(self).toks().len() ==> {
                &&& r matches Err(e) && e@ == ParseErr::UnexpectedEOF
                &&& final(self).pos() == old(self).pos()
            },
            old(self).pos() < old(self).toks().len() ==> {
                &&& final(self).pos() == old(self).pos() + 1
                &&& if old(self).toks()[old(self).pos()].0 == token@ {
                    r is Ok
                } else {
                    r matches Err(e) && e@ == ParseErr::ExpectedToken(
                        token@,
                        old(self).toks()[old(self).pos()].0,
                        old(self).toks()[old(self).pos()].1,
                    )
                }
            },
    {
        let (next_token, location) = match self.try_consume() {
            Err(e) => {
                return Err(e);
            },
            Ok(tl) => tl,
        };
        if !next_token.same_token(&token) {
            return Err(ParserError::ExpectedToken(token, next_token, location));
        }
        Ok(())
    }

    /// Rejects a comma sitting right before the just-consumed closing
    /// delimiter: a trailing comma is invalid.
    fn check_for_trailing_comma(&self) -> (r: Result<(), ParserError>)
        ensures
            ({
                let k = self.pos() - 2;
                if 0 <= k < self.toks().len() && self.toks()[k].0 is Comma {
                    r matches Err(e) && e@ == ParseErr::UnexpectedToken(
                        self.toks()[k].0,
                        self.toks()[k].1,
                    )
                } else {
                    r is Ok
                }
            }),
    {
        let previous = self.element_stream.previous(2);
        match previous {
            None => Ok(()),
            Some((token, location)) => {
                if token.same_token(&Token::Comma) {
                    Err(ParserError::UnexpectedToken(token, location))
                } else {
                    Ok(())
                }
            },
        }
    }

    /// Parses an object: an opening brace, key/value pairs, and a closing
    /// brace with no trailing comma.  A duplicate key overwrites the earlier
    /// value.
    pub fn parse_object(&mut self) -> (r: Result<JsonValue, ParserError>)
        requires
            old(self).wf(),
        ensures
            final(self).wf(),
            final(self).toks() == old(self).toks(),
            match parse_object(old(self).toks(), old(self).pos()) {
                Ok((m, j)) => r matches Ok(v) && v@ == m && final(self).pos() == j,
                Err(e) => r matches Err(err) && err@ == e,
            },
        decreases old(self).toks().len() - old(self).pos(), 1int,
    {
        let ghost ts = old(self).toks();
        let ghost i0 = old(self).pos();
        match self.expect_token(Token::OpenBrace) {
            Err(e) => {
                return Err(e);
            },
            Ok(()) => {},
        }
        let mut map: Vec<(String, JsonValue)> = Vec::new();
        proof {
            assert(pair_models(map@) =~= Seq::<(Seq<char>, ValueModel)>::empty());
        }
        loop
            invariant
                ts == old(self).toks(),
                i0 == old(self).pos(),
                self.wf(),
                self.toks() == ts,
                i0 < self.pos(),
                parse_object(ts, i0) == (match object_items(ts, self.pos(), pair_models(map@)) {
                    Ok((ps2, j)) => Ok::<(ValueModel, int), ParseErr>((ValueModel::Object(ps2), j)),
                    Err(e) => Err(e),
                }),
            decreases ts.len() - self.pos(), 3int,
        {
            let ghost cur = *self;
            let consumed = match self.try_consume() {
                Err(e) => {
                    return Err(e);
                },
                Ok(tl) => tl,
            };
            let (token, location) = consumed;
            if token.same_token(&Token::CloseBrace) {
                match self.check_for_trailing_comma() {
                    Err(e) => {
                        return Err(e);
                    },
                    Ok(()) => {},
                }
                return Ok(JsonValue::Object(map));
            }
            let pair = match self.try_parse_key_value_pair(token, location) {
                Err(e) => {
                    return Err(e);
                },
                Ok(kv) => kv,
            };
            let (key, value) = pair;
            proof {
                lemma_pair_from_progress(ts, cur.pos() + 1, ts[cur.pos()].0, ts[cur.pos()].1);
            }
            insert_pair(&mut map, key, value);
        }
    }

    /// Parses an array: an opening bracket, values separated by commas, and
    /// a closing bracket with no trailing comma.
    pub fn try_parse_array(&mut self) -> (r: Result<JsonValue, ParserError>)
        requires
            old(self).wf(),
        ensures
            final(self).wf(),
            final(self).toks() == old(self).toks(),
            match parse_array(old(self).toks(), old(self).pos()) {
                Ok((m, j)) => r matches Ok(v) && v@ == m && final(self).pos() == j,
                Err(e) => r matches Err(err) && err@ == e,
            },
        decreases old(self).toks().len() - old(self).pos(), 1int,
    {
        let ghost ts = old(self).toks();
        let ghost i0 = old(self).pos();
        match self.expect_token(Token::OpenSquareBracket) {
            Err(e) => {
                return Err(e);
            },
            Ok(()) => {},
        }
        let mut values: Vec<JsonValue> = Vec::new();
        proof {
            assert(value_models(values@) =~= Seq::<ValueModel>::empty());
        }
        loop
            invariant
                ts == old(self).toks(),
                i0 == old(self).pos(),
                self.wf(),
                self.toks() == ts,
                i0 < self.pos(),
                parse_array(ts, i0) == (match array_items(ts, self.pos(), value_models(values@)) {
                    Ok((vs, j)) => Ok::<(ValueModel, int), ParseErr>((ValueModel::Array(vs), j)),
                    Err(e) => Err(e),
                }),
            decreases ts.len() - self.pos(), 3int,
        {
            let ghost cur = *self;
            match self.try_peek() {
                Err(e) => {
                    return Err(e);
                },
                Ok(tl) => {
                    let (token, _peek_location) = tl;
                    if token.same_token(&Token::CloseSquareBracket) {
                        self.element_stream.skip();
                        match self.check_for_trailing_comma() {
                            Err(e) => {
                                return Err(e);
                            },
                            Ok(()) => {},
                        }
                        return Ok(JsonValue::Array(values));
                    }
                },
            }
            let value = match self.try_parse_value() {
                Err(e) => {
                    return Err(e);
                },
                Ok(v) => v,
            };
            proof {
                lemma_parse_progress(ts, cur.pos());
            }
            let ghost vm = value@;
            let ghost vals_old = values@;
            values.push(value);
            proof {
                lemma_value_models_push(vals_old, values@.last());
                assert(value_models(values@) == value_models(vals_old).push(vm));
            }
            let (next_token, next_location) = match self.try_consume() {
                Err(e) => {
                    return Err(e);
                },
                Ok(tl) => tl,
            };
            if next_token.same_token(&Token::Comma) {
            } else if next_token.same_token(&Token::CloseSquareBracket) {
                return Ok(JsonValue::Array(values));
            } else {
                return Err(ParserError::UnexpectedToken(next_token, next_location));
            }
        }
    }

    /// Parses one value: a string, a number, exactly `true`, `false` or
    /// `null`, an array, or an object.
    pub fn try_parse_value(&mut self) -> (r: Result<JsonValue, ParserError>)
        requires
            old(self).wf(),
        ensures
            final(self).wf(),
            final(self).toks() == old(self).toks(),
            match parse_value(old(self).toks(), old(self).pos()) {
                Ok((m, j)) => r matches Ok(v) && v@ == m && final(self).pos() == j,
                Err(e) => r matches Err(err) && err@ == e,
            },
        decreases old(self).toks().len() - old(self).pos(), 2int,
    {
        let peeked = match self.try_peek() {
            Err(e) => {
                return Err(e);
            },
            Ok(tl) => tl,
        };
        let (first_token, location) = peeked;
        match first_token {
            Token::String(string) => {
                self.element_stream.skip();
                Ok(JsonValue::String(string))
            },
            Token::Number(number) => {
                self.element_stream.skip();
                Ok(JsonValue::Number(number))
            },
            Token::Identifier(identifier) => {
                self.element_stream.skip();
                let word_true = String::from_str("true");
                let word_false = String::from_str("false");
                let word_null = String::from_str("null");
                if identifier == word_true {
                    Ok(JsonValue::Boolean(true))
                } else if identifier == word_false {
                    Ok(JsonValue::Boolean(false))
                } else if identifier == word_null {
                    Ok(JsonValue::Null)
                } else {
                    Err(ParserError::UnexpectedToken(Token::Identifier(identifier), location))
                }
            },
            Token::OpenSquareBracket => self.try_parse_array(),
            Token::OpenBrace => self.parse_object(),
            other => Err(ParserError::UnexpectedToken(other, location)),
        }
    }

    /// Parses one key/value pair whose key token was already consumed: the
    /// key must be a string, followed by a colon and a value; a comma after
    /// the value is consumed when present.
    fn try_parse_key_value_pair(&mut self, token: Token, location: Location) -> (r: Result<
        (String, JsonValue),
        ParserError,
    >)
        requires
            old(self).wf(),
        ensures
            final(self).wf(),
            final(self).toks() == old(self).toks(),
            match pair_from(old(self).toks(), old(self).pos(), token@, location@) {
                Ok((k, v, j)) => r matches Ok(kv) && kv.0@ == k && kv.1@ == v && final(self).pos()
                    == j,
                Err(e) => r matches Err(err) && err@ == e,
            },
        decreases old(self).toks().len() - old(self).pos(), 3int,
    {
        let key = match token {
            Token::String(key) => key,
            _ => {
                return Err(ParserError::UnexpectedToken(token, location));
            },
        };
        match self.expect_token(Token::Colon) {
            Err(e) => {
                return Err(e);
            },
            Ok(()) => {},
        }
        let value = match self.try_parse_value() {
            Err(e) => {
                return Err(e);
            },
            Ok(v) => v,
        };
        let (next_token, _peek_location) = match self.try_peek() {
            Err(e) => {
                return Err(e);
            },
            Ok(tl) => tl,
        };
        if next_token.same_token(&Token::Comma) {
            self.element_stream.skip();
        }
        Ok((key, value))
    }
}

} // verus!
