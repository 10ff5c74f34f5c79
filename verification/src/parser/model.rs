use vstd::prelude::*;

use crate::location::Loc;
use crate::parser::error::ParseErr;
use crate::parser::value::{model_insert, ValueModel};
use crate::tokenizer::token::Tok;

verus! {

/// The value that the grammar derives from the token stream `ts` at index
/// `i`, with the index just past it; or the first error.
///
/// A value is a string, a number, exactly `true`, `false` or `null`, an
/// array, or an object.
pub open spec fn parse_value(ts: Seq<(Tok, Loc)>, i: int) -> Result<(ValueModel, int), ParseErr>
    decreases ts.len() - i, 2int,
{
    if !(0 <= i < ts.len()) {
        Err(ParseErr::UnexpectedEOF)
    } else {
        match ts[i].0 {
            Tok::String(s) => Ok((ValueModel::String(s), i + 1)),
            Tok::Number(n) => Ok((ValueModel::Number(n), i + 1)),
            Tok::Identifier(id) => if id == "true"@ {
                Ok((ValueModel::Boolean(true), i + 1))
            } else if id == "false"@ {
                Ok((ValueModel::Boolean(false), i + 1))
            } else if id == "null"@ {
                Ok((ValueModel::Null, i + 1))
            } else {
                Err(ParseErr::UnexpectedToken(ts[i].0, ts[i].1))
            },
            Tok::OpenSquareBracket => parse_array(ts, i),
            Tok::OpenBrace => parse_object(ts, i),
            _ => Err(ParseErr::UnexpectedToken(ts[i].0, ts[i].1)),
        }
    }
}

/// An object: an opening brace, key/value pairs, and a closing brace with no
/// comma just before it.  A stream that ends before the closing brace is an
/// error.
pub open spec fn parse_object(ts: Seq<(Tok, Loc)>, i: int) -> Result<(ValueModel, int), ParseErr>
    decreases ts.len() - i, 1int,
{
    if !(0 <= i < ts.len()) {
        Err(ParseErr::UnexpectedEOF)
    } else if !(ts[i].0 is OpenBrace) {
        Err(ParseErr::ExpectedToken(Tok::OpenBrace, ts[i].0, ts[i].1))
    } else {
        match object_items(ts, i + 1, Seq::empty()) {
            Ok((ps, j)) => Ok((ValueModel::Object(ps), j)),
            Err(e) => Err(e),
        }
    }
}

/// The key/value pairs of an object body from index `i` on, accumulated onto
/// `acc`; ends just past the closing brace.  A comma immediately before the
/// closing brace is rejected as a trailing comma.
pub open spec fn object_items(
    ts: Seq<(Tok, Loc)>,
    i: int,
    acc: Seq<(Seq<char>, ValueModel)>,
) -> Result<(Seq<(Seq<char>, ValueModel)>, int), ParseErr>
    decreases ts.len() - i, 4int,
{
    if !(0 <= i < ts.len()) {
        Err(ParseErr::UnexpectedEOF)
    } else if ts[i].0 is CloseBrace {
        if 0 <= i - 1 && ts[i - 1].0 is Comma {
            Err(ParseErr::UnexpectedToken(ts[i - 1].0, ts[i - 1].1))
        } else {
            Ok((acc, i + 1))
        }
    } else {
        match pair_from(ts, i + 1, ts[i].0, ts[i].1) {
            Err(e) => Err(e),
            Ok((key, value, j)) => if i + 1 < j <= ts.len() {
                object_items(ts, j, model_insert(acc, key, value))
            } else {
                Err(ParseErr::UnexpectedEOF)
            },
        }
    }
}

/// One key/value pair whose key token `tok` was already consumed at the
/// position before `i`: the key must be a string, followed by a colon and a
/// value; a comma after the value is consumed when present, and the stream
/// must not end right after the value.
pub open spec fn pair_from(ts: Seq<(Tok, Loc)>, i: int, tok: Tok, loc: Loc) -> Result<
    (Seq<char>, ValueModel, int),
    ParseErr,
>
    decreases ts.len() - i, 3int,
{
    match tok {
        Tok::String(key) => {
            if !(0 <= i < ts.len()) {
                Err(ParseErr::UnexpectedEOF)
            } else if !(ts[i].0 is Colon) {
                Err(ParseErr::ExpectedToken(Tok::Colon, ts[i].0, ts[i].1))
            } else {
                match parse_value(ts, i + 1) {
                    Err(e) => Err(e),
                    Ok((v, j)) => {
                        if !(0 <= j < ts.len()) {
                            Err(ParseErr::UnexpectedEOF)
                        } else if ts[j].0 is Comma {
                            Ok((key, v, j + 1))
                        } else {
                            Ok((key, v, j))
                        }
                    },
                }
            }
        },
        _ => Err(ParseErr::UnexpectedToken(tok, loc)),
    }
}

/// An array: an opening bracket, values separated by commas, and a closing
/// bracket with no comma just before it.  A stream that ends before the
/// closing bracket is an error.
pub open spec fn parse_array(ts: Seq<(Tok, Loc)>, i: int) -> Result<(ValueModel, int), ParseErr>
    decreases ts.len() - i, 1int,
{
    if !(0 <= i < ts.len()) {
        Err(ParseErr::UnexpectedEOF)
    } else if !(ts[i].0 is OpenSquareBracket) {
        Err(ParseErr::ExpectedToken(Tok::OpenSquareBracket, ts[i].0, ts[i].1))
    } else {
        match array_items(ts, i + 1, Seq::empty()) {
            Ok((vs, j)) => Ok((ValueModel::Array(vs), j)),
            Err(e) => Err(e),
        }
    }
}

/// The values of an array body from index `i` on, accumulated onto `acc`;
/// ends just past the closing bracket.  After each value a comma continues
/// the array and a closing bracket ends it; a comma immediately before a
/// closing bracket seen at the head is rejected as a trailing comma.
pub open spec fn array_items(ts: Seq<(Tok, Loc)>, i: int, acc: Seq<ValueModel>) -> Result<
    (Seq<ValueModel>, int),
    ParseErr,
>
    decreases ts.len() - i, 3int,
{
    if !(0 <= i < ts.len()) {
        Err(ParseErr::UnexpectedEOF)
    } else if ts[i].0 is CloseSquareBracket {
        if 0 <= i - 1 && ts[i - 1].0 is Comma {
            Err(ParseErr::UnexpectedToken(ts[i - 1].0, ts[i - 1].1))
        } else {
            Ok((acc, i + 1))
        }
    } else {
        match parse_value(ts, i) {
            Err(e) => Err(e),
            Ok((v, j)) => if i < j <= ts.len() {
                if !(j < ts.len()) {
                    Err(ParseErr::UnexpectedEOF)
                } else if ts[j].0 is Comma {
                    array_items(ts, j + 1, acc.push(v))
                } else if ts[j].0 is CloseSquareBracket {
                    Ok((acc.push(v), j + 1))
                } else {
                    Err(ParseErr::UnexpectedToken(ts[j].0, ts[j].1))
                }
            } else {
                Err(ParseErr::UnexpectedEOF)
            },
        }
    }
}

/// Every successful parse moves the position strictly forward, and never
/// past the end of the stream.
pub proof fn lemma_parse_progress(ts: Seq<(Tok, Loc)>, i: int)
    ensures
        parse_value(ts, i) matches Ok((v, j)) ==> i < j <= ts.len(),
        parse_object(ts, i) matches Ok((v, j)) ==> i < j <= ts.len(),
        parse_array(ts, i) matches Ok((v, j)) ==> i < j <= ts.len(),
    decreases ts.len() - i, 2int,
{
    if 0 <= i < ts.len() {
        if ts[i].0 is OpenBrace {
            lemma_object_items_progress(ts, i + 1, Seq::empty());
        }
        if ts[i].0 is OpenSquareBracket {
            lemma_array_items_progress(ts, i + 1, Seq::empty());
        }
    }
}

/// Every successful scan of an object body or an array body moves the
/// position strictly forward, and never past the end of the stream.
proof fn lemma_object_items_progress(
    ts: Seq<(Tok, Loc)>,
    i: int,
    acc: Seq<(Seq<char>, ValueModel)>,
)
    ensures
        object_items(ts, i, acc) matches Ok((ps, j)) ==> i < j <= ts.len(),
    decreases ts.len() - i, 4int,
{
    if 0 <= i < ts.len() && !(ts[i].0 is CloseBrace) {
        lemma_pair_from_progress(ts, i + 1, ts[i].0, ts[i].1);
        match pair_from(ts, i + 1, ts[i].0, ts[i].1) {
            Ok((key, value, j)) => {
                if i + 1 < j <= ts.len() {
                    lemma_object_items_progress(ts, j, model_insert(acc, key, value));
                }
            },
            Err(_) => {},
        }
    }
}

/// Every successful pair scan moves the position strictly forward, and never
/// past the end of the stream.
pub proof fn lemma_pair_from_progress(ts: Seq<(Tok, Loc)>, i: int, tok: Tok, loc: Loc)
    ensures
        pair_from(ts, i, tok, loc) matches Ok((k, v, j)) ==> i < j <= ts.len(),
    decreases ts.len() - i, 3int,
{
    if tok matches Tok::String(_) {
        if 0 <= i < ts.len() && ts[i].0 is Colon {
            lemma_parse_progress(ts, i + 1);
        }
    }
}

/// See `lemma_object_items_progress`.
proof fn lemma_array_items_progress(ts: Seq<(Tok, Loc)>, i: int, acc: Seq<ValueModel>)
    ensures
        array_items(ts, i, acc) matches Ok((vs, j)) ==> i < j <= ts.len(),
    decreases ts.len() - i, 3int,
{
    if 0 <= i < ts.len() && !(ts[i].0 is CloseSquareBracket) {
        lemma_parse_progress(ts, i);
        match parse_value(ts, i) {
            Ok((v, j)) => {
                if i < j < ts.len() && ts[j].0 is Comma {
                    lemma_array_items_progress(ts, j + 1, acc.push(v));
                }
            },
            Err(_) => {},
        }
    }
}

} // verus!
