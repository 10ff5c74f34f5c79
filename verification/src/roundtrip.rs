use vstd::prelude::*;

use crate::location::Loc;
use crate::parser::error::ParseErr;
use crate::parser::model::{array_items, object_items, pair_from, parse_array, parse_object, parse_value};
use crate::parser::value::{find_key, keys_distinct, model_insert, ValueModel};
use crate::tokenizer::chars::is_alphanumeric_char;
use crate::tokenizer::error::LexError;
use crate::tokenizer::model::{
    alnum_end, is_json_number_char, lex_emit, lex_from, number_end, string_scan,
};
use crate::tokenizer::number::is_valid_number_text;
use crate::tokenizer::token::Tok;

verus! {

/// The token stream that a value renders to, before locations.
pub open spec fn toks_of(m: ValueModel) -> Seq<Tok>
    decreases m, 1int,
{
    match m {
        ValueModel::String(s) => seq![Tok::String(s)],
        ValueModel::Number(t) => seq![Tok::Number(t)],
        ValueModel::Boolean(b) => if b {
            seq![Tok::Identifier("true"@)]
        } else {
            seq![Tok::Identifier("false"@)]
        },
        ValueModel::Null => seq![Tok::Identifier("null"@)],
        ValueModel::Array(vs) => {
            proof {
                assert(decreases_to!(m => vs));
            }
            seq![Tok::OpenSquareBracket] + toks_of_array_items(vs) + seq![Tok::CloseSquareBracket]
        },
        ValueModel::Object(ps) => {
            proof {
                assert(decreases_to!(m => ps));
            }
            seq![Tok::OpenBrace] + toks_of_object_items(ps) + seq![Tok::CloseBrace]
        },
    }
}

/// The token stream of an array body: elements separated by commas.
pub open spec fn toks_of_array_items(vs: Seq<ValueModel>) -> Seq<Tok>
    decreases vs, 0int,
{
    if vs.len() == 0 {
        Seq::empty()
    } else {
        proof {
            vstd::seq::axiom_seq_index_decreases::<ValueModel>(vs, 0);
            vstd::seq::axiom_seq_len_decreases::<ValueModel>(vs, vs.drop_first());
        }
        if vs.len() == 1 {
            toks_of(vs[0])
        } else {
            toks_of(vs[0]) + seq![Tok::Comma] + toks_of_array_items(vs.drop_first())
        }
    }
}

/// The token stream of one key/value pair.
pub open spec fn pair_toks(p: (Seq<char>, ValueModel)) -> Seq<Tok>
    decreases p, 1int,
{
    seq![Tok::String(p.0), Tok::Colon] + toks_of(p.1)
}

/// The token stream of an object body: pairs separated by commas.
pub open spec fn toks_of_object_items(ps: Seq<(Seq<char>, ValueModel)>) -> Seq<Tok>
    decreases ps, 2int,
{
    if ps.len() == 0 {
        Seq::empty()
    } else {
        proof {
            vstd::seq::axiom_seq_index_decreases::<(Seq<char>, ValueModel)>(ps, 0);
            vstd::seq::axiom_seq_len_decreases::<(Seq<char>, ValueModel)>(ps, ps.drop_first());
        }
        if ps.len() == 1 {
            pair_toks(ps[0])
        } else {
            pair_toks(ps[0]) + seq![Tok::Comma] + toks_of_object_items(ps.drop_first())
        }
    }
}

/// A value whose objects all have distinct keys, recursively.
pub open spec fn model_ok(m: ValueModel) -> bool
    decreases m, 1int,
{
    match m {
        ValueModel::Array(vs) => {
            proof {
                assert(decreases_to!(m => vs));
            }
            models_ok(vs)
        },
        ValueModel::Object(ps) => {
            proof {
                assert(decreases_to!(m => ps));
            }
            keys_distinct(ps) && pairs_ok(ps)
        },
        _ => true,
    }
}

/// Every element is a `model_ok` value.
pub open spec fn models_ok(vs: Seq<ValueModel>) -> bool
    decreases vs, 0int,
{
    if vs.len() == 0 {
        true
    } else {
        proof {
            vstd::seq::axiom_seq_index_decreases::<ValueModel>(vs, 0);
            vstd::seq::axiom_seq_len_decreases::<ValueModel>(vs, vs.drop_first());
        }
        model_ok(vs[0]) && models_ok(vs.drop_first())
    }
}

/// Every pair's value is a `model_ok` value.
pub open spec fn pairs_ok(ps: Seq<(Seq<char>, ValueModel)>) -> bool
    decreases ps, 0int,
{
    if ps.len() == 0 {
        true
    } else {
        proof {
            vstd::seq::axiom_seq_index_decreases::<(Seq<char>, ValueModel)>(ps, 0);
            vstd::seq::axiom_seq_len_decreases::<(Seq<char>, ValueModel)>(ps, ps.drop_first());
        }
        model_ok(ps[0].1) && pairs_ok(ps.drop_first())
    }
}

/// The tokens at positions `i` onwards of `ts` are exactly `ws`.
pub open spec fn window_match(ts: Seq<(Tok, Loc)>, i: int, ws: Seq<Tok>) -> bool {
    forall|k: int| 0 <= k < ws.len() ==> ts[i + k].0 == #[trigger] ws[k]
}

/// A window over a concatenation splits into windows over the halves.
proof fn lemma_window_split(ts: Seq<(Tok, Loc)>, i: int, a: Seq<Tok>, b: Seq<Tok>)
    requires
        window_match(ts, i, a + b),
    ensures
        window_match(ts, i, a),
        window_match(ts, i + a.len(), b),
{
    assert forall|k: int| 0 <= k < a.len() implies ts[i + k].0 == #[trigger] a[k] by {
        assert((a + b)[k] == a[k]);
    }
    assert forall|k: int| 0 <= k < b.len() implies ts[i + a.len() + k].0 == #[trigger] b[k] by {
        assert((a + b)[a.len() + k] == b[k]);
    }
}

/// Every rendered token stream is non-empty and never starts with
/// punctuation that closes or separates.
proof fn lemma_toks_of_head(m: ValueModel)
    ensures
        toks_of(m).len() >= 1,
        !(toks_of(m)[0] is CloseBrace),
        !(toks_of(m)[0] is CloseSquareBracket),
        !(toks_of(m)[0] is Comma),
        !(toks_of(m)[0] is Colon),
{
    match m {
        ValueModel::Array(vs) => {
            assert(toks_of(m)[0] == Tok::OpenSquareBracket);
        },
        ValueModel::Object(ps) => {
            assert(toks_of(m)[0] == Tok::OpenBrace);
        },
        _ => {},
    }
}

/// A key absent from every pair is not found.
proof fn lemma_find_key_absent(ps: Seq<(Seq<char>, ValueModel)>, key: Seq<char>, i: int)
    requires
        0 <= i <= ps.len(),
        forall|j: int| 0 <= j < ps.len() ==> ps[j].0 != key,
    ensures
        find_key(ps, key, i) == -1,
    decreases ps.len() - i,
{
    if i < ps.len() {
        lemma_find_key_absent(ps, key, i + 1);
    }
}

/// Every rendered token stream ends in a token that is not a comma.
proof fn lemma_toks_of_last(m: ValueModel)
    ensures
        toks_of(m).len() >= 1,
        !(toks_of(m).last() is Comma),
{
    match m {
        ValueModel::Array(vs) => {
            let front = seq![Tok::OpenSquareBracket] + toks_of_array_items(vs);
            assert(toks_of(m) == front + seq![Tok::CloseSquareBracket]);
            assert((front + seq![Tok::CloseSquareBracket])[front.len() as int]
                == Tok::CloseSquareBracket);
        },
        ValueModel::Object(ps) => {
            let front = seq![Tok::OpenBrace] + toks_of_object_items(ps);
            assert(toks_of(m) == front + seq![Tok::CloseBrace]);
            assert((front + seq![Tok::CloseBrace])[front.len() as int] == Tok::CloseBrace);
        },
        _ => {},
    }
}

/// A rendered token window parses back to exactly the value it came from,
/// ending just past the window.
pub proof fn lemma_parse_value_exact(m: ValueModel, ts: Seq<(Tok, Loc)>, i: int)
    requires
        model_ok(m),
        0 <= i,
        i + toks_of(m).len() <= ts.len(),
        window_match(ts, i, toks_of(m)),
    ensures
        parse_value(ts, i) == Ok::<(ValueModel, int), ParseErr>((m, i + toks_of(m).len())),
    decreases m, 1int,
{
    lemma_toks_of_head(m);
    match m {
        ValueModel::String(s) => {
            assert(toks_of(m)[0] == Tok::String(s));
        },
        ValueModel::Number(t) => {
            assert(toks_of(m)[0] == Tok::Number(t));
        },
        ValueModel::Boolean(b) => {
            proof_strlit_facts();
            if b {
                assert(toks_of(m)[0] == Tok::Identifier("true"@));
            } else {
                assert(toks_of(m)[0] == Tok::Identifier("false"@));
            }
        },
        ValueModel::Null => {
            proof_strlit_facts();
            assert(toks_of(m)[0] == Tok::Identifier("null"@));
        },
        ValueModel::Array(vs) => {
            let body = toks_of_array_items(vs);
            let front = seq![Tok::OpenSquareBracket] + body;
            assert(toks_of(m) == front + seq![Tok::CloseSquareBracket]);
            lemma_window_split(ts, i, front, seq![Tok::CloseSquareBracket]);
            lemma_window_split(ts, i, seq![Tok::OpenSquareBracket], body);
            assert(seq![Tok::OpenSquareBracket][0] == Tok::OpenSquareBracket);
            assert(seq![Tok::CloseSquareBracket][0] == Tok::CloseSquareBracket);
            assert(ts[i].0 == Tok::OpenSquareBracket);
            assert(ts[i + front.len() as int + 0].0 == Tok::CloseSquareBracket);
            assert(decreases_to!(m => vs));
            lemma_array_items_exact(vs, Seq::empty(), ts, i + 1);
            assert(Seq::<ValueModel>::empty() + vs =~= vs);
        },
        ValueModel::Object(ps) => {
            let body = toks_of_object_items(ps);
            let front = seq![Tok::OpenBrace] + body;
            assert(toks_of(m) == front + seq![Tok::CloseBrace]);
            lemma_window_split(ts, i, front, seq![Tok::CloseBrace]);
            lemma_window_split(ts, i, seq![Tok::OpenBrace], body);
            assert(seq![Tok::OpenBrace][0] == Tok::OpenBrace);
            assert(seq![Tok::CloseBrace][0] == Tok::CloseBrace);
            assert(ts[i].0 == Tok::OpenBrace);
            assert(ts[i + front.len() as int + 0].0 == Tok::CloseBrace);
            assert(keys_distinct(Seq::<(Seq<char>, ValueModel)>::empty() + ps)) by {
                assert(Seq::<(Seq<char>, ValueModel)>::empty() + ps =~= ps);
            }
            assert(decreases_to!(m => ps));
            lemma_object_items_exact(ps, Seq::empty(), ts, i + 1);
            assert(Seq::<(Seq<char>, ValueModel)>::empty() + ps =~= ps);
        },
    }
}

/// The words `true`, `false` and `null` are pairwise different.
proof fn proof_strlit_facts()
    ensures
        "true"@ != "false"@,
        "true"@ != "null"@,
        "false"@ != "null"@,
{
    reveal_strlit("true");
    reveal_strlit("false");
    reveal_strlit("null");
    assert("true"@.len() == 4);
    assert("false"@.len() == 5);
    assert("null"@.len() == 4);
    assert("true"@[0] == 't');
    assert("null"@[0] == 'n');
}

/// A rendered array body parses back to exactly its elements, appended to
/// the accumulator, ending just past the closing bracket.
proof fn lemma_array_items_exact(
    vs: Seq<ValueModel>,
    acc: Seq<ValueModel>,
    ts: Seq<(Tok, Loc)>,
    i: int,
)
    requires
        models_ok(vs),
        0 <= i,
        i + toks_of_array_items(vs).len() < ts.len(),
        window_match(ts, i, toks_of_array_items(vs)),
        ts[i + toks_of_array_items(vs).len()].0 is CloseSquareBracket,
        vs.len() == 0 ==> (i - 1 >= 0 ==> !(ts[i - 1].0 is Comma)),
    ensures
        array_items(ts, i, acc) == Ok::<(Seq<ValueModel>, int), ParseErr>(
            (acc + vs, i + toks_of_array_items(vs).len() + 1),
        ),
    decreases vs, 0int,
{
    if vs.len() == 0 {
        assert(acc + vs =~= acc);
    } else {
        let v0 = vs[0];
        let rest = vs.drop_first();
        vstd::seq::axiom_seq_index_decreases::<ValueModel>(vs, 0);
        vstd::seq::axiom_seq_len_decreases::<ValueModel>(vs, rest);
        lemma_toks_of_head(v0);
        if vs.len() == 1 {
            assert(toks_of_array_items(vs) == toks_of(v0));
            lemma_parse_value_exact(v0, ts, i);
            assert(ts[i + 0].0 == toks_of(v0)[0]);
            assert(acc.push(v0) =~= acc + vs);
        } else {
            let a = toks_of(v0);
            let brest = toks_of_array_items(rest);
            assert(toks_of_array_items(vs) == (a + seq![Tok::Comma]) + brest);
            lemma_window_split(ts, i, a + seq![Tok::Comma], brest);
            lemma_window_split(ts, i, a, seq![Tok::Comma]);
            assert(seq![Tok::Comma][0] == Tok::Comma);
            assert(ts[i + a.len() as int + 0].0 == Tok::Comma);
            assert(ts[i + 0].0 == toks_of(v0)[0]);
            lemma_parse_value_exact(v0, ts, i);
            lemma_array_items_exact(rest, acc.push(v0), ts, i + a.len() as int + 1);
            assert(acc.push(v0) + rest =~= acc + vs);
        }
    }
}

/// A rendered object body parses back to exactly its pairs, appended to the
/// accumulator, ending just past the closing brace.
proof fn lemma_object_items_exact(
    ps: Seq<(Seq<char>, ValueModel)>,
    acc: Seq<(Seq<char>, ValueModel)>,
    ts: Seq<(Tok, Loc)>,
    i: int,
)
    requires
        pairs_ok(ps),
        keys_distinct(acc + ps),
        0 <= i,
        i + toks_of_object_items(ps).len() < ts.len(),
        window_match(ts, i, toks_of_object_items(ps)),
        ts[i + toks_of_object_items(ps).len()].0 is CloseBrace,
        ps.len() == 0 ==> (i - 1 >= 0 ==> !(ts[i - 1].0 is Comma)),
    ensures
        object_items(ts, i, acc) == Ok::<(Seq<(Seq<char>, ValueModel)>, int), ParseErr>(
            (acc + ps, i + toks_of_object_items(ps).len() + 1),
        ),
    decreases ps, 0int,
{
    if ps.len() == 0 {
        assert(acc + ps =~= acc);
    } else {
        let p0 = ps[0];
        let rest = ps.drop_first();
        vstd::seq::axiom_seq_index_decreases::<(Seq<char>, ValueModel)>(ps, 0);
        vstd::seq::axiom_seq_len_decreases::<(Seq<char>, ValueModel)>(ps, rest);
        let head = seq![Tok::String(p0.0), Tok::Colon];
        assert(pair_toks(p0) == head + toks_of(p0.1));
        // the key this pair inserts is fresh: no earlier pair in `acc` has it
        assert forall|j2: int| 0 <= j2 < acc.len() implies acc[j2].0 != p0.0 by {
            assert((acc + ps)[j2] == acc[j2]);
            assert((acc + ps)[acc.len() as int] == ps[0]);
        }
        lemma_find_key_absent(acc, p0.0, 0);
        assert(model_insert(acc, p0.0, p0.1) == acc.push(p0));
        lemma_toks_of_last(p0.1);
        if ps.len() == 1 {
            assert(toks_of_object_items(ps) == pair_toks(p0));
            lemma_window_split(ts, i, head, toks_of(p0.1));
            assert(head[0] == Tok::String(p0.0));
            assert(head[1] == Tok::Colon);
            assert(ts[i + 0].0 == Tok::String(p0.0));
            assert(ts[i + 1].0 == Tok::Colon);
            lemma_parse_value_exact(p0.1, ts, i + 2);
            let j = i + 2 + toks_of(p0.1).len();
            assert(ts[j - 1].0 == toks_of(p0.1)[toks_of(p0.1).len() - 1]) by {
                assert(ts[i + 2 + (toks_of(p0.1).len() - 1)].0 == toks_of(p0.1)[toks_of(
                    p0.1,
                ).len() - 1]);
            }
            assert(pair_from(ts, i + 1, ts[i].0, ts[i].1) == Ok::<(Seq<char>, ValueModel, int), ParseErr>((p0.0, p0.1, j)));
            assert(acc.push(p0) + rest =~= acc.push(p0));
            assert(acc.push(p0) =~= acc + ps);
            assert(j == i + toks_of_object_items(ps).len());
            assert(!(ts[i].0 is CloseBrace));
            assert(object_items(ts, j, acc.push(p0)) == Ok::<(Seq<(Seq<char>, ValueModel)>, int), ParseErr>((acc.push(p0), j + 1)));
            assert(object_items(ts, i, acc) == Ok::<(Seq<(Seq<char>, ValueModel)>, int), ParseErr>((acc.push(p0), j + 1)));
        } else {
            let a = pair_toks(p0);
            let brest = toks_of_object_items(rest);
            assert(toks_of_object_items(ps) == (a + seq![Tok::Comma]) + brest);
            lemma_window_split(ts, i, a + seq![Tok::Comma], brest);
            lemma_window_split(ts, i, a, seq![Tok::Comma]);
            lemma_window_split(ts, i, head, toks_of(p0.1));
            assert(seq![Tok::Comma][0] == Tok::Comma);
            assert(ts[i + a.len() as int + 0].0 == Tok::Comma);
            assert(head[0] == Tok::String(p0.0));
            assert(head[1] == Tok::Colon);
            assert(ts[i + 0].0 == Tok::String(p0.0));
            assert(ts[i + 1].0 == Tok::Colon);
            lemma_parse_value_exact(p0.1, ts, i + 2);
            let j = i + 2 + toks_of(p0.1).len();
            assert(j == i + a.len() as int);
            assert(pair_from(ts, i + 1, ts[i].0, ts[i].1) == Ok::<(Seq<char>, ValueModel, int), ParseErr>((p0.0, p0.1, j + 1)));
            assert(keys_distinct(acc.push(p0) + rest)) by {
                assert(acc.push(p0) + rest =~= acc + ps);
            }
            lemma_object_items_exact(rest, acc.push(p0), ts, i + a.len() as int + 1);
            assert(acc.push(p0) + rest =~= acc + ps);
            assert(!(ts[i].0 is CloseBrace));
            assert(object_items(ts, i + a.len() as int + 1, acc.push(p0))
                == Ok::<(Seq<(Seq<char>, ValueModel)>, int), ParseErr>(
                (acc + ps, i + toks_of_object_items(ps).len() + 1),
            ));
            assert(object_items(ts, i, acc) == Ok::<(Seq<(Seq<char>, ValueModel)>, int), ParseErr>(
                (acc + ps, i + toks_of_object_items(ps).len() + 1),
            ));
        }
    }
}

/// The canonical text of a value: the reference serialization that the
/// round-trip law speaks about.
pub open spec fn render(m: ValueModel) -> Seq<char>
    decreases m, 1int,
{
    match m {
        ValueModel::String(s) => seq!['"'] + s + seq!['"'],
        ValueModel::Number(t) => t,
        ValueModel::Boolean(b) => if b {
            "true"@
        } else {
            "false"@
        },
        ValueModel::Null => "null"@,
        ValueModel::Array(vs) => {
            proof {
                assert(decreases_to!(m => vs));
            }
            seq!['['] + render_array_items(vs) + seq![']']
        },
        ValueModel::Object(ps) => {
            proof {
                assert(decreases_to!(m => ps));
            }
            seq!['{'] + render_object_items(ps) + seq!['}']
        },
    }
}

/// The canonical text of an array body: elements separated by commas.
pub open spec fn render_array_items(vs: Seq<ValueModel>) -> Seq<char>
    decreases vs, 0int,
{
    if vs.len() == 0 {
        Seq::empty()
    } else {
        proof {
            vstd::seq::axiom_seq_index_decreases::<ValueModel>(vs, 0);
            vstd::seq::axiom_seq_len_decreases::<ValueModel>(vs, vs.drop_first());
        }
        if vs.len() == 1 {
            render(vs[0])
        } else {
            render(vs[0]) + seq![','] + render_array_items(vs.drop_first())
        }
    }
}

/// The canonical text of one key/value pair.
pub open spec fn pair_render(p: (Seq<char>, ValueModel)) -> Seq<char>
    decreases p, 1int,
{
    seq!['"'] + p.0 + seq!['"', ':'] + render(p.1)
}

/// The canonical text of an object body: pairs separated by commas.
pub open spec fn render_object_items(ps: Seq<(Seq<char>, ValueModel)>) -> Seq<char>
    decreases ps, 2int,
{
    if ps.len() == 0 {
        Seq::empty()
    } else {
        proof {
            vstd::seq::axiom_seq_index_decreases::<(Seq<char>, ValueModel)>(ps, 0);
            vstd::seq::axiom_seq_len_decreases::<(Seq<char>, ValueModel)>(ps, ps.drop_first());
        }
        if ps.len() == 1 {
            pair_render(ps[0])
        } else {
            pair_render(ps[0]) + seq![','] + render_object_items(ps.drop_first())
        }
    }
}

/// Text that can sit inside a string literal: no quote, no newline.
pub open spec fn text_ok(s: Seq<char>) -> bool {
    forall|k: int| 0 <= k < s.len() ==> s[k] != '"' && s[k] != '\n'
}

/// Numeric text that scans back to one number token: a valid literal made
/// only of numeric-scan characters.
pub open spec fn number_text_ok(t: Seq<char>) -> bool {
    &&& t.len() >= 1
    &&& is_valid_number_text(t)
    &&& forall|k: int| 0 <= k < t.len() ==> is_json_number_char(#[trigger] t[k])
}

/// A value whose canonical text scans back to its own tokens: strings and
/// keys carry no quote or newline, and numeric text is a valid literal.
pub open spec fn renderable(m: ValueModel) -> bool
    decreases m, 1int,
{
    match m {
        ValueModel::String(s) => text_ok(s),
        ValueModel::Number(t) => number_text_ok(t),
        ValueModel::Boolean(b) => true,
        ValueModel::Null => true,
        ValueModel::Array(vs) => {
            proof {
                assert(decreases_to!(m => vs));
            }
            renderables(vs)
        },
        ValueModel::Object(ps) => {
            proof {
                assert(decreases_to!(m => ps));
            }
            pairs_renderable(ps)
        },
    }
}

/// Every element is renderable.
pub open spec fn renderables(vs: Seq<ValueModel>) -> bool
    decreases vs, 0int,
{
    if vs.len() == 0 {
        true
    } else {
        proof {
            vstd::seq::axiom_seq_index_decreases::<ValueModel>(vs, 0);
            vstd::seq::axiom_seq_len_decreases::<ValueModel>(vs, vs.drop_first());
        }
        renderable(vs[0]) && renderables(vs.drop_first())
    }
}

/// Every key is string text and every value is renderable.
pub open spec fn pairs_renderable(ps: Seq<(Seq<char>, ValueModel)>) -> bool
    decreases ps, 0int,
{
    if ps.len() == 0 {
        true
    } else {
        proof {
            vstd::seq::axiom_seq_index_decreases::<(Seq<char>, ValueModel)>(ps, 0);
            vstd::seq::axiom_seq_len_decreases::<(Seq<char>, ValueModel)>(ps, ps.drop_first());
        }
        text_ok(ps[0].0) && renderable(ps[0].1) && pairs_renderable(ps.drop_first())
    }
}

/// The characters at positions `i` onwards of `cs` are exactly `w`.
pub open spec fn chars_match(cs: Seq<char>, i: int, w: Seq<char>) -> bool {
    forall|k: int| 0 <= k < w.len() ==> cs[i + k] == #[trigger] w[k]
}

/// A character window over a concatenation splits into windows over the
/// halves.
proof fn lemma_chars_split(cs: Seq<char>, i: int, a: Seq<char>, b: Seq<char>)
    requires
        chars_match(cs, i, a + b),
    ensures
        chars_match(cs, i, a),
        chars_match(cs, i + a.len(), b),
{
    assert forall|k: int| 0 <= k < a.len() implies cs[i + k] == #[trigger] a[k] by {
        assert((a + b)[k] == a[k]);
    }
    assert forall|k: int| 0 <= k < b.len() implies cs[i + a.len() + k] == #[trigger] b[k] by {
        assert((a + b)[a.len() + k] == b[k]);
    }
}

/// A matched window is the subrange it covers.
proof fn lemma_chars_subrange(cs: Seq<char>, i: int, w: Seq<char>)
    requires
        0 <= i,
        i + w.len() <= cs.len(),
        chars_match(cs, i, w),
    ensures
        cs.subrange(i, i + w.len() as int) == w,
{
    assert(cs.subrange(i, i + w.len() as int) =~= w);
}

/// A character that ends a value in its surrounding text: a separator, a
/// closing delimiter, or the end of the input.
pub open spec fn boundary_ok(cs: Seq<char>, e: int) -> bool {
    e == cs.len() || cs[e] == ',' || cs[e] == ']' || cs[e] == '}'
}

/// The token part of a located token stream.
pub open spec fn proj(ts: Seq<(Tok, Loc)>) -> Seq<Tok> {
    ts.map_values(|p: (Tok, Loc)| p.0)
}

proof fn lemma_proj_append(a: Seq<(Tok, Loc)>, b: Seq<(Tok, Loc)>)
    ensures
        proj(a + b) == proj(a) + proj(b),
{
    assert(proj(a + b) =~= proj(a) + proj(b));
}

/// A string scan over quote-free, newline-free text ends at the closing
/// quote and yields exactly that text.
proof fn lemma_string_scan_exact(cs: Seq<char>, i: int, end: int, line: nat, col: nat)
    requires
        0 <= i <= end < cs.len(),
        cs[end] == '"',
        forall|k: int| i <= k < end ==> cs[k] != '"' && cs[k] != '\n',
    ensures
        string_scan(cs, i, line, col) == Ok::<(Seq<char>, int, nat), Loc>(
            (cs.subrange(i, end), end + 1, (col + (end - i) + 1) as nat),
        ),
    decreases end - i,
{
    if i == end {
        assert(cs.subrange(i, end) =~= Seq::<char>::empty());
    } else {
        lemma_string_scan_exact(cs, i + 1, end, line, (col + 1) as nat);
        assert(cs.subrange(i, end) =~= seq![cs[i]] + cs.subrange(i + 1, end));
    }
}

/// A numeric scan over numeric-scan characters with a boundary after them
/// ends exactly at the boundary.
proof fn lemma_number_end_window(cs: Seq<char>, i: int, end: int)
    requires
        0 <= i <= end <= cs.len(),
        forall|k: int| i <= k < end ==> is_json_number_char(#[trigger] cs[k]),
        end == cs.len() || !is_json_number_char(cs[end]),
    ensures
        number_end(cs, i) == end,
    decreases end - i,
{
    if i < end {
        lemma_number_end_window(cs, i + 1, end);
    }
}

/// An identifier scan over alphanumeric characters with a boundary after
/// them ends exactly at the boundary.
proof fn lemma_alnum_end_window(cs: Seq<char>, i: int, end: int)
    requires
        0 <= i <= end <= cs.len(),
        forall|k: int| i <= k < end ==> is_alphanumeric_char(#[trigger] cs[k]),
        end == cs.len() || !is_alphanumeric_char(cs[end]),
    ensures
        alnum_end(cs, i) == end,
    decreases end - i,
{
    if i < end {
        lemma_alnum_end_window(cs, i + 1, end);
    }
}

/// Character classifications of the punctuation the scanner dispatches on.
proof fn lemma_scan_char_facts()
    ensures
        !is_json_number_char('{'),
        !is_json_number_char('}'),
        !is_json_number_char(':'),
        !is_json_number_char(','),
        !is_json_number_char('['),
        !is_json_number_char(']'),
        !is_json_number_char('"'),
        !is_json_number_char('/'),
        !is_json_number_char(' '),
        !is_json_number_char('\n'),
        !is_json_number_char('t'),
        !is_json_number_char('f'),
        !is_json_number_char('n'),
        !is_alphanumeric_char(','),
        !is_alphanumeric_char(']'),
        !is_alphanumeric_char('}'),
        is_alphanumeric_char('t'),
        is_alphanumeric_char('r'),
        is_alphanumeric_char('u'),
        is_alphanumeric_char('e'),
        is_alphanumeric_char('f'),
        is_alphanumeric_char('a'),
        is_alphanumeric_char('l'),
        is_alphanumeric_char('s'),
        is_alphanumeric_char('n'),
{
}

/// Scanning from one position reaches another, emitting exactly the tokens
/// `pre` on the way; an error later is an error of the whole.
pub open spec fn lex_rel(
    cs: Seq<char>,
    i: int,
    line: nat,
    col: nat,
    i2: int,
    line2: nat,
    col2: nat,
    pre: Seq<Tok>,
) -> bool {
    match lex_from(cs, i2, line2, col2) {
        Ok(ts2) => lex_from(cs, i, line, col) matches Ok(ts) && proj(ts) == pre + proj(ts2),
        Err(e) => lex_from(cs, i, line, col) == Err::<Seq<(Tok, Loc)>, LexError>(e),
    }
}

/// One emitted token is one scan step.
proof fn lemma_lex_rel_emit(
    cs: Seq<char>,
    i: int,
    line: nat,
    col: nat,
    tok: Tok,
    loc: Loc,
    i2: int,
    line2: nat,
    col2: nat,
)
    requires
        lex_from(cs, i, line, col) == lex_emit(tok, loc, lex_from(cs, i2, line2, col2)),
    ensures
        lex_rel(cs, i, line, col, i2, line2, col2, seq![tok]),
{
    match lex_from(cs, i2, line2, col2) {
        Ok(ts2) => {
            assert(lex_from(cs, i, line, col) == Ok::<Seq<(Tok, Loc)>, LexError>(
                seq![(tok, loc)] + ts2,
            ));
            lemma_proj_append(seq![(tok, loc)], ts2);
            assert(proj(seq![(tok, loc)]) =~= seq![tok]);
        },
        Err(_) => {},
    }
}

/// Two scan stretches in a row emit the two token runs in order.
proof fn lemma_lex_rel_trans(
    cs: Seq<char>,
    i: int,
    line: nat,
    col: nat,
    j: int,
    linej: nat,
    colj: nat,
    k: int,
    linek: nat,
    colk: nat,
    p1: Seq<Tok>,
    p2: Seq<Tok>,
)
    requires
        lex_rel(cs, i, line, col, j, linej, colj, p1),
        lex_rel(cs, j, linej, colj, k, linek, colk, p2),
    ensures
        lex_rel(cs, i, line, col, k, linek, colk, p1 + p2),
{
    match lex_from(cs, k, linek, colk) {
        Ok(ts3) => {
            let ts2 = choose|ts2: Seq<(Tok, Loc)>|
                lex_from(cs, j, linej, colj) == Ok::<Seq<(Tok, Loc)>, LexError>(ts2) && proj(ts2)
                    == p2 + proj(ts3);
            assert(lex_from(cs, j, linej, colj) == Ok::<Seq<(Tok, Loc)>, LexError>(ts2) && proj(
                ts2,
            ) == p2 + proj(ts3));
            let ts1 = choose|ts1: Seq<(Tok, Loc)>|
                lex_from(cs, i, line, col) == Ok::<Seq<(Tok, Loc)>, LexError>(ts1) && proj(ts1)
                    == p1 + proj(ts2);
            assert(lex_from(cs, i, line, col) == Ok::<Seq<(Tok, Loc)>, LexError>(ts1) && proj(ts1)
                == p1 + proj(ts2));
            assert(p1 + (p2 + proj(ts3)) =~= (p1 + p2) + proj(ts3));
        },
        Err(_) => {},
    }
}

/// Scanning the canonical text of a value emits exactly its tokens.
pub proof fn lemma_lex_render(m: ValueModel, cs: Seq<char>, i: int, line: nat, col: nat)
    requires
        renderable(m),
        0 <= i,
        i + render(m).len() <= cs.len(),
        chars_match(cs, i, render(m)),
        boundary_ok(cs, i + render(m).len()),
    ensures
        lex_rel(cs, i, line, col, i + render(m).len(), line, (col + render(m).len()) as nat, toks_of(m)),
    decreases m, 1int,
{
    lemma_scan_char_facts();
    let e = i + render(m).len() as int;
    let cfin = (col + render(m).len()) as nat;
    match m {
        ValueModel::String(s) => {
            let w = render(m);
            assert(w == (seq!['"'] + s) + seq!['"']);
            lemma_chars_split(cs, i, seq!['"'] + s, seq!['"']);
            lemma_chars_split(cs, i, seq!['"'], s);
            assert(seq!['"'][0] == '"');
            assert(cs[i + 0] == '"');
            assert(cs[i + 1 + s.len() as int + 0] == '"');
            assert forall|k: int| i + 1 <= k < i + 1 + s.len() implies cs[k] != '"' && cs[k]
                != '\n' by {
                assert(cs[i + 1 + (k - i - 1)] == s[k - i - 1]);
            }
            lemma_string_scan_exact(cs, i + 1, i + 1 + s.len() as int, line, (col + 1) as nat);
            lemma_chars_subrange(cs, i + 1, s);
            assert(string_scan(cs, i + 1, line, (col + 1) as nat) == Ok::<
                (Seq<char>, int, nat),
                Loc,
            >((s, e, cfin)));
            let tokm = Tok::String(s);
            let locm = Loc { line, col: cfin };
            assert(lex_from(cs, i, line, col) == lex_emit(tokm, locm, lex_from(cs, e, line, cfin)));
            lemma_lex_rel_emit(cs, i, line, col, tokm, locm, e, line, cfin);
            assert(seq![tokm] == toks_of(m));
        },
        ValueModel::Number(t) => {
            assert(cs[i + 0] == t[0]);
            assert(is_json_number_char(t[0]));
            assert forall|k: int| i + 1 <= k < e implies is_json_number_char(#[trigger] cs[k]) by {
                assert(cs[i + (k - i)] == t[k - i]);
            }
            lemma_number_end_window(cs, i + 1, e);
            lemma_chars_subrange(cs, i, t);
            assert(cs.subrange(i, e) == t);
            let tokm = Tok::Number(t);
            let locm = Loc { line, col: cfin };
            assert(lex_from(cs, i, line, col) == lex_emit(tokm, locm, lex_from(cs, e, line, cfin)));
            lemma_lex_rel_emit(cs, i, line, col, tokm, locm, e, line, cfin);
            assert(seq![tokm] == toks_of(m));
        },
        ValueModel::Boolean(b) => {
            let w = if b {
                "true"@
            } else {
                "false"@
            };
            reveal_strlit("true");
            reveal_strlit("false");
            assert(cs[i + 0] == w[0]);
            assert forall|k: int| i + 1 <= k < e implies is_alphanumeric_char(
                #[trigger] cs[k],
            ) by {
                assert(cs[i + (k - i)] == w[k - i]);
            }
            lemma_alnum_end_window(cs, i + 1, e);
            lemma_chars_subrange(cs, i, w);
            let tokm = Tok::Identifier(w);
            let locm = Loc { line, col: cfin };
            assert(lex_from(cs, i, line, col) == lex_emit(tokm, locm, lex_from(cs, e, line, cfin)));
            lemma_lex_rel_emit(cs, i, line, col, tokm, locm, e, line, cfin);
            assert(seq![tokm] == toks_of(m));
        },
        ValueModel::Null => {
            let w = "null"@;
            reveal_strlit("null");
            assert(cs[i + 0] == w[0]);
            assert forall|k: int| i + 1 <= k < e implies is_alphanumeric_char(
                #[trigger] cs[k],
            ) by {
                assert(cs[i + (k - i)] == w[k - i]);
            }
            lemma_alnum_end_window(cs, i + 1, e);
            lemma_chars_subrange(cs, i, w);
            let tokm = Tok::Identifier(w);
            let locm = Loc { line, col: cfin };
            assert(lex_from(cs, i, line, col) == lex_emit(tokm, locm, lex_from(cs, e, line, cfin)));
            lemma_lex_rel_emit(cs, i, line, col, tokm, locm, e, line, cfin);
            assert(seq![tokm] == toks_of(m));
        },
        ValueModel::Array(vs) => {
            let body = render_array_items(vs);
            let front = seq!['['] + body;
            assert(render(m) == front + seq![']']);
            lemma_chars_split(cs, i, front, seq![']']);
            lemma_chars_split(cs, i, seq!['['], body);
            assert(seq!['['][0] == '[');
            assert(seq![']'][0] == ']');
            assert(cs[i + 0] == '[');
            let ic = i + front.len() as int;
            assert(cs[ic + 0] == ']');
            let col1 = (col + 1) as nat;
            let colc = (col1 + body.len()) as nat;
            assert(lex_from(cs, i, line, col) == lex_emit(
                Tok::OpenSquareBracket,
                Loc { line, col: col1 },
                lex_from(cs, i + 1, line, col1),
            ));
            lemma_lex_rel_emit(
                cs,
                i,
                line,
                col,
                Tok::OpenSquareBracket,
                Loc { line, col: col1 },
                i + 1,
                line,
                col1,
            );
            assert(decreases_to!(m => vs));
            lemma_lex_array_items(vs, cs, i + 1, line, col1);
            assert(lex_from(cs, ic, line, colc) == lex_emit(
                Tok::CloseSquareBracket,
                Loc { line, col: cfin },
                lex_from(cs, e, line, cfin),
            ));
            lemma_lex_rel_emit(
                cs,
                ic,
                line,
                colc,
                Tok::CloseSquareBracket,
                Loc { line, col: cfin },
                e,
                line,
                cfin,
            );
            lemma_lex_rel_trans(
                cs,
                i,
                line,
                col,
                i + 1,
                line,
                col1,
                ic,
                line,
                colc,
                seq![Tok::OpenSquareBracket],
                toks_of_array_items(vs),
            );
            lemma_lex_rel_trans(
                cs,
                i,
                line,
                col,
                ic,
                line,
                colc,
                e,
                line,
                cfin,
                seq![Tok::OpenSquareBracket] + toks_of_array_items(vs),
                seq![Tok::CloseSquareBracket],
            );
        },
        ValueModel::Object(ps) => {
            let body = render_object_items(ps);
            let front = seq!['{'] + body;
            assert(render(m) == front + seq!['}']);
            lemma_chars_split(cs, i, front, seq!['}']);
            lemma_chars_split(cs, i, seq!['{'], body);
            assert(seq!['{'][0] == '{');
            assert(seq!['}'][0] == '}');
            assert(cs[i + 0] == '{');
            let ic = i + front.len() as int;
            assert(cs[ic + 0] == '}');
            let col1 = (col + 1) as nat;
            let colc = (col1 + body.len()) as nat;
            assert(lex_from(cs, i, line, col) == lex_emit(
                Tok::OpenBrace,
                Loc { line, col: col1 },
                lex_from(cs, i + 1, line, col1),
            ));
            lemma_lex_rel_emit(
                cs,
                i,
                line,
                col,
                Tok::OpenBrace,
                Loc { line, col: col1 },
                i + 1,
                line,
                col1,
            );
            assert(decreases_to!(m => ps));
            lemma_lex_object_items(ps, cs, i + 1, line, col1);
            assert(lex_from(cs, ic, line, colc) == lex_emit(
                Tok::CloseBrace,
                Loc { line, col: cfin },
                lex_from(cs, e, line, cfin),
            ));
            lemma_lex_rel_emit(
                cs,
                ic,
                line,
                colc,
                Tok::CloseBrace,
                Loc { line, col: cfin },
                e,
                line,
                cfin,
            );
            lemma_lex_rel_trans(
                cs,
                i,
                line,
                col,
                i + 1,
                line,
                col1,
                ic,
                line,
                colc,
                seq![Tok::OpenBrace],
                toks_of_object_items(ps),
            );
            lemma_lex_rel_trans(
                cs,
                i,
                line,
                col,
                ic,
                line,
                colc,
                e,
                line,
                cfin,
                seq![Tok::OpenBrace] + toks_of_object_items(ps),
                seq![Tok::CloseBrace],
            );
        },
    }
}

/// Scanning a rendered array body emits exactly its element tokens.
proof fn lemma_lex_array_items(vs: Seq<ValueModel>, cs: Seq<char>, i: int, line: nat, col: nat)
    requires
        renderables(vs),
        0 <= i,
        i + render_array_items(vs).len() < cs.len(),
        chars_match(cs, i, render_array_items(vs)),
        cs[i + render_array_items(vs).len()] == ']',
    ensures
        lex_rel(
            cs,
            i,
            line,
            col,
            i + render_array_items(vs).len(),
            line,
            (col + render_array_items(vs).len()) as nat,
            toks_of_array_items(vs),
        ),
    decreases vs, 0int,
{
    if vs.len() == 0 {
        match lex_from(cs, i, line, col) {
            Ok(ts2) => {
                assert(toks_of_array_items(vs) + proj(ts2) =~= proj(ts2));
            },
            Err(_) => {},
        }
    } else {
        let v0 = vs[0];
        let rest = vs.drop_first();
        vstd::seq::axiom_seq_index_decreases::<ValueModel>(vs, 0);
        vstd::seq::axiom_seq_len_decreases::<ValueModel>(vs, rest);
        if vs.len() == 1 {
            assert(render_array_items(vs) == render(v0));
            assert(toks_of_array_items(vs) == toks_of(v0));
            lemma_lex_render(v0, cs, i, line, col);
        } else {
            let a = render(v0);
            let brest = render_array_items(rest);
            assert(render_array_items(vs) == (a + seq![',']) + brest);
            lemma_chars_split(cs, i, a + seq![','], brest);
            lemma_chars_split(cs, i, a, seq![',']);
            assert(seq![','][0] == ',');
            let i1 = i + a.len() as int;
            assert(cs[i1 + 0] == ',');
            let col1 = (col + a.len()) as nat;
            lemma_lex_render(v0, cs, i, line, col);
            assert(lex_from(cs, i1, line, col1) == lex_emit(
                Tok::Comma,
                Loc { line, col: (col1 + 1) as nat },
                lex_from(cs, i1 + 1, line, (col1 + 1) as nat),
            ));
            lemma_lex_rel_emit(
                cs,
                i1,
                line,
                col1,
                Tok::Comma,
                Loc { line, col: (col1 + 1) as nat },
                i1 + 1,
                line,
                (col1 + 1) as nat,
            );
            lemma_lex_array_items(rest, cs, i1 + 1, line, (col1 + 1) as nat);
            lemma_lex_rel_trans(
                cs,
                i,
                line,
                col,
                i1,
                line,
                col1,
                i1 + 1,
                line,
                (col1 + 1) as nat,
                toks_of(v0),
                seq![Tok::Comma],
            );
            lemma_lex_rel_trans(
                cs,
                i,
                line,
                col,
                i1 + 1,
                line,
                (col1 + 1) as nat,
                i + render_array_items(vs).len() as int,
                line,
                (col + render_array_items(vs).len()) as nat,
                toks_of(v0) + seq![Tok::Comma],
                toks_of_array_items(rest),
            );
            assert((toks_of(v0) + seq![Tok::Comma]) + toks_of_array_items(rest)
                == toks_of_array_items(vs));
        }
    }
}

/// Scanning a rendered object body emits exactly its pair tokens.
proof fn lemma_lex_object_items(
    ps: Seq<(Seq<char>, ValueModel)>,
    cs: Seq<char>,
    i: int,
    line: nat,
    col: nat,
)
    requires
        pairs_renderable(ps),
        0 <= i,
        i + render_object_items(ps).len() < cs.len(),
        chars_match(cs, i, render_object_items(ps)),
        cs[i + render_object_items(ps).len()] == '}',
    ensures
        lex_rel(
            cs,
            i,
            line,
            col,
            i + render_object_items(ps).len(),
            line,
            (col + render_object_items(ps).len()) as nat,
            toks_of_object_items(ps),
        ),
    decreases ps, 0int,
{
    lemma_scan_char_facts();
    if ps.len() == 0 {
        match lex_from(cs, i, line, col) {
            Ok(ts2) => {
                assert(toks_of_object_items(ps) + proj(ts2) =~= proj(ts2));
            },
            Err(_) => {},
        }
    } else {
        let p0 = ps[0];
        let rest = ps.drop_first();
        vstd::seq::axiom_seq_index_decreases::<(Seq<char>, ValueModel)>(ps, 0);
        vstd::seq::axiom_seq_len_decreases::<(Seq<char>, ValueModel)>(ps, rest);
        let key = p0.0;
        let rv = render(p0.1);
        let pw = pair_render(p0);
        assert(pw == ((seq!['"'] + key) + seq!['"', ':']) + rv);
        let iq = i + 1 + key.len() as int;
        let iv = iq + 2;
        let jv = iv + rv.len() as int;
        let colq = (col + 1 + key.len()) as nat;
        let colv = (colq + 2) as nat;
        let coljv = (colv + rv.len()) as nat;
        // carve the pair's window into quote, key, quote-colon, and value
        let bw = if ps.len() == 1 {
            Seq::<char>::empty()
        } else {
            seq![','] + render_object_items(rest)
        };
        assert(render_object_items(ps) == pw + bw) by {
            if ps.len() == 1 {
                assert(render_object_items(ps) =~= pw + Seq::<char>::empty());
            } else {
                assert((pw + seq![',']) + render_object_items(rest) =~= pw + (seq![',']
                    + render_object_items(rest)));
            }
        }
        lemma_chars_split(cs, i, pw, bw);
        lemma_chars_split(cs, i, (seq!['"'] + key) + seq!['"', ':'], rv);
        lemma_chars_split(cs, i, seq!['"'] + key, seq!['"', ':']);
        lemma_chars_split(cs, i, seq!['"'], key);
        assert(seq!['"'][0] == '"');
        assert(seq!['"', ':'][0] == '"');
        assert(seq!['"', ':'][1] == ':');
        assert(cs[i + 0] == '"');
        assert(cs[i + 1 + key.len() as int + 0] == '"');
        assert(cs[i + 1 + key.len() as int + 1] == ':');
        // the key scans as one string token
        assert forall|k: int| i + 1 <= k < iq implies cs[k] != '"' && cs[k] != '\n' by {
            assert(cs[i + 1 + (k - i - 1)] == key[k - i - 1]);
        }
        lemma_string_scan_exact(cs, i + 1, iq, line, (col + 1) as nat);
        lemma_chars_subrange(cs, i + 1, key);
        assert(string_scan(cs, i + 1, line, (col + 1) as nat) == Ok::<(Seq<char>, int, nat), Loc>(
            (key, iq + 1, (colq + 1) as nat),
        ));
        assert(lex_from(cs, i, line, col) == lex_emit(
            Tok::String(key),
            Loc { line, col: (colq + 1) as nat },
            lex_from(cs, iq + 1, line, (colq + 1) as nat),
        ));
        lemma_lex_rel_emit(
            cs,
            i,
            line,
            col,
            Tok::String(key),
            Loc { line, col: (colq + 1) as nat },
            iq + 1,
            line,
            (colq + 1) as nat,
        );
        // the colon is its own token
        assert(lex_from(cs, iq + 1, line, (colq + 1) as nat) == lex_emit(
            Tok::Colon,
            Loc { line, col: colv },
            lex_from(cs, iv, line, colv),
        ));
        lemma_lex_rel_emit(
            cs,
            iq + 1,
            line,
            (colq + 1) as nat,
            Tok::Colon,
            Loc { line, col: colv },
            iv,
            line,
            colv,
        );
        lemma_lex_rel_trans(
            cs,
            i,
            line,
            col,
            iq + 1,
            line,
            (colq + 1) as nat,
            iv,
            line,
            colv,
            seq![Tok::String(key)],
            seq![Tok::Colon],
        );
        // the value scans as its own tokens
        assert(decreases_to!(ps => p0));
        assert(decreases_to!(p0 => p0.1));
        assert(boundary_ok(cs, jv)) by {
            if ps.len() == 1 {
                assert(jv == i + render_object_items(ps).len());
            } else {
                assert((seq![','] + render_object_items(rest))[0] == ',');
                assert(cs[i + pw.len() as int + 0] == ',');
            }
        }
        lemma_lex_render(p0.1, cs, iv, line, colv);
        lemma_lex_rel_trans(
            cs,
            i,
            line,
            col,
            iv,
            line,
            colv,
            jv,
            line,
            coljv,
            seq![Tok::String(key)] + seq![Tok::Colon],
            toks_of(p0.1),
        );
        assert((seq![Tok::String(key)] + seq![Tok::Colon]) + toks_of(p0.1) == pair_toks(p0)) by {
            assert(seq![Tok::String(key)] + seq![Tok::Colon] =~= seq![Tok::String(key), Tok::Colon]);
        }
        if ps.len() == 1 {
            assert(jv == i + render_object_items(ps).len());
            assert(toks_of_object_items(ps) == pair_toks(p0));
        } else {
            // the comma, then the remaining pairs
            assert((seq![','] + render_object_items(rest))[0] == ',');
            assert(cs[i + pw.len() as int + 0] == ',');
            assert(cs[jv + 0] == ',');
            assert(lex_from(cs, jv, line, coljv) == lex_emit(
                Tok::Comma,
                Loc { line, col: (coljv + 1) as nat },
                lex_from(cs, jv + 1, line, (coljv + 1) as nat),
            ));
            lemma_lex_rel_emit(
                cs,
                jv,
                line,
                coljv,
                Tok::Comma,
                Loc { line, col: (coljv + 1) as nat },
                jv + 1,
                line,
                (coljv + 1) as nat,
            );
            lemma_lex_rel_trans(
                cs,
                i,
                line,
                col,
                jv,
                line,
                coljv,
                jv + 1,
                line,
                (coljv + 1) as nat,
                pair_toks(p0),
                seq![Tok::Comma],
            );
            lemma_chars_split(cs, i + pw.len() as int, seq![','], render_object_items(rest));
            lemma_lex_object_items(rest, cs, jv + 1, line, (coljv + 1) as nat);
            lemma_lex_rel_trans(
                cs,
                i,
                line,
                col,
                jv + 1,
                line,
                (coljv + 1) as nat,
                i + render_object_items(ps).len() as int,
                line,
                (col + render_object_items(ps).len()) as nat,
                pair_toks(p0) + seq![Tok::Comma],
                toks_of_object_items(rest),
            );
            assert((pair_toks(p0) + seq![Tok::Comma]) + toks_of_object_items(rest)
                == toks_of_object_items(ps));
        }
    }
}

/// The round-trip law: scanning the canonical text of a value and parsing
/// the resulting tokens yields the value back, consuming every token.  It
/// holds for every value whose object keys are distinct and whose texts
/// scan cleanly: string text without quotes or newlines, numeric text that
/// is a valid literal.  When the value is an object, the object entry point
/// gives the same result.
pub proof fn lemma_render_scan_parse_round_trip(m: ValueModel)
    requires
        model_ok(m),
        renderable(m),
    ensures
        lex_from(render(m), 0, 0, 0) matches Ok(ts) && parse_value(ts, 0) == Ok::<
            (ValueModel, int),
            ParseErr,
        >((m, ts.len() as int)),
        m is Object ==> (lex_from(render(m), 0, 0, 0) matches Ok(ts) && parse_object(ts, 0)
            == Ok::<(ValueModel, int), ParseErr>((m, ts.len() as int))),
{
    let cs = render(m);
    assert(chars_match(cs, 0, render(m))) by {
        assert forall|k: int| 0 <= k < render(m).len() implies cs[0 + k] == #[trigger] render(
            m,
        )[k] by {}
    }
    lemma_lex_render(m, cs, 0, 0, 0);
    let tail = lex_from(cs, 0 + render(m).len() as int, 0, (0 + render(m).len()) as nat);
    assert(tail == Ok::<Seq<(Tok, Loc)>, LexError>(Seq::empty()));
    assert(proj(Seq::<(Tok, Loc)>::empty()) =~= Seq::<Tok>::empty());
    let ts = choose|ts: Seq<(Tok, Loc)>|
        lex_from(cs, 0, 0, 0) == Ok::<Seq<(Tok, Loc)>, LexError>(ts) && proj(ts) == toks_of(m)
            + proj(Seq::<(Tok, Loc)>::empty());
    assert(lex_from(cs, 0, 0, 0) == Ok::<Seq<(Tok, Loc)>, LexError>(ts) && proj(ts) == toks_of(m)
        + proj(Seq::<(Tok, Loc)>::empty()));
    assert(proj(ts) =~= toks_of(m));
    assert(ts.len() == toks_of(m).len());
    assert(window_match(ts, 0, toks_of(m))) by {
        assert forall|k: int| 0 <= k < toks_of(m).len() implies ts[0 + k].0 == #[trigger] toks_of(
            m,
        )[k] by {
            assert(proj(ts)[k] == ts[k].0);
        }
    }
    lemma_parse_value_exact(m, ts, 0);
    if m is Object {
        lemma_toks_of_head(m);
        assert(ts[0int + 0].0 == toks_of(m)[0]);
        assert(toks_of(m)[0] == Tok::OpenBrace) by {
            let ps = m->Object_0;
            assert(toks_of(m) == (seq![Tok::OpenBrace] + toks_of_object_items(ps)) + seq![
                Tok::CloseBrace,
            ]);
        }
    }
}


/// Pushing a well-formed value keeps a value list well formed.
proof fn lemma_models_ok_push(s: Seq<ValueModel>, v: ValueModel)
    requires
        models_ok(s),
        model_ok(v),
    ensures
        models_ok(s.push(v)),
    decreases s.len(),
{
    let r = s.push(v);
    assert(r.len() == s.len() + 1);
    if s.len() == 0 {
        assert(r[0] == v);
        assert(r.drop_first() =~= Seq::<ValueModel>::empty());
        assert(models_ok(r.drop_first()));
        assert(model_ok(r[0]));
        assert(models_ok(r));
    } else {
        assert(r[0] == s[0]);
        assert(r.drop_first() =~= s.drop_first().push(v));
        lemma_models_ok_push(s.drop_first(), v);
        assert(models_ok(r.drop_first()));
        assert(model_ok(r[0]));
        assert(models_ok(r));
    }
}

/// Pushing a pair with a well-formed value keeps a pair list well formed.
proof fn lemma_pairs_ok_push(ps: Seq<(Seq<char>, ValueModel)>, p: (Seq<char>, ValueModel))
    requires
        pairs_ok(ps),
        model_ok(p.1),
    ensures
        pairs_ok(ps.push(p)),
    decreases ps.len(),
{
    let r = ps.push(p);
    assert(r.len() == ps.len() + 1);
    if ps.len() == 0 {
        assert(r[0] == p);
        assert(r.drop_first() =~= Seq::<(Seq<char>, ValueModel)>::empty());
        assert(pairs_ok(r.drop_first()));
        assert(model_ok(r[0].1));
        assert(pairs_ok(r));
    } else {
        assert(r[0] == ps[0]);
        assert(r.drop_first() =~= ps.drop_first().push(p));
        lemma_pairs_ok_push(ps.drop_first(), p);
        assert(pairs_ok(r.drop_first()));
        assert(model_ok(r[0].1));
        assert(pairs_ok(r));
    }
}

/// Replacing a pair with a well-formed value keeps a pair list well formed.
proof fn lemma_pairs_ok_update(ps: Seq<(Seq<char>, ValueModel)>, f: int, p: (Seq<char>, ValueModel))
    requires
        pairs_ok(ps),
        0 <= f < ps.len(),
        model_ok(p.1),
    ensures
        pairs_ok(ps.update(f, p)),
    decreases ps.len(),
{
    let r = ps.update(f, p);
    assert(r.len() == ps.len());
    if f == 0 {
        assert(r[0] == p);
        assert(r.drop_first() =~= ps.drop_first());
        assert(pairs_ok(r.drop_first()));
        assert(model_ok(r[0].1));
        assert(pairs_ok(r));
    } else {
        assert(r[0] == ps[0]);
        assert(r.drop_first() =~= ps.drop_first().update(f - 1, p));
        lemma_pairs_ok_update(ps.drop_first(), f - 1, p);
        assert(pairs_ok(r.drop_first()));
        assert(model_ok(r[0].1));
        assert(pairs_ok(r));
    }
}

/// Inserting a pair with a well-formed value keeps a pair list well formed.
proof fn lemma_pairs_ok_insert(ps: Seq<(Seq<char>, ValueModel)>, key: Seq<char>, value: ValueModel)
    requires
        pairs_ok(ps),
        model_ok(value),
    ensures
        pairs_ok(model_insert(ps, key, value)),
{
    crate::parser::value::lemma_find_key_properties(ps, key, 0);
    let f = find_key(ps, key, 0);
    if f >= 0 {
        lemma_pairs_ok_update(ps, f, (key, value));
    } else {
        lemma_pairs_ok_push(ps, (key, value));
    }
}

/// Every successfully parsed value is well formed: each of its objects has
/// distinct keys, at every depth.  Parsing maintains the data model's key
/// uniqueness by letting a duplicate key overwrite in place.
pub proof fn lemma_parse_value_wf(ts: Seq<(Tok, Loc)>, i: int)
    ensures
        parse_value(ts, i) matches Ok((m, j)) ==> model_ok(m),
        parse_object(ts, i) matches Ok((m, j)) ==> model_ok(m),
        parse_array(ts, i) matches Ok((m, j)) ==> model_ok(m),
    decreases ts.len() - i, 2int,
{
    if 0 <= i < ts.len() {
        if ts[i].0 is OpenBrace {
            lemma_object_items_wf(ts, i + 1, Seq::empty());
        }
        if ts[i].0 is OpenSquareBracket {
            lemma_array_items_wf(ts, i + 1, Seq::empty());
        }
    }
}

/// A scanned object body keeps its pair list key-distinct and well formed.
proof fn lemma_object_items_wf(ts: Seq<(Tok, Loc)>, i: int, acc: Seq<(Seq<char>, ValueModel)>)
    requires
        keys_distinct(acc),
        pairs_ok(acc),
    ensures
        object_items(ts, i, acc) matches Ok((ps, j)) ==> keys_distinct(ps) && pairs_ok(ps),
    decreases ts.len() - i, 4int,
{
    if 0 <= i < ts.len() && !(ts[i].0 is CloseBrace) {
        lemma_pair_from_wf(ts, i + 1, ts[i].0, ts[i].1);
        match pair_from(ts, i + 1, ts[i].0, ts[i].1) {
            Ok((key, value, j)) => {
                if i + 1 < j <= ts.len() {
                    crate::parser::value::lemma_model_insert_distinct(acc, key, value);
                    lemma_pairs_ok_insert(acc, key, value);
                    lemma_object_items_wf(ts, j, model_insert(acc, key, value));
                }
            },
            Err(_) => {},
        }
    }
}

/// A scanned pair carries a well-formed value.
proof fn lemma_pair_from_wf(ts: Seq<(Tok, Loc)>, i: int, tok: Tok, loc: Loc)
    ensures
        pair_from(ts, i, tok, loc) matches Ok((k, v, j)) ==> model_ok(v),
    decreases ts.len() - i, 3int,
{
    if tok matches Tok::String(_) {
        if 0 <= i < ts.len() && ts[i].0 is Colon {
            lemma_parse_value_wf(ts, i + 1);
        }
    }
}

/// A scanned array body keeps its value list well formed.
proof fn lemma_array_items_wf(ts: Seq<(Tok, Loc)>, i: int, acc: Seq<ValueModel>)
    requires
        models_ok(acc),
    ensures
        array_items(ts, i, acc) matches Ok((vs, j)) ==> models_ok(vs),
    decreases ts.len() - i, 3int,
{
    if 0 <= i < ts.len() && !(ts[i].0 is CloseSquareBracket) {
        lemma_parse_value_wf(ts, i);
        match parse_value(ts, i) {
            Ok((v, j)) => {
                if i < j <= ts.len() {
                    lemma_models_ok_push(acc, v);
                    if j < ts.len() && ts[j].0 is Comma {
                        lemma_array_items_wf(ts, j + 1, acc.push(v));
                    }
                }
            },
            Err(_) => {},
        }
    }
}

} // verus!
