use vstd::prelude::*;

verus! {

broadcast use vstd::std_specs::vec::group_vec_axioms;

/// The recursive in-memory representation of parsed data.  Created bottom-up
/// by the parser and owned by the caller once returned.
#[derive(Debug)]
pub enum JsonValue {
    /// A text value.
    String(String),
    /// A numeric value, kept as the exact text of its literal.
    Number(String),
    /// A boolean value.
    Boolean(bool),
    /// The null value.
    Null,
    /// An ordered sequence of values.
    Array(Vec<JsonValue>),
    /// A key/value mapping with unique keys, kept in insertion order; a
    /// later duplicate key silently overwrites the earlier value.
    Object(Vec<(String, JsonValue)>),
}

/// The mathematical view of a `JsonValue`: text as character sequences, an
/// object as its sequence of key/value pairs.
pub enum ValueModel {
    String(Seq<char>),
    Number(Seq<char>),
    Boolean(bool),
    Null,
    Array(Seq<ValueModel>),
    Object(Seq<(Seq<char>, ValueModel)>),
}

impl JsonValue {
    /// The mathematical view of this value.
    pub open spec fn model(self) -> ValueModel
        decreases self, 1int,
    {
        match self {
            JsonValue::String(s) => ValueModel::String(s@),
            JsonValue::Number(s) => ValueModel::Number(s@),
            JsonValue::Boolean(b) => ValueModel::Boolean(b),
            JsonValue::Null => ValueModel::Null,
            JsonValue::Array(vs) => {
                proof {
                    vstd::std_specs::vec::axiom_vec_decreases_to_view(vs);
                }
                ValueModel::Array(value_models(vs@))
            },
            JsonValue::Object(ps) => {
                proof {
                    vstd::std_specs::vec::axiom_vec_decreases_to_view(ps);
                }
                ValueModel::Object(pair_models(ps@))
            },
        }
    }
}

impl View for JsonValue {
    type V = ValueModel;

    open spec fn view(&self) -> ValueModel {
        (*self).model()
    }
}

/// The views of a sequence of values, in order.
pub open spec fn value_models(s: Seq<JsonValue>) -> Seq<ValueModel>
    decreases s, 0int,
{
    if s.len() == 0 {
        Seq::empty()
    } else {
        proof {
            vstd::seq::axiom_seq_index_decreases::<JsonValue>(s, 0);
            vstd::seq::axiom_seq_len_decreases::<JsonValue>(s, s.drop_first());
        }
        seq![s[0].model()] + value_models(s.drop_first())
    }
}

/// The views of a sequence of key/value pairs, in order.
pub open spec fn pair_models(s: Seq<(String, JsonValue)>) -> Seq<(Seq<char>, ValueModel)>
    decreases s, 0int,
{
    if s.len() == 0 {
        Seq::empty()
    } else {
        proof {
            vstd::seq::axiom_seq_index_decreases::<(String, JsonValue)>(s, 0);
            vstd::seq::axiom_seq_len_decreases::<(String, JsonValue)>(s, s.drop_first());
        }
        seq![(s[0].0@, s[0].1.model())] + pair_models(s.drop_first())
    }
}

/// The views of a sequence of values, element by element.
proof fn lemma_value_models(s: Seq<JsonValue>)
    ensures
        value_models(s).len() == s.len(),
        forall|k: int| 0 <= k < s.len() ==> value_models(s)[k] == s[k].model(),
    decreases s.len(),
{
    if s.len() > 0 {
        lemma_value_models(s.drop_first());
    }
}

/// The views of a sequence of pairs, element by element.
proof fn lemma_pair_models(s: Seq<(String, JsonValue)>)
    ensures
        pair_models(s).len() == s.len(),
        forall|k: int| 0 <= k < s.len() ==> pair_models(s)[k] == (s[k].0@, s[k].1.model()),
    decreases s.len(),
{
    if s.len() > 0 {
        lemma_pair_models(s.drop_first());
    }
}

/// Appending a value appends its view.
pub proof fn lemma_value_models_push(s: Seq<JsonValue>, v: JsonValue)
    ensures
        value_models(s.push(v)) == value_models(s).push(v.model()),
{
    lemma_value_models(s);
    lemma_value_models(s.push(v));
    assert(value_models(s.push(v)) =~= value_models(s).push(v.model()));
}

/// Appending a pair appends its view.
proof fn lemma_pair_models_push(s: Seq<(String, JsonValue)>, p: (String, JsonValue))
    ensures
        pair_models(s.push(p)) == pair_models(s).push((p.0@, p.1.model())),
{
    lemma_pair_models(s);
    lemma_pair_models(s.push(p));
    assert(pair_models(s.push(p)) =~= pair_models(s).push((p.0@, p.1.model())));
}

/// Replacing a pair replaces its view.
proof fn lemma_pair_models_update(s: Seq<(String, JsonValue)>, k: int, p: (String, JsonValue))
    requires
        0 <= k < s.len(),
    ensures
        pair_models(s.update(k, p)) == pair_models(s).update(k, (p.0@, p.1.model())),
{
    lemma_pair_models(s);
    lemma_pair_models(s.update(k, p));
    assert(pair_models(s.update(k, p)) =~= pair_models(s).update(k, (p.0@, p.1.model())));
}

/// No two pairs share a key: the well-formedness of an object's pair list,
/// which insertion preserves.
pub open spec fn keys_distinct(ps: Seq<(Seq<char>, ValueModel)>) -> bool {
    forall|j: int, k: int| 0 <= j < k < ps.len() ==> ps[j].0 != ps[k].0
}

/// Inserting a pair keeps the keys distinct: an old key only has its value
/// replaced, and a new key is not among the old ones.
pub proof fn lemma_model_insert_distinct(
    ps: Seq<(Seq<char>, ValueModel)>,
    key: Seq<char>,
    value: ValueModel,
)
    requires
        keys_distinct(ps),
    ensures
        keys_distinct(model_insert(ps, key, value)),
{
    let f = find_key(ps, key, 0);
    lemma_find_key_properties(ps, key, 0);
    if f >= 0 {
        let r = ps.update(f, (key, value));
        assert forall|j: int, k: int| 0 <= j < k < r.len() implies r[j].0 != r[k].0 by {
            assert(ps[f].0 == key);
            if j == f {
                assert(r[j] == (key, value));
            } else {
                assert(r[j] == ps[j]);
            }
            if k == f {
                assert(r[k] == (key, value));
            } else {
                assert(r[k] == ps[k]);
            }
            assert(ps[j].0 != ps[k].0);
        }
    } else {
        let r = ps.push((key, value));
        assert forall|j: int, k: int| 0 <= j < k < r.len() implies r[j].0 != r[k].0 by {
            if k < ps.len() {
                assert(ps[j].0 != ps[k].0);
            } else {
                assert(r[k] == (key, value));
                assert(r[j] == ps[j]);
                assert(ps[j].0 != key);
            }
        }
    }
}

/// What a successful or failed key search says of the pairs.
pub proof fn lemma_find_key_properties(ps: Seq<(Seq<char>, ValueModel)>, key: Seq<char>, i: int)
    requires
        0 <= i <= ps.len(),
    ensures
        find_key(ps, key, i) >= -1,
        find_key(ps, key, i) == -1 ==> forall|j: int| i <= j < ps.len() ==> ps[j].0 != key,
        find_key(ps, key, i) >= 0 ==> i <= find_key(ps, key, i) < ps.len() && ps[find_key(
            ps,
            key,
            i,
        )].0 == key,
    decreases ps.len() - i,
{
    if i < ps.len() && ps[i].0 != key {
        lemma_find_key_properties(ps, key, i + 1);
    }
}

/// Index of the first pair whose key is `key`, at or after `i`; -1 if none.
pub open spec fn find_key(ps: Seq<(Seq<char>, ValueModel)>, key: Seq<char>, i: int) -> int
    decreases ps.len() - i,
{
    if !(0 <= i < ps.len()) {
        -1
    } else if ps[i].0 == key {
        i
    } else {
        find_key(ps, key, i + 1)
    }
}

/// The mapping after inserting `key` with `value`: a duplicate key
/// overwrites the earlier value in place, a new key is appended.
pub open spec fn model_insert(
    ps: Seq<(Seq<char>, ValueModel)>,
    key: Seq<char>,
    value: ValueModel,
) -> Seq<(Seq<char>, ValueModel)> {
    let k = find_key(ps, key, 0);
    if k >= 0 {
        ps.update(k, (key, value))
    } else {
        ps.push((key, value))
    }
}

/// Inserts `key` with `value` into a pair list: a duplicate key overwrites
/// the earlier value in place, a new key is appended.
pub fn insert_pair(map: &mut Vec<(String, JsonValue)>, key: String, value: JsonValue)
    ensures
        pair_models(final(map)@) == model_insert(pair_models(old(map)@), key@, value@),
{
    let ghost ps = pair_models(map@);
    let mut i: usize = 0;
    while i < map.len()
        invariant
            i <= map@.len(),
            ps == pair_models(map@),
            ps == pair_models(old(map)@),
            find_key(ps, key@, 0) == find_key(ps, key@, i as int),
            forall|k: int| 0 <= k < i ==> ps[k].0 != key@,
        decreases map@.len() - i,
    {
        if map[i].0 == key {
            proof {
                lemma_pair_models(map@);
                assert(ps[i as int].0 == key@);
                assert(find_key(ps, key@, i as int) == i);
                assert(find_key(ps, key@, 0) == i);
            }
            let ghost before = map@;
            let ghost kv = (key@, value@);
            map[i] = (key, value);
            proof {
                lemma_pair_models_update(before, i as int, map@[i as int]);
                assert(pair_models(map@) == pair_models(before).update(i as int, kv));
                assert(model_insert(ps, kv.0, kv.1) == ps.update(i as int, kv));
            }
            return ;
        }
        i = i + 1;
        proof {
            lemma_pair_models(map@);
        }
    }
    proof {
        lemma_pair_models(map@);
        assert(find_key(ps, key@, map@.len() as int) == -1);
        assert(find_key(ps, key@, 0) == -1);
    }
    let ghost before = map@;
    let ghost kv = (key@, value@);
    map.push((key, value));
    proof {
        lemma_pair_models_push(before, map@[map@.len() - 1]);
        assert(pair_models(map@) == pair_models(before).push(kv));
        assert(model_insert(ps, kv.0, kv.1) == ps.push(kv));
    }
}

} // verus!
