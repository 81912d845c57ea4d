//! The generic tree-structured value type that attribute maps are made of:
//! objects, arrays, strings, integers, booleans and null. Objects are ordered
//! association lists, so a value is a plain algebraic datatype and document
//! output is deterministic.

use vstd::prelude::*;

verus! {

broadcast use {vstd::std_specs::vec::group_vec_axioms, vstd::seq::group_seq_axioms};

/// A generic JSON-like value. Object entries keep their insertion order;
/// numbers are 64-bit signed integers.
#[derive(Debug, PartialEq, Eq)]
pub enum JsonValue {
    Null,
    Bool(bool),
    Number(i64),
    Str(String),
    Array(Vec<JsonValue>),
    Object(Vec<(String, JsonValue)>),
}

/// The mathematical model of a [`JsonValue`]: the same tree over `Seq` and `int`.
#[verifier::ext_equal]
pub enum ValueModel {
    Null,
    Bool(bool),
    Number(int),
    Str(Seq<char>),
    Array(Seq<ValueModel>),
    Object(Seq<(Seq<char>, ValueModel)>),
}

/// The model of one value.
pub open spec fn value_view(v: JsonValue) -> ValueModel
    decreases v,
{
    match v {
        JsonValue::Null => ValueModel::Null,
        JsonValue::Bool(b) => ValueModel::Bool(b),
        JsonValue::Number(n) => ValueModel::Number(n as int),
        JsonValue::Str(s) => ValueModel::Str(s@),
        JsonValue::Array(items) => ValueModel::Array(value_views(items@)),
        JsonValue::Object(entries) => ValueModel::Object(entry_views(entries@)),
    }
}

/// The models of a sequence of values, in order.
pub open spec fn value_views(s: Seq<JsonValue>) -> Seq<ValueModel>
    decreases s,
{
    if s.len() == 0 {
        Seq::empty()
    } else {
        seq![value_view(s[0])] + value_views(s.drop_first())
    }
}

/// The models of a sequence of object entries, in order.
pub open spec fn entry_views(s: Seq<(String, JsonValue)>) -> Seq<(Seq<char>, ValueModel)>
    decreases s,
{
    if s.len() == 0 {
        Seq::empty()
    } else {
        seq![(s[0].0@, value_view(s[0].1))] + entry_views(s.drop_first())
    }
}

impl View for JsonValue {
    type V = ValueModel;

    open spec fn view(&self) -> ValueModel {
        value_view(*self)
    }
}

/// `value_views` maps `value_view` over the sequence elementwise.
pub broadcast proof fn lemma_value_views(s: Seq<JsonValue>)
    ensures
        (#[trigger] value_views(s)).len() == s.len(),
        forall|i: int| 0 <= i < s.len() ==> value_views(s)[i] == value_view(s[i]),
    decreases s.len(),
{
    if s.len() > 0 {
        lemma_value_views(s.drop_first());
        assert forall|i: int| 0 <= i < s.len() implies value_views(s)[i] == value_view(s[i]) by {
            if i > 0 {
                assert(value_views(s)[i] == value_views(s.drop_first())[i - 1]);
                assert(s.drop_first()[i - 1] == s[i]);
            }
        }
    }
}

/// `entry_views` maps the key view and `value_view` over the entries elementwise.
pub broadcast proof fn lemma_entry_views(s: Seq<(String, JsonValue)>)
    ensures
        (#[trigger] entry_views(s)).len() == s.len(),
        forall|i: int| 0 <= i < s.len() ==> entry_views(s)[i] == (s[i].0@, value_view(s[i].1)),
    decreases s.len(),
{
    if s.len() > 0 {
        lemma_entry_views(s.drop_first());
        assert forall|i: int| 0 <= i < s.len() implies entry_views(s)[i] == (
        s[i].0@,
        value_view(s[i].1),
        ) by {
            if i > 0 {
                assert(entry_views(s)[i] == entry_views(s.drop_first())[i - 1]);
                assert(s.drop_first()[i - 1] == s[i]);
            }
        }
    }
}

/// Deep copy of a value, equal to the original as a [`ValueModel`].
#[verifier::loop_isolation(false)]
pub fn clone_value(v: &JsonValue) -> (r: JsonValue)
    ensures
        r@ == v@,
    decreases v,
{
    broadcast use {lemma_value_views, lemma_entry_views};

    match v {
        JsonValue::Null => JsonValue::Null,
        JsonValue::Bool(b) => JsonValue::Bool(*b),
        JsonValue::Number(n) => JsonValue::Number(*n),
        JsonValue::Str(s) => JsonValue::Str(s.clone()),
        JsonValue::Array(items) => {
            let mut out: Vec<JsonValue> = Vec::new();
            let mut i: usize = 0;
            while i < items.len()
                invariant
                    i <= items.len(),
                    out@.len() == i as int,
                    forall|j: int| 0 <= j < i as int ==> out@[j]@ == #[trigger] items@[j]@,
                decreases items.len() - i,
            {
                out.push(clone_value(&items[i]));
                i = i + 1;
            }
            let r = JsonValue::Array(out);
            proof {
                assert forall|j: int| 0 <= j < items@.len() implies value_views(out@)[j]
                    == value_views(items@)[j] by {
                    assert(out@[j]@ == items@[j]@);
                }
                assert(value_views(out@) =~= value_views(items@));
            }
            r
        },
        JsonValue::Object(entries) => {
            let mut out: Vec<(String, JsonValue)> = Vec::new();
            let mut i: usize = 0;
            while i < entries.len()
                invariant
                    i <= entries.len(),
                    out@.len() == i as int,
                    forall|j: int| 0 <= j < i as int ==> out@[j].0@ == #[trigger] entries@[j].0@,
                    forall|j: int| 0 <= j < i as int ==> out@[j].1@ == #[trigger] entries@[j].1@,
                decreases entries.len() - i,
            {
                let k = entries[i].0.clone();
                let cv = clone_value(&entries[i].1);
                out.push((k, cv));
                i = i + 1;
            }
            let r = JsonValue::Object(out);
            proof {
                assert forall|j: int| 0 <= j < entries@.len() implies entry_views(out@)[j]
                    == entry_views(entries@)[j] by {
                    assert(out@[j].0@ == entries@[j].0@ && out@[j].1@ == entries@[j].1@);
                }
                assert(entry_views(out@) =~= entry_views(entries@));
            }
            r
        },
    }
}

} // verus!
