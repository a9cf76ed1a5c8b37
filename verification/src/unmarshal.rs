//! The tagged value tree that a successful parse produces, and its
//! mathematical model.
//!
//! Numbers keep the canonical lexical form that the semantic actions
//! assemble (an explicit sign, the digits, then an optional fraction and
//! exponent, as in `+12.5e+2`); text is carried as raw decoded bytes.

use vstd::prelude::*;

verus! {

/// The tag of a [`JsonValue`] variant.
#[derive(Clone, Copy, Debug, PartialEq, Eq, Structural)]
pub enum JsonValueType {
    Text,
    Null,
    Bool,
    Object,
    Array,
    Number,
}

/// A decoded JSON value: the result of a parse, or of one semantic action.
///
/// Object entries keep their source order, and duplicate keys are retained.
#[derive(Debug, PartialEq, Eq)]
pub enum JsonValue {
    Null,
    Bool(bool),
    Number(Vec<u8>),
    Text(Vec<u8>),
    Array(Vec<JsonValue>),
    Object(Vec<(Vec<u8>, JsonValue)>),
}

/// The mathematical model of a [`JsonValue`]: the same tree over `Seq`.
pub enum SpecJson {
    Null,
    Bool(bool),
    Number(Seq<u8>),
    Text(Seq<u8>),
    Array(Seq<SpecJson>),
    Object(Seq<(Seq<u8>, SpecJson)>),
}

impl View for JsonValue {
    type V = SpecJson;

    open spec fn view(&self) -> SpecJson
        decreases self,
    {
        match self {
            JsonValue::Null => SpecJson::Null,
            JsonValue::Bool(b) => SpecJson::Bool(*b),
            JsonValue::Number(t) => SpecJson::Number(t@),
            JsonValue::Text(t) => SpecJson::Text(t@),
            JsonValue::Array(items) => SpecJson::Array(items_view(items@)),
            JsonValue::Object(entries) => SpecJson::Object(entries_view(entries@)),
        }
    }
}

/// The deep view of an array item list.
pub open spec fn items_view(v: Seq<JsonValue>) -> Seq<SpecJson>
    decreases v,
{
    if v.len() == 0 {
        Seq::empty()
    } else {
        items_view(v.drop_last()).push(v.last()@)
    }
}

/// The deep view of an object entry list.
pub open spec fn entries_view(v: Seq<(Vec<u8>, JsonValue)>) -> Seq<(Seq<u8>, SpecJson)>
    decreases v,
{
    if v.len() == 0 {
        Seq::empty()
    } else {
        entries_view(v.drop_last()).push((v.last().0@, v.last().1@))
    }
}

/// The deep view of an item list keeps its length.
pub proof fn lemma_items_view_len(v: Seq<JsonValue>)
    ensures
        items_view(v).len() == v.len(),
    decreases v.len(),
{
    if v.len() > 0 {
        lemma_items_view_len(v.drop_last());
        assert(items_view(v.drop_last()).len() == v.drop_last().len());
        assert(v.drop_last().len() == v.len() - 1);
        assert(items_view(v) == items_view(v.drop_last()).push(v.last()@));
        assert(items_view(v).len() == items_view(v.drop_last()).len() + 1);
    } else {
        assert(items_view(v) == Seq::<SpecJson>::empty());
    }
}

/// The deep view of an item list is its pointwise view.
pub proof fn lemma_items_view_index(v: Seq<JsonValue>, i: int)
    requires
        0 <= i < v.len(),
    ensures
        items_view(v).len() == v.len(),
        items_view(v)[i] == v[i]@,
    decreases v.len(),
{
    lemma_items_view_len(v);
    assert(items_view(v) == items_view(v.drop_last()).push(v.last()@));
    if i < v.len() - 1 {
        lemma_items_view_index(v.drop_last(), i);
        assert(items_view(v)[i] == items_view(v.drop_last())[i]);
        assert(v.drop_last()[i] == v[i]);
    } else {
        lemma_items_view_len(v.drop_last());
        assert(items_view(v)[i] == v.last()@);
        assert(v.last() == v[i]);
    }
}

/// The deep view of an item list distributes over push.
pub proof fn lemma_items_view_push(v: Seq<JsonValue>, x: JsonValue)
    ensures
        items_view(v.push(x)) == items_view(v).push(x@),
{
    assert(v.push(x).drop_last() =~= v);
    assert(v.push(x).last() == x);
}

/// The deep view of an entry list keeps its length.
pub proof fn lemma_entries_view_len(v: Seq<(Vec<u8>, JsonValue)>)
    ensures
        entries_view(v).len() == v.len(),
    decreases v.len(),
{
    if v.len() > 0 {
        lemma_entries_view_len(v.drop_last());
        assert(entries_view(v) == entries_view(v.drop_last()).push(
            (v.last().0@, v.last().1@),
        ));
        assert(v.drop_last().len() == v.len() - 1);
    } else {
        assert(entries_view(v) == Seq::<(Seq<u8>, SpecJson)>::empty());
    }
}

/// The deep view of an entry list is its pointwise view.
pub proof fn lemma_entries_view_index(v: Seq<(Vec<u8>, JsonValue)>, i: int)
    requires
        0 <= i < v.len(),
    ensures
        entries_view(v).len() == v.len(),
        entries_view(v)[i] == (v[i].0@, v[i].1@),
    decreases v.len(),
{
    lemma_entries_view_len(v);
    assert(entries_view(v) == entries_view(v.drop_last()).push((v.last().0@, v.last().1@)));
    if i < v.len() - 1 {
        lemma_entries_view_index(v.drop_last(), i);
        assert(entries_view(v)[i] == entries_view(v.drop_last())[i]);
        assert(v.drop_last()[i] == v[i]);
    } else {
        lemma_entries_view_len(v.drop_last());
        assert(entries_view(v)[i] == (v.last().0@, v.last().1@));
        assert(v.last() == v[i]);
    }
}

/// The deep view of an entry list distributes over concatenation.
pub proof fn lemma_entries_view_concat(a: Seq<(Vec<u8>, JsonValue)>, b: Seq<(Vec<u8>, JsonValue)>)
    ensures
        entries_view(a + b) == entries_view(a) + entries_view(b),
    decreases b.len(),
{
    if b.len() == 0 {
        assert(a + b =~= a);
        assert(entries_view(a) + entries_view(b) =~= entries_view(a));
    } else {
        lemma_entries_view_concat(a, b.drop_last());
        assert((a + b).len() == a.len() + b.len());
        assert((a + b).drop_last() =~= a + b.drop_last());
        assert((a + b).last() == b.last());
        assert(entries_view(a + b) == entries_view(a + b.drop_last()).push(
            (b.last().0@, b.last().1@),
        ));
        assert(entries_view(b) == entries_view(b.drop_last()).push((b.last().0@, b.last().1@)));
        assert(entries_view(a) + entries_view(b.drop_last()).push(
            (b.last().0@, b.last().1@),
        ) =~= (entries_view(a) + entries_view(b.drop_last())).push((b.last().0@, b.last().1@)));
    }
}

impl JsonValue {
    /// The tag of this value.
    pub open spec fn spec_value_type(&self) -> JsonValueType {
        match self {
            JsonValue::Null => JsonValueType::Null,
            JsonValue::Bool(_) => JsonValueType::Bool,
            JsonValue::Number(_) => JsonValueType::Number,
            JsonValue::Text(_) => JsonValueType::Text,
            JsonValue::Array(_) => JsonValueType::Array,
            JsonValue::Object(_) => JsonValueType::Object,
        }
    }

    /// Reports which kind of JSON value this is.
    pub fn value_type(&self) -> (t: JsonValueType)
        ensures
            t == self.spec_value_type(),
    {
        match self {
            JsonValue::Null => JsonValueType::Null,
            JsonValue::Bool(_) => JsonValueType::Bool,
            JsonValue::Number(_) => JsonValueType::Number,
            JsonValue::Text(_) => JsonValueType::Text,
            JsonValue::Array(_) => JsonValueType::Array,
            JsonValue::Object(_) => JsonValueType::Object,
        }
    }
}

} // verus!
