//! The document model the codec reads and writes: objects with string keys,
//! ordered arrays, strings, and non-negative integers.

use vstd::prelude::*;

verus! {

/// One key/value pair of an object.
pub struct Entry {
    pub key: String,
    pub value: Value,
}

/// A node of the interchange document model. Turning raw text into this
/// model (and back) is the host format library's job; the codec only
/// transforms between this model and the typed records.
pub enum Value {
    Object(Vec<Entry>),
    Array(Vec<Value>),
    Text(String),
    Int(u64),
}

/// Mathematical model of an `Entry`.
pub struct SpecEntry {
    pub key: Seq<char>,
    pub value: SpecValue,
}

/// Mathematical model of a `Value`.
pub enum SpecValue {
    Object(Seq<SpecEntry>),
    Array(Seq<SpecValue>),
    Text(Seq<char>),
    Int(u64),
}

pub open spec fn entry_view(e: Entry) -> SpecEntry
    decreases e,
{
    SpecEntry { key: e.key@, value: value_view(e.value) }
}

pub open spec fn entries_view(s: Seq<Entry>) -> Seq<SpecEntry>
    decreases s,
{
    if s.len() == 0 {
        Seq::empty()
    } else {
        seq![entry_view(s[0])] + entries_view(s.drop_first())
    }
}

pub open spec fn values_view(s: Seq<Value>) -> Seq<SpecValue>
    decreases s,
{
    if s.len() == 0 {
        Seq::empty()
    } else {
        seq![value_view(s[0])] + values_view(s.drop_first())
    }
}

pub open spec fn value_view(v: Value) -> SpecValue
    decreases v,
{
    match v {
        Value::Object(es) => SpecValue::Object(entries_view(es@)),
        Value::Array(vs) => SpecValue::Array(values_view(vs@)),
        Value::Text(s) => SpecValue::Text(s@),
        Value::Int(n) => SpecValue::Int(n),
    }
}

impl View for Entry {
    type V = SpecEntry;

    open spec fn view(&self) -> SpecEntry {
        entry_view(*self)
    }
}

impl View for Value {
    type V = SpecValue;

    open spec fn view(&self) -> SpecValue {
        value_view(*self)
    }
}

pub proof fn lemma_entries_view(s: Seq<Entry>)
    ensures
        entries_view(s).len() == s.len(),
        forall|i: int| 0 <= i < s.len() ==> entries_view(s)[i] == entry_view(s[i]),
    decreases s.len(),
{
    if s.len() > 0 {
        lemma_entries_view(s.drop_first());
    }
}

pub proof fn lemma_values_view(s: Seq<Value>)
    ensures
        values_view(s).len() == s.len(),
        forall|i: int| 0 <= i < s.len() ==> values_view(s)[i] == value_view(s[i]),
    decreases s.len(),
{
    if s.len() > 0 {
        lemma_values_view(s.drop_first());
    }
}

/// The model of a `Result` is the `Result` of the models.
pub open spec fn result_view<A: View, B: View>(r: Result<A, B>) -> Result<A::V, B::V> {
    match r {
        Ok(a) => Ok(a.view()),
        Err(b) => Err(b.view()),
    }
}

} // verus!
