//! The `LastUpdate` record: the moment a dataset snapshot was generated.

use vstd::prelude::*;
use vstd::string::StringExecFns;

use crate::dates::{
    LocalDateTime, fmt_local, lemma_local_round_trip, parse_local, spec_fmt_local,
    spec_parse_local,
};
use crate::error::{DecodeError, SpecDecodeError, strings_view};
use crate::fields::{collect_fields, key_index, slots_view, spec_collect, spec_collect_from};
use crate::value::{
    Entry, SpecEntry, SpecValue, Value, entries_view, entry_view, lemma_entries_view, result_view,
    value_view,
};

verus! {

/// A snapshot timestamp. Recognized key: `last_update`, mandatory.
#[derive(Clone, Copy, PartialEq, Eq, Structural, Debug)]
pub struct LastUpdate {
    pub datetime: LocalDateTime,
}

impl View for LastUpdate {
    type V = LastUpdate;

    /// The record holds plain values only, so it is its own model.
    open spec fn view(&self) -> LastUpdate {
        *self
    }
}

/// The record's closed key set, in canonical order.
pub open spec fn spec_last_update_keys() -> Seq<Seq<char>> {
    seq!["last_update"@]
}

fn last_update_keys() -> (r: Vec<String>)
    ensures
        strings_view(r@) == spec_last_update_keys(),
{
    let mut r: Vec<String> = Vec::new();
    r.push(String::from_str("last_update"));
    proof {
        assert(strings_view(r@) =~= spec_last_update_keys());
    }
    r
}

/// What decoding makes of a document node: the slot machine over the one
/// recognized key, then the local date-time pattern on the value.
pub open spec fn spec_decode_last_update(v: SpecValue) -> Result<LastUpdate, SpecDecodeError> {
    match v {
        SpecValue::Object(es) => match spec_collect(es, spec_last_update_keys()) {
            Ok(slots) => match slots[0] {
                Some(sv) => match sv {
                    SpecValue::Text(s) => match spec_parse_local(s) {
                        Some(t) => Ok(LastUpdate { datetime: t }),
                        None => Err(SpecDecodeError::MalformedValue { field: "last_update"@ }),
                    },
                    _ => Err(SpecDecodeError::MalformedValue { field: "last_update"@ }),
                },
                None => Err(SpecDecodeError::MissingField { field: "last_update"@ }),
            },
            Err(e) => Err(e),
        },
        _ => Err(SpecDecodeError::MalformedValue { field: "last_update"@ }),
    }
}

/// What encoding writes: one entry, the timestamp rendered with the local
/// date-time pattern.
pub open spec fn spec_encode_last_update(r: LastUpdate) -> SpecValue {
    SpecValue::Object(
        seq![
            SpecEntry { key: "last_update"@, value: SpecValue::Text(spec_fmt_local(r.datetime)) },
        ],
    )
}

impl LastUpdate {
    /// The record's invariant: a real calendar date and clock time.
    pub open spec fn wf(self) -> bool {
        self.datetime.wf()
    }

    /// Whether the record satisfies its invariant.
    pub fn is_well_formed(&self) -> (r: bool)
        ensures
            r == self.wf(),
    {
        self.datetime.is_valid()
    }

    /// Decode a document node, exactly as `spec_decode_last_update` says.
    pub fn decode(v: Value) -> (r: Result<LastUpdate, DecodeError>)
        ensures
            result_view(r) == spec_decode_last_update(value_view(v)),
    {
        let mut es = match v {
            Value::Object(es) => es,
            _ => {
                return Err(
                    DecodeError::MalformedValue { field: String::from_str("last_update") },
                );
            },
        };
        let keys = last_update_keys();
        let mut slots = match collect_fields(&mut es, &keys) {
            Ok(s) => s,
            Err(e) => { return Err(e); },
        };
        let slot0 = slots.remove(0);
        match slot0 {
            Some(val) => match val {
                Value::Text(s) => match parse_local(s.as_str()) {
                    Some(t) => Ok(LastUpdate { datetime: t }),
                    None => Err(
                        DecodeError::MalformedValue { field: String::from_str("last_update") },
                    ),
                },
                _ => Err(DecodeError::MalformedValue { field: String::from_str("last_update") }),
            },
            None => Err(DecodeError::MissingField { field: String::from_str("last_update") }),
        }
    }

    /// Encode the record, exactly as `spec_encode_last_update` says.
    pub fn encode(&self) -> (r: Value)
        requires
            self.wf(),
        ensures
            value_view(r) == spec_encode_last_update(*self),
    {
        let mut es: Vec<Entry> = Vec::new();
        es.push(
            Entry {
                key: String::from_str("last_update"),
                value: Value::Text(fmt_local(self.datetime)),
            },
        );
        proof {
            lemma_entries_view(es@);
            assert(entries_view(es@)[0] == entry_view(es@[0]));
            assert(entry_view(es@[0]).key == "last_update"@);
            assert(entry_view(es@[0]).value == SpecValue::Text(spec_fmt_local(self.datetime)));
            assert(entries_view(es@) =~= seq![
                SpecEntry {
                    key: "last_update"@,
                    value: SpecValue::Text(spec_fmt_local(self.datetime)),
                },
            ]);
        }
        Value::Object(es)
    }
}

/// Law: decoding an encoded record yields the record back.
pub proof fn lemma_last_update_round_trip(r: LastUpdate)
    requires
        r.wf(),
    ensures
        spec_decode_last_update(spec_encode_last_update(r)) == Ok::<_, SpecDecodeError>(r),
{
    let es = seq![
        SpecEntry { key: "last_update"@, value: SpecValue::Text(spec_fmt_local(r.datetime)) },
    ];
    let keys = spec_last_update_keys();
    let init = Seq::new(keys.len(), |i: int| None::<SpecValue>);
    let s1 = init.update(0, Some(SpecValue::Text(spec_fmt_local(r.datetime))));
    assert(key_index(keys, "last_update"@) == 0);
    assert(init[0] is None);
    assert(es.drop_first().len() == 0);
    assert(spec_collect_from(es.drop_first(), keys, s1) == Ok::<_, SpecDecodeError>(s1));
    assert(spec_collect(es, keys) == Ok::<_, SpecDecodeError>(s1));
    assert(s1[0] == Some(SpecValue::Text(spec_fmt_local(r.datetime))));
    lemma_local_round_trip(r.datetime);
}

/// Law: an input that omits the mandatory `last_update` key fails with a
/// missing-field error.
pub proof fn lemma_last_update_missing_field()
    ensures
        spec_decode_last_update(SpecValue::Object(Seq::empty())) == Err::<LastUpdate, _>(
            SpecDecodeError::MissingField { field: "last_update"@ },
        ),
{
    let keys = spec_last_update_keys();
    let init = Seq::new(keys.len(), |i: int| None::<SpecValue>);
    assert(spec_collect(Seq::empty(), keys) == Ok::<_, SpecDecodeError>(init));
    assert(init[0] is None);
}

} // verus!
