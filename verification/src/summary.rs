//! The `Summary` record: a sequence of dated subtotals and the snapshot
//! timestamp, and its element record `SummaryContent`.

use vstd::prelude::*;
use vstd::string::StringExecFns;

use crate::dates::{
    LocalDateTime, UtcDateTime, fmt_local, fmt_utc, lemma_local_round_trip, lemma_utc_round_trip,
    spec_fmt_local, spec_fmt_utc,
};
use crate::error::{DecodeError, SpecDecodeError, strings_view};
use crate::fields::{collect_fields, key_index, slots_view, spec_collect, spec_collect_from};
use crate::slots::{
    opt_value_view, spec_slot_local, spec_slot_u32, spec_slot_utc, take_local, take_u32, take_utc,
};
use crate::value::{
    Entry, SpecEntry, SpecValue, Value, entries_view, entry_view, lemma_entries_view,
    lemma_values_view, result_view, value_view, values_view,
};

verus! {

/// One dated subtotal. Recognized keys: `date`, `sum`, both mandatory.
#[derive(Clone, Copy, PartialEq, Eq, Structural, Debug)]
pub struct SummaryContent {
    pub date: UtcDateTime,
    pub sum: u32,
}

impl View for SummaryContent {
    type V = SummaryContent;

    /// The record holds plain values only, so it is its own model.
    open spec fn view(&self) -> SummaryContent {
        *self
    }
}

/// The subtotal listing. Recognized keys: `data`, `last_update`, both
/// mandatory; `data` is order-preserving.
#[derive(Clone, Debug)]
pub struct Summary {
    pub data: Vec<SummaryContent>,
    pub last_update: LocalDateTime,
}

/// Mathematical model of a `Summary`.
pub struct SpecSummary {
    pub data: Seq<SummaryContent>,
    pub last_update: LocalDateTime,
}

impl View for Summary {
    type V = SpecSummary;

    open spec fn view(&self) -> SpecSummary {
        SpecSummary { data: self.data@, last_update: self.last_update }
    }
}

pub open spec fn spec_summary_content_keys() -> Seq<Seq<char>> {
    seq!["date"@, "sum"@]
}

fn summary_content_keys() -> (r: Vec<String>)
    ensures
        strings_view(r@) == spec_summary_content_keys(),
{
    let mut r: Vec<String> = Vec::new();
    r.push(String::from_str("date"));
    r.push(String::from_str("sum"));
    proof {
        assert(strings_view(r@) =~= spec_summary_content_keys());
    }
    r
}

pub open spec fn spec_summary_keys() -> Seq<Seq<char>> {
    seq!["data"@, "last_update"@]
}

fn summary_keys() -> (r: Vec<String>)
    ensures
        strings_view(r@) == spec_summary_keys(),
{
    let mut r: Vec<String> = Vec::new();
    r.push(String::from_str("data"));
    r.push(String::from_str("last_update"));
    proof {
        assert(strings_view(r@) =~= spec_summary_keys());
    }
    r
}

/// What decoding makes of a subtotal node: the slot machine over the two
/// recognized keys, the date against the offset date-time pattern, the sum
/// a non-negative integer, both mandatory.
pub open spec fn spec_decode_summary_content(v: SpecValue) -> Result<
    SummaryContent,
    SpecDecodeError,
> {
    match v {
        SpecValue::Object(es) => match spec_collect(es, spec_summary_content_keys()) {
            Ok(slots) => match spec_slot_utc(slots[0], "date"@) {
                Err(e) => Err(e),
                Ok(od) => match spec_slot_u32(slots[1], "sum"@) {
                    Err(e) => Err(e),
                    Ok(os) => match od {
                        None => Err(SpecDecodeError::MissingField { field: "date"@ }),
                        Some(d) => match os {
                            None => Err(SpecDecodeError::MissingField { field: "sum"@ }),
                            Some(s) => Ok(SummaryContent { date: d, sum: s }),
                        },
                    },
                },
            },
            Err(e) => Err(e),
        },
        _ => Err(SpecDecodeError::MalformedValue { field: "summary_content"@ }),
    }
}

/// What encoding writes: the date rendered with the offset date-time
/// pattern, then the sum.
pub open spec fn spec_encode_summary_content(r: SummaryContent) -> SpecValue {
    SpecValue::Object(
        seq![
            SpecEntry { key: "date"@, value: SpecValue::Text(spec_fmt_utc(r.date)) },
            SpecEntry { key: "sum"@, value: SpecValue::Int(r.sum as u64) },
        ],
    )
}

/// Element-wise decoding of the subtotal list; the first failure aborts.
pub open spec fn spec_decode_content_list(vs: Seq<SpecValue>) -> Result<
    Seq<SummaryContent>,
    SpecDecodeError,
>
    decreases vs.len(),
{
    if vs.len() == 0 {
        Ok(Seq::empty())
    } else {
        match spec_decode_summary_content(vs[0]) {
            Err(e) => Err(e),
            Ok(x) => match spec_decode_content_list(vs.drop_first()) {
                Err(e) => Err(e),
                Ok(rest) => Ok(seq![x] + rest),
            },
        }
    }
}

pub open spec fn spec_encode_content_list(items: Seq<SummaryContent>) -> Seq<SpecValue> {
    Seq::new(items.len(), |i: int| spec_encode_summary_content(items[i]))
}

/// What decoding makes of a `Summary` node: the `data` array decodes
/// element by element, order preserved; `last_update` is read against the
/// local date-time pattern; both fields mandatory.
pub open spec fn spec_decode_summary(v: SpecValue) -> Result<SpecSummary, SpecDecodeError> {
    match v {
        SpecValue::Object(es) => match spec_collect(es, spec_summary_keys()) {
            Ok(slots) => match spec_slot_data(slots[0]) {
                Err(e) => Err(e),
                Ok(odata) => match spec_slot_local(slots[1], "last_update"@) {
                    Err(e) => Err(e),
                    Ok(ol) => match odata {
                        None => Err(SpecDecodeError::MissingField { field: "data"@ }),
                        Some(data) => match ol {
                            None => Err(SpecDecodeError::MissingField { field: "last_update"@ }),
                            Some(lu) => Ok(SpecSummary { data, last_update: lu }),
                        },
                    },
                },
            },
            Err(e) => Err(e),
        },
        _ => Err(SpecDecodeError::MalformedValue { field: "summary"@ }),
    }
}

/// The `data` slot: an array of subtotal nodes.
pub open spec fn spec_slot_data(slot: Option<SpecValue>) -> Result<
    Option<Seq<SummaryContent>>,
    SpecDecodeError,
> {
    match slot {
        None => Ok(None),
        Some(sv) => match sv {
            SpecValue::Array(vs) => match spec_decode_content_list(vs) {
                Ok(xs) => Ok(Some(xs)),
                Err(e) => Err(e),
            },
            _ => Err(SpecDecodeError::MalformedValue { field: "data"@ }),
        },
    }
}

pub open spec fn spec_encode_summary(r: SpecSummary) -> SpecValue {
    SpecValue::Object(
        seq![
            SpecEntry { key: "data"@, value: SpecValue::Array(spec_encode_content_list(r.data)) },
            SpecEntry {
                key: "last_update"@,
                value: SpecValue::Text(spec_fmt_local(r.last_update)),
            },
        ],
    )
}

fn decode_content_list(vs: &mut Vec<Value>) -> (r: Result<Vec<SummaryContent>, DecodeError>)
    ensures
        match r {
            Ok(items) => spec_decode_content_list(values_view(old(vs)@)) == Ok::<
                _,
                SpecDecodeError,
            >(items@),
            Err(e) => spec_decode_content_list(values_view(old(vs)@)) == Err::<
                Seq<SummaryContent>,
                _,
            >(e@),
        },
{
    let ghost gvs = vs@;
    let mut items: Vec<SummaryContent> = Vec::new();
    while vs.len() > 0
        invariant
            gvs == old(vs)@,
            spec_decode_content_list(values_view(gvs)) == (match spec_decode_content_list(
                values_view(vs@),
            ) {
                Ok(tail) => Ok::<_, SpecDecodeError>(items@ + tail),
                Err(e) => Err(e),
            }),
        decreases vs@.len(),
    {
        let ghost old_rest = vs@;
        let ghost old_items = items@;
        let v0 = vs.remove(0);
        proof {
            assert(vs@ =~= old_rest.drop_first());
            lemma_values_view(old_rest);
            assert(values_view(old_rest)[0] == value_view(v0));
            assert(values_view(old_rest).drop_first() =~= values_view(vs@)) by {
                lemma_values_view(vs@);
                assert forall|i: int| 0 <= i < vs@.len() implies values_view(
                    old_rest,
                ).drop_first()[i] == values_view(vs@)[i] by {
                    assert(values_view(old_rest)[i + 1] == value_view(old_rest[i + 1]));
                    assert(values_view(vs@)[i] == value_view(vs@[i]));
                }
            }
        }
        match SummaryContent::decode(v0) {
            Ok(x) => {
                items.push(x);
                proof {
                    assert(items@ =~= old_items + seq![x]);
                    if spec_decode_content_list(values_view(vs@)) is Ok {
                        let tail = spec_decode_content_list(values_view(vs@))->Ok_0;
                        assert(old_items + (seq![x] + tail) =~= items@ + tail);
                    }
                }
            },
            Err(e) => { return Err(e); },
        }
    }
    proof {
        assert(values_view(vs@).len() == 0) by {
            lemma_values_view(vs@);
        }
        assert(items@ + Seq::<SummaryContent>::empty() =~= items@);
    }
    Ok(items)
}

impl SummaryContent {
    /// The record's invariant: a real UTC date-time.
    pub open spec fn wf(self) -> bool {
        self.date.wf()
    }

    /// Whether the record satisfies its invariant.
    pub fn is_well_formed(&self) -> (r: bool)
        ensures
            r == self.wf(),
    {
        self.date.is_valid()
    }

    /// Decode a document node, exactly as `spec_decode_summary_content` says.
    pub fn decode(v: Value) -> (r: Result<SummaryContent, DecodeError>)
        ensures
            result_view(r) == spec_decode_summary_content(value_view(v)),
    {
        let mut es = match v {
            Value::Object(es) => es,
            _ => {
                return Err(
                    DecodeError::MalformedValue { field: String::from_str("summary_content") },
                );
            },
        };
        let keys = summary_content_keys();
        let mut slots = match collect_fields(&mut es, &keys) {
            Ok(s) => s,
            Err(e) => { return Err(e); },
        };
        let slot_date = slots.remove(0);
        let slot_sum = slots.remove(0);
        let od = match take_utc(slot_date, "date") {
            Ok(o) => o,
            Err(e) => { return Err(e); },
        };
        let os = match take_u32(slot_sum, "sum") {
            Ok(o) => o,
            Err(e) => { return Err(e); },
        };
        let d = match od {
            Some(d) => d,
            None => {
                return Err(DecodeError::MissingField { field: String::from_str("date") });
            },
        };
        let s = match os {
            Some(s) => s,
            None => {
                return Err(DecodeError::MissingField { field: String::from_str("sum") });
            },
        };
        Ok(SummaryContent { date: d, sum: s })
    }

    /// Encode the record, exactly as `spec_encode_summary_content` says.
    pub fn encode(&self) -> (r: Value)
        requires
            self.wf(),
        ensures
            value_view(r) == spec_encode_summary_content(*self),
    {
        let mut es: Vec<Entry> = Vec::new();
        es.push(Entry { key: String::from_str("date"), value: Value::Text(fmt_utc(self.date)) });
        es.push(Entry { key: String::from_str("sum"), value: Value::Int(self.sum as u64) });
        proof {
            lemma_entries_view(es@);
            assert(entries_view(es@)[0] == entry_view(es@[0]));
            assert(entries_view(es@)[1] == entry_view(es@[1]));
            assert(entries_view(es@) =~= seq![
                SpecEntry { key: "date"@, value: SpecValue::Text(spec_fmt_utc(self.date)) },
                SpecEntry { key: "sum"@, value: SpecValue::Int(self.sum as u64) },
            ]);
        }
        Value::Object(es)
    }
}

impl Summary {
    /// The record's invariant: every subtotal and the timestamp well formed.
    pub open spec fn wf(self) -> bool {
        (forall|i: int| 0 <= i < self.data@.len() ==> (#[trigger] self.data@[i]).wf())
            && self.last_update.wf()
    }

    /// Whether every subtotal and the timestamp satisfy their invariants.
    pub fn is_well_formed(&self) -> (r: bool)
        ensures
            r == self.wf(),
    {
        if !self.last_update.is_valid() {
            return false;
        }
        let mut i: usize = 0;
        while i < self.data.len()
            invariant
                i <= self.data@.len(),
                self.last_update.wf(),
                forall|k: int| 0 <= k < i ==> (#[trigger] self.data@[k]).wf(),
            decreases self.data@.len() - i,
        {
            if !self.data[i].is_well_formed() {
                return false;
            }
            i += 1;
        }
        true
    }

    /// Decode a document node, exactly as `spec_decode_summary` says.
    pub fn decode(v: Value) -> (r: Result<Summary, DecodeError>)
        ensures
            result_view(r) == spec_decode_summary(value_view(v)),
    {
        let mut es = match v {
            Value::Object(es) => es,
            _ => {
                return Err(DecodeError::MalformedValue { field: String::from_str("summary") });
            },
        };
        let keys = summary_keys();
        let mut slots = match collect_fields(&mut es, &keys) {
            Ok(s) => s,
            Err(e) => { return Err(e); },
        };
        let slot_data = slots.remove(0);
        let slot_lu = slots.remove(0);
        let odata = match slot_data {
            None => None,
            Some(val) => match val {
                Value::Array(mut vs) => match decode_content_list(&mut vs) {
                    Ok(items) => Some(items),
                    Err(e) => { return Err(e); },
                },
                _ => {
                    return Err(DecodeError::MalformedValue { field: String::from_str("data") });
                },
            },
        };
        let ol = match take_local(slot_lu, "last_update") {
            Ok(o) => o,
            Err(e) => { return Err(e); },
        };
        let data = match odata {
            Some(d) => d,
            None => {
                return Err(DecodeError::MissingField { field: String::from_str("data") });
            },
        };
        let lu = match ol {
            Some(l) => l,
            None => {
                return Err(DecodeError::MissingField { field: String::from_str("last_update") });
            },
        };
        Ok(Summary { data, last_update: lu })
    }

    /// Encode the record, exactly as `spec_encode_summary` says.
    pub fn encode(&self) -> (r: Value)
        requires
            self.wf(),
        ensures
            value_view(r) == spec_encode_summary(self@),
    {
        let mut vs: Vec<Value> = Vec::new();
        let mut i: usize = 0;
        while i < self.data.len()
            invariant
                i <= self.data@.len(),
                self.wf(),
                vs@.len() == i,
                forall|k: int| 0 <= k < i ==> values_view(vs@)[k] == spec_encode_summary_content(
                    self.data@[k],
                ),
            decreases self.data@.len() - i,
        {
            let ghost old_vs = vs@;
            vs.push(self.data[i].encode());
            proof {
                lemma_values_view(vs@);
                lemma_values_view(old_vs);
                assert forall|k: int| 0 <= k < i + 1 implies values_view(vs@)[k]
                    == spec_encode_summary_content(self.data@[k]) by {
                    assert(values_view(vs@)[k] == value_view(vs@[k]));
                    if k < i {
                        assert(values_view(old_vs)[k] == value_view(old_vs[k]));
                    }
                }
            }
            i += 1;
        }
        proof {
            lemma_values_view(vs@);
            assert(values_view(vs@) =~= spec_encode_content_list(self@.data));
        }
        let mut es: Vec<Entry> = Vec::new();
        es.push(Entry { key: String::from_str("data"), value: Value::Array(vs) });
        es.push(
            Entry {
                key: String::from_str("last_update"),
                value: Value::Text(fmt_local(self.last_update)),
            },
        );
        proof {
            lemma_entries_view(es@);
            assert(entries_view(es@)[0] == entry_view(es@[0]));
            assert(entries_view(es@)[1] == entry_view(es@[1]));
            assert(entries_view(es@) =~= seq![
                SpecEntry {
                    key: "data"@,
                    value: SpecValue::Array(spec_encode_content_list(self@.data)),
                },
                SpecEntry {
                    key: "last_update"@,
                    value: SpecValue::Text(spec_fmt_local(self.last_update)),
                },
            ]);
        }
        Value::Object(es)
    }
}

/// Law: decoding an encoded subtotal yields the subtotal back.
pub proof fn lemma_summary_content_round_trip(r: SummaryContent)
    requires
        r.wf(),
    ensures
        spec_decode_summary_content(spec_encode_summary_content(r)) == Ok::<_, SpecDecodeError>(r),
{
    reveal_strlit("date");
    reveal_strlit("sum");
    let e0 = SpecEntry { key: "date"@, value: SpecValue::Text(spec_fmt_utc(r.date)) };
    let e1 = SpecEntry { key: "sum"@, value: SpecValue::Int(r.sum as u64) };
    let es = seq![e0, e1];
    let keys = spec_summary_content_keys();
    let init = Seq::new(keys.len(), |i: int| None::<SpecValue>);
    assert("date"@.len() == 4 && "sum"@.len() == 3);
    assert("date"@ != "sum"@);
    assert(key_index(keys, "date"@) == 0);
    assert(key_index(keys, "sum"@) == 1) by {
        assert(key_index(keys.drop_first(), "sum"@) == 0);
    }
    let s1 = init.update(0, Some(SpecValue::Text(spec_fmt_utc(r.date))));
    let s2 = s1.update(1, Some(SpecValue::Int(r.sum as u64)));
    let es1 = es.drop_first();
    let es2 = es1.drop_first();
    assert(es1 =~= seq![e1]);
    assert(es2.len() == 0);
    assert(spec_collect_from(es2, keys, s2) == Ok::<_, SpecDecodeError>(s2));
    assert(spec_collect_from(es1, keys, s1) == spec_collect_from(es2, keys, s2));
    assert(spec_collect_from(es, keys, init) == spec_collect_from(es1, keys, s1));
    assert(spec_collect(es, keys) == Ok::<_, SpecDecodeError>(s2));
    assert(s2[0] == Some(SpecValue::Text(spec_fmt_utc(r.date))));
    assert(s2[1] == Some(SpecValue::Int(r.sum as u64)));
    lemma_utc_round_trip(r.date);
}

/// Law: decoding an encoded subtotal list yields the list back, order
/// preserved.
pub proof fn lemma_content_list_round_trip(items: Seq<SummaryContent>)
    requires
        forall|i: int| 0 <= i < items.len() ==> (#[trigger] items[i]).wf(),
    ensures
        spec_decode_content_list(spec_encode_content_list(items)) == Ok::<_, SpecDecodeError>(
            items,
        ),
    decreases items.len(),
{
    let vs = spec_encode_content_list(items);
    if items.len() == 0 {
        assert(vs.len() == 0);
        assert(Seq::<SummaryContent>::empty() =~= items);
    } else {
        assert(vs[0] == spec_encode_summary_content(items[0]));
        lemma_summary_content_round_trip(items[0]);
        assert(vs.drop_first() =~= spec_encode_content_list(items.drop_first()));
        lemma_content_list_round_trip(items.drop_first());
        assert(seq![items[0]] + items.drop_first() =~= items);
    }
}

/// Law: omitting either mandatory field from an otherwise valid subtotal
/// input fails with a missing-field error naming that field.
pub proof fn lemma_summary_content_missing_field(r: SummaryContent, k: int)
    requires
        r.wf(),
        0 <= k < 2,
    ensures
        ({
            let full = seq![
                SpecEntry { key: "date"@, value: SpecValue::Text(spec_fmt_utc(r.date)) },
                SpecEntry { key: "sum"@, value: SpecValue::Int(r.sum as u64) },
            ];
            spec_decode_summary_content(SpecValue::Object(full.remove(k))) == Err::<
                SummaryContent,
                _,
            >(SpecDecodeError::MissingField { field: spec_summary_content_keys()[k] })
        }),
{
    reveal_strlit("date");
    reveal_strlit("sum");
    assert("date"@.len() == 4 && "sum"@.len() == 3);
    let e0 = SpecEntry { key: "date"@, value: SpecValue::Text(spec_fmt_utc(r.date)) };
    let e1 = SpecEntry { key: "sum"@, value: SpecValue::Int(r.sum as u64) };
    let full = seq![e0, e1];
    let keys = spec_summary_content_keys();
    let init = Seq::new(keys.len(), |i: int| None::<SpecValue>);
    assert(key_index(keys, "date"@) == 0);
    assert(key_index(keys, "sum"@) == 1) by {
        assert(key_index(keys.drop_first(), "sum"@) == 0);
    }
    lemma_utc_round_trip(r.date);
    if k == 0 {
        let es = full.remove(0);
        assert(es =~= seq![e1]);
        let s1 = init.update(1, Some(e1.value));
        assert(es.drop_first().len() == 0);
        assert(spec_collect_from(es.drop_first(), keys, s1) == Ok::<_, SpecDecodeError>(s1));
        assert(spec_collect(es, keys) == Ok::<_, SpecDecodeError>(s1));
        assert(s1[0] is None && s1[1] == Some(e1.value));
    } else {
        let es = full.remove(1);
        assert(es =~= seq![e0]);
        let s1 = init.update(0, Some(e0.value));
        assert(es.drop_first().len() == 0);
        assert(spec_collect_from(es.drop_first(), keys, s1) == Ok::<_, SpecDecodeError>(s1));
        assert(spec_collect(es, keys) == Ok::<_, SpecDecodeError>(s1));
        assert(s1[0] == Some(e0.value) && s1[1] is None);
    }
}

/// Law: omitting either mandatory field from an otherwise valid summary
/// input fails with a missing-field error naming that field.
pub proof fn lemma_summary_missing_field(r: SpecSummary, k: int)
    requires
        forall|i: int| 0 <= i < r.data.len() ==> (#[trigger] r.data[i]).wf(),
        r.last_update.wf(),
        0 <= k < 2,
    ensures
        ({
            let full = seq![
                SpecEntry {
                    key: "data"@,
                    value: SpecValue::Array(spec_encode_content_list(r.data)),
                },
                SpecEntry {
                    key: "last_update"@,
                    value: SpecValue::Text(spec_fmt_local(r.last_update)),
                },
            ];
            spec_decode_summary(SpecValue::Object(full.remove(k))) == Err::<SpecSummary, _>(
                SpecDecodeError::MissingField { field: spec_summary_keys()[k] },
            )
        }),
{
    reveal_strlit("data");
    reveal_strlit("last_update");
    assert("data"@.len() == 4 && "last_update"@.len() == 11);
    let e0 = SpecEntry { key: "data"@, value: SpecValue::Array(spec_encode_content_list(r.data)) };
    let e1 = SpecEntry { key: "last_update"@, value: SpecValue::Text(spec_fmt_local(r.last_update)) };
    let full = seq![e0, e1];
    let keys = spec_summary_keys();
    let init = Seq::new(keys.len(), |i: int| None::<SpecValue>);
    assert(key_index(keys, "data"@) == 0);
    assert(key_index(keys, "last_update"@) == 1) by {
        assert(key_index(keys.drop_first(), "last_update"@) == 0);
    }
    lemma_content_list_round_trip(r.data);
    lemma_local_round_trip(r.last_update);
    if k == 0 {
        let es = full.remove(0);
        assert(es =~= seq![e1]);
        let s1 = init.update(1, Some(e1.value));
        assert(es.drop_first().len() == 0);
        assert(spec_collect_from(es.drop_first(), keys, s1) == Ok::<_, SpecDecodeError>(s1));
        assert(spec_collect(es, keys) == Ok::<_, SpecDecodeError>(s1));
        assert(s1[0] is None && s1[1] == Some(e1.value));
    } else {
        let es = full.remove(1);
        assert(es =~= seq![e0]);
        let s1 = init.update(0, Some(e0.value));
        assert(es.drop_first().len() == 0);
        assert(spec_collect_from(es.drop_first(), keys, s1) == Ok::<_, SpecDecodeError>(s1));
        assert(spec_collect(es, keys) == Ok::<_, SpecDecodeError>(s1));
        assert(s1[0] == Some(e0.value) && s1[1] is None);
    }
}

/// Law: decoding an encoded `Summary` yields the record back.
pub proof fn lemma_summary_round_trip(r: SpecSummary)
    requires
        forall|i: int| 0 <= i < r.data.len() ==> (#[trigger] r.data[i]).wf(),
        r.last_update.wf(),
    ensures
        spec_decode_summary(spec_encode_summary(r)) == Ok::<_, SpecDecodeError>(r),
{
    reveal_strlit("data");
    reveal_strlit("last_update");
    let e0 = SpecEntry { key: "data"@, value: SpecValue::Array(spec_encode_content_list(r.data)) };
    let e1 = SpecEntry { key: "last_update"@, value: SpecValue::Text(spec_fmt_local(r.last_update)) };
    let es = seq![e0, e1];
    let keys = spec_summary_keys();
    let init = Seq::new(keys.len(), |i: int| None::<SpecValue>);
    assert("data"@.len() == 4 && "last_update"@.len() == 11);
    assert("data"@ != "last_update"@);
    assert(key_index(keys, "data"@) == 0);
    assert(key_index(keys, "last_update"@) == 1) by {
        assert(key_index(keys.drop_first(), "last_update"@) == 0);
    }
    let s1 = init.update(0, Some(SpecValue::Array(spec_encode_content_list(r.data))));
    let s2 = s1.update(1, Some(SpecValue::Text(spec_fmt_local(r.last_update))));
    let es1 = es.drop_first();
    let es2 = es1.drop_first();
    assert(es1 =~= seq![e1]);
    assert(es2.len() == 0);
    assert(spec_collect_from(es2, keys, s2) == Ok::<_, SpecDecodeError>(s2));
    assert(spec_collect_from(es1, keys, s1) == spec_collect_from(es2, keys, s2));
    assert(spec_collect_from(es, keys, init) == spec_collect_from(es1, keys, s1));
    assert(spec_collect(es, keys) == Ok::<_, SpecDecodeError>(s2));
    assert(s2[0] == Some(SpecValue::Array(spec_encode_content_list(r.data))));
    assert(s2[1] == Some(SpecValue::Text(spec_fmt_local(r.last_update))));
    lemma_content_list_round_trip(r.data);
    lemma_local_round_trip(r.last_update);
}

} // verus!
