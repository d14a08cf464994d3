//! The `NewsItem` record and its order-preserving sequence `NewsItems`.

use vstd::prelude::*;
use vstd::string::StringExecFns;

use crate::dates::{
    CalendarDate, fmt_date, lemma_date_round_trip, spec_fmt_date,
};
use crate::error::{DecodeError, SpecDecodeError, strings_view};
use crate::fields::{collect_fields, key_index, slots_view, spec_collect, spec_collect_from};
use crate::slots::{
    opt_value_view, spec_slot_date, spec_slot_text, take_date, take_text,
};
use crate::value::{
    Entry, SpecEntry, SpecValue, Value, entries_view, entry_view, lemma_entries_view,
    lemma_values_view, result_view, value_view, values_view,
};

verus! {

/// One news item. Recognized keys: `date`, `text`, `url`, all mandatory.
#[derive(Clone, Debug)]
pub struct NewsItem {
    pub date: CalendarDate,
    pub text: String,
    pub url: String,
}

/// Mathematical model of a `NewsItem`.
pub struct SpecNewsItem {
    pub date: CalendarDate,
    pub text: Seq<char>,
    pub url: Seq<char>,
}

impl View for NewsItem {
    type V = SpecNewsItem;

    open spec fn view(&self) -> SpecNewsItem {
        SpecNewsItem { date: self.date, text: self.text@, url: self.url@ }
    }
}

/// An ordered, possibly empty sequence of news items. Recognized key:
/// `news_items`, mandatory.
#[derive(Clone, Debug)]
pub struct NewsItems {
    pub news_items: Vec<NewsItem>,
}

/// Mathematical model of `NewsItems`.
pub struct SpecNewsItems {
    pub news_items: Seq<SpecNewsItem>,
}

/// The model of a list of news items.
pub open spec fn news_list_view(s: Seq<NewsItem>) -> Seq<SpecNewsItem> {
    Seq::new(s.len(), |i: int| s[i]@)
}

impl View for NewsItems {
    type V = SpecNewsItems;

    open spec fn view(&self) -> SpecNewsItems {
        SpecNewsItems { news_items: news_list_view(self.news_items@) }
    }
}

pub open spec fn spec_news_item_keys() -> Seq<Seq<char>> {
    seq!["date"@, "text"@, "url"@]
}

fn news_item_keys() -> (r: Vec<String>)
    ensures
        strings_view(r@) == spec_news_item_keys(),
{
    let mut r: Vec<String> = Vec::new();
    r.push(String::from_str("date"));
    r.push(String::from_str("text"));
    r.push(String::from_str("url"));
    proof {
        assert(strings_view(r@) =~= spec_news_item_keys());
    }
    r
}

pub open spec fn spec_news_items_keys() -> Seq<Seq<char>> {
    seq!["news_items"@]
}

fn news_items_keys() -> (r: Vec<String>)
    ensures
        strings_view(r@) == spec_news_items_keys(),
{
    let mut r: Vec<String> = Vec::new();
    r.push(String::from_str("news_items"));
    proof {
        assert(strings_view(r@) =~= spec_news_items_keys());
    }
    r
}

/// What decoding makes of a document node: the slot machine over the three
/// recognized keys, each value read against its field's type, every field
/// mandatory.
pub open spec fn spec_decode_news_item(v: SpecValue) -> Result<SpecNewsItem, SpecDecodeError> {
    match v {
        SpecValue::Object(es) => match spec_collect(es, spec_news_item_keys()) {
            Ok(slots) => match spec_slot_date(slots[0], "date"@) {
                Err(e) => Err(e),
                Ok(od) => match spec_slot_text(slots[1], "text"@) {
                    Err(e) => Err(e),
                    Ok(ot) => match spec_slot_text(slots[2], "url"@) {
                        Err(e) => Err(e),
                        Ok(ou) => match od {
                            None => Err(SpecDecodeError::MissingField { field: "date"@ }),
                            Some(d) => match ot {
                                None => Err(SpecDecodeError::MissingField { field: "text"@ }),
                                Some(t) => match ou {
                                    None => Err(SpecDecodeError::MissingField { field: "url"@ }),
                                    Some(u) => Ok(SpecNewsItem { date: d, text: t, url: u }),
                                },
                            },
                        },
                    },
                },
            },
            Err(e) => Err(e),
        },
        _ => Err(SpecDecodeError::MalformedValue { field: "news_item"@ }),
    }
}

/// What encoding writes: the fields in canonical order, the date rendered
/// with the calendar-date pattern.
pub open spec fn spec_encode_news_item(r: SpecNewsItem) -> SpecValue {
    SpecValue::Object(
        seq![
            SpecEntry { key: "date"@, value: SpecValue::Text(spec_fmt_date(r.date)) },
            SpecEntry { key: "text"@, value: SpecValue::Text(r.text) },
            SpecEntry { key: "url"@, value: SpecValue::Text(r.url) },
        ],
    )
}

/// Element-wise decoding of a list of news items; the first failure aborts.
pub open spec fn spec_decode_news_list(vs: Seq<SpecValue>) -> Result<
    Seq<SpecNewsItem>,
    SpecDecodeError,
>
    decreases vs.len(),
{
    if vs.len() == 0 {
        Ok(Seq::empty())
    } else {
        match spec_decode_news_item(vs[0]) {
            Err(e) => Err(e),
            Ok(x) => match spec_decode_news_list(vs.drop_first()) {
                Err(e) => Err(e),
                Ok(rest) => Ok(seq![x] + rest),
            },
        }
    }
}

pub open spec fn spec_encode_news_list(items: Seq<SpecNewsItem>) -> Seq<SpecValue> {
    Seq::new(items.len(), |i: int| spec_encode_news_item(items[i]))
}

/// What decoding makes of a `NewsItems` node: the one mandatory key holds
/// an array whose elements decode item by item, order preserved.
pub open spec fn spec_decode_news_items(v: SpecValue) -> Result<SpecNewsItems, SpecDecodeError> {
    match v {
        SpecValue::Object(es) => match spec_collect(es, spec_news_items_keys()) {
            Ok(slots) => match slots[0] {
                None => Err(SpecDecodeError::MissingField { field: "news_items"@ }),
                Some(sv) => match sv {
                    SpecValue::Array(vs) => match spec_decode_news_list(vs) {
                        Ok(xs) => Ok(SpecNewsItems { news_items: xs }),
                        Err(e) => Err(e),
                    },
                    _ => Err(SpecDecodeError::MalformedValue { field: "news_items"@ }),
                },
            },
            Err(e) => Err(e),
        },
        _ => Err(SpecDecodeError::MalformedValue { field: "news_items"@ }),
    }
}

pub open spec fn spec_encode_news_items(r: SpecNewsItems) -> SpecValue {
    SpecValue::Object(
        seq![
            SpecEntry {
                key: "news_items"@,
                value: SpecValue::Array(spec_encode_news_list(r.news_items)),
            },
        ],
    )
}

fn decode_news_list(vs: &mut Vec<Value>) -> (r: Result<Vec<NewsItem>, DecodeError>)
    ensures
        match r {
            Ok(items) => spec_decode_news_list(values_view(old(vs)@)) == Ok::<
                _,
                SpecDecodeError,
            >(news_list_view(items@)),
            Err(e) => spec_decode_news_list(values_view(old(vs)@)) == Err::<
                Seq<SpecNewsItem>,
                _,
            >(e@),
        },
{
    let ghost gvs = vs@;
    let mut items: Vec<NewsItem> = Vec::new();
    while vs.len() > 0
        invariant
            gvs == old(vs)@,
            spec_decode_news_list(values_view(gvs)) == (match spec_decode_news_list(
                values_view(vs@),
            ) {
                Ok(tail) => Ok::<_, SpecDecodeError>(news_list_view(items@) + tail),
                Err(e) => Err(e),
            }),
        decreases vs@.len(),
    {
        let ghost old_rest = vs@;
        let ghost old_items = items@;
        let v0 = vs.remove(0);
        proof {
            assert(vs@ =~= old_rest.drop_first());
            lemma_values_view(old_rest);
            assert(values_view(old_rest)[0] == value_view(v0));
            assert(values_view(old_rest).drop_first() =~= values_view(vs@)) by {
                lemma_values_view(vs@);
                assert forall|i: int| 0 <= i < vs@.len() implies values_view(
                    old_rest,
                ).drop_first()[i] == values_view(vs@)[i] by {
                    assert(values_view(old_rest)[i + 1] == value_view(old_rest[i + 1]));
                    assert(values_view(vs@)[i] == value_view(vs@[i]));
                }
            }
        }
        match NewsItem::decode(v0) {
            Ok(x) => {
                items.push(x);
                proof {
                    assert(news_list_view(items@) =~= news_list_view(old_items) + seq![x@]);
                    if spec_decode_news_list(values_view(vs@)) is Ok {
                        let tail = spec_decode_news_list(values_view(vs@))->Ok_0;
                        assert(news_list_view(old_items) + (seq![x@] + tail) =~= news_list_view(
                            items@,
                        ) + tail);
                    }
                }
            },
            Err(e) => { return Err(e); },
        }
    }
    proof {
        assert(values_view(vs@).len() == 0) by {
            lemma_values_view(vs@);
        }
        assert(news_list_view(items@) + Seq::<SpecNewsItem>::empty() =~= news_list_view(items@));
    }
    Ok(items)
}

impl NewsItem {
    /// The record's invariant: a real calendar date.
    pub open spec fn wf(self) -> bool {
        self.date.wf()
    }

    /// Whether the record satisfies its invariant.
    pub fn is_well_formed(&self) -> (r: bool)
        ensures
            r == self.wf(),
    {
        self.date.is_valid()
    }

    /// Decode a document node, exactly as `spec_decode_news_item` says.
    pub fn decode(v: Value) -> (r: Result<NewsItem, DecodeError>)
        ensures
            result_view(r) == spec_decode_news_item(value_view(v)),
    {
        let mut es = match v {
            Value::Object(es) => es,
            _ => {
                return Err(DecodeError::MalformedValue { field: String::from_str("news_item") });
            },
        };
        let keys = news_item_keys();
        let mut slots = match collect_fields(&mut es, &keys) {
            Ok(s) => s,
            Err(e) => { return Err(e); },
        };
        let slot_date = slots.remove(0);
        let slot_text = slots.remove(0);
        let slot_url = slots.remove(0);
        let od = match take_date(slot_date, "date") {
            Ok(o) => o,
            Err(e) => { return Err(e); },
        };
        let ot = match take_text(slot_text, "text") {
            Ok(o) => o,
            Err(e) => { return Err(e); },
        };
        let ou = match take_text(slot_url, "url") {
            Ok(o) => o,
            Err(e) => { return Err(e); },
        };
        let d = match od {
            Some(d) => d,
            None => {
                return Err(DecodeError::MissingField { field: String::from_str("date") });
            },
        };
        let t = match ot {
            Some(t) => t,
            None => {
                return Err(DecodeError::MissingField { field: String::from_str("text") });
            },
        };
        let u = match ou {
            Some(u) => u,
            None => {
                return Err(DecodeError::MissingField { field: String::from_str("url") });
            },
        };
        Ok(NewsItem { date: d, text: t, url: u })
    }

    /// Encode the record, exactly as `spec_encode_news_item` says.
    pub fn encode(&self) -> (r: Value)
        requires
            self.wf(),
        ensures
            value_view(r) == spec_encode_news_item(self@),
    {
        let mut es: Vec<Entry> = Vec::new();
        es.push(
            Entry { key: String::from_str("date"), value: Value::Text(fmt_date(self.date)) },
        );
        es.push(Entry { key: String::from_str("text"), value: Value::Text(self.text.clone()) });
        es.push(Entry { key: String::from_str("url"), value: Value::Text(self.url.clone()) });
        proof {
            lemma_entries_view(es@);
            assert(entries_view(es@)[0] == entry_view(es@[0]));
            assert(entries_view(es@)[1] == entry_view(es@[1]));
            assert(entries_view(es@)[2] == entry_view(es@[2]));
            assert(entries_view(es@) =~= seq![
                SpecEntry { key: "date"@, value: SpecValue::Text(spec_fmt_date(self.date)) },
                SpecEntry { key: "text"@, value: SpecValue::Text(self.text@) },
                SpecEntry { key: "url"@, value: SpecValue::Text(self.url@) },
            ]);
        }
        Value::Object(es)
    }
}

impl NewsItems {
    /// The record's invariant: every item well formed.
    pub open spec fn wf(self) -> bool {
        forall|i: int| 0 <= i < self.news_items@.len() ==> (#[trigger] self.news_items@[i]).wf()
    }

    /// Whether every item satisfies its invariant.
    pub fn is_well_formed(&self) -> (r: bool)
        ensures
            r == self.wf(),
    {
        let mut i: usize = 0;
        while i < self.news_items.len()
            invariant
                i <= self.news_items@.len(),
                forall|k: int| 0 <= k < i ==> (#[trigger] self.news_items@[k]).wf(),
            decreases self.news_items@.len() - i,
        {
            if !self.news_items[i].is_well_formed() {
                return false;
            }
            i += 1;
        }
        true
    }

    /// Decode a document node, exactly as `spec_decode_news_items` says.
    pub fn decode(v: Value) -> (r: Result<NewsItems, DecodeError>)
        ensures
            result_view(r) == spec_decode_news_items(value_view(v)),
    {
        let mut es = match v {
            Value::Object(es) => es,
            _ => {
                return Err(DecodeError::MalformedValue { field: String::from_str("news_items") });
            },
        };
        let keys = news_items_keys();
        let mut slots = match collect_fields(&mut es, &keys) {
            Ok(s) => s,
            Err(e) => { return Err(e); },
        };
        let slot0 = slots.remove(0);
        match slot0 {
            None => Err(DecodeError::MissingField { field: String::from_str("news_items") }),
            Some(val) => match val {
                Value::Array(mut vs) => match decode_news_list(&mut vs) {
                    Ok(items) => Ok(NewsItems { news_items: items }),
                    Err(e) => Err(e),
                },
                _ => Err(
                    DecodeError::MalformedValue { field: String::from_str("news_items") },
                ),
            },
        }
    }

    /// Encode the record, exactly as `spec_encode_news_items` says.
    pub fn encode(&self) -> (r: Value)
        requires
            self.wf(),
        ensures
            value_view(r) == spec_encode_news_items(self@),
    {
        let mut vs: Vec<Value> = Vec::new();
        let mut i: usize = 0;
        while i < self.news_items.len()
            invariant
                i <= self.news_items@.len(),
                self.wf(),
                vs@.len() == i,
                forall|k: int| 0 <= k < i ==> values_view(vs@)[k] == spec_encode_news_item(
                    self.news_items@[k]@,
                ),
            decreases self.news_items@.len() - i,
        {
            let ghost old_vs = vs@;
            vs.push(self.news_items[i].encode());
            proof {
                lemma_values_view(vs@);
                lemma_values_view(old_vs);
                assert forall|k: int| 0 <= k < i + 1 implies values_view(vs@)[k]
                    == spec_encode_news_item(self.news_items@[k]@) by {
                    assert(values_view(vs@)[k] == value_view(vs@[k]));
                    if k < i {
                        assert(values_view(old_vs)[k] == value_view(old_vs[k]));
                    }
                }
            }
            i += 1;
        }
        proof {
            lemma_values_view(vs@);
            assert(values_view(vs@) =~= spec_encode_news_list(self@.news_items));
        }
        let mut es: Vec<Entry> = Vec::new();
        es.push(Entry { key: String::from_str("news_items"), value: Value::Array(vs) });
        proof {
            lemma_entries_view(es@);
            assert(entries_view(es@)[0] == entry_view(es@[0]));
            assert(entries_view(es@) =~= seq![
                SpecEntry {
                    key: "news_items"@,
                    value: SpecValue::Array(spec_encode_news_list(self@.news_items)),
                },
            ]);
        }
        Value::Object(es)
    }
}

/// Law: decoding an encoded news item yields the item back.
pub proof fn lemma_news_item_round_trip(r: SpecNewsItem)
    requires
        r.date.wf(),
    ensures
        spec_decode_news_item(spec_encode_news_item(r)) == Ok::<_, SpecDecodeError>(r),
{
    reveal_strlit("date");
    reveal_strlit("text");
    reveal_strlit("url");
    let e0 = SpecEntry { key: "date"@, value: SpecValue::Text(spec_fmt_date(r.date)) };
    let e1 = SpecEntry { key: "text"@, value: SpecValue::Text(r.text) };
    let e2 = SpecEntry { key: "url"@, value: SpecValue::Text(r.url) };
    let es = seq![e0, e1, e2];
    let keys = spec_news_item_keys();
    let init = Seq::new(keys.len(), |i: int| None::<SpecValue>);
    assert("date"@.len() == 4 && "text"@.len() == 4 && "url"@.len() == 3);
    assert("date"@[0] == 'd' && "text"@[0] == 't');
    assert("date"@ != "text"@ && "date"@ != "url"@ && "text"@ != "url"@);
    assert(key_index(keys, "date"@) == 0);
    assert(key_index(keys, "text"@) == 1) by {
        assert(key_index(keys.drop_first(), "text"@) == 0);
    }
    assert(key_index(keys, "url"@) == 2) by {
        assert(key_index(keys.drop_first().drop_first(), "url"@) == 0);
        assert(key_index(keys.drop_first(), "url"@) == 1);
    }
    let s1 = init.update(0, Some(SpecValue::Text(spec_fmt_date(r.date))));
    let s2 = s1.update(1, Some(SpecValue::Text(r.text)));
    let s3 = s2.update(2, Some(SpecValue::Text(r.url)));
    let es1 = es.drop_first();
    let es2 = es1.drop_first();
    let es3 = es2.drop_first();
    assert(es1 =~= seq![e1, e2]);
    assert(es2 =~= seq![e2]);
    assert(es3.len() == 0);
    assert(spec_collect_from(es3, keys, s3) == Ok::<_, SpecDecodeError>(s3));
    assert(spec_collect_from(es2, keys, s2) == spec_collect_from(es3, keys, s3));
    assert(spec_collect_from(es1, keys, s1) == spec_collect_from(es2, keys, s2));
    assert(spec_collect_from(es, keys, init) == spec_collect_from(es1, keys, s1));
    assert(spec_collect(es, keys) == Ok::<_, SpecDecodeError>(s3));
    assert(s3[0] == Some(SpecValue::Text(spec_fmt_date(r.date))));
    assert(s3[1] == Some(SpecValue::Text(r.text)));
    assert(s3[2] == Some(SpecValue::Text(r.url)));
    lemma_date_round_trip(r.date);
}

/// Law: decoding an encoded list of news items yields the list back,
/// order preserved.
pub proof fn lemma_news_list_round_trip(items: Seq<SpecNewsItem>)
    requires
        forall|i: int| 0 <= i < items.len() ==> (#[trigger] items[i]).date.wf(),
    ensures
        spec_decode_news_list(spec_encode_news_list(items)) == Ok::<_, SpecDecodeError>(items),
    decreases items.len(),
{
    let vs = spec_encode_news_list(items);
    if items.len() == 0 {
        assert(vs.len() == 0);
        assert(spec_decode_news_list(vs) == Ok::<_, SpecDecodeError>(Seq::<SpecNewsItem>::empty()));
        assert(Seq::<SpecNewsItem>::empty() =~= items);
    } else {
        assert(vs[0] == spec_encode_news_item(items[0]));
        lemma_news_item_round_trip(items[0]);
        assert(vs.drop_first() =~= spec_encode_news_list(items.drop_first()));
        lemma_news_list_round_trip(items.drop_first());
        assert(seq![items[0]] + items.drop_first() =~= items);
    }
}

/// Law: omitting any single mandatory field from an otherwise valid
/// news-item input fails with a missing-field error naming that field.
pub proof fn lemma_news_item_missing_field(r: SpecNewsItem, k: int)
    requires
        r.date.wf(),
        0 <= k < 3,
    ensures
        ({
            let full = seq![
                SpecEntry { key: "date"@, value: SpecValue::Text(spec_fmt_date(r.date)) },
                SpecEntry { key: "text"@, value: SpecValue::Text(r.text) },
                SpecEntry { key: "url"@, value: SpecValue::Text(r.url) },
            ];
            spec_decode_news_item(SpecValue::Object(full.remove(k))) == Err::<SpecNewsItem, _>(
                SpecDecodeError::MissingField { field: spec_news_item_keys()[k] },
            )
        }),
{
    reveal_strlit("date");
    reveal_strlit("text");
    reveal_strlit("url");
    assert("date"@.len() == 4 && "text"@.len() == 4 && "url"@.len() == 3);
    assert("date"@[0] == 'd' && "text"@[0] == 't');
    let e0 = SpecEntry { key: "date"@, value: SpecValue::Text(spec_fmt_date(r.date)) };
    let e1 = SpecEntry { key: "text"@, value: SpecValue::Text(r.text) };
    let e2 = SpecEntry { key: "url"@, value: SpecValue::Text(r.url) };
    let full = seq![e0, e1, e2];
    let keys = spec_news_item_keys();
    let init = Seq::new(keys.len(), |i: int| None::<SpecValue>);
    assert(key_index(keys, "date"@) == 0);
    assert(key_index(keys, "text"@) == 1) by {
        assert(key_index(keys.drop_first(), "text"@) == 0);
    }
    assert(key_index(keys, "url"@) == 2) by {
        assert(key_index(keys.drop_first().drop_first(), "url"@) == 0);
        assert(key_index(keys.drop_first(), "url"@) == 1);
    }
    lemma_date_round_trip(r.date);
    if k == 0 {
        let es = full.remove(0);
        assert(es =~= seq![e1, e2]);
        let s1 = init.update(1, Some(e1.value));
        let s2 = s1.update(2, Some(e2.value));
        assert(es.drop_first() =~= seq![e2]);
        assert(seq![e2].drop_first().len() == 0);
        assert(spec_collect_from(seq![e2].drop_first(), keys, s2) == Ok::<_, SpecDecodeError>(s2));
        assert(spec_collect_from(seq![e2], keys, s1) == spec_collect_from(
            seq![e2].drop_first(),
            keys,
            s2,
        ));
        assert(spec_collect(es, keys) == Ok::<_, SpecDecodeError>(s2));
        assert(s2[0] is None && s2[1] == Some(e1.value) && s2[2] == Some(e2.value));
    } else if k == 1 {
        let es = full.remove(1);
        assert(es =~= seq![e0, e2]);
        let s1 = init.update(0, Some(e0.value));
        let s2 = s1.update(2, Some(e2.value));
        assert(es.drop_first() =~= seq![e2]);
        assert(seq![e2].drop_first().len() == 0);
        assert(spec_collect_from(seq![e2].drop_first(), keys, s2) == Ok::<_, SpecDecodeError>(s2));
        assert(spec_collect_from(seq![e2], keys, s1) == spec_collect_from(
            seq![e2].drop_first(),
            keys,
            s2,
        ));
        assert(spec_collect(es, keys) == Ok::<_, SpecDecodeError>(s2));
        assert(s2[0] == Some(e0.value) && s2[1] is None && s2[2] == Some(e2.value));
    } else {
        let es = full.remove(2);
        assert(es =~= seq![e0, e1]);
        let s1 = init.update(0, Some(e0.value));
        let s2 = s1.update(1, Some(e1.value));
        assert(es.drop_first() =~= seq![e1]);
        assert(seq![e1].drop_first().len() == 0);
        assert(spec_collect_from(seq![e1].drop_first(), keys, s2) == Ok::<_, SpecDecodeError>(s2));
        assert(spec_collect_from(seq![e1], keys, s1) == spec_collect_from(
            seq![e1].drop_first(),
            keys,
            s2,
        ));
        assert(spec_collect(es, keys) == Ok::<_, SpecDecodeError>(s2));
        assert(s2[0] == Some(e0.value) && s2[1] == Some(e1.value) && s2[2] is None);
    }
}

/// Law: an input that omits the mandatory `news_items` key fails with a
/// missing-field error.
pub proof fn lemma_news_items_missing_field()
    ensures
        spec_decode_news_items(SpecValue::Object(Seq::empty())) == Err::<SpecNewsItems, _>(
            SpecDecodeError::MissingField { field: "news_items"@ },
        ),
{
    let keys = spec_news_items_keys();
    let init = Seq::new(keys.len(), |i: int| None::<SpecValue>);
    assert(spec_collect(Seq::empty(), keys) == Ok::<_, SpecDecodeError>(init));
    assert(init[0] is None);
}

/// Law: decoding an encoded `NewsItems` record yields the record back.
pub proof fn lemma_news_items_round_trip(r: SpecNewsItems)
    requires
        forall|i: int| 0 <= i < r.news_items.len() ==> (#[trigger] r.news_items[i]).date.wf(),
    ensures
        spec_decode_news_items(spec_encode_news_items(r)) == Ok::<_, SpecDecodeError>(r),
{
    let es = seq![
        SpecEntry {
            key: "news_items"@,
            value: SpecValue::Array(spec_encode_news_list(r.news_items)),
        },
    ];
    let keys = spec_news_items_keys();
    let init = Seq::new(keys.len(), |i: int| None::<SpecValue>);
    let s1 = init.update(0, Some(SpecValue::Array(spec_encode_news_list(r.news_items))));
    assert(key_index(keys, "news_items"@) == 0);
    assert(init[0] is None);
    assert(es.drop_first().len() == 0);
    assert(spec_collect_from(es.drop_first(), keys, s1) == Ok::<_, SpecDecodeError>(s1));
    assert(spec_collect(es, keys) == Ok::<_, SpecDecodeError>(s1));
    assert(s1[0] == Some(SpecValue::Array(spec_encode_news_list(r.news_items))));
    lemma_news_list_round_trip(r.news_items);
}

} // verus!
