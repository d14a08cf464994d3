//! The status records: the closed `Attributes` vocabulary, the two-field
//! leaf record `DetailedStatus`, and the recursive `Status` tree whose
//! children and per-node timestamp are optional.
//!
//! Two shapes for hierarchical status data have circulated: a flat
//! two-level form with mandatory leaf children, and the unbounded
//! recursive form. They are not structurally compatible, so they stand
//! here as distinct named records: `Status` is the recursive, canonical
//! shape, and `DetailedStatus` remains the flat leaf with its own codec.

use vstd::prelude::*;
use vstd::string::StringExecFns;

use crate::dates::{
    LocalDateTime, fmt_local, lemma_local_round_trip, spec_fmt_local,
};
use crate::error::{DecodeError, SpecDecodeError, strings_view};
use crate::fields::{
    collect_fields, key_index, lemma_collect_provenance, slots_view, spec_collect,
    spec_collect_from,
};
use crate::slots::{opt_value_view, spec_slot_local, spec_slot_u32, take_local, take_u32};
use crate::value::{
    Entry, SpecEntry, SpecValue, Value, entries_view, entry_view, lemma_entries_view,
    lemma_values_view, result_view, value_view, values_view,
};

verus! {

/// The closed set of category tags, each mapped to a fixed external token.
#[derive(Clone, Copy, PartialEq, Eq, Structural, Debug)]
pub enum Attributes {
    /// Persons convalescing in lodging facilities.
    Accommodations,
    /// Persons whose care is still being coordinated.
    Coodinating,
    /// Deaths.
    Dead,
    /// Persons convalescing at home.
    Home,
    /// Persons in hospital.
    Hospitalizations,
    /// Test inspections performed.
    Inspections,
    /// Persons discharged.
    Leave,
    /// Positive cases.
    Patients,
    /// Persons in high-acuity beds.
    SeverePatients,
    /// Severe cases handled by other means.
    Other,
}

impl View for Attributes {
    type V = Attributes;

    /// The tag is a plain enum, so it is its own model.
    open spec fn view(&self) -> Attributes {
        *self
    }
}

/// The fixed external token of each tag.
pub open spec fn spec_attr_token(a: Attributes) -> Seq<char> {
    match a {
        Attributes::Accommodations => "accommodations"@,
        Attributes::Coodinating => "coodinating"@,
        Attributes::Dead => "dead"@,
        Attributes::Home => "home"@,
        Attributes::Hospitalizations => "hospitalizations"@,
        Attributes::Inspections => "inspections"@,
        Attributes::Leave => "leave"@,
        Attributes::Patients => "patients"@,
        Attributes::SeverePatients => "severepatients"@,
        Attributes::Other => "other"@,
    }
}

/// The tag a token denotes, if it is in the vocabulary.
pub open spec fn spec_parse_attr(s: Seq<char>) -> Option<Attributes> {
    if s == "accommodations"@ {
        Some(Attributes::Accommodations)
    } else if s == "coodinating"@ {
        Some(Attributes::Coodinating)
    } else if s == "dead"@ {
        Some(Attributes::Dead)
    } else if s == "home"@ {
        Some(Attributes::Home)
    } else if s == "hospitalizations"@ {
        Some(Attributes::Hospitalizations)
    } else if s == "inspections"@ {
        Some(Attributes::Inspections)
    } else if s == "leave"@ {
        Some(Attributes::Leave)
    } else if s == "patients"@ {
        Some(Attributes::Patients)
    } else if s == "severepatients"@ {
        Some(Attributes::SeverePatients)
    } else if s == "other"@ {
        Some(Attributes::Other)
    } else {
        None
    }
}

impl Attributes {
    /// The token this tag is written as.
    pub fn token(&self) -> (r: &'static str)
        ensures
            r@ == spec_attr_token(*self),
    {
        match self {
            Attributes::Accommodations => "accommodations",
            Attributes::Coodinating => "coodinating",
            Attributes::Dead => "dead",
            Attributes::Home => "home",
            Attributes::Hospitalizations => "hospitalizations",
            Attributes::Inspections => "inspections",
            Attributes::Leave => "leave",
            Attributes::Patients => "patients",
            Attributes::SeverePatients => "severepatients",
            Attributes::Other => "other",
        }
    }

    /// Resolve a token against the vocabulary, following `spec_parse_attr`.
    pub fn parse(s: &String) -> (r: Option<Attributes>)
        ensures
            r == spec_parse_attr(s@),
    {
        if *s == String::from_str("accommodations") {
            Some(Attributes::Accommodations)
        } else if *s == String::from_str("coodinating") {
            Some(Attributes::Coodinating)
        } else if *s == String::from_str("dead") {
            Some(Attributes::Dead)
        } else if *s == String::from_str("home") {
            Some(Attributes::Home)
        } else if *s == String::from_str("hospitalizations") {
            Some(Attributes::Hospitalizations)
        } else if *s == String::from_str("inspections") {
            Some(Attributes::Inspections)
        } else if *s == String::from_str("leave") {
            Some(Attributes::Leave)
        } else if *s == String::from_str("patients") {
            Some(Attributes::Patients)
        } else if *s == String::from_str("severepatients") {
            Some(Attributes::SeverePatients)
        } else if *s == String::from_str("other") {
            Some(Attributes::Other)
        } else {
            None
        }
    }
}

/// Law: every tag's token resolves back to the tag.
pub proof fn lemma_attr_round_trip(a: Attributes)
    ensures
        spec_parse_attr(spec_attr_token(a)) == Some(a),
{
    reveal_strlit("accommodations");
    reveal_strlit("coodinating");
    reveal_strlit("dead");
    reveal_strlit("home");
    reveal_strlit("hospitalizations");
    reveal_strlit("inspections");
    reveal_strlit("leave");
    reveal_strlit("patients");
    reveal_strlit("severepatients");
    reveal_strlit("other");
    assert("accommodations"@.len() == 14);
    assert("coodinating"@.len() == 11);
    assert("dead"@.len() == 4);
    assert("home"@.len() == 4);
    assert("hospitalizations"@.len() == 16);
    assert("inspections"@.len() == 11);
    assert("leave"@.len() == 5);
    assert("patients"@.len() == 8);
    assert("severepatients"@.len() == 14);
    assert("other"@.len() == 5);
    assert("dead"@[0] == 'd' && "home"@[0] == 'h');
    assert("coodinating"@[0] == 'c' && "inspections"@[0] == 'i');
    assert("accommodations"@[0] == 'a' && "severepatients"@[0] == 's');
    assert("leave"@[0] == 'l' && "other"@[0] == 'o');
}

/// The flat leaf record: a tag and its count, both mandatory, nothing
/// nested. Recognized keys: `attr`, `value`.
#[derive(Clone, Copy, PartialEq, Eq, Structural, Debug)]
pub struct DetailedStatus {
    pub attr: Attributes,
    pub value: u32,
}

impl View for DetailedStatus {
    type V = DetailedStatus;

    /// The record holds plain values only, so it is its own model.
    open spec fn view(&self) -> DetailedStatus {
        *self
    }
}

/// A tag field: text holding a token of the closed vocabulary.
pub open spec fn spec_slot_attr(slot: Option<SpecValue>, field: Seq<char>) -> Result<
    Option<Attributes>,
    SpecDecodeError,
> {
    match slot {
        None => Ok(None),
        Some(sv) => match sv {
            SpecValue::Text(s) => match spec_parse_attr(s) {
                Some(a) => Ok(Some(a)),
                None => Err(SpecDecodeError::MalformedValue { field }),
            },
            _ => Err(SpecDecodeError::MalformedValue { field }),
        },
    }
}

fn take_attr(slot: Option<Value>, field: &str) -> (r: Result<Option<Attributes>, DecodeError>)
    ensures
        match r {
            Ok(o) => spec_slot_attr(opt_value_view(slot), field@) == Ok::<_, SpecDecodeError>(o),
            Err(e) => spec_slot_attr(opt_value_view(slot), field@) == Err::<
                Option<Attributes>,
                _,
            >(e@),
        },
{
    match slot {
        None => Ok(None),
        Some(v) => match v {
            Value::Text(s) => match Attributes::parse(&s) {
                Some(a) => Ok(Some(a)),
                None => Err(DecodeError::MalformedValue { field: field.to_owned() }),
            },
            _ => Err(DecodeError::MalformedValue { field: field.to_owned() }),
        },
    }
}

pub open spec fn spec_detailed_status_keys() -> Seq<Seq<char>> {
    seq!["attr"@, "value"@]
}

fn detailed_status_keys() -> (r: Vec<String>)
    ensures
        strings_view(r@) == spec_detailed_status_keys(),
{
    let mut r: Vec<String> = Vec::new();
    r.push(String::from_str("attr"));
    r.push(String::from_str("value"));
    proof {
        assert(strings_view(r@) =~= spec_detailed_status_keys());
    }
    r
}

/// What decoding makes of a leaf node: the slot machine over the two
/// recognized keys, the tag against the vocabulary, both mandatory.
pub open spec fn spec_decode_detailed_status(v: SpecValue) -> Result<
    DetailedStatus,
    SpecDecodeError,
> {
    match v {
        SpecValue::Object(es) => match spec_collect(es, spec_detailed_status_keys()) {
            Ok(slots) => match spec_slot_attr(slots[0], "attr"@) {
                Err(e) => Err(e),
                Ok(oa) => match spec_slot_u32(slots[1], "value"@) {
                    Err(e) => Err(e),
                    Ok(ov) => match oa {
                        None => Err(SpecDecodeError::MissingField { field: "attr"@ }),
                        Some(a) => match ov {
                            None => Err(SpecDecodeError::MissingField { field: "value"@ }),
                            Some(n) => Ok(DetailedStatus { attr: a, value: n }),
                        },
                    },
                },
            },
            Err(e) => Err(e),
        },
        _ => Err(SpecDecodeError::MalformedValue { field: "detailed_status"@ }),
    }
}

/// What encoding writes: the tag's token, then the count.
pub open spec fn spec_encode_detailed_status(r: DetailedStatus) -> SpecValue {
    SpecValue::Object(
        seq![
            SpecEntry { key: "attr"@, value: SpecValue::Text(spec_attr_token(r.attr)) },
            SpecEntry { key: "value"@, value: SpecValue::Int(r.value as u64) },
        ],
    )
}

impl DetailedStatus {
    /// Decode a document node, exactly as `spec_decode_detailed_status` says.
    pub fn decode(v: Value) -> (r: Result<DetailedStatus, DecodeError>)
        ensures
            result_view(r) == spec_decode_detailed_status(value_view(v)),
    {
        let mut es = match v {
            Value::Object(es) => es,
            _ => {
                return Err(
                    DecodeError::MalformedValue { field: String::from_str("detailed_status") },
                );
            },
        };
        let keys = detailed_status_keys();
        let mut slots = match collect_fields(&mut es, &keys) {
            Ok(s) => s,
            Err(e) => { return Err(e); },
        };
        let slot_attr = slots.remove(0);
        let slot_value = slots.remove(0);
        let oa = match take_attr(slot_attr, "attr") {
            Ok(o) => o,
            Err(e) => { return Err(e); },
        };
        let ov = match take_u32(slot_value, "value") {
            Ok(o) => o,
            Err(e) => { return Err(e); },
        };
        let a = match oa {
            Some(a) => a,
            None => {
                return Err(DecodeError::MissingField { field: String::from_str("attr") });
            },
        };
        let n = match ov {
            Some(n) => n,
            None => {
                return Err(DecodeError::MissingField { field: String::from_str("value") });
            },
        };
        Ok(DetailedStatus { attr: a, value: n })
    }

    /// Encode the record, exactly as `spec_encode_detailed_status` says.
    pub fn encode(&self) -> (r: Value)
        ensures
            value_view(r) == spec_encode_detailed_status(*self),
    {
        let mut es: Vec<Entry> = Vec::new();
        es.push(
            Entry {
                key: String::from_str("attr"),
                value: Value::Text(self.attr.token().to_owned()),
            },
        );
        es.push(Entry { key: String::from_str("value"), value: Value::Int(self.value as u64) });
        proof {
            lemma_entries_view(es@);
            assert(entries_view(es@)[0] == entry_view(es@[0]));
            assert(entries_view(es@)[1] == entry_view(es@[1]));
            assert(entries_view(es@) =~= seq![
                SpecEntry { key: "attr"@, value: SpecValue::Text(spec_attr_token(self.attr)) },
                SpecEntry { key: "value"@, value: SpecValue::Int(self.value as u64) },
            ]);
        }
        Value::Object(es)
    }
}

/// Law: decoding an encoded leaf record yields the record back.
pub proof fn lemma_detailed_status_round_trip(r: DetailedStatus)
    ensures
        spec_decode_detailed_status(spec_encode_detailed_status(r)) == Ok::<_, SpecDecodeError>(r),
{
    reveal_strlit("attr");
    reveal_strlit("value");
    let e0 = SpecEntry { key: "attr"@, value: SpecValue::Text(spec_attr_token(r.attr)) };
    let e1 = SpecEntry { key: "value"@, value: SpecValue::Int(r.value as u64) };
    let es = seq![e0, e1];
    let keys = spec_detailed_status_keys();
    let init = Seq::new(keys.len(), |i: int| None::<SpecValue>);
    assert("attr"@.len() == 4 && "value"@.len() == 5);
    assert("attr"@ != "value"@);
    assert(key_index(keys, "attr"@) == 0);
    assert(key_index(keys, "value"@) == 1) by {
        assert(key_index(keys.drop_first(), "value"@) == 0);
    }
    let s1 = init.update(0, Some(SpecValue::Text(spec_attr_token(r.attr))));
    let s2 = s1.update(1, Some(SpecValue::Int(r.value as u64)));
    let es1 = es.drop_first();
    let es2 = es1.drop_first();
    assert(es1 =~= seq![e1]);
    assert(es2.len() == 0);
    assert(spec_collect_from(es2, keys, s2) == Ok::<_, SpecDecodeError>(s2));
    assert(spec_collect_from(es1, keys, s1) == spec_collect_from(es2, keys, s2));
    assert(spec_collect_from(es, keys, init) == spec_collect_from(es1, keys, s1));
    assert(spec_collect(es, keys) == Ok::<_, SpecDecodeError>(s2));
    assert(s2[0] == Some(SpecValue::Text(spec_attr_token(r.attr))));
    assert(s2[1] == Some(SpecValue::Int(r.value as u64)));
    lemma_attr_round_trip(r.attr);
}

/// The recursive status tree: a tag, its count, optional children of the
/// same shape, and an optional per-node timestamp. Recognized keys:
/// `attr`, `value`, `children`, `last_update`; the first two mandatory,
/// the last two optional and omitted from the encoding when absent.
#[derive(Debug)]
pub struct Status {
    pub attr: Attributes,
    pub value: u32,
    pub children: Option<Vec<Status>>,
    pub last_update: Option<LocalDateTime>,
}

/// Mathematical model of a `Status`.
pub struct SpecStatus {
    pub attr: Attributes,
    pub value: u32,
    pub children: Option<Seq<SpecStatus>>,
    pub last_update: Option<LocalDateTime>,
}

pub open spec fn status_view(s: Status) -> SpecStatus
    decreases s,
{
    SpecStatus {
        attr: s.attr,
        value: s.value,
        children: match s.children {
            Some(cs) => Some(status_list_view(cs@)),
            None => None,
        },
        last_update: s.last_update,
    }
}

pub open spec fn status_list_view(s: Seq<Status>) -> Seq<SpecStatus>
    decreases s,
{
    if s.len() == 0 {
        Seq::empty()
    } else {
        seq![status_view(s[0])] + status_list_view(s.drop_first())
    }
}

pub proof fn lemma_status_list_view(s: Seq<Status>)
    ensures
        status_list_view(s).len() == s.len(),
        forall|i: int| 0 <= i < s.len() ==> status_list_view(s)[i] == status_view(s[i]),
    decreases s.len(),
{
    if s.len() > 0 {
        lemma_status_list_view(s.drop_first());
    }
}

impl View for Status {
    type V = SpecStatus;

    open spec fn view(&self) -> SpecStatus {
        status_view(*self)
    }
}

/// The tree's invariant: every present timestamp is a real date and time.
pub open spec fn status_wf(r: SpecStatus) -> bool
    decreases r,
{
    (match r.children {
        Some(cs) => status_list_wf(cs),
        None => true,
    }) && (match r.last_update {
        Some(lu) => lu.wf(),
        None => true,
    })
}

pub open spec fn status_list_wf(s: Seq<SpecStatus>) -> bool
    decreases s,
{
    if s.len() == 0 {
        true
    } else {
        status_wf(s[0]) && status_list_wf(s.drop_first())
    }
}

pub proof fn lemma_status_list_wf(s: Seq<SpecStatus>)
    ensures
        status_list_wf(s) <==> (forall|i: int| 0 <= i < s.len() ==> status_wf(#[trigger] s[i])),
    decreases s.len(),
{
    if s.len() > 0 {
        lemma_status_list_wf(s.drop_first());
        if status_list_wf(s) {
            assert forall|i: int| 0 <= i < s.len() implies status_wf(#[trigger] s[i]) by {
                if i > 0 {
                    assert(s.drop_first()[i - 1] == s[i]);
                }
            }
        }
        if forall|i: int| 0 <= i < s.len() ==> status_wf(#[trigger] s[i]) {
            assert forall|i: int| 0 <= i < s.drop_first().len() implies status_wf(
                #[trigger] s.drop_first()[i],
            ) by {
                assert(s.drop_first()[i] == s[i + 1]);
            }
        }
    }
}

pub open spec fn spec_status_keys() -> Seq<Seq<char>> {
    seq!["attr"@, "value"@, "children"@, "last_update"@]
}

fn status_keys() -> (r: Vec<String>)
    ensures
        strings_view(r@) == spec_status_keys(),
{
    let mut r: Vec<String> = Vec::new();
    r.push(String::from_str("attr"));
    r.push(String::from_str("value"));
    r.push(String::from_str("children"));
    r.push(String::from_str("last_update"));
    proof {
        assert(strings_view(r@) =~= spec_status_keys());
    }
    r
}

/// The tail of a status decode once the tag, count and children are
/// settled: the optional timestamp, then the mandatory-field checks.
pub open spec fn spec_status_finish(
    oa: Option<Attributes>,
    ov: Option<u32>,
    children: Option<Seq<SpecStatus>>,
    lu_slot: Option<SpecValue>,
) -> Result<SpecStatus, SpecDecodeError> {
    match spec_slot_local(lu_slot, "last_update"@) {
        Err(e) => Err(e),
        Ok(olu) => match oa {
            None => Err(SpecDecodeError::MissingField { field: "attr"@ }),
            Some(a) => match ov {
                None => Err(SpecDecodeError::MissingField { field: "value"@ }),
                Some(n) => Ok(
                    SpecStatus { attr: a, value: n, children, last_update: olu },
                ),
            },
        },
    }
}

/// What decoding makes of a status node: the slot machine over the four
/// recognized keys; an absent `children` or `last_update` is no error, a
/// present `children` decodes recursively, element by element.
pub open spec fn spec_decode_status(v: SpecValue) -> Result<SpecStatus, SpecDecodeError>
    decreases v,
{
    match v {
        SpecValue::Object(es) => match spec_collect(es, spec_status_keys()) {
            Ok(slots) => match spec_slot_attr(slots[0], "attr"@) {
                Err(e) => Err(e),
                Ok(oa) => match spec_slot_u32(slots[1], "value"@) {
                    Err(e) => Err(e),
                    Ok(ov) => match slots[2] {
                        Some(cv) => match cv {
                            SpecValue::Array(vs) => {
                                proof {
                                    lemma_collect_provenance(es, spec_status_keys());
                                    assert(spec_collect(es, spec_status_keys()) == Ok::<
                                        _,
                                        SpecDecodeError,
                                    >(slots));
                                    assert(slots.len() == 4 && slots[2] is Some);
                                    assert(exists|i: int|
                                        0 <= i < es.len() && es[i].value == slots[2]->0);
                                    let i = choose|i: int|
                                        0 <= i < es.len() && es[i].value == slots[2]->0;
                                    assert(es[i].value == cv);
                                    assert(decreases_to!(v => es));
                                    assert(decreases_to!(es => es[i]));
                                    assert(decreases_to!(es[i] => es[i].value));
                                    assert(decreases_to!(cv => vs));
                                    assert(decreases_to!(v => vs));
                                }
                                match spec_decode_status_list(vs) {
                                    Err(e) => Err(e),
                                    Ok(cs) => spec_status_finish(oa, ov, Some(cs), slots[3]),
                                }
                            },
                            _ => Err(SpecDecodeError::MalformedValue { field: "children"@ }),
                        },
                        None => spec_status_finish(oa, ov, None, slots[3]),
                    },
                },
            },
            Err(e) => Err(e),
        },
        _ => Err(SpecDecodeError::MalformedValue { field: "status"@ }),
    }
}

/// Element-wise decoding of a children array; the first failure aborts.
pub open spec fn spec_decode_status_list(vs: Seq<SpecValue>) -> Result<
    Seq<SpecStatus>,
    SpecDecodeError,
>
    decreases vs,
{
    if vs.len() == 0 {
        Ok(Seq::empty())
    } else {
        match spec_decode_status(vs[0]) {
            Err(e) => Err(e),
            Ok(x) => match spec_decode_status_list(vs.drop_first()) {
                Err(e) => Err(e),
                Ok(rest) => Ok(seq![x] + rest),
            },
        }
    }
}

/// What encoding writes: tag and count always, then the children array
/// only when children are present, then the timestamp only when set.
pub open spec fn spec_encode_status(r: SpecStatus) -> SpecValue
    decreases r,
{
    let base = seq![
        SpecEntry { key: "attr"@, value: SpecValue::Text(spec_attr_token(r.attr)) },
        SpecEntry { key: "value"@, value: SpecValue::Int(r.value as u64) },
    ];
    let withc = match r.children {
        Some(cs) => base.push(
            SpecEntry { key: "children"@, value: SpecValue::Array(spec_encode_status_list(cs)) },
        ),
        None => base,
    };
    let withl = match r.last_update {
        Some(lu) => withc.push(
            SpecEntry { key: "last_update"@, value: SpecValue::Text(spec_fmt_local(lu)) },
        ),
        None => withc,
    };
    SpecValue::Object(withl)
}

pub open spec fn spec_encode_status_list(s: Seq<SpecStatus>) -> Seq<SpecValue>
    decreases s,
{
    if s.len() == 0 {
        Seq::empty()
    } else {
        seq![spec_encode_status(s[0])] + spec_encode_status_list(s.drop_first())
    }
}

pub proof fn lemma_encode_status_list(s: Seq<SpecStatus>)
    ensures
        spec_encode_status_list(s).len() == s.len(),
        forall|i: int|
            0 <= i < s.len() ==> spec_encode_status_list(s)[i] == spec_encode_status(s[i]),
    decreases s.len(),
{
    if s.len() > 0 {
        lemma_encode_status_list(s.drop_first());
    }
}

impl Status {
    /// Decode a document node, exactly as `spec_decode_status` says.
    #[verifier::loop_isolation(false)]
    pub fn decode(v: Value) -> (r: Result<Status, DecodeError>)
        ensures
            result_view(r) == spec_decode_status(value_view(v)),
        decreases v,
    {
        let mut es = match v {
            Value::Object(es) => es,
            _ => {
                return Err(DecodeError::MalformedValue { field: String::from_str("status") });
            },
        };
        let ghost ges = es;
        let keys = status_keys();
        let mut slots = match collect_fields(&mut es, &keys) {
            Ok(s) => s,
            Err(e) => { return Err(e); },
        };
        let ghost gslots = slots@;
        let slot_attr = slots.remove(0);
        proof {
            assert(slots@ =~= gslots.subrange(1, 4));
        }
        let slot_value = slots.remove(0);
        proof {
            assert(slots@ =~= gslots.subrange(2, 4));
        }
        let slot_children = slots.remove(0);
        proof {
            assert(slots@ =~= gslots.subrange(3, 4));
        }
        let slot_lu = slots.remove(0);
        proof {
            assert(slot_attr == gslots[0] && slot_value == gslots[1] && slot_children == gslots[2]
                && slot_lu == gslots[3]);
            assert(opt_value_view(gslots[0]) == slots_view(gslots)[0]);
            assert(opt_value_view(gslots[1]) == slots_view(gslots)[1]);
            assert(opt_value_view(gslots[2]) == slots_view(gslots)[2]);
            assert(opt_value_view(gslots[3]) == slots_view(gslots)[3]);
        }
        let oa = match take_attr(slot_attr, "attr") {
            Ok(o) => o,
            Err(e) => { return Err(e); },
        };
        let ov = match take_u32(slot_value, "value") {
            Ok(o) => o,
            Err(e) => { return Err(e); },
        };
        let ochildren: Option<Vec<Status>> = match slot_children {
            None => None,
            Some(cval) => match cval {
                Value::Array(mut vs) => {
                    let ghost gvs = vs@;
                    proof {
                        assert(gslots[2] is Some && gslots[2]->0 == cval);
                        assert(exists|i: int| 0 <= i < ges@.len() && ges@[i].value == cval);
                        let i = choose|i: int| 0 <= i < ges@.len() && ges@[i].value == cval;
                        assert(v == Value::Object(ges));
                        assert(decreases_to!(v => ges));
                        assert(decreases_to!(ges => ges@));
                        assert(decreases_to!(ges@ => ges@[i]));
                        assert(decreases_to!(ges@[i] => ges@[i].value));
                        assert(decreases_to!(cval => vs));
                        assert(decreases_to!(vs => gvs));
                        assert forall|k: int| 0 <= k < gvs.len() implies decreases_to!(
                            v => gvs[k],
                        ) by {
                            assert(decreases_to!(gvs => gvs[k]));
                        }
                    }
                    let mut items: Vec<Status> = Vec::new();
                    while vs.len() > 0
                        invariant
                            forall|k: int| 0 <= k < vs@.len() ==> decreases_to!(v => vs@[k]),
                            spec_decode_status_list(values_view(gvs)) == (match spec_decode_status_list(
                                values_view(vs@),
                            ) {
                                Ok(tail) => Ok::<_, SpecDecodeError>(
                                    status_list_view(items@) + tail,
                                ),
                                Err(e) => Err(e),
                            }),
                        decreases vs@.len(),
                    {
                        let ghost old_rest = vs@;
                        let ghost old_items = items@;
                        let v0 = vs.remove(0);
                        proof {
                            assert(vs@ =~= old_rest.drop_first());
                            lemma_values_view(old_rest);
                            assert(values_view(old_rest)[0] == value_view(v0));
                            assert(values_view(old_rest).drop_first() =~= values_view(vs@)) by {
                                lemma_values_view(vs@);
                                assert forall|k: int| 0 <= k < vs@.len() implies values_view(
                                    old_rest,
                                ).drop_first()[k] == values_view(vs@)[k] by {
                                    assert(values_view(old_rest)[k + 1] == value_view(
                                        old_rest[k + 1],
                                    ));
                                    assert(values_view(vs@)[k] == value_view(vs@[k]));
                                }
                            }
                        }
                        match Status::decode(v0) {
                            Ok(x) => {
                                items.push(x);
                                proof {
                                    lemma_status_list_view(items@);
                                    lemma_status_list_view(old_items);
                                    assert(status_list_view(items@) =~= status_list_view(
                                        old_items,
                                    ) + seq![status_view(x)]);
                                    if spec_decode_status_list(values_view(vs@)) is Ok {
                                        let tail = spec_decode_status_list(
                                            values_view(vs@),
                                        )->Ok_0;
                                        assert(status_list_view(old_items) + (seq![status_view(x)]
                                            + tail) =~= status_list_view(items@) + tail);
                                    }
                                    assert forall|k: int| 0 <= k < vs@.len() implies decreases_to!(
                                        v => vs@[k],
                                    ) by {
                                        assert(vs@[k] == old_rest[k + 1]);
                                    }
                                }
                            },
                            Err(e) => { return Err(e); },
                        }
                    }
                    proof {
                        assert(values_view(vs@).len() == 0) by {
                            lemma_values_view(vs@);
                        }
                        assert(status_list_view(items@) + Seq::<SpecStatus>::empty()
                            =~= status_list_view(items@));
                    }
                    Some(items)
                },
                _ => {
                    return Err(
                        DecodeError::MalformedValue { field: String::from_str("children") },
                    );
                },
            },
        };
        let olu = match take_local(slot_lu, "last_update") {
            Ok(o) => o,
            Err(e) => { return Err(e); },
        };
        let a = match oa {
            Some(a) => a,
            None => {
                return Err(DecodeError::MissingField { field: String::from_str("attr") });
            },
        };
        let n = match ov {
            Some(n) => n,
            None => {
                return Err(DecodeError::MissingField { field: String::from_str("value") });
            },
        };
        Ok(Status { attr: a, value: n, children: ochildren, last_update: olu })
    }

    /// Whether every present timestamp in the tree is a real date and time.
    #[verifier::loop_isolation(false)]
    pub fn is_well_formed(&self) -> (r: bool)
        ensures
            r == status_wf(status_view(*self)),
        decreases *self,
    {
        match &self.last_update {
            None => {},
            Some(lu) => {
                if !lu.is_valid() {
                    return false;
                }
            },
        }
        match &self.children {
            None => true,
            Some(cs) => {
                proof {
                    lemma_status_list_view(cs@);
                    lemma_status_list_wf(status_list_view(cs@));
                }
                let mut i: usize = 0;
                while i < cs.len()
                    invariant
                        i <= cs@.len(),
                        forall|k: int|
                            0 <= k < i ==> status_wf(#[trigger] status_list_view(cs@)[k]),
                    decreases cs@.len() - i,
                {
                    proof {
                        assert(decreases_to!(*self => *cs));
                        assert(decreases_to!(*cs => cs@));
                        assert(decreases_to!(cs@ => cs@[i as int]));
                        assert(status_list_view(cs@)[i as int] == status_view(cs@[i as int]));
                    }
                    if !cs[i].is_well_formed() {
                        return false;
                    }
                    i += 1;
                }
                true
            },
        }
    }

    /// Encode the record, exactly as `spec_encode_status` says.
    pub fn encode(&self) -> (r: Value)
        requires
            status_wf(status_view(*self)),
        ensures
            value_view(r) == spec_encode_status(status_view(*self)),
        decreases *self,
    {
        let mut es: Vec<Entry> = Vec::new();
        es.push(
            Entry {
                key: String::from_str("attr"),
                value: Value::Text(self.attr.token().to_owned()),
            },
        );
        es.push(Entry { key: String::from_str("value"), value: Value::Int(self.value as u64) });
        match &self.children {
            None => {},
            Some(cs) => {
                proof {
                    lemma_status_list_view(cs@);
                    lemma_status_list_wf(status_list_view(cs@));
                }
                let mut vs: Vec<Value> = Vec::new();
                let mut i: usize = 0;
                while i < cs.len()
                    invariant
                        i <= cs@.len(),
                        status_wf(status_view(*self)),
                        self.children == Some(*cs),
                        vs@.len() == i,
                        status_list_view(cs@).len() == cs@.len(),
                        forall|k: int|
                            0 <= k < cs@.len() ==> status_wf(
                                #[trigger] status_list_view(cs@)[k],
                            ) && status_list_view(cs@)[k] == status_view(cs@[k]),
                        forall|k: int|
                            0 <= k < i ==> values_view(vs@)[k] == spec_encode_status(
                                status_view(cs@[k]),
                            ),
                    decreases cs@.len() - i,
                {
                    let ghost old_vs = vs@;
                    proof {
                        assert(decreases_to!(*self => *cs));
                        assert(decreases_to!(*cs => cs@));
                        assert(decreases_to!(cs@ => cs@[i as int]));
                        assert(status_list_view(cs@)[i as int] == status_view(cs@[i as int]));
                        assert(status_wf(status_view(cs@[i as int])));
                    }
                    vs.push(cs[i].encode());
                    proof {
                        lemma_values_view(vs@);
                        lemma_values_view(old_vs);
                        assert forall|k: int| 0 <= k < i + 1 implies values_view(vs@)[k]
                            == spec_encode_status(status_view(cs@[k])) by {
                            assert(values_view(vs@)[k] == value_view(vs@[k]));
                            if k < i {
                                assert(values_view(old_vs)[k] == value_view(old_vs[k]));
                            }
                        }
                    }
                    i += 1;
                }
                proof {
                    lemma_values_view(vs@);
                    lemma_encode_status_list(status_list_view(cs@));
                    assert(values_view(vs@) =~= spec_encode_status_list(status_list_view(cs@)));
                }
                es.push(Entry { key: String::from_str("children"), value: Value::Array(vs) });
            },
        }
        match &self.last_update {
            None => {},
            Some(lu) => {
                es.push(
                    Entry {
                        key: String::from_str("last_update"),
                        value: Value::Text(fmt_local(*lu)),
                    },
                );
            },
        }
        proof {
            lemma_entries_view(es@);
            let m = status_view(*self);
            let base = seq![
                SpecEntry { key: "attr"@, value: SpecValue::Text(spec_attr_token(m.attr)) },
                SpecEntry { key: "value"@, value: SpecValue::Int(m.value as u64) },
            ];
            let withc = match m.children {
                Some(cs) => base.push(
                    SpecEntry {
                        key: "children"@,
                        value: SpecValue::Array(spec_encode_status_list(cs)),
                    },
                ),
                None => base,
            };
            let withl = match m.last_update {
                Some(lu) => withc.push(
                    SpecEntry { key: "last_update"@, value: SpecValue::Text(spec_fmt_local(lu)) },
                ),
                None => withc,
            };
            assert(entries_view(es@)[0] == entry_view(es@[0]));
            assert(entries_view(es@)[1] == entry_view(es@[1]));
            if es@.len() > 2 {
                assert(entries_view(es@)[2] == entry_view(es@[2]));
            }
            if es@.len() > 3 {
                assert(entries_view(es@)[3] == entry_view(es@[3]));
            }
            assert(entries_view(es@) =~= withl);
        }
        Value::Object(es)
    }
}

/// Law: omitting either mandatory field from an otherwise valid leaf
/// input fails with a missing-field error naming that field.
pub proof fn lemma_detailed_status_missing_field(r: DetailedStatus, k: int)
    requires
        0 <= k < 2,
    ensures
        ({
            let full = seq![
                SpecEntry { key: "attr"@, value: SpecValue::Text(spec_attr_token(r.attr)) },
                SpecEntry { key: "value"@, value: SpecValue::Int(r.value as u64) },
            ];
            spec_decode_detailed_status(SpecValue::Object(full.remove(k))) == Err::<
                DetailedStatus,
                _,
            >(SpecDecodeError::MissingField { field: spec_detailed_status_keys()[k] })
        }),
{
    reveal_strlit("attr");
    reveal_strlit("value");
    assert("attr"@.len() == 4 && "value"@.len() == 5);
    let e0 = SpecEntry { key: "attr"@, value: SpecValue::Text(spec_attr_token(r.attr)) };
    let e1 = SpecEntry { key: "value"@, value: SpecValue::Int(r.value as u64) };
    let full = seq![e0, e1];
    let keys = spec_detailed_status_keys();
    let init = Seq::new(keys.len(), |i: int| None::<SpecValue>);
    assert(key_index(keys, "attr"@) == 0);
    assert(key_index(keys, "value"@) == 1) by {
        assert(key_index(keys.drop_first(), "value"@) == 0);
    }
    lemma_attr_round_trip(r.attr);
    if k == 0 {
        let es = full.remove(0);
        assert(es =~= seq![e1]);
        let s1 = init.update(1, Some(e1.value));
        assert(es.drop_first().len() == 0);
        assert(spec_collect_from(es.drop_first(), keys, s1) == Ok::<_, SpecDecodeError>(s1));
        assert(spec_collect(es, keys) == Ok::<_, SpecDecodeError>(s1));
        assert(s1[0] is None && s1[1] == Some(e1.value));
    } else {
        let es = full.remove(1);
        assert(es =~= seq![e0]);
        let s1 = init.update(0, Some(e0.value));
        assert(es.drop_first().len() == 0);
        assert(spec_collect_from(es.drop_first(), keys, s1) == Ok::<_, SpecDecodeError>(s1));
        assert(spec_collect(es, keys) == Ok::<_, SpecDecodeError>(s1));
        assert(s1[0] == Some(e0.value) && s1[1] is None);
    }
}

/// Law: omitting either mandatory field from an otherwise valid status
/// input fails with a missing-field error naming that field, here shown
/// on the canonical encoding of a node without optional fields.
pub proof fn lemma_status_missing_field(r: SpecStatus, k: int)
    requires
        r.children is None,
        r.last_update is None,
        0 <= k < 2,
    ensures
        ({
            let full = seq![
                SpecEntry { key: "attr"@, value: SpecValue::Text(spec_attr_token(r.attr)) },
                SpecEntry { key: "value"@, value: SpecValue::Int(r.value as u64) },
            ];
            spec_decode_status(SpecValue::Object(full.remove(k))) == Err::<SpecStatus, _>(
                SpecDecodeError::MissingField { field: spec_status_keys()[k] },
            )
        }),
{
    reveal_strlit("attr");
    reveal_strlit("value");
    reveal_strlit("children");
    reveal_strlit("last_update");
    assert("attr"@.len() == 4 && "value"@.len() == 5 && "children"@.len() == 8 && "last_update"@
        .len() == 11);
    let e0 = SpecEntry { key: "attr"@, value: SpecValue::Text(spec_attr_token(r.attr)) };
    let e1 = SpecEntry { key: "value"@, value: SpecValue::Int(r.value as u64) };
    let full = seq![e0, e1];
    let keys = spec_status_keys();
    let init = Seq::new(keys.len(), |i: int| None::<SpecValue>);
    assert(key_index(keys, "attr"@) == 0);
    assert(key_index(keys, "value"@) == 1) by {
        assert(key_index(keys.drop_first(), "value"@) == 0);
    }
    lemma_attr_round_trip(r.attr);
    if k == 0 {
        let es = full.remove(0);
        assert(es =~= seq![e1]);
        let s1 = init.update(1, Some(e1.value));
        assert(es.drop_first().len() == 0);
        assert(spec_collect_from(es.drop_first(), keys, s1) == Ok::<_, SpecDecodeError>(s1));
        assert(spec_collect(es, keys) == Ok::<_, SpecDecodeError>(s1));
        assert(s1[0] is None && s1[1] == Some(e1.value) && s1[2] is None && s1[3] is None);
    } else {
        let es = full.remove(1);
        assert(es =~= seq![e0]);
        let s1 = init.update(0, Some(e0.value));
        assert(es.drop_first().len() == 0);
        assert(spec_collect_from(es.drop_first(), keys, s1) == Ok::<_, SpecDecodeError>(s1));
        assert(spec_collect(es, keys) == Ok::<_, SpecDecodeError>(s1));
        assert(s1[0] == Some(e0.value) && s1[1] is None && s1[2] is None && s1[3] is None);
    }
}

/// Law: decoding an encoded status tree yields the tree back, children
/// and timestamp included when present, and omitted keys stay absent.
pub proof fn lemma_status_round_trip(r: SpecStatus)
    requires
        status_wf(r),
    ensures
        spec_decode_status(spec_encode_status(r)) == Ok::<_, SpecDecodeError>(r),
    decreases r,
{
    reveal_strlit("attr");
    reveal_strlit("value");
    reveal_strlit("children");
    reveal_strlit("last_update");
    assert("attr"@.len() == 4 && "value"@.len() == 5 && "children"@.len() == 8 && "last_update"@
        .len() == 11);
    let keys = spec_status_keys();
    assert(key_index(keys, "attr"@) == 0);
    assert(key_index(keys, "value"@) == 1) by {
        assert(key_index(keys.drop_first(), "value"@) == 0);
    }
    assert(key_index(keys, "children"@) == 2) by {
        assert(key_index(keys.drop_first().drop_first(), "children"@) == 0);
        assert(key_index(keys.drop_first(), "children"@) == 1);
    }
    assert(key_index(keys, "last_update"@) == 3) by {
        assert(key_index(keys.drop_first().drop_first().drop_first(), "last_update"@) == 0);
        assert(key_index(keys.drop_first().drop_first(), "last_update"@) == 1);
        assert(key_index(keys.drop_first(), "last_update"@) == 2);
    }
    let e0 = SpecEntry { key: "attr"@, value: SpecValue::Text(spec_attr_token(r.attr)) };
    let e1 = SpecEntry { key: "value"@, value: SpecValue::Int(r.value as u64) };
    let init = Seq::new(keys.len(), |i: int| None::<SpecValue>);
    let s1 = init.update(0, Some(e0.value));
    let s2 = s1.update(1, Some(e1.value));
    lemma_attr_round_trip(r.attr);
    match r.children {
        None => {
            match r.last_update {
                None => {
                    let es = seq![e0, e1];
                    assert(spec_encode_status(r) == SpecValue::Object(es)) by {
                        assert(es =~= seq![e0, e1]);
                    }
                    assert(es.drop_first() =~= seq![e1]);
                    assert(seq![e1].drop_first().len() == 0);
                    assert(spec_collect_from(seq![e1].drop_first(), keys, s2) == Ok::<
                        _,
                        SpecDecodeError,
                    >(s2));
                    assert(spec_collect_from(seq![e1], keys, s1) == spec_collect_from(
                        seq![e1].drop_first(),
                        keys,
                        s2,
                    ));
                    assert(spec_collect(es, keys) == Ok::<_, SpecDecodeError>(s2));
                    assert(s2[0] == Some(e0.value) && s2[1] == Some(e1.value) && s2[2] is None
                        && s2[3] is None);
                },
                Some(lu) => {
                    let el = SpecEntry {
                        key: "last_update"@,
                        value: SpecValue::Text(spec_fmt_local(lu)),
                    };
                    let es = seq![e0, e1, el];
                    assert(spec_encode_status(r) == SpecValue::Object(es)) by {
                        assert(es =~= seq![e0, e1].push(el));
                    }
                    let s3 = s2.update(3, Some(el.value));
                    assert(es.drop_first() =~= seq![e1, el]);
                    assert(seq![e1, el].drop_first() =~= seq![el]);
                    assert(seq![el].drop_first().len() == 0);
                    assert(spec_collect_from(seq![el].drop_first(), keys, s3) == Ok::<
                        _,
                        SpecDecodeError,
                    >(s3));
                    assert(spec_collect_from(seq![el], keys, s2) == spec_collect_from(
                        seq![el].drop_first(),
                        keys,
                        s3,
                    ));
                    assert(spec_collect_from(seq![e1, el], keys, s1) == spec_collect_from(
                        seq![el],
                        keys,
                        s2,
                    ));
                    assert(spec_collect(es, keys) == Ok::<_, SpecDecodeError>(s3));
                    assert(s3[0] == Some(e0.value) && s3[1] == Some(e1.value) && s3[2] is None
                        && s3[3] == Some(el.value));
                    lemma_local_round_trip(lu);
                },
            }
        },
        Some(cs) => {
            assert(decreases_to!(r => cs));
            lemma_status_list_round_trip(cs);
            let ec = SpecEntry {
                key: "children"@,
                value: SpecValue::Array(spec_encode_status_list(cs)),
            };
            let s3 = s2.update(2, Some(ec.value));
            match r.last_update {
                None => {
                    let es = seq![e0, e1, ec];
                    assert(spec_encode_status(r) == SpecValue::Object(es)) by {
                        assert(es =~= seq![e0, e1].push(ec));
                    }
                    assert(es.drop_first() =~= seq![e1, ec]);
                    assert(seq![e1, ec].drop_first() =~= seq![ec]);
                    assert(seq![ec].drop_first().len() == 0);
                    assert(spec_collect_from(seq![ec].drop_first(), keys, s3) == Ok::<
                        _,
                        SpecDecodeError,
                    >(s3));
                    assert(spec_collect_from(seq![ec], keys, s2) == spec_collect_from(
                        seq![ec].drop_first(),
                        keys,
                        s3,
                    ));
                    assert(spec_collect_from(seq![e1, ec], keys, s1) == spec_collect_from(
                        seq![ec],
                        keys,
                        s2,
                    ));
                    assert(spec_collect(es, keys) == Ok::<_, SpecDecodeError>(s3));
                    assert(s3[0] == Some(e0.value) && s3[1] == Some(e1.value) && s3[2] == Some(
                        ec.value,
                    ) && s3[3] is None);
                },
                Some(lu) => {
                    let el = SpecEntry {
                        key: "last_update"@,
                        value: SpecValue::Text(spec_fmt_local(lu)),
                    };
                    let es = seq![e0, e1, ec, el];
                    assert(spec_encode_status(r) == SpecValue::Object(es)) by {
                        assert(es =~= seq![e0, e1].push(ec).push(el));
                    }
                    let s4 = s3.update(3, Some(el.value));
                    assert(es.drop_first() =~= seq![e1, ec, el]);
                    assert(seq![e1, ec, el].drop_first() =~= seq![ec, el]);
                    assert(seq![ec, el].drop_first() =~= seq![el]);
                    assert(seq![el].drop_first().len() == 0);
                    assert(spec_collect_from(seq![el].drop_first(), keys, s4) == Ok::<
                        _,
                        SpecDecodeError,
                    >(s4));
                    assert(spec_collect_from(seq![el], keys, s3) == spec_collect_from(
                        seq![el].drop_first(),
                        keys,
                        s4,
                    ));
                    assert(spec_collect_from(seq![ec, el], keys, s2) == spec_collect_from(
                        seq![el],
                        keys,
                        s3,
                    ));
                    assert(spec_collect_from(seq![e1, ec, el], keys, s1) == spec_collect_from(
                        seq![ec, el],
                        keys,
                        s2,
                    ));
                    assert(spec_collect(es, keys) == Ok::<_, SpecDecodeError>(s4));
                    assert(s4[0] == Some(e0.value) && s4[1] == Some(e1.value) && s4[2] == Some(
                        ec.value,
                    ) && s4[3] == Some(el.value));
                    lemma_local_round_trip(lu);
                },
            }
        },
    }
}

/// Law: omitting the optional `children` and `last_update` keys is never
/// an error: a node with both absent decodes from its two-entry encoding.
pub proof fn lemma_status_optional_fields_absent(r: SpecStatus)
    requires
        r.children is None,
        r.last_update is None,
    ensures
        spec_decode_status(spec_encode_status(r)) == Ok::<_, SpecDecodeError>(r),
{
    lemma_status_round_trip(r);
}

/// Law: decoding an encoded children array yields the children back,
/// order preserved.
pub proof fn lemma_status_list_round_trip(s: Seq<SpecStatus>)
    requires
        status_list_wf(s),
    ensures
        spec_decode_status_list(spec_encode_status_list(s)) == Ok::<_, SpecDecodeError>(s),
    decreases s,
{
    if s.len() > 0 {
        let vs = spec_encode_status_list(s);
        assert(vs[0] == spec_encode_status(s[0]));
        lemma_status_round_trip(s[0]);
        assert(vs.drop_first() =~= spec_encode_status_list(s.drop_first()));
        lemma_status_list_round_trip(s.drop_first());
        assert(seq![s[0]] + s.drop_first() =~= s);
    } else {
        assert(spec_encode_status_list(s).len() == 0);
        assert(Seq::<SpecStatus>::empty() =~= s);
    }
}

} // verus!
