//! Concrete checks of the codec's stated behavior: round trips, rejection
//! of unknown, duplicate and missing fields, tolerance of absent optional
//! fields, and the exactness of the three date patterns.

use covid_codec::dates::{
    fmt_date, fmt_local, fmt_utc, parse_date, parse_local, parse_utc, CalendarDate,
    LocalDateTime, UtcDateTime,
};
use covid_codec::error::DecodeError;
use covid_codec::last_update::LastUpdate;
use covid_codec::news::{NewsItem, NewsItems};
use covid_codec::status::{Attributes, DetailedStatus, Status};
use covid_codec::summary::{Summary, SummaryContent};
use covid_codec::value::{Entry, Value};

fn obj(entries: Vec<(&str, Value)>) -> Value {
    Value::Object(
        entries
            .into_iter()
            .map(|(k, v)| Entry {
                key: k.to_string(),
                value: v,
            })
            .collect(),
    )
}

fn text(s: &str) -> Value {
    Value::Text(s.to_string())
}

fn date(y: u32, m: u32, d: u32) -> CalendarDate {
    CalendarDate {
        year: y,
        month: m,
        day: d,
    }
}

fn local(y: u32, m: u32, d: u32, hh: u32, mm: u32) -> LocalDateTime {
    LocalDateTime {
        date: date(y, m, d),
        hour: hh,
        minute: mm,
    }
}

fn utc(y: u32, m: u32, d: u32, hh: u32, mm: u32, ss: u32, ms: u32) -> UtcDateTime {
    UtcDateTime {
        date: date(y, m, d),
        hour: hh,
        minute: mm,
        second: ss,
        milli: ms,
    }
}

fn eq_status(a: &Status, b: &Status) -> bool {
    a.attr == b.attr
        && a.value == b.value
        && a.last_update == b.last_update
        && match (&a.children, &b.children) {
            (None, None) => true,
            (Some(x), Some(y)) => {
                x.len() == y.len() && x.iter().zip(y.iter()).all(|(l, r)| eq_status(l, r))
            }
            _ => false,
        }
}

#[test]
fn round_trip_last_update() {
    let r = LastUpdate {
        datetime: local(2020, 3, 25, 21, 40),
    };
    assert_eq!(LastUpdate::decode(r.encode()).unwrap(), r);
}

#[test]
fn round_trip_news_item() {
    let r = NewsItem {
        date: date(2020, 2, 29),
        text: "お知らせ".to_string(),
        url: "https://example.jp/".to_string(),
    };
    let back = NewsItem::decode(r.encode()).unwrap();
    assert_eq!(back.date, r.date);
    assert_eq!(back.text, r.text);
    assert_eq!(back.url, r.url);
}

#[test]
fn round_trip_news_items_preserves_order() {
    let a = NewsItem {
        date: date(2020, 3, 25),
        text: "first".to_string(),
        url: "https://example.jp/a".to_string(),
    };
    let b = NewsItem {
        date: date(2020, 3, 26),
        text: "second".to_string(),
        url: "https://example.jp/b".to_string(),
    };
    let r = NewsItems {
        news_items: vec![a, b],
    };
    let back = NewsItems::decode(r.encode()).unwrap();
    assert_eq!(back.news_items.len(), 2);
    assert_eq!(back.news_items[0].text, "first");
    assert_eq!(back.news_items[1].text, "second");
}

#[test]
fn round_trip_detailed_status() {
    let r = DetailedStatus {
        attr: Attributes::Inspections,
        value: 77,
    };
    assert_eq!(DetailedStatus::decode(r.encode()).unwrap(), r);
}

#[test]
fn round_trip_status_tree() {
    let leaf = Status {
        attr: Attributes::Accommodations,
        value: 32,
        children: None,
        last_update: None,
    };
    let r = Status {
        attr: Attributes::Patients,
        value: 4096,
        children: Some(vec![leaf]),
        last_update: Some(local(2020, 3, 25, 21, 40)),
    };
    let back = Status::decode(r.encode()).unwrap();
    assert!(eq_status(&back, &r));
}

#[test]
fn round_trip_summary() {
    let r = Summary {
        data: vec![
            SummaryContent {
                date: utc(2020, 3, 25, 9, 25, 0, 0),
                sum: 10,
            },
            SummaryContent {
                date: utc(2020, 3, 26, 9, 25, 30, 123),
                sum: 11,
            },
        ],
        last_update: local(2020, 3, 25, 21, 40),
    };
    let back = Summary::decode(r.encode()).unwrap();
    assert_eq!(back.data, r.data);
    assert_eq!(back.last_update, r.last_update);
}

#[test]
fn unknown_key_is_rejected() {
    let v = obj(vec![
        ("last_update", text("2020/03/25 21:40")),
        ("surprise", text("x")),
    ]);
    assert!(matches!(
        LastUpdate::decode(v),
        Err(DecodeError::UnknownField { .. })
    ));
}

#[test]
fn unknown_key_error_names_key_and_allowed_set() {
    let v = obj(vec![("surprise", text("x"))]);
    match NewsItem::decode(v) {
        Err(DecodeError::UnknownField { key, expected }) => {
            assert_eq!(key, "surprise");
            assert_eq!(expected, vec!["date", "text", "url"]);
        }
        other => panic!("expected an unknown-field error, got {:?}", other),
    }
}

#[test]
fn duplicate_key_is_rejected_even_with_identical_values() {
    let v = obj(vec![
        ("last_update", text("2020/03/25 21:40")),
        ("last_update", text("2020/03/25 21:40")),
    ]);
    match LastUpdate::decode(v) {
        Err(DecodeError::DuplicateField { field }) => assert_eq!(field, "last_update"),
        other => panic!("expected a duplicate-field error, got {:?}", other),
    }
}

#[test]
fn missing_mandatory_field_is_rejected() {
    let v = obj(vec![
        ("date", text("2020/03/25")),
        ("text", text("news")),
    ]);
    match NewsItem::decode(v) {
        Err(DecodeError::MissingField { field }) => assert_eq!(field, "url"),
        other => panic!("expected a missing-field error, got {:?}", other),
    }
}

#[test]
fn empty_object_is_missing_its_first_mandatory_field() {
    match LastUpdate::decode(obj(vec![])) {
        Err(DecodeError::MissingField { field }) => assert_eq!(field, "last_update"),
        other => panic!("expected a missing-field error, got {:?}", other),
    }
}

#[test]
fn absent_optional_fields_are_no_error() {
    let v = obj(vec![
        ("attr", text("dead")),
        ("value", Value::Int(3)),
    ]);
    let s = Status::decode(v).unwrap();
    assert!(s.children.is_none());
    assert!(s.last_update.is_none());
}

#[test]
fn status_reencodes_without_absent_optional_keys() {
    let v = obj(vec![
        ("attr", text("patients")),
        ("value", Value::Int(4096)),
        (
            "children",
            Value::Array(vec![obj(vec![
                ("attr", text("accommodations")),
                ("value", Value::Int(32)),
            ])]),
        ),
    ]);
    let s = Status::decode(v).unwrap();
    assert_eq!(s.children.as_ref().unwrap().len(), 1);
    assert!(s.last_update.is_none());
    match s.encode() {
        Value::Object(es) => {
            let keys: Vec<String> = es.iter().map(|e| e.key.clone()).collect();
            assert_eq!(keys, vec!["attr", "value", "children"]);
        }
        _ => panic!("a record encodes as an object"),
    }
}

#[test]
fn key_order_does_not_matter() {
    let v = obj(vec![
        ("value", Value::Int(7)),
        ("attr", text("leave")),
    ]);
    let r = DetailedStatus::decode(v).unwrap();
    assert_eq!(
        r,
        DetailedStatus {
            attr: Attributes::Leave,
            value: 7
        }
    );
}

#[test]
fn format_exactness() {
    assert!(parse_local("2020/03/25 21:40").is_some());
    assert!(parse_date("2020/03/25 21:40").is_none());
    assert!(parse_utc("2020/03/25 21:40").is_none());
    assert!(parse_utc("2020-03-25T09:40:00.000Z").is_some());
    assert!(parse_local("2020-03-25T09:40:00.000Z").is_none());
    assert!(parse_date("2020-03-25T09:40:00.000Z").is_none());
    assert!(parse_date("2020/03/25").is_some());
    assert!(parse_local("2020/03/25").is_none());
    assert!(parse_utc("2020/03/25").is_none());
}

#[test]
fn date_patterns_exact_values() {
    assert_eq!(parse_date("2020/03/25"), Some(date(2020, 3, 25)));
    assert_eq!(
        parse_local("2020/03/25 21:40"),
        Some(local(2020, 3, 25, 21, 40))
    );
    assert_eq!(
        parse_utc("2020-03-25T09:40:00.000Z"),
        Some(utc(2020, 3, 25, 9, 40, 0, 0))
    );
    assert_eq!(fmt_date(date(2020, 3, 25)), "2020/03/25");
    assert_eq!(fmt_local(local(2020, 3, 25, 21, 40)), "2020/03/25 21:40");
    assert_eq!(
        fmt_utc(utc(2020, 3, 25, 9, 40, 0, 0)),
        "2020-03-25T09:40:00.000Z"
    );
}

#[test]
fn offset_suffix_is_folded_into_utc() {
    assert_eq!(
        parse_utc("2020-03-26T00:10:00+01:00"),
        Some(utc(2020, 3, 25, 23, 10, 0, 0))
    );
    assert_eq!(
        parse_utc("2020-12-31T23:30:00-01:00"),
        Some(utc(2021, 1, 1, 0, 30, 0, 0))
    );
    assert_eq!(
        parse_utc("2020-03-25T09:40:00.250Z"),
        Some(utc(2020, 3, 25, 9, 40, 0, 250))
    );
}

#[test]
fn calendar_validation() {
    assert!(parse_date("2020/02/29").is_some());
    assert!(parse_date("2019/02/29").is_none());
    assert!(parse_date("2020/13/01").is_none());
    assert!(parse_date("2020/00/10").is_none());
    assert!(parse_date("2020/04/31").is_none());
    assert!(parse_local("2020/03/25 24:00").is_none());
    assert!(parse_local("2020/03/25 23:60").is_none());
    assert!(parse_utc("2020-03-25T09:40:61.000Z").is_none());
}

#[test]
fn last_update_reencodes_to_identical_text() {
    let v = obj(vec![("last_update", text("2020/03/25 21:40"))]);
    let r = LastUpdate::decode(v).unwrap();
    match r.encode() {
        Value::Object(es) => {
            assert_eq!(es.len(), 1);
            assert_eq!(es[0].key, "last_update");
            match &es[0].value {
                Value::Text(s) => assert_eq!(s, "2020/03/25 21:40"),
                _ => panic!("the timestamp encodes as text"),
            }
        }
        _ => panic!("a record encodes as an object"),
    }
}

#[test]
fn malformed_values_are_rejected() {
    let v = obj(vec![("last_update", text("2020-03-25 21:40"))]);
    assert!(matches!(
        LastUpdate::decode(v),
        Err(DecodeError::MalformedValue { .. })
    ));
    let v = obj(vec![("date", text("2020/03/25")), ("sum", text("10"))]);
    assert!(matches!(
        SummaryContent::decode(v),
        Err(DecodeError::MalformedValue { .. })
    ));
    let v = obj(vec![
        ("date", text("2020-03-25T09:40:00.000Z")),
        ("sum", Value::Int(4_294_967_296)),
    ]);
    assert!(matches!(
        SummaryContent::decode(v),
        Err(DecodeError::MalformedValue { .. })
    ));
    let v = obj(vec![("attr", text("unheard_of")), ("value", Value::Int(1))]);
    assert!(matches!(
        DetailedStatus::decode(v),
        Err(DecodeError::MalformedValue { .. })
    ));
}

#[test]
fn attribute_tokens_round_trip() {
    let tags = vec![
        Attributes::Accommodations,
        Attributes::Coodinating,
        Attributes::Dead,
        Attributes::Home,
        Attributes::Hospitalizations,
        Attributes::Inspections,
        Attributes::Leave,
        Attributes::Patients,
        Attributes::SeverePatients,
        Attributes::Other,
    ];
    for t in tags {
        let r = DetailedStatus { attr: t, value: 1 };
        assert_eq!(DetailedStatus::decode(r.encode()).unwrap().attr, t);
    }
}
