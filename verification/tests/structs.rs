//! The record codecs exercised end to end: each record built in memory is
//! rendered through the document model to text, and each text fixture is
//! parsed back through the document model into a record.

use covid_codec::dates::{CalendarDate, LocalDateTime, UtcDateTime};
use covid_codec::last_update::LastUpdate;
use covid_codec::news::{NewsItem, NewsItems};
use covid_codec::status::{Attributes as StatusAttributes, Status};
use covid_codec::summary::{Summary, SummaryContent};
use covid_codec::value::{Entry, Value};

/// Turn a parsed JSON document into the codec's document model.
fn to_value(j: &serde_json::Value) -> Value {
    match j {
        serde_json::Value::Object(map) => Value::Object(
            map.iter()
                .map(|(k, v)| Entry {
                    key: k.clone(),
                    value: to_value(v),
                })
                .collect(),
        ),
        serde_json::Value::Array(a) => Value::Array(a.iter().map(to_value).collect()),
        serde_json::Value::String(s) => Value::Text(s.clone()),
        serde_json::Value::Number(n) => {
            Value::Int(n.as_u64().expect("only non-negative integers are modeled"))
        }
        _ => panic!("node kind outside the document model"),
    }
}

/// Turn the codec's document model into a JSON document.
fn to_json(v: &Value) -> serde_json::Value {
    match v {
        Value::Object(es) => {
            let mut map = serde_json::Map::new();
            for e in es {
                map.insert(e.key.clone(), to_json(&e.value));
            }
            serde_json::Value::Object(map)
        }
        Value::Array(vs) => serde_json::Value::Array(vs.iter().map(to_json).collect()),
        Value::Text(s) => serde_json::Value::String(s.clone()),
        Value::Int(n) => serde_json::Value::Number(serde_json::Number::from(*n)),
    }
}

fn parse(text: &str) -> Value {
    to_value(&serde_json::from_str::<serde_json::Value>(text).expect("fixture is valid"))
}

/// 2020-03-25 21:40 as a wall-clock value.
fn dummy_localdate() -> LocalDateTime {
    LocalDateTime {
        date: CalendarDate {
            year: 2020,
            month: 3,
            day: 25,
        },
        hour: 21,
        minute: 40,
    }
}

fn test_data_last_update() -> LastUpdate {
    LastUpdate {
        datetime: dummy_localdate(),
    }
}

fn test_data_news_item() -> NewsItem {
    NewsItem {
        date: CalendarDate {
            year: 2020,
            month: 3,
            day: 25,
        },
        text: "京都府 新型コロナウイルス感染症 対策サイト".to_string(),
        url: "https://kyoto.stopcovid19.jp/".to_string(),
    }
}

fn test_data_news_items() -> NewsItems {
    NewsItems {
        news_items: vec![test_data_news_item()],
    }
}

fn test_data_status() -> Status {
    Status {
        attr: StatusAttributes::Accommodations,
        value: 32,
        children: None,
        last_update: None,
    }
}

fn test_data_status_with_children() -> Status {
    Status {
        attr: StatusAttributes::Patients,
        value: 4096,
        children: Some(vec![test_data_status()]),
        last_update: Some(dummy_localdate()),
    }
}

fn test_data_summary_content() -> SummaryContent {
    SummaryContent {
        date: UtcDateTime {
            date: CalendarDate {
                year: 2020,
                month: 3,
                day: 25,
            },
            hour: 9,
            minute: 25,
            second: 0,
            milli: 0,
        },
        sum: 10,
    }
}

fn test_data_summary() -> Summary {
    Summary {
        data: vec![test_data_summary_content()],
        last_update: dummy_localdate(),
    }
}

#[test]
fn serialize_last_update() {
    assert!(serde_json::to_string(&to_json(&test_data_last_update().encode())).is_ok());
}

#[test]
fn deserialize_last_update() {
    let serialized = r#"{"last_update":"2020/03/25 21:40"}"#;
    let deserialized = LastUpdate::decode(parse(serialized));
    assert!(deserialized.is_ok());
}

#[test]
fn serialize_news_item() {
    println!(
        "{}",
        serde_json::to_string(&to_json(&test_data_news_item().encode())).unwrap()
    );
    assert!(serde_json::to_string(&to_json(&test_data_news_item().encode())).is_ok());
}

#[test]
fn deserialize_news_item() {
    let serialized = r#"{"date":"2020/03/25","text":"京都府 新型コロナウイルス感染症 対策サイト","url":"https://kyoto.stopcovid19.jp/"}"#;
    let deserialized = NewsItem::decode(parse(serialized));
    assert!(deserialized.is_ok());
}

#[test]
fn serialize_news_items() {
    println!(
        "{}",
        serde_json::to_string(&to_json(&test_data_news_items().encode())).unwrap()
    );
    assert!(serde_json::to_string(&to_json(&test_data_news_items().encode())).is_ok());
}

#[test]
fn deserialize_news_items() {
    let serialized = r#"{"news_items":[{"date":"2020/03/25","text":"京都府 新型コロナウイルス感染症 対策サイト","url":"https://kyoto.stopcovid19.jp/"}]}"#;
    let deserialized = NewsItems::decode(parse(serialized));
    assert!(deserialized.is_ok());
}

#[test]
fn serialize_status() {
    assert!(serde_json::to_string(&to_json(&test_data_status().encode())).is_ok());
    assert!(
        serde_json::to_string(&to_json(&test_data_status_with_children().encode())).is_ok()
    );
}

#[test]
fn deserialize_status() {
    let serialized =
        r#"{"attr":"patients","value":4096,"children":[{"attr":"accommodations","value":32}]}"#;
    let deserialized = Status::decode(parse(serialized));
    assert!(deserialized.is_ok());
}

#[test]
fn serialize_summary() {
    assert!(serde_json::to_string(&to_json(&test_data_summary().encode())).is_ok());
}

#[test]
fn deserialize_summary() {
    let serialized = r#"{"data":[{"date":"2020-03-25T09:40:00.000Z", "sum": 10}], "last_update":"2020/03/25 21:25"}"#;
    let deserialized = Summary::decode(parse(serialized));
    assert!(deserialized.is_ok());
}

#[test]
fn serialize_summary_content() {
    assert!(serde_json::to_string(&to_json(&test_data_summary_content().encode())).is_ok());
}

#[test]
fn deserialize_summary_content() {
    let serialized = r#"{"date":"2020-03-25T09:40:00.000Z", "sum": 10}"#;
    let deserialized = SummaryContent::decode(parse(serialized));
    assert!(deserialized.is_ok());
}
