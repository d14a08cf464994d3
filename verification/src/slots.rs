//! Per-field value decoders: each takes the slot the slot machine filled
//! (or left empty) for one field and reads the value against the field's
//! expected type or date pattern. An empty slot is handed through; whether
//! absence is an error is the record's decision, made afterwards.

use vstd::prelude::*;

use crate::dates::{
    CalendarDate, LocalDateTime, UtcDateTime, parse_date, parse_local, parse_utc, spec_parse_date,
    spec_parse_local, spec_parse_utc,
};
use crate::error::{DecodeError, SpecDecodeError};
use crate::value::{SpecValue, Value, value_view};

verus! {

/// The model of a filled-or-empty slot.
pub open spec fn opt_value_view(s: Option<Value>) -> Option<SpecValue> {
    match s {
        Some(v) => Some(value_view(v)),
        None => None,
    }
}

/// A calendar-date field: text in the calendar-date pattern.
pub open spec fn spec_slot_date(slot: Option<SpecValue>, field: Seq<char>) -> Result<
    Option<CalendarDate>,
    SpecDecodeError,
> {
    match slot {
        None => Ok(None),
        Some(sv) => match sv {
            SpecValue::Text(s) => match spec_parse_date(s) {
                Some(d) => Ok(Some(d)),
                None => Err(SpecDecodeError::MalformedValue { field }),
            },
            _ => Err(SpecDecodeError::MalformedValue { field }),
        },
    }
}

/// A local date-time field: text in the local date-time pattern.
pub open spec fn spec_slot_local(slot: Option<SpecValue>, field: Seq<char>) -> Result<
    Option<LocalDateTime>,
    SpecDecodeError,
> {
    match slot {
        None => Ok(None),
        Some(sv) => match sv {
            SpecValue::Text(s) => match spec_parse_local(s) {
                Some(t) => Ok(Some(t)),
                None => Err(SpecDecodeError::MalformedValue { field }),
            },
            _ => Err(SpecDecodeError::MalformedValue { field }),
        },
    }
}

/// An offset date-time field: text in the offset date-time pattern.
pub open spec fn spec_slot_utc(slot: Option<SpecValue>, field: Seq<char>) -> Result<
    Option<UtcDateTime>,
    SpecDecodeError,
> {
    match slot {
        None => Ok(None),
        Some(sv) => match sv {
            SpecValue::Text(s) => match spec_parse_utc(s) {
                Some(t) => Ok(Some(t)),
                None => Err(SpecDecodeError::MalformedValue { field }),
            },
            _ => Err(SpecDecodeError::MalformedValue { field }),
        },
    }
}

/// A plain string field.
pub open spec fn spec_slot_text(slot: Option<SpecValue>, field: Seq<char>) -> Result<
    Option<Seq<char>>,
    SpecDecodeError,
> {
    match slot {
        None => Ok(None),
        Some(sv) => match sv {
            SpecValue::Text(s) => Ok(Some(s)),
            _ => Err(SpecDecodeError::MalformedValue { field }),
        },
    }
}

/// A non-negative integer field that must fit the record's width.
pub open spec fn spec_slot_u32(slot: Option<SpecValue>, field: Seq<char>) -> Result<
    Option<u32>,
    SpecDecodeError,
> {
    match slot {
        None => Ok(None),
        Some(sv) => match sv {
            SpecValue::Int(n) => if n <= u32::MAX {
                Ok(Some(n as u32))
            } else {
                Err(SpecDecodeError::MalformedValue { field })
            },
            _ => Err(SpecDecodeError::MalformedValue { field }),
        },
    }
}

pub fn take_date(slot: Option<Value>, field: &str) -> (r: Result<Option<CalendarDate>, DecodeError>)
    ensures
        match r {
            Ok(o) => spec_slot_date(opt_value_view(slot), field@) == Ok::<_, SpecDecodeError>(o),
            Err(e) => spec_slot_date(opt_value_view(slot), field@) == Err::<
                Option<CalendarDate>,
                _,
            >(e@),
        },
{
    match slot {
        None => Ok(None),
        Some(v) => match v {
            Value::Text(s) => match parse_date(s.as_str()) {
                Some(d) => Ok(Some(d)),
                None => Err(DecodeError::MalformedValue { field: field.to_owned() }),
            },
            _ => Err(DecodeError::MalformedValue { field: field.to_owned() }),
        },
    }
}

pub fn take_local(slot: Option<Value>, field: &str) -> (r: Result<
    Option<LocalDateTime>,
    DecodeError,
>)
    ensures
        match r {
            Ok(o) => spec_slot_local(opt_value_view(slot), field@) == Ok::<_, SpecDecodeError>(o),
            Err(e) => spec_slot_local(opt_value_view(slot), field@) == Err::<
                Option<LocalDateTime>,
                _,
            >(e@),
        },
{
    match slot {
        None => Ok(None),
        Some(v) => match v {
            Value::Text(s) => match parse_local(s.as_str()) {
                Some(t) => Ok(Some(t)),
                None => Err(DecodeError::MalformedValue { field: field.to_owned() }),
            },
            _ => Err(DecodeError::MalformedValue { field: field.to_owned() }),
        },
    }
}

pub fn take_utc(slot: Option<Value>, field: &str) -> (r: Result<Option<UtcDateTime>, DecodeError>)
    ensures
        match r {
            Ok(o) => spec_slot_utc(opt_value_view(slot), field@) == Ok::<_, SpecDecodeError>(o),
            Err(e) => spec_slot_utc(opt_value_view(slot), field@) == Err::<
                Option<UtcDateTime>,
                _,
            >(e@),
        },
{
    match slot {
        None => Ok(None),
        Some(v) => match v {
            Value::Text(s) => match parse_utc(s.as_str()) {
                Some(t) => Ok(Some(t)),
                None => Err(DecodeError::MalformedValue { field: field.to_owned() }),
            },
            _ => Err(DecodeError::MalformedValue { field: field.to_owned() }),
        },
    }
}

pub fn take_text(slot: Option<Value>, field: &str) -> (r: Result<Option<String>, DecodeError>)
    ensures
        match r {
            Ok(o) => spec_slot_text(opt_value_view(slot), field@) == Ok::<_, SpecDecodeError>(
                match o {
                    Some(s) => Some(s@),
                    None => None,
                },
            ),
            Err(e) => spec_slot_text(opt_value_view(slot), field@) == Err::<
                Option<Seq<char>>,
                _,
            >(e@),
        },
{
    match slot {
        None => Ok(None),
        Some(v) => match v {
            Value::Text(s) => Ok(Some(s)),
            _ => Err(DecodeError::MalformedValue { field: field.to_owned() }),
        },
    }
}

pub fn take_u32(slot: Option<Value>, field: &str) -> (r: Result<Option<u32>, DecodeError>)
    ensures
        match r {
            Ok(o) => spec_slot_u32(opt_value_view(slot), field@) == Ok::<_, SpecDecodeError>(o),
            Err(e) => spec_slot_u32(opt_value_view(slot), field@) == Err::<Option<u32>, _>(e@),
        },
{
    match slot {
        None => Ok(None),
        Some(v) => match v {
            Value::Int(n) => if n <= u32::MAX as u64 {
                Ok(Some(n as u32))
            } else {
                Err(DecodeError::MalformedValue { field: field.to_owned() })
            },
            _ => Err(DecodeError::MalformedValue { field: field.to_owned() }),
        },
    }
}

} // verus!
