//! Decode-time errors. All are surfaced immediately to the caller; the
//! encoder has no error conditions.

use vstd::prelude::*;

verus! {

/// Why a record could not be decoded.
#[derive(Debug)]
pub enum DecodeError {
    /// The input held a key outside the record's recognized set; carries the
    /// offending key and the allowed keys.
    UnknownField { key: String, expected: Vec<String> },
    /// A recognized key was observed a second time for one record instance.
    DuplicateField { field: String },
    /// A mandatory field was never observed.
    MissingField { field: String },
    /// A value was present but not parseable against its expected type or
    /// date pattern; carries the name of the field it was meant for.
    MalformedValue { field: String },
}

/// Mathematical model of a `DecodeError`.
pub enum SpecDecodeError {
    UnknownField { key: Seq<char>, expected: Seq<Seq<char>> },
    DuplicateField { field: Seq<char> },
    MissingField { field: Seq<char> },
    MalformedValue { field: Seq<char> },
}

/// The model of a list of strings: the list of their character sequences.
pub open spec fn strings_view(s: Seq<String>) -> Seq<Seq<char>> {
    Seq::new(s.len(), |i: int| s[i]@)
}

impl View for DecodeError {
    type V = SpecDecodeError;

    open spec fn view(&self) -> SpecDecodeError {
        match self {
            DecodeError::UnknownField { key, expected } => SpecDecodeError::UnknownField {
                key: key@,
                expected: strings_view(expected@),
            },
            DecodeError::DuplicateField { field } => SpecDecodeError::DuplicateField {
                field: field@,
            },
            DecodeError::MissingField { field } => SpecDecodeError::MissingField { field: field@ },
            DecodeError::MalformedValue { field } => SpecDecodeError::MalformedValue {
                field: field@,
            },
        }
    }
}

} // verus!
