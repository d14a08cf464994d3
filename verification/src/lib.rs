//! A hand-built codec for regional pandemic-tracking records: summaries,
//! status breakdowns, news items and last-update timestamps, converted to
//! and from a JSON-like document model by explicit field-by-field logic.
//!
//! Each record type has a closed set of recognized keys. Decoding walks an
//! object's entries through a slot machine that rejects unknown keys and
//! duplicates, reads each value against its field's type or date pattern,
//! and then checks that every mandatory field was seen; optional fields may
//! be absent without error. Encoding emits the fields in canonical order
//! and omits absent optional fields entirely. Every function carries a
//! contract against a mathematical model of the documents and records, and
//! the stated laws -- round trips, rejection of unknown, duplicate and
//! missing fields, and the disjointness of the three date patterns -- are
//! proved.
//!
//! Turning raw text into the document model (and values such as timestamps
//! out of a real clock) is the host's job, outside this crate.

pub mod dates;
pub mod error;
pub mod fields;
pub mod last_update;
pub mod news;
pub mod slots;
pub mod status;
pub mod summary;
pub mod value;
