//! The format registry: three fixed textual date/time patterns, each bound
//! to one semantic date kind, with verified parsing and rendering.
//!
//! Date and time values are held as plain calendar fields, so that parsing
//! and rendering are deterministic and independent of any ambient clock,
//! locale or time zone; an offset suffix on the third pattern is folded
//! into the stored fields at parse time.

use vstd::prelude::*;
use vstd::string::StrSliceExecFns;
use vstd::string::StringExecFns;

verus! {

/// A calendar date.
#[derive(Clone, Copy, PartialEq, Eq, Structural, Debug)]
pub struct CalendarDate {
    pub year: u32,
    pub month: u32,
    pub day: u32,
}

/// A wall-clock date and time, minute precision.
#[derive(Clone, Copy, PartialEq, Eq, Structural, Debug)]
pub struct LocalDateTime {
    pub date: CalendarDate,
    pub hour: u32,
    pub minute: u32,
}

/// A date and time normalized to UTC, millisecond precision.
#[derive(Clone, Copy, PartialEq, Eq, Structural, Debug)]
pub struct UtcDateTime {
    pub date: CalendarDate,
    pub hour: u32,
    pub minute: u32,
    pub second: u32,
    pub milli: u32,
}

pub open spec fn is_leap_year(y: int) -> bool {
    y % 4 == 0 && (y % 100 != 0 || y % 400 == 0)
}

pub open spec fn days_in_month(y: int, m: int) -> int {
    if m == 2 {
        if is_leap_year(y) {
            29
        } else {
            28
        }
    } else if m == 4 || m == 6 || m == 9 || m == 11 {
        30
    } else {
        31
    }
}

impl CalendarDate {
    /// A real calendar date with a four-digit year.
    pub open spec fn wf(self) -> bool {
        self.year <= 9999 && 1 <= self.month <= 12 && 1 <= self.day <= days_in_month(
            self.year as int,
            self.month as int,
        )
    }
}

impl LocalDateTime {
    pub open spec fn wf(self) -> bool {
        self.date.wf() && self.hour <= 23 && self.minute <= 59
    }
}

impl UtcDateTime {
    pub open spec fn wf(self) -> bool {
        self.date.wf() && self.hour <= 23 && self.minute <= 59 && self.second <= 59 && self.milli
            <= 999
    }
}

pub open spec fn is_digit(c: char) -> bool {
    48 <= c as int <= 57
}

/// Numeric value of a decimal digit character.
pub open spec fn dval(c: char) -> int {
    c as int - 48
}

/// The decimal digit character for a value in 0..=9.
pub open spec fn digit(d: int) -> char {
    if d == 0 {
        '0'
    } else if d == 1 {
        '1'
    } else if d == 2 {
        '2'
    } else if d == 3 {
        '3'
    } else if d == 4 {
        '4'
    } else if d == 5 {
        '5'
    } else if d == 6 {
        '6'
    } else if d == 7 {
        '7'
    } else if d == 8 {
        '8'
    } else {
        '9'
    }
}

pub proof fn lemma_digit(d: int)
    requires
        0 <= d <= 9,
    ensures
        is_digit(digit(d)),
        dval(digit(d)) == d,
{
}

/// Two fixed decimal digits read at `i`.
pub open spec fn digits2_at(s: Seq<char>, i: int) -> bool {
    is_digit(s[i]) && is_digit(s[i + 1])
}

pub open spec fn d2(s: Seq<char>, i: int) -> int {
    10 * dval(s[i]) + dval(s[i + 1])
}

pub open spec fn digits3_at(s: Seq<char>, i: int) -> bool {
    is_digit(s[i]) && is_digit(s[i + 1]) && is_digit(s[i + 2])
}

pub open spec fn d3(s: Seq<char>, i: int) -> int {
    100 * dval(s[i]) + 10 * dval(s[i + 1]) + dval(s[i + 2])
}

pub open spec fn digits4_at(s: Seq<char>, i: int) -> bool {
    is_digit(s[i]) && is_digit(s[i + 1]) && is_digit(s[i + 2]) && is_digit(s[i + 3])
}

pub open spec fn d4(s: Seq<char>, i: int) -> int {
    1000 * dval(s[i]) + 100 * dval(s[i + 1]) + 10 * dval(s[i + 2]) + dval(s[i + 3])
}

/// The two decimal digits of a value in 0..=99.
pub open spec fn two_digits(n: int) -> Seq<char> {
    seq![digit(n / 10), digit(n % 10)]
}

pub open spec fn three_digits(n: int) -> Seq<char> {
    seq![digit(n / 100), digit(n / 10 % 10), digit(n % 10)]
}

pub open spec fn four_digits(n: int) -> Seq<char> {
    seq![digit(n / 1000), digit(n / 100 % 10), digit(n / 10 % 10), digit(n % 10)]
}

/// The calendar-date pattern: exactly `YYYY/MM/DD`.
pub open spec fn spec_parse_date(s: Seq<char>) -> Option<CalendarDate> {
    if s.len() == 10 && digits4_at(s, 0) && s[4] == '/' && digits2_at(s, 5) && s[7] == '/'
        && digits2_at(s, 8) {
        let d = CalendarDate {
            year: d4(s, 0) as u32,
            month: d2(s, 5) as u32,
            day: d2(s, 8) as u32,
        };
        if d.wf() {
            Some(d)
        } else {
            None
        }
    } else {
        None
    }
}

pub open spec fn spec_fmt_date(d: CalendarDate) -> Seq<char> {
    four_digits(d.year as int) + seq!['/'] + two_digits(d.month as int) + seq!['/'] + two_digits(
        d.day as int,
    )
}

/// The local date-time pattern: exactly `YYYY/MM/DD HH:MM`.
pub open spec fn spec_parse_local(s: Seq<char>) -> Option<LocalDateTime> {
    if s.len() == 16 && digits4_at(s, 0) && s[4] == '/' && digits2_at(s, 5) && s[7] == '/'
        && digits2_at(s, 8) && s[10] == ' ' && digits2_at(s, 11) && s[13] == ':' && digits2_at(
        s,
        14,
    ) {
        let t = LocalDateTime {
            date: CalendarDate {
                year: d4(s, 0) as u32,
                month: d2(s, 5) as u32,
                day: d2(s, 8) as u32,
            },
            hour: d2(s, 11) as u32,
            minute: d2(s, 14) as u32,
        };
        if t.wf() {
            Some(t)
        } else {
            None
        }
    } else {
        None
    }
}

pub open spec fn spec_fmt_local(t: LocalDateTime) -> Seq<char> {
    spec_fmt_date(t.date) + seq![' '] + two_digits(t.hour as int) + seq![':'] + two_digits(
        t.minute as int,
    )
}

/// The day before `d`, if it has a four-digit year.
pub open spec fn prev_day(d: CalendarDate) -> Option<CalendarDate> {
    if d.day > 1 {
        Some(CalendarDate { year: d.year, month: d.month, day: (d.day - 1) as u32 })
    } else if d.month > 1 {
        Some(
            CalendarDate {
                year: d.year,
                month: (d.month - 1) as u32,
                day: days_in_month(d.year as int, d.month - 1) as u32,
            },
        )
    } else if d.year > 0 {
        Some(CalendarDate { year: (d.year - 1) as u32, month: 12, day: 31 })
    } else {
        None
    }
}

/// The day after `d`, if it has a four-digit year.
pub open spec fn next_day(d: CalendarDate) -> Option<CalendarDate> {
    if d.day < days_in_month(d.year as int, d.month as int) {
        Some(CalendarDate { year: d.year, month: d.month, day: (d.day + 1) as u32 })
    } else if d.month < 12 {
        Some(CalendarDate { year: d.year, month: (d.month + 1) as u32, day: 1 })
    } else if d.year < 9999 {
        Some(CalendarDate { year: (d.year + 1) as u32, month: 1, day: 1 })
    } else {
        None
    }
}

/// Fold an offset, in signed minutes, into wall-clock fields, yielding the
/// same instant expressed in UTC. Crossing a day boundary moves the date by
/// one day; falling off the representable years yields nothing.
pub open spec fn spec_apply_offset(d: CalendarDate, hour: int, minute: int, off: int) -> Option<
    (CalendarDate, int, int),
> {
    let tm = hour * 60 + minute - off;
    if 0 <= tm < 1440 {
        Some((d, tm / 60, tm % 60))
    } else if tm < 0 {
        match prev_day(d) {
            Some(p) => Some((p, (tm + 1440) / 60, (tm + 1440) % 60)),
            None => None,
        }
    } else {
        match next_day(d) {
            Some(nx) => Some((nx, (tm - 1440) / 60, (tm - 1440) % 60)),
            None => None,
        }
    }
}

/// A six-character offset suffix `+HH:MM` or `-HH:MM`, in signed minutes.
pub open spec fn spec_parse_offset(s: Seq<char>) -> Option<int> {
    if s.len() == 6 && (s[0] == '+' || s[0] == '-') && digits2_at(s, 1) && s[3] == ':'
        && digits2_at(s, 4) {
        let h = d2(s, 1);
        let m = d2(s, 4);
        if h <= 23 && m <= 59 {
            if s[0] == '-' {
                Some(-(h * 60 + m))
            } else {
                Some(h * 60 + m)
            }
        } else {
            None
        }
    } else {
        None
    }
}

/// The date-and-clock body of the offset date-time pattern:
/// `YYYY-MM-DDTHH:MM:SS`, optionally followed by `.mmm`.
pub open spec fn spec_parse_utc_body(s: Seq<char>, off: int) -> Option<UtcDateTime> {
    if (s.len() == 19 || (s.len() == 23 && s[19] == '.' && digits3_at(s, 20))) && digits4_at(s, 0)
        && s[4] == '-' && digits2_at(s, 5) && s[7] == '-' && digits2_at(s, 8) && s[10] == 'T'
        && digits2_at(s, 11) && s[13] == ':' && digits2_at(s, 14) && s[16] == ':' && digits2_at(
        s,
        17,
    ) {
        let d = CalendarDate {
            year: d4(s, 0) as u32,
            month: d2(s, 5) as u32,
            day: d2(s, 8) as u32,
        };
        let hour = d2(s, 11);
        let minute = d2(s, 14);
        let second = d2(s, 17);
        let milli = if s.len() == 23 {
            d3(s, 20)
        } else {
            0
        };
        if d.wf() && hour <= 23 && minute <= 59 && second <= 59 {
            match spec_apply_offset(d, hour, minute, off) {
                Some(u) => Some(
                    UtcDateTime {
                        date: u.0,
                        hour: u.1 as u32,
                        minute: u.2 as u32,
                        second: second as u32,
                        milli: milli as u32,
                    },
                ),
                None => None,
            }
        } else {
            None
        }
    } else {
        None
    }
}

/// The offset date-time pattern: the body above followed by `Z` or by a
/// `+HH:MM`/`-HH:MM` offset, folded into the stored fields.
pub open spec fn spec_parse_utc(s: Seq<char>) -> Option<UtcDateTime> {
    if s.len() >= 20 && s[s.len() - 1] == 'Z' {
        spec_parse_utc_body(s.subrange(0, s.len() - 1), 0)
    } else if s.len() >= 25 && (s[s.len() - 6] == '+' || s[s.len() - 6] == '-') {
        match spec_parse_offset(s.subrange(s.len() - 6, s.len() as int)) {
            Some(off) => spec_parse_utc_body(s.subrange(0, s.len() - 6), off),
            None => None,
        }
    } else {
        None
    }
}

/// Rendering always emits the instant as it is stored: UTC, marked `Z`,
/// with a three-digit millisecond fraction.
pub open spec fn spec_fmt_utc(t: UtcDateTime) -> Seq<char> {
    four_digits(t.date.year as int) + seq!['-'] + two_digits(t.date.month as int) + seq!['-']
        + two_digits(t.date.day as int) + seq!['T'] + two_digits(t.hour as int) + seq![':']
        + two_digits(t.minute as int) + seq![':'] + two_digits(t.second as int) + seq!['.']
        + three_digits(t.milli as int) + seq!['Z']
}

pub proof fn lemma_digits2_value(n: int)
    requires
        0 <= n <= 99,
    ensures
        10 * (n / 10) + n % 10 == n,
{
    vstd::arithmetic::div_mod::lemma_fundamental_div_mod(n, 10);
}

pub proof fn lemma_digits3_value(n: int)
    requires
        0 <= n <= 999,
    ensures
        100 * (n / 100) + 10 * (n / 10 % 10) + n % 10 == n,
{
    vstd::arithmetic::div_mod::lemma_fundamental_div_mod(n, 10);
    vstd::arithmetic::div_mod::lemma_fundamental_div_mod(n / 10, 10);
    vstd::arithmetic::div_mod::lemma_div_denominator(n, 10, 10);
}

pub proof fn lemma_digits4_value(n: int)
    requires
        0 <= n <= 9999,
    ensures
        1000 * (n / 1000) + 100 * (n / 100 % 10) + 10 * (n / 10 % 10) + n % 10 == n,
{
    vstd::arithmetic::div_mod::lemma_fundamental_div_mod(n, 10);
    vstd::arithmetic::div_mod::lemma_fundamental_div_mod(n / 10, 10);
    vstd::arithmetic::div_mod::lemma_fundamental_div_mod(n / 100, 10);
    vstd::arithmetic::div_mod::lemma_div_denominator(n, 10, 10);
    vstd::arithmetic::div_mod::lemma_div_denominator(n, 100, 10);
}

/// The characters that `spec_fmt_date` writes, read back as the
/// calendar-date pattern expects them.
pub proof fn lemma_fmt_date_chars(d: CalendarDate)
    requires
        d.wf(),
    ensures
        spec_fmt_date(d).len() == 10,
        digits4_at(spec_fmt_date(d), 0),
        spec_fmt_date(d)[4] == '/',
        digits2_at(spec_fmt_date(d), 5),
        spec_fmt_date(d)[7] == '/',
        digits2_at(spec_fmt_date(d), 8),
        d4(spec_fmt_date(d), 0) == d.year,
        d2(spec_fmt_date(d), 5) == d.month,
        d2(spec_fmt_date(d), 8) == d.day,
{
    let s = spec_fmt_date(d);
    let y = d.year as int;
    let mo = d.month as int;
    let dd = d.day as int;
    assert(s[0] == digit(y / 1000));
    assert(s[1] == digit(y / 100 % 10));
    assert(s[2] == digit(y / 10 % 10));
    assert(s[3] == digit(y % 10));
    assert(s[4] == '/');
    assert(s[5] == digit(mo / 10));
    assert(s[6] == digit(mo % 10));
    assert(s[7] == '/');
    assert(s[8] == digit(dd / 10));
    assert(s[9] == digit(dd % 10));
    lemma_digit(y / 1000);
    lemma_digit(y / 100 % 10);
    lemma_digit(y / 10 % 10);
    lemma_digit(y % 10);
    lemma_digit(mo / 10);
    lemma_digit(mo % 10);
    lemma_digit(dd / 10);
    lemma_digit(dd % 10);
    lemma_digits4_value(y);
    lemma_digits2_value(mo);
    lemma_digits2_value(dd);
}

/// Rendering a calendar date and reading it back yields the same date.
pub proof fn lemma_date_round_trip(d: CalendarDate)
    requires
        d.wf(),
    ensures
        spec_parse_date(spec_fmt_date(d)) == Some(d),
{
    lemma_fmt_date_chars(d);
}

/// Rendering a local date-time and reading it back yields the same value.
pub proof fn lemma_local_round_trip(t: LocalDateTime)
    requires
        t.wf(),
    ensures
        spec_parse_local(spec_fmt_local(t)) == Some(t),
{
    let s = spec_fmt_local(t);
    let sd = spec_fmt_date(t.date);
    let h = t.hour as int;
    let mi = t.minute as int;
    lemma_fmt_date_chars(t.date);
    assert forall|i: int| 0 <= i < 10 implies s[i] == sd[i] by {}
    assert(s[10] == ' ');
    assert(s[11] == digit(h / 10));
    assert(s[12] == digit(h % 10));
    assert(s[13] == ':');
    assert(s[14] == digit(mi / 10));
    assert(s[15] == digit(mi % 10));
    lemma_digit(h / 10);
    lemma_digit(h % 10);
    lemma_digit(mi / 10);
    lemma_digit(mi % 10);
    lemma_digits2_value(h);
    lemma_digits2_value(mi);
    assert(d4(s, 0) == t.date.year);
    assert(d2(s, 5) == t.date.month);
    assert(d2(s, 8) == t.date.day);
}

/// Rendering a UTC date-time and reading it back yields the same value:
/// the emitted offset is `Z`, so no day shift happens on the way back.
pub proof fn lemma_utc_round_trip(t: UtcDateTime)
    requires
        t.wf(),
    ensures
        spec_parse_utc(spec_fmt_utc(t)) == Some(t),
{
    let s = spec_fmt_utc(t);
    let y = t.date.year as int;
    let mo = t.date.month as int;
    let dd = t.date.day as int;
    let h = t.hour as int;
    let mi = t.minute as int;
    let sec = t.second as int;
    let ms = t.milli as int;
    assert(s.len() == 24);
    assert(s[23] == 'Z');
    let b = s.subrange(0, 23);
    assert(b.len() == 23);
    assert(b[0] == digit(y / 1000));
    assert(b[1] == digit(y / 100 % 10));
    assert(b[2] == digit(y / 10 % 10));
    assert(b[3] == digit(y % 10));
    assert(b[4] == '-');
    assert(b[5] == digit(mo / 10));
    assert(b[6] == digit(mo % 10));
    assert(b[7] == '-');
    assert(b[8] == digit(dd / 10));
    assert(b[9] == digit(dd % 10));
    assert(b[10] == 'T');
    assert(b[11] == digit(h / 10));
    assert(b[12] == digit(h % 10));
    assert(b[13] == ':');
    assert(b[14] == digit(mi / 10));
    assert(b[15] == digit(mi % 10));
    assert(b[16] == ':');
    assert(b[17] == digit(sec / 10));
    assert(b[18] == digit(sec % 10));
    assert(b[19] == '.');
    assert(b[20] == digit(ms / 100));
    assert(b[21] == digit(ms / 10 % 10));
    assert(b[22] == digit(ms % 10));
    lemma_digit(y / 1000);
    lemma_digit(y / 100 % 10);
    lemma_digit(y / 10 % 10);
    lemma_digit(y % 10);
    lemma_digit(mo / 10);
    lemma_digit(mo % 10);
    lemma_digit(dd / 10);
    lemma_digit(dd % 10);
    lemma_digit(h / 10);
    lemma_digit(h % 10);
    lemma_digit(mi / 10);
    lemma_digit(mi % 10);
    lemma_digit(sec / 10);
    lemma_digit(sec % 10);
    lemma_digit(ms / 100);
    lemma_digit(ms / 10 % 10);
    lemma_digit(ms % 10);
    lemma_digits4_value(y);
    lemma_digits2_value(mo);
    lemma_digits2_value(dd);
    lemma_digits2_value(h);
    lemma_digits2_value(mi);
    lemma_digits2_value(sec);
    lemma_digits3_value(ms);
    assert(d4(b, 0) == y);
    assert(d2(b, 5) == mo);
    assert(d2(b, 8) == dd);
    assert(d2(b, 11) == h);
    assert(d2(b, 14) == mi);
    assert(d2(b, 17) == sec);
    assert(d3(b, 20) == ms);
    let tm = h * 60 + mi;
    assert(0 <= tm < 1440);
    vstd::arithmetic::div_mod::lemma_fundamental_div_mod_converse(tm, 60, h, mi);
    assert(spec_apply_offset(t.date, h, mi, 0) == Some((t.date, h, mi)));
}

/// The three patterns succeed on pairwise disjoint sets of texts: a text
/// that one pattern accepts, the other two reject.
pub proof fn lemma_patterns_disjoint(s: Seq<char>)
    ensures
        spec_parse_local(s) is Some ==> spec_parse_date(s) is None && spec_parse_utc(s) is None,
        spec_parse_date(s) is Some ==> spec_parse_local(s) is None && spec_parse_utc(s) is None,
        spec_parse_utc(s) is Some ==> spec_parse_date(s) is None && spec_parse_local(s) is None,
{
    if spec_parse_local(s) is Some {
        assert(s.len() == 16);
    }
    if spec_parse_date(s) is Some {
        assert(s.len() == 10);
    }
    if spec_parse_utc(s) is Some {
        assert(s.len() >= 20);
    }
}

fn char_is(s: &str, i: usize, c: char) -> (r: bool)
    requires
        i < s@.len(),
    ensures
        r == (s@[i as int] == c),
{
    s.get_char(i) == c
}

impl CalendarDate {
    /// Whether the fields name a real calendar date.
    pub fn is_valid(&self) -> (r: bool)
        ensures
            r == self.wf(),
    {
        check_date(*self)
    }
}

impl LocalDateTime {
    /// Whether the fields name a real date and clock time.
    pub fn is_valid(&self) -> (r: bool)
        ensures
            r == self.wf(),
    {
        self.date.is_valid() && self.hour <= 23 && self.minute <= 59
    }
}

impl UtcDateTime {
    /// Whether the fields name a real UTC date and time.
    pub fn is_valid(&self) -> (r: bool)
        ensures
            r == self.wf(),
    {
        self.date.is_valid() && self.hour <= 23 && self.minute <= 59 && self.second <= 59
            && self.milli <= 999
    }
}

fn read2(s: &str, i: usize) -> (r: Option<u32>)
    requires
        i + 1 < s@.len(),
        s@.len() <= usize::MAX,
    ensures
        match r {
            Some(n) => digits2_at(s@, i as int) && n == d2(s@, i as int) && n <= 99,
            None => !digits2_at(s@, i as int),
        },
{
    let u0 = s.get_char(i) as u32;
    let u1 = s.get_char(i + 1) as u32;
    if 48 <= u0 && u0 <= 57 && 48 <= u1 && u1 <= 57 {
        Some((u0 - 48) * 10 + (u1 - 48))
    } else {
        None
    }
}

fn read3(s: &str, i: usize) -> (r: Option<u32>)
    requires
        i + 2 < s@.len(),
        s@.len() <= usize::MAX,
    ensures
        match r {
            Some(n) => digits3_at(s@, i as int) && n == d3(s@, i as int) && n <= 999,
            None => !digits3_at(s@, i as int),
        },
{
    let u0 = s.get_char(i) as u32;
    let u1 = s.get_char(i + 1) as u32;
    let u2 = s.get_char(i + 2) as u32;
    if 48 <= u0 && u0 <= 57 && 48 <= u1 && u1 <= 57 && 48 <= u2 && u2 <= 57 {
        Some((u0 - 48) * 100 + (u1 - 48) * 10 + (u2 - 48))
    } else {
        None
    }
}

fn read4(s: &str, i: usize) -> (r: Option<u32>)
    requires
        i + 3 < s@.len(),
        s@.len() <= usize::MAX,
    ensures
        match r {
            Some(n) => digits4_at(s@, i as int) && n == d4(s@, i as int) && n <= 9999,
            None => !digits4_at(s@, i as int),
        },
{
    let u0 = s.get_char(i) as u32;
    let u1 = s.get_char(i + 1) as u32;
    let u2 = s.get_char(i + 2) as u32;
    let u3 = s.get_char(i + 3) as u32;
    if 48 <= u0 && u0 <= 57 && 48 <= u1 && u1 <= 57 && 48 <= u2 && u2 <= 57 && 48 <= u3 && u3 <= 57
    {
        Some((u0 - 48) * 1000 + (u1 - 48) * 100 + (u2 - 48) * 10 + (u3 - 48))
    } else {
        None
    }
}

fn days_in_month_exec(y: u32, m: u32) -> (r: u32)
    ensures
        r == days_in_month(y as int, m as int),
{
    if m == 2 {
        if y % 4 == 0 && (y % 100 != 0 || y % 400 == 0) {
            29
        } else {
            28
        }
    } else if m == 4 || m == 6 || m == 9 || m == 11 {
        30
    } else {
        31
    }
}

fn check_date(d: CalendarDate) -> (r: bool)
    ensures
        r == d.wf(),
{
    d.year <= 9999 && 1 <= d.month && d.month <= 12 && 1 <= d.day && d.day <= days_in_month_exec(
        d.year,
        d.month,
    )
}

/// Parse a calendar date, exactly as `spec_parse_date` reads the text.
pub fn parse_date(s: &str) -> (r: Option<CalendarDate>)
    ensures
        r == spec_parse_date(s@),
{
    let n = s.unicode_len();
    if n != 10 {
        return None;
    }
    let year = match read4(s, 0) {
        Some(v) => v,
        None => { return None; },
    };
    if !char_is(s, 4, '/') {
        return None;
    }
    let month = match read2(s, 5) {
        Some(v) => v,
        None => { return None; },
    };
    if !char_is(s, 7, '/') {
        return None;
    }
    let day = match read2(s, 8) {
        Some(v) => v,
        None => { return None; },
    };
    let d = CalendarDate { year, month, day };
    if check_date(d) {
        Some(d)
    } else {
        None
    }
}

/// Parse a local date-time, exactly as `spec_parse_local` reads the text.
pub fn parse_local(s: &str) -> (r: Option<LocalDateTime>)
    ensures
        r == spec_parse_local(s@),
{
    let n = s.unicode_len();
    if n != 16 {
        return None;
    }
    let year = match read4(s, 0) {
        Some(v) => v,
        None => { return None; },
    };
    if !char_is(s, 4, '/') {
        return None;
    }
    let month = match read2(s, 5) {
        Some(v) => v,
        None => { return None; },
    };
    if !char_is(s, 7, '/') {
        return None;
    }
    let day = match read2(s, 8) {
        Some(v) => v,
        None => { return None; },
    };
    if !char_is(s, 10, ' ') {
        return None;
    }
    let hour = match read2(s, 11) {
        Some(v) => v,
        None => { return None; },
    };
    if !char_is(s, 13, ':') {
        return None;
    }
    let minute = match read2(s, 14) {
        Some(v) => v,
        None => { return None; },
    };
    let t = LocalDateTime { date: CalendarDate { year, month, day }, hour, minute };
    if check_date(t.date) && hour <= 23 && minute <= 59 {
        Some(t)
    } else {
        None
    }
}

fn prev_day_exec(d: CalendarDate) -> (r: Option<CalendarDate>)
    ensures
        r == prev_day(d),
{
    if d.day > 1 {
        Some(CalendarDate { year: d.year, month: d.month, day: d.day - 1 })
    } else if d.month > 1 {
        Some(
            CalendarDate {
                year: d.year,
                month: d.month - 1,
                day: days_in_month_exec(d.year, d.month - 1),
            },
        )
    } else if d.year > 0 {
        Some(CalendarDate { year: d.year - 1, month: 12, day: 31 })
    } else {
        None
    }
}

fn next_day_exec(d: CalendarDate) -> (r: Option<CalendarDate>)
    requires
        d.wf(),
    ensures
        r == next_day(d),
{
    if d.day < days_in_month_exec(d.year, d.month) {
        Some(CalendarDate { year: d.year, month: d.month, day: d.day + 1 })
    } else if d.month < 12 {
        Some(CalendarDate { year: d.year, month: d.month + 1, day: 1 })
    } else if d.year < 9999 {
        Some(CalendarDate { year: d.year + 1, month: 1, day: 1 })
    } else {
        None
    }
}

fn apply_offset(d: CalendarDate, hour: u32, minute: u32, off: i32) -> (r: Option<
    (CalendarDate, u32, u32),
>)
    requires
        d.wf(),
        hour <= 23,
        minute <= 59,
        -1439 <= off <= 1439,
    ensures
        match r {
            Some(u) => spec_apply_offset(d, hour as int, minute as int, off as int) == Some(
                (u.0, u.1 as int, u.2 as int),
            ),
            None => spec_apply_offset(d, hour as int, minute as int, off as int) is None,
        },
{
    let total: i32 = hour as i32 * 60 + minute as i32 - off;
    if 0 <= total && total < 1440 {
        let t: u32 = total as u32;
        Some((d, t / 60, t % 60))
    } else if total < 0 {
        match prev_day_exec(d) {
            Some(p) => {
                let t: u32 = (total + 1440) as u32;
                Some((p, t / 60, t % 60))
            },
            None => None,
        }
    } else {
        match next_day_exec(d) {
            Some(nx) => {
                let t: u32 = (total - 1440) as u32;
                Some((nx, t / 60, t % 60))
            },
            None => None,
        }
    }
}

fn parse_offset(s: &str) -> (r: Option<i32>)
    ensures
        match r {
            Some(o) => spec_parse_offset(s@) == Some(o as int) && -1439 <= o <= 1439,
            None => spec_parse_offset(s@) is None,
        },
{
    let n = s.unicode_len();
    if n != 6 {
        return None;
    }
    let sign_minus = if char_is(s, 0, '-') {
        true
    } else if char_is(s, 0, '+') {
        false
    } else {
        return None;
    };
    let h = match read2(s, 1) {
        Some(v) => v,
        None => { return None; },
    };
    if !char_is(s, 3, ':') {
        return None;
    }
    let m = match read2(s, 4) {
        Some(v) => v,
        None => { return None; },
    };
    if h <= 23 && m <= 59 {
        let total: i32 = (h * 60 + m) as i32;
        if sign_minus {
            Some(-total)
        } else {
            Some(total)
        }
    } else {
        None
    }
}

fn parse_utc_body(s: &str, off: i32) -> (r: Option<UtcDateTime>)
    requires
        -1439 <= off <= 1439,
    ensures
        r == spec_parse_utc_body(s@, off as int),
{
    let n = s.unicode_len();
    if n != 19 && n != 23 {
        return None;
    }
    let milli: u32 = if n == 23 {
        if !char_is(s, 19, '.') {
            return None;
        }
        match read3(s, 20) {
            Some(v) => v,
            None => { return None; },
        }
    } else {
        0
    };
    let year = match read4(s, 0) {
        Some(v) => v,
        None => { return None; },
    };
    if !char_is(s, 4, '-') {
        return None;
    }
    let month = match read2(s, 5) {
        Some(v) => v,
        None => { return None; },
    };
    if !char_is(s, 7, '-') {
        return None;
    }
    let day = match read2(s, 8) {
        Some(v) => v,
        None => { return None; },
    };
    if !char_is(s, 10, 'T') {
        return None;
    }
    let hour = match read2(s, 11) {
        Some(v) => v,
        None => { return None; },
    };
    if !char_is(s, 13, ':') {
        return None;
    }
    let minute = match read2(s, 14) {
        Some(v) => v,
        None => { return None; },
    };
    if !char_is(s, 16, ':') {
        return None;
    }
    let second = match read2(s, 17) {
        Some(v) => v,
        None => { return None; },
    };
    let d = CalendarDate { year, month, day };
    if !(check_date(d) && hour <= 23 && minute <= 59 && second <= 59) {
        return None;
    }
    match apply_offset(d, hour, minute, off) {
        Some(u) => Some(
            UtcDateTime { date: u.0, hour: u.1, minute: u.2, second, milli },
        ),
        None => None,
    }
}

/// Parse an offset date-time, exactly as `spec_parse_utc` reads the text.
pub fn parse_utc(s: &str) -> (r: Option<UtcDateTime>)
    ensures
        r == spec_parse_utc(s@),
{
    let n = s.unicode_len();
    if n >= 20 && char_is(s, n - 1, 'Z') {
        let body = s.substring_char(0, n - 1);
        parse_utc_body(body, 0)
    } else if n >= 25 && (char_is(s, n - 6, '+') || char_is(s, n - 6, '-')) {
        let suffix = s.substring_char(n - 6, n);
        match parse_offset(suffix) {
            Some(off) => {
                let body = s.substring_char(0, n - 6);
                parse_utc_body(body, off)
            },
            None => None,
        }
    } else {
        None
    }
}

fn digit_str(d: u32) -> (r: &'static str)
    requires
        d <= 9,
    ensures
        r@ == seq![digit(d as int)],
{
    match d {
        0 => {
            proof {
                reveal_strlit("0");
                assert("0"@ =~= seq![digit(0int)]);
            }
            "0"
        },
        1 => {
            proof {
                reveal_strlit("1");
                assert("1"@ =~= seq![digit(1int)]);
            }
            "1"
        },
        2 => {
            proof {
                reveal_strlit("2");
                assert("2"@ =~= seq![digit(2int)]);
            }
            "2"
        },
        3 => {
            proof {
                reveal_strlit("3");
                assert("3"@ =~= seq![digit(3int)]);
            }
            "3"
        },
        4 => {
            proof {
                reveal_strlit("4");
                assert("4"@ =~= seq![digit(4int)]);
            }
            "4"
        },
        5 => {
            proof {
                reveal_strlit("5");
                assert("5"@ =~= seq![digit(5int)]);
            }
            "5"
        },
        6 => {
            proof {
                reveal_strlit("6");
                assert("6"@ =~= seq![digit(6int)]);
            }
            "6"
        },
        7 => {
            proof {
                reveal_strlit("7");
                assert("7"@ =~= seq![digit(7int)]);
            }
            "7"
        },
        8 => {
            proof {
                reveal_strlit("8");
                assert("8"@ =~= seq![digit(8int)]);
            }
            "8"
        },
        _ => {
            proof {
                reveal_strlit("9");
                assert("9"@ =~= seq![digit(9int)]);
            }
            "9"
        },
    }
}

fn two_str(n: u32) -> (r: String)
    requires
        n <= 99,
    ensures
        r@ == two_digits(n as int),
{
    let mut r = String::from_str(digit_str(n / 10));
    r.append(digit_str(n % 10));
    proof {
        assert(r@ =~= two_digits(n as int));
    }
    r
}

fn three_str(n: u32) -> (r: String)
    requires
        n <= 999,
    ensures
        r@ == three_digits(n as int),
{
    let mut r = String::from_str(digit_str(n / 100));
    r.append(digit_str(n / 10 % 10));
    r.append(digit_str(n % 10));
    proof {
        assert(r@ =~= three_digits(n as int));
    }
    r
}

fn four_str(n: u32) -> (r: String)
    requires
        n <= 9999,
    ensures
        r@ == four_digits(n as int),
{
    let mut r = String::from_str(digit_str(n / 1000));
    r.append(digit_str(n / 100 % 10));
    r.append(digit_str(n / 10 % 10));
    r.append(digit_str(n % 10));
    proof {
        assert(r@ =~= four_digits(n as int));
    }
    r
}

/// Render a calendar date, exactly as `spec_fmt_date` writes it.
pub fn fmt_date(d: CalendarDate) -> (r: String)
    requires
        d.wf(),
    ensures
        r@ == spec_fmt_date(d),
{
    proof {
        reveal_strlit("/");
    }
    let mut r = four_str(d.year);
    r.append("/");
    r.append(two_str(d.month).as_str());
    r.append("/");
    r.append(two_str(d.day).as_str());
    proof {
        assert("/"@ =~= seq!['/']);
        assert(r@ =~= spec_fmt_date(d));
    }
    r
}

/// Render a local date-time, exactly as `spec_fmt_local` writes it.
pub fn fmt_local(t: LocalDateTime) -> (r: String)
    requires
        t.wf(),
    ensures
        r@ == spec_fmt_local(t),
{
    proof {
        reveal_strlit(" ");
        reveal_strlit(":");
    }
    let mut r = fmt_date(t.date);
    r.append(" ");
    r.append(two_str(t.hour).as_str());
    r.append(":");
    r.append(two_str(t.minute).as_str());
    proof {
        assert(" "@ =~= seq![' ']);
        assert(":"@ =~= seq![':']);
        assert(r@ =~= spec_fmt_local(t));
    }
    r
}

/// Render an offset date-time, exactly as `spec_fmt_utc` writes it.
pub fn fmt_utc(t: UtcDateTime) -> (r: String)
    requires
        t.wf(),
    ensures
        r@ == spec_fmt_utc(t),
{
    proof {
        reveal_strlit("-");
        reveal_strlit("T");
        reveal_strlit(":");
        reveal_strlit(".");
        reveal_strlit("Z");
    }
    let mut r = four_str(t.date.year);
    r.append("-");
    r.append(two_str(t.date.month).as_str());
    r.append("-");
    r.append(two_str(t.date.day).as_str());
    r.append("T");
    r.append(two_str(t.hour).as_str());
    r.append(":");
    r.append(two_str(t.minute).as_str());
    r.append(":");
    r.append(two_str(t.second).as_str());
    r.append(".");
    r.append(three_str(t.milli).as_str());
    r.append("Z");
    proof {
        assert("-"@ =~= seq!['-']);
        assert("T"@ =~= seq!['T']);
        assert(":"@ =~= seq![':']);
        assert("."@ =~= seq!['.']);
        assert("Z"@ =~= seq!['Z']);
        assert(r@ =~= spec_fmt_utc(t));
    }
    r
}

} // verus!
