//! Score record names. Each run persists its counter under a name built from
//! the run's start timestamp, `benchmark-DD-MM-YYYY_HH:MM.log`; the date and
//! time strings embedded in such a name decide which run is the latest.

use vstd::prelude::*;
use crate::bytes::{lex_lt, lemma_lex_lt_total, lemma_lex_lt_trans, bytes_lt, bytes_eq, starts_with,
    ends_with, copy_range};
use crate::decimal::digit_byte;
use chrono::Datelike;
use chrono::Timelike;

verus! {

/// ASCII `_`, the byte that parts a record name's date from its time.
pub const UNDERSCORE: u8 = 95;

/// ASCII `-`, the byte between the fields of a date.
pub const DASH: u8 = 45;

/// ASCII `:`, the byte between the fields of a time.
pub const COLON: u8 = 58;

/// ASCII `.`, the byte that opens a record name's suffix.
pub const DOT: u8 = 46;

/// The fixed opening of every record name.
pub open spec fn record_prefix() -> Seq<u8> {
    seq![98u8, 101u8, 110u8, 99u8, 104u8, 109u8, 97u8, 114u8, 107u8, DASH]
}

/// The fixed closing of every record name.
pub open spec fn record_suffix() -> Seq<u8> {
    seq![DOT, 108u8, 111u8, 103u8]
}

/// Splits a byte string at its first underscore: everything before it and
/// everything after it, or nothing when no underscore occurs.
pub open spec fn split_at_underscore(s: Seq<u8>) -> Option<(Seq<u8>, Seq<u8>)>
    decreases s.len(),
{
    if s.len() == 0 {
        None
    } else if s[0] == UNDERSCORE {
        Some((Seq::empty(), s.skip(1)))
    } else {
        match split_at_underscore(s.skip(1)) {
            None => None,
            Some(p) => Some((seq![s[0]] + p.0, p.1)),
        }
    }
}

/// The date and time strings embedded in a record name: the name must open
/// with `benchmark-`, close with `.log`, and hold an underscore between the
/// two; the date is what stands before that underscore, the time what stands
/// after it.
pub open spec fn spec_parse_record_name(s: Seq<u8>) -> Option<(Seq<u8>, Seq<u8>)> {
    if record_prefix().is_prefix_of(s) && record_suffix().is_suffix_of(s) && s.len()
        >= record_prefix().len() + record_suffix().len() {
        split_at_underscore(s.subrange(record_prefix().len() as int, s.len() - record_suffix().len()))
    } else {
        None
    }
}

/// The record name that carries the given date and time strings.
pub open spec fn spec_record_name(date: Seq<u8>, time: Seq<u8>) -> Seq<u8> {
    record_prefix() + date + seq![UNDERSCORE] + time + record_suffix()
}

/// One run's start timestamp, as the date and time strings of its record name.
pub struct RunStamp {
    pub date: Vec<u8>,
    pub time: Vec<u8>,
}

/// Ranks run timestamps: the date strings decide, and the time strings are
/// compared only when the dates are equal.
pub open spec fn stamp_lt(a_date: Seq<u8>, a_time: Seq<u8>, b_date: Seq<u8>, b_time: Seq<u8>) -> bool {
    lex_lt(a_date, b_date) || (a_date == b_date && lex_lt(a_time, b_time))
}

/// Non-strict timestamp order.
pub open spec fn stamp_le(a_date: Seq<u8>, a_time: Seq<u8>, b_date: Seq<u8>, b_time: Seq<u8>) -> bool {
    stamp_lt(a_date, a_time, b_date, b_time) || (a_date == b_date && a_time == b_time)
}

/// Two timestamps are always comparable.
pub proof fn lemma_stamp_total(a_date: Seq<u8>, a_time: Seq<u8>, b_date: Seq<u8>, b_time: Seq<u8>)
    ensures
        stamp_le(a_date, a_time, b_date, b_time) || stamp_lt(b_date, b_time, a_date, a_time),
{
    lemma_lex_lt_total(a_date, b_date);
    lemma_lex_lt_total(a_time, b_time);
}

/// The timestamp order is transitive.
pub proof fn lemma_stamp_le_trans(
    a_date: Seq<u8>, a_time: Seq<u8>,
    b_date: Seq<u8>, b_time: Seq<u8>,
    c_date: Seq<u8>, c_time: Seq<u8>,
)
    requires
        stamp_le(a_date, a_time, b_date, b_time),
        stamp_le(b_date, b_time, c_date, c_time),
    ensures
        stamp_le(a_date, a_time, c_date, c_time),
{
    if lex_lt(a_date, b_date) && lex_lt(b_date, c_date) {
        lemma_lex_lt_trans(a_date, b_date, c_date);
    }
    if a_date == c_date && lex_lt(a_time, b_time) && lex_lt(b_time, c_time) {
        lemma_lex_lt_trans(a_time, b_time, c_time);
    }
}

impl RunStamp {
    /// Decides whether this timestamp comes strictly before `other`.
    pub fn is_before(&self, other: &RunStamp) -> (r: bool)
        ensures
            r == stamp_lt(self.date@, self.time@, other.date@, other.time@),
    {
        if bytes_lt(self.date.as_slice(), other.date.as_slice()) {
            true
        } else if bytes_eq(self.date.as_slice(), other.date.as_slice()) {
            bytes_lt(self.time.as_slice(), other.time.as_slice())
        } else {
            false
        }
    }
}

/// The opening of every record name, as bytes.
pub fn record_prefix_bytes() -> (r: Vec<u8>)
    ensures
        r@ == record_prefix(),
{
    let mut v: Vec<u8> = Vec::new();
    v.push(98);
    v.push(101);
    v.push(110);
    v.push(99);
    v.push(104);
    v.push(109);
    v.push(97);
    v.push(114);
    v.push(107);
    v.push(DASH);
    proof {
        assert(v@ =~= record_prefix());
    }
    v
}

/// The closing of every record name, as bytes.
pub fn record_suffix_bytes() -> (r: Vec<u8>)
    ensures
        r@ == record_suffix(),
{
    let mut v: Vec<u8> = Vec::new();
    v.push(DOT);
    v.push(108);
    v.push(111);
    v.push(103);
    proof {
        assert(v@ =~= record_suffix());
    }
    v
}

/// When position `k` holds the first underscore of `s`, the split yields what
/// stands before `k` and what stands after it.
proof fn lemma_split_found(s: Seq<u8>, k: int)
    requires
        0 <= k < s.len(),
        s[k] == UNDERSCORE,
        forall|j: int| 0 <= j < k ==> s[j] != UNDERSCORE,
    ensures
        split_at_underscore(s) == Some((s.take(k), s.skip(k + 1))),
    decreases k,
{
    if k == 0 {
        assert(s.take(0) =~= Seq::<u8>::empty());
    } else {
        assert forall|j: int| 0 <= j < k - 1 implies s.skip(1)[j] != UNDERSCORE by {
            assert(s.skip(1)[j] == s[j + 1]);
        }
        lemma_split_found(s.skip(1), k - 1);
        assert(seq![s[0]] + s.skip(1).take(k - 1) =~= s.take(k));
        assert(s.skip(1).skip(k) =~= s.skip(k + 1));
    }
}

/// A byte string without an underscore does not split.
proof fn lemma_split_missing(s: Seq<u8>)
    requires
        forall|j: int| 0 <= j < s.len() ==> s[j] != UNDERSCORE,
    ensures
        split_at_underscore(s) is None,
    decreases s.len(),
{
    if s.len() > 0 {
        assert forall|j: int| 0 <= j < s.skip(1).len() implies s.skip(1)[j] != UNDERSCORE by {
            assert(s.skip(1)[j] == s[j + 1]);
        }
        lemma_split_missing(s.skip(1));
    }
}

/// Reads the date and time strings out of a record name, or nothing when the
/// name does not have the record shape.
pub fn parse_record_name(name: &[u8]) -> (r: Option<RunStamp>)
    ensures
        r matches Some(st) ==> spec_parse_record_name(name@) == Some((st.date@, st.time@)),
        r is None ==> spec_parse_record_name(name@) is None,
{
    let prefix = record_prefix_bytes();
    let suffix = record_suffix_bytes();
    if !starts_with(name, prefix.as_slice()) {
        return None;
    }
    if !ends_with(name, suffix.as_slice()) {
        return None;
    }
    let len = name.len();
    if len < 14 {
        return None;
    }
    let body_end = len - 4;
    let ghost body = name@.subrange(10, body_end as int);
    let mut j: usize = 10;
    while j < body_end
        invariant
            10 <= j <= body_end,
            body_end == name@.len() - 4,
            name@.len() >= 14,
            record_prefix().is_prefix_of(name@),
            record_suffix().is_suffix_of(name@),
            body == name@.subrange(10, body_end as int),
            forall|k: int| 10 <= k < j ==> name@[k] != UNDERSCORE,
        decreases body_end - j,
    {
        if name[j] == UNDERSCORE {
            let date = copy_range(name, 10, j);
            let time = copy_range(name, j + 1, body_end);
            proof {
                assert forall|i: int| 0 <= i < j - 10 implies body[i] != UNDERSCORE by {
                    assert(body[i] == name@[10 + i]);
                }
                assert(body[j - 10] == name@[j as int]);
                lemma_split_found(body, j - 10);
                assert(body.take(j - 10) =~= name@.subrange(10, j as int));
                assert(body.skip(j - 10 + 1) =~= name@.subrange(j + 1, body_end as int));
            }
            return Some(RunStamp { date, time });
        }
        j = j + 1;
    }
    proof {
        assert forall|i: int| 0 <= i < body.len() implies body[i] != UNDERSCORE by {
            assert(body[i] == name@[10 + i]);
        }
        lemma_split_missing(body);
    }
    None
}

/// A value below one hundred as two ASCII digits, the tens digit first.
pub open spec fn two_digits(n: int) -> Seq<u8> {
    seq![digit_byte(n / 10), digit_byte(n % 10)]
}

/// A value below ten thousand as four ASCII digits, the thousands digit first.
pub open spec fn four_digits(n: int) -> Seq<u8> {
    seq![
        digit_byte(n / 1000),
        digit_byte((n / 100) % 10),
        digit_byte((n / 10) % 10),
        digit_byte(n % 10),
    ]
}

/// The date string of a run that starts on the given calendar day: day, month
/// and year, zero-padded, parted by dashes.
pub open spec fn spec_stamp_date(day: int, month: int, year: int) -> Seq<u8> {
    two_digits(day) + seq![DASH] + two_digits(month) + seq![DASH] + four_digits(year)
}

/// The time string of a run that starts at the given wall-clock time: hour and
/// minute, zero-padded, parted by a colon.
pub open spec fn spec_stamp_time(hour: int, minute: int) -> Seq<u8> {
    two_digits(hour) + seq![COLON] + two_digits(minute)
}

/// The full record name of a run that starts at the given date and time.
pub open spec fn spec_run_id(day: int, month: int, year: int, hour: int, minute: int) -> Seq<u8> {
    spec_record_name(spec_stamp_date(day, month, year), spec_stamp_time(hour, minute))
}

/// Appends a value below one hundred as two ASCII digits.
fn push_two_digits(out: &mut Vec<u8>, n: u8)
    requires
        n <= 99,
    ensures
        final(out)@ == old(out)@ + two_digits(n as int),
{
    out.push(48 + n / 10);
    out.push(48 + n % 10);
    proof {
        assert(out@ =~= old(out)@ + two_digits(n as int));
    }
}

/// Appends a value below ten thousand as four ASCII digits.
fn push_four_digits(out: &mut Vec<u8>, n: u16)
    requires
        n <= 9999,
    ensures
        final(out)@ == old(out)@ + four_digits(n as int),
{
    out.push(48 + (n / 1000) as u8);
    out.push(48 + ((n / 100) % 10) as u8);
    out.push(48 + ((n / 10) % 10) as u8);
    out.push(48 + (n % 10) as u8);
    proof {
        assert(out@ =~= old(out)@ + four_digits(n as int));
    }
}

/// Builds the record name for a run that starts at the given date and time.
pub fn make_run_id(day: u8, month: u8, year: u16, hour: u8, minute: u8) -> (r: Vec<u8>)
    requires
        1 <= day <= 31,
        1 <= month <= 12,
        year <= 9999,
        hour <= 23,
        minute <= 59,
    ensures
        r@ == spec_run_id(day as int, month as int, year as int, hour as int, minute as int),
{
    let mut out = record_prefix_bytes();
    push_two_digits(&mut out, day);
    out.push(DASH);
    push_two_digits(&mut out, month);
    out.push(DASH);
    push_four_digits(&mut out, year);
    out.push(UNDERSCORE);
    push_two_digits(&mut out, hour);
    out.push(COLON);
    push_two_digits(&mut out, minute);
    let mut suffix = record_suffix_bytes();
    out.append(&mut suffix);
    proof {
        assert(out@ =~= spec_run_id(
            day as int,
            month as int,
            year as int,
            hour as int,
            minute as int,
        ));
    }
    out
}

/// A date string holds only digits and dashes, so no underscore.
proof fn lemma_stamp_date_no_underscore(day: int, month: int, year: int)
    requires
        0 <= day <= 99,
        0 <= month <= 99,
        0 <= year <= 9999,
    ensures
        forall|j: int|
            0 <= j < spec_stamp_date(day, month, year).len()
                ==> spec_stamp_date(day, month, year)[j] != UNDERSCORE,
{
    let d = spec_stamp_date(day, month, year);
    assert forall|j: int| 0 <= j < d.len() implies d[j] != UNDERSCORE by {
        assert(d.len() == 10);
        assert(d[0] == digit_byte(day / 10));
        assert(d[1] == digit_byte(day % 10));
        assert(d[2] == DASH);
        assert(d[3] == digit_byte(month / 10));
        assert(d[4] == digit_byte(month % 10));
        assert(d[5] == DASH);
        assert(d[6] == digit_byte(year / 1000));
        assert(d[7] == digit_byte((year / 100) % 10));
        assert(d[8] == digit_byte((year / 10) % 10));
        assert(d[9] == digit_byte(year % 10));
    }
}

/// A record name formed from date and time fields parses back to exactly the
/// date and time strings it was formed from.
pub proof fn lemma_run_id_parses(day: int, month: int, year: int, hour: int, minute: int)
    requires
        1 <= day <= 31,
        1 <= month <= 12,
        0 <= year <= 9999,
        0 <= hour <= 23,
        0 <= minute <= 59,
    ensures
        spec_parse_record_name(spec_run_id(day, month, year, hour, minute)) == Some(
            (spec_stamp_date(day, month, year), spec_stamp_time(hour, minute)),
        ),
{
    let date = spec_stamp_date(day, month, year);
    let time = spec_stamp_time(hour, minute);
    let name = spec_run_id(day, month, year, hour, minute);
    assert(date.len() == 10);
    assert(time.len() == 5);
    assert(name.len() == 30);
    assert(record_prefix().is_prefix_of(name)) by {
        assert(record_prefix() =~= name.subrange(0, 10));
    }
    assert(record_suffix().is_suffix_of(name)) by {
        assert(record_suffix() =~= name.subrange(26, 30));
    }
    let body = name.subrange(10, 26);
    assert(body =~= date + seq![UNDERSCORE] + time);
    lemma_stamp_date_no_underscore(day, month, year);
    assert forall|j: int| 0 <= j < 10 implies body[j] != UNDERSCORE by {
        assert(body[j] == date[j]);
    }
    assert(body[10] == UNDERSCORE);
    lemma_split_found(body, 10);
    assert(body.take(10) =~= date);
    assert(body.skip(11) =~= time);
}

/// A point in time as the outside calendar library holds it. The value is
/// opaque here — chrono's DateTime cannot be declared to the verifier, its
/// time-zone parameter being bound by an outside trait — and is only read
/// through the trusted accessors below.
#[verifier::external_body]
struct ClockReading {
    instant: chrono::DateTime<chrono::Local>,
}

/// Relies on chrono::Local::now: the present moment on the local clock.
/// Nothing can be promised of it.
#[verifier::external_body]
fn clock_now() -> ClockReading {
    ClockReading { instant: chrono::Local::now() }
}

/// Relies on chrono::Datelike::year: the calendar year; chrono documents no
/// bound on it.
#[verifier::external_body]
fn date_year(t: &ClockReading) -> i32 {
    t.instant.year()
}

/// Relies on chrono::Datelike::month, documented to return 1 to 12.
#[verifier::external_body]
fn date_month(t: &ClockReading) -> (r: u8)
    ensures
        1 <= r <= 12,
{
    t.instant.month() as u8
}

/// Relies on chrono::Datelike::day, documented to return 1 to 31.
#[verifier::external_body]
fn date_day(t: &ClockReading) -> (r: u8)
    ensures
        1 <= r <= 31,
{
    t.instant.day() as u8
}

/// Relies on chrono::Timelike::hour, documented to return 0 to 23.
#[verifier::external_body]
fn time_hour(t: &ClockReading) -> (r: u8)
    ensures
        r <= 23,
{
    t.instant.hour() as u8
}

/// Relies on chrono::Timelike::minute, documented to return 0 to 59.
#[verifier::external_body]
fn time_minute(t: &ClockReading) -> (r: u8)
    ensures
        r <= 59,
{
    t.instant.minute() as u8
}

/// The record name for a run that starts now, read from the local clock: a
/// well-formed record name carrying a calendar date and a wall-clock time — or
/// nothing, when the clock reports a year that no four-digit date can carry.
pub fn current_run_id() -> (r: Option<Vec<u8>>)
    ensures
        r matches Some(v) ==> exists|day: int, month: int, year: int, hour: int, minute: int|
            {
                &&& 1 <= day <= 31
                &&& 1 <= month <= 12
                &&& 0 <= year <= 9999
                &&& 0 <= hour <= 23
                &&& 0 <= minute <= 59
                &&& v@ == #[trigger] spec_run_id(day, month, year, hour, minute)
            },
        r matches Some(v) ==> spec_parse_record_name(v@) is Some,
{
    let now = clock_now();
    let year = date_year(&now);
    if 0 <= year && year <= 9999 {
        let month = date_month(&now);
        let day = date_day(&now);
        let hour = time_hour(&now);
        let minute = time_minute(&now);
        let id = make_run_id(day, month, year as u16, hour, minute);
        proof {
            lemma_run_id_parses(day as int, month as int, year as int, hour as int, minute as int);
        }
        Some(id)
    } else {
        None
    }
}

} // verus!
