//! Instants of the proleptic Gregorian calendar with a UTC offset, their
//! order, and the calendar operations the search takes from `time`.
use vstd::prelude::*;

verus! {

/// The earliest representable year.
pub const MIN_YEAR: i32 = -9999;
/// The latest representable year.
pub const MAX_YEAR: i32 = 9999;
/// The largest magnitude of a UTC offset, in seconds (25:59:59).
pub const MAX_OFFSET_SECONDS: i32 = 93599;

/// Whether `year` is a leap year.
pub open spec fn is_leap(year: int) -> bool {
    year % 4 == 0 && (year % 100 != 0 || year % 400 == 0)
}

/// The number of days in `month` of `year`.
pub open spec fn days_in_month(year: int, month: int) -> int {
    if month == 2 {
        if is_leap(year) { 29 } else { 28 }
    } else if month == 4 || month == 6 || month == 9 || month == 11 {
        30
    } else {
        31
    }
}

/// A calendar date within the representable years.
pub open spec fn valid_date(year: int, month: int, day: int) -> bool {
    &&& MIN_YEAR <= year <= MAX_YEAR
    &&& 1 <= month <= 12
    &&& 1 <= day <= days_in_month(year, month)
}

/// The calendar day after a date, ignoring the representable range.
pub open spec fn day_after(year: int, month: int, day: int) -> (int, int, int) {
    if day < days_in_month(year, month) {
        (year, month, day + 1)
    } else if month < 12 {
        (year, month + 1, 1)
    } else {
        (year + 1, 1, 1)
    }
}

/// The calendar day before a date, ignoring the representable range.
pub open spec fn day_before(year: int, month: int, day: int) -> (int, int, int) {
    if day > 1 {
        (year, month, day - 1)
    } else if month > 1 {
        (year, month - 1, days_in_month(year, month - 1))
    } else {
        (year - 1, 12, 31)
    }
}

/// The date `shift` days away from a date.
pub open spec fn shift_date(date: (int, int, int), shift: int) -> (int, int, int)
    decreases (if shift < 0 { -shift } else { shift }),
{
    if shift > 0 {
        shift_date(day_after(date.0, date.1, date.2), shift - 1)
    } else if shift < 0 {
        shift_date(day_before(date.0, date.1, date.2), shift + 1)
    } else {
        date
    }
}

/// The number of days from 1970-01-01 to a date (negative before it).
pub open spec fn days_from_civil(year: int, month: int, day: int) -> int {
    let y = if month <= 2 { year - 1 } else { year };
    let era = y / 400;
    let year_of_era = y - era * 400;
    let shifted_month = if month > 2 { month - 3 } else { month + 9 };
    let day_of_year = (153 * shifted_month + 2) / 5 + day - 1;
    let day_of_era = year_of_era * 365 + year_of_era / 4 - year_of_era / 100 + day_of_year;
    era * 146097 + day_of_era - 719468
}

/// The weekday of a date, counted from Sunday as `0`.
pub open spec fn weekday_of(year: int, month: int, day: int) -> int {
    (days_from_civil(year, month, day) + 4) % 7
}

/// A date, a time of day with nanoseconds, and the offset from UTC in seconds
/// at which that local date and time are read.
#[derive(Debug, Clone, Copy, PartialEq, Eq, Hash, Structural)]
pub struct DateTime {
    /// The year.
    pub year: i32,
    /// The month, `1..=12`.
    pub month: u8,
    /// The day of the month, `1..=31`.
    pub day: u8,
    /// The hour, `0..=23`.
    pub hour: u8,
    /// The minute, `0..=59`.
    pub minute: u8,
    /// The second, `0..=59`.
    pub second: u8,
    /// The nanosecond, `0..=999_999_999`.
    pub nanosecond: u32,
    /// The offset from UTC, in seconds east.
    pub offset: i32,
}

impl DateTime {
    /// All components are in range.
    pub open spec fn wf(self) -> bool {
        &&& valid_date(self.year as int, self.month as int, self.day as int)
        &&& self.hour < 24
        &&& self.minute < 60
        &&& self.second < 60
        &&& self.nanosecond < 1_000_000_000
        &&& -MAX_OFFSET_SECONDS <= self.offset <= MAX_OFFSET_SECONDS
    }

    /// A well-formed instant expressed in UTC.
    pub open spec fn is_utc(self) -> bool {
        self.wf() && self.offset == 0
    }

    /// The seconds since 1970-01-01T00:00:00Z.
    pub open spec fn unix_seconds(self) -> int {
        days_from_civil(self.year as int, self.month as int, self.day as int) * 86400 + self.hour
            * 3600 + self.minute * 60 + self.second - self.offset
    }

    /// The nanoseconds since 1970-01-01T00:00:00Z.
    pub open spec fn unix_nanoseconds(self) -> int {
        self.unix_seconds() * 1_000_000_000 + self.nanosecond
    }

    /// A date-time at a UTC offset, or `None` when a component is out of
    /// range.
    pub fn new(
        year: i32,
        month: u8,
        day: u8,
        hour: u8,
        minute: u8,
        second: u8,
        nanosecond: u32,
        offset: i32,
    ) -> (r: Option<DateTime>)
        ensures
            r matches Some(t) ==> t.wf() && t == (DateTime {
                year,
                month,
                day,
                hour,
                minute,
                second,
                nanosecond,
                offset,
            }),
            r is None ==> !(DateTime { year, month, day, hour, minute, second, nanosecond, offset }).wf(),
    {
        if year < MIN_YEAR || year > MAX_YEAR || month < 1 || month > 12 || day < 1 || day
            > month_length(year, month) || hour >= 24 || minute >= 60 || second >= 60 || nanosecond
            >= 1_000_000_000 || offset < -MAX_OFFSET_SECONDS || offset > MAX_OFFSET_SECONDS {
            None
        } else {
            Some(DateTime { year, month, day, hour, minute, second, nanosecond, offset })
        }
    }

    /// A date-time in UTC, or `None` when a component is out of range.
    pub fn utc(year: i32, month: u8, day: u8, hour: u8, minute: u8, second: u8) -> (r: Option<
        DateTime,
    >)
        ensures
            r matches Some(t) ==> t.is_utc() && t == (DateTime {
                year,
                month,
                day,
                hour,
                minute,
                second,
                nanosecond: 0,
                offset: 0,
            }),
            r is None ==> !(DateTime {
                year,
                month,
                day,
                hour,
                minute,
                second,
                nanosecond: 0,
                offset: 0,
            }).wf(),
    {
        DateTime::new(year, month, day, hour, minute, second, 0, 0)
    }
}

/// The number of days in `month` of `year`.
pub fn month_length(year: i32, month: u8) -> (n: u8)
    requires
        1 <= month <= 12,
    ensures
        n == days_in_month(year as int, month as int),
{
    if month == 2 {
        if year % 4 == 0 && (year % 100 != 0 || year % 400 == 0) {
            29
        } else {
            28
        }
    } else if month == 4 || month == 6 || month == 9 || month == 11 {
        30
    } else {
        31
    }
}

/// The same instant read at offset zero, or `None` when its UTC date falls
/// outside the representable years.
pub open spec fn to_utc(t: DateTime) -> Option<DateTime> {
    let clock = t.hour * 3600 + t.minute * 60 + t.second - t.offset;
    let shift = clock / 86400;
    let seconds = clock % 86400;
    let date = shift_date((t.year as int, t.month as int, t.day as int), shift);
    if MIN_YEAR <= date.0 <= MAX_YEAR {
        Some(
            DateTime {
                year: date.0 as i32,
                month: date.1 as u8,
                day: date.2 as u8,
                hour: (seconds / 3600) as u8,
                minute: (seconds % 3600 / 60) as u8,
                second: (seconds % 60) as u8,
                nanosecond: t.nanosecond,
                offset: 0,
            },
        )
    } else {
        None
    }
}

/// A month and day that exist in `year`, whatever the year.
pub open spec fn calendar_date(year: int, month: int, day: int) -> bool {
    1 <= month <= 12 && 1 <= day <= days_in_month(year, month)
}

proof fn lemma_shift_date(date: (int, int, int), shift: int)
    requires
        calendar_date(date.0, date.1, date.2),
    ensures
        calendar_date(shift_date(date, shift).0, shift_date(date, shift).1, shift_date(date, shift).2),
    decreases (if shift < 0 { -shift } else { shift }),
{
    if shift > 0 {
        lemma_shift_date(day_after(date.0, date.1, date.2), shift - 1);
    } else if shift < 0 {
        lemma_shift_date(day_before(date.0, date.1, date.2), shift + 1);
    }
}

/// The UTC reading of a well-formed instant is a well-formed UTC instant.
pub proof fn lemma_to_utc_wf(t: DateTime)
    requires
        t.wf(),
        to_utc(t) is Some,
    ensures
        to_utc(t)->Some_0.is_utc(),
{
    lemma_shift_date((t.year as int, t.month as int, t.day as int), (t.hour * 3600 + t.minute * 60 + t.second - t.offset) / 86400);
}

/// A UTC instant reads as itself in UTC.
pub proof fn lemma_to_utc_of_utc(t: DateTime)
    requires
        t.is_utc(),
    ensures
        to_utc(t) == Some(t),
{
    let clock = t.hour * 3600 + t.minute * 60 + t.second - t.offset;
    assert(clock / 86400 == 0);
    assert(shift_date((t.year as int, t.month as int, t.day as int), 0) == (t.year as int, t.month as int, t.day as int));
}

// ---------------------------------------------------------------------------
// The order of UTC instants
// ---------------------------------------------------------------------------

/// The year and month of an instant, as one increasing number.
pub open spec fn month_key(t: DateTime) -> int {
    t.year * 13 + t.month
}

/// The date of an instant, as one increasing number.
pub open spec fn day_key(t: DateTime) -> int {
    month_key(t) * 32 + t.day
}

/// The date and hour of an instant, as one increasing number.
pub open spec fn hour_key(t: DateTime) -> int {
    day_key(t) * 24 + t.hour
}

/// The date, hour and minute of an instant, as one increasing number.
pub open spec fn minute_key(t: DateTime) -> int {
    hour_key(t) * 60 + t.minute
}

/// The instant truncated to the second, as one increasing number.
pub open spec fn second_key(t: DateTime) -> int {
    minute_key(t) * 60 + t.second
}

/// The position of a UTC instant in time: `a` is earlier than `b` exactly
/// when `key(a) < key(b)` (for well-formed UTC instants).
pub open spec fn key(t: DateTime) -> int {
    second_key(t) * 1_000_000_000 + t.nanosecond
}

// ---------------------------------------------------------------------------
// Calendar operations of `time`
// ---------------------------------------------------------------------------

/// The next calendar date (`time::Date::next_day`), `None` after the last
/// representable date.
///
/// Trusted: `Date::next_day` returns the following calendar day of the
/// proleptic Gregorian calendar, and `None` for `Date::MAX` (9999-12-31).
#[verifier::external_body]
pub(crate) fn next_date(year: i32, month: u8, day: u8) -> (r: Option<(i32, u8, u8)>)
    requires
        valid_date(year as int, month as int, day as int),
    ensures
        r == (if year == MAX_YEAR && month == 12 && day == 31 {
            None
        } else {
            let d = day_after(year as int, month as int, day as int);
            Some((d.0 as i32, d.1 as u8, d.2 as u8))
        }),
{
    let month = time::Month::try_from(month).unwrap();
    let date = time::Date::from_calendar_date(year, month, day).unwrap();
    date.next_day().map(|d| (d.year(), u8::from(d.month()), d.day()))
}

/// The previous calendar date (`time::Date::previous_day`), `None` before the
/// first representable date.
///
/// Trusted: `Date::previous_day` returns the preceding calendar day of the
/// proleptic Gregorian calendar, and `None` for `Date::MIN` (-9999-01-01).
#[verifier::external_body]
pub(crate) fn previous_date(year: i32, month: u8, day: u8) -> (r: Option<(i32, u8, u8)>)
    requires
        valid_date(year as int, month as int, day as int),
    ensures
        r == (if year == MIN_YEAR && month == 1 && day == 1 {
            None
        } else {
            let d = day_before(year as int, month as int, day as int);
            Some((d.0 as i32, d.1 as u8, d.2 as u8))
        }),
{
    let month = time::Month::try_from(month).unwrap();
    let date = time::Date::from_calendar_date(year, month, day).unwrap();
    date.previous_day().map(|d| (d.year(), u8::from(d.month()), d.day()))
}

/// The weekday of a date counted from Sunday as `0`
/// (`time::Date::weekday` then `Weekday::number_days_from_sunday`).
///
/// Trusted: the weekday of the proleptic Gregorian date, where
/// 1970-01-01 is a Thursday.
#[verifier::external_body]
pub(crate) fn weekday_number(year: i32, month: u8, day: u8) -> (r: u8)
    requires
        valid_date(year as int, month as int, day as int),
    ensures
        r == weekday_of(year as int, month as int, day as int),
        r < 7,
{
    let month = time::Month::try_from(month).unwrap();
    let date = time::Date::from_calendar_date(year, month, day).unwrap();
    date.weekday().number_days_from_sunday()
}

/// The same instant at offset zero
/// (`time::OffsetDateTime::checked_to_offset` with `UtcOffset::UTC`).
///
/// Trusted: the conversion keeps the instant and the nanosecond, moves the
/// local clock by the offset with the calendar carry, and fails exactly when
/// the UTC year leaves `-9999..=9999`.
#[verifier::external_body]
pub(crate) fn utc_of(t: &DateTime) -> (r: Option<DateTime>)
    requires
        t.wf(),
    ensures
        r == to_utc(*t),
{
    let date = time::Date::from_calendar_date(t.year, time::Month::try_from(t.month).unwrap(), t.day);
    let clock = time::Time::from_hms_nano(t.hour, t.minute, t.second, t.nanosecond).unwrap();
    let offset = time::UtcOffset::from_whole_seconds(t.offset).unwrap();
    let local = time::PrimitiveDateTime::new(date.unwrap(), clock).assume_offset(offset);
    let u = local.checked_to_offset(time::UtcOffset::UTC)?;
    Some(DateTime { year: u.year(), month: u8::from(u.month()), day: u.day(), hour: u.hour(),
        minute: u.minute(), second: u.second(), nanosecond: u.nanosecond(), offset: 0 })
}

/// The nanoseconds since 1970-01-01T00:00:00Z of an instant
/// (`time::OffsetDateTime::unix_timestamp_nanos`).
///
/// Trusted: the instant's distance from the Unix epoch, its offset accounted
/// for.
#[verifier::external_body]
pub(crate) fn unix_timestamp_nanos(t: &DateTime) -> (r: i128)
    requires
        t.wf(),
    ensures
        r == t.unix_nanoseconds(),
{
    let month = time::Month::try_from(t.month).unwrap();
    let date = time::Date::from_calendar_date(t.year, month, t.day).unwrap();
    let clock = time::Time::from_hms_nano(t.hour, t.minute, t.second, t.nanosecond).unwrap();
    let offset = time::UtcOffset::from_whole_seconds(t.offset).unwrap();
    time::PrimitiveDateTime::new(date, clock).assume_offset(offset).unix_timestamp_nanos()
}

/// The nanoseconds since the epoch of a representable instant stay far
/// within `i128`.
pub proof fn lemma_unix_nanoseconds_bound(t: DateTime)
    requires
        t.wf(),
    ensures
        -1_000_000_000_000_000_000_000 < t.unix_nanoseconds() < 1_000_000_000_000_000_000_000,
{
    let year = t.year as int;
    let month = t.month as int;
    let y = if month <= 2 { year - 1 } else { year };
    let era = y / 400;
    assert(-25 <= era <= 24);
    let year_of_era = y - era * 400;
    assert(0 <= year_of_era < 400);
    let days = days_from_civil(t.year as int, t.month as int, t.day as int);
    assert(-10_000_000 < days < 10_000_000);
}

// ---------------------------------------------------------------------------
// The day count
// ---------------------------------------------------------------------------

/// The day after a date is counted one day later.
#[verifier::rlimit(100)]
#[verifier::spinoff_prover]
pub proof fn lemma_days_after(year: int, month: int, day: int)
    requires
        calendar_date(year, month, day),
    ensures
        ({
            let n = day_after(year, month, day);
            &&& calendar_date(n.0, n.1, n.2)
            &&& days_from_civil(n.0, n.1, n.2) == days_from_civil(year, month, day) + 1
        }),
{
    let dim = days_in_month(year, month);
    if day < dim {
    } else if month < 12 {
        if month == 2 {
            lemma_february_end(year);
        } else if month == 1 {
        } else {
            assert(month >= 3);
            let k = month - 3;
            assert((153 * (k + 1) + 2) / 5 - (153 * k + 2) / 5 == days_in_month(year, month)) by {
                if month == 3 { assert(k == 0); }
                else if month == 4 { assert(k == 1); }
                else if month == 5 { assert(k == 2); }
                else if month == 6 { assert(k == 3); }
                else if month == 7 { assert(k == 4); }
                else if month == 8 { assert(k == 5); }
                else if month == 9 { assert(k == 6); }
                else if month == 10 { assert(k == 7); }
                else { assert(k == 8); }
            }
        }
    } else {
    }
}

/// From the last day of February to 1 March is one day.
#[verifier::rlimit(100)]
#[verifier::spinoff_prover]
proof fn lemma_february_end(year: int)
    ensures
        days_from_civil(year, 3, 1) == days_from_civil(year, 2, days_in_month(year, 2)) + 1,
{
    let y0 = year - 1;
    let era0 = y0 / 400;
    let yoe0 = y0 - era0 * 400;
    let era1 = year / 400;
    let yoe1 = year - era1 * 400;
    let feb = days_in_month(year, 2);
    assert(days_from_civil(year, 2, feb) == era0 * 146097 + yoe0 * 365 + yoe0 / 4 - yoe0 / 100 + 336 + feb - 719468);
    assert(days_from_civil(year, 3, 1) == era1 * 146097 + yoe1 * 365 + yoe1 / 4 - yoe1 / 100 - 719468);
    if year % 400 == 0 {
        assert(era1 == era0 + 1 && yoe0 == 399 && yoe1 == 0);
        assert(is_leap(year));
    } else {
        assert(era1 == era0 && yoe1 == yoe0 + 1);
        assert(year % 4 == yoe1 % 4);
        assert(year % 100 == yoe1 % 100);
        assert(yoe1 / 4 - yoe0 / 4 == (if yoe1 % 4 == 0 { 1int } else { 0int }));
        assert(yoe1 / 100 - yoe0 / 100 == (if yoe1 % 100 == 0 { 1int } else { 0int }));
    }
}

/// The day before a date is the date whose next day it is.
pub proof fn lemma_day_before_after(year: int, month: int, day: int)
    requires
        calendar_date(year, month, day),
    ensures
        ({
            let p = day_before(year, month, day);
            &&& calendar_date(p.0, p.1, p.2)
            &&& day_after(p.0, p.1, p.2) == (year, month, day)
        }),
{
}

/// Shifting a date by `shift` days moves its day count by `shift`.
pub proof fn lemma_days_shift(date: (int, int, int), shift: int)
    requires
        calendar_date(date.0, date.1, date.2),
    ensures
        days_from_civil(shift_date(date, shift).0, shift_date(date, shift).1, shift_date(date, shift).2)
            == days_from_civil(date.0, date.1, date.2) + shift,
    decreases (if shift < 0 { -shift } else { shift }),
{
    if shift > 0 {
        lemma_days_after(date.0, date.1, date.2);
        lemma_days_shift(day_after(date.0, date.1, date.2), shift - 1);
    } else if shift < 0 {
        lemma_day_before_after(date.0, date.1, date.2);
        let p = day_before(date.0, date.1, date.2);
        lemma_days_after(p.0, p.1, p.2);
        lemma_days_shift(p, shift + 1);
    }
}

/// Reading an instant in UTC keeps the instant.
#[verifier::rlimit(100)]
#[verifier::spinoff_prover]
pub proof fn lemma_to_utc_same_instant(t: DateTime)
    requires
        t.wf(),
        to_utc(t) is Some,
    ensures
        to_utc(t)->Some_0.unix_nanoseconds() == t.unix_nanoseconds(),
{
    let clock = t.hour * 3600 + t.minute * 60 + t.second - t.offset;
    let shift = clock / 86400;
    let seconds = clock % 86400;
    lemma_days_shift((t.year as int, t.month as int, t.day as int), shift);
    lemma_shift_date((t.year as int, t.month as int, t.day as int), shift);
    let u = to_utc(t)->Some_0;
    assert(u.hour * 3600 + u.minute * 60 + u.second == seconds);
}

/// The position of a date among dates.
pub open spec fn date_key(year: int, month: int, day: int) -> int {
    (year * 13 + month) * 32 + day
}

/// No calendar date lies strictly between a date and the next one.
#[verifier::rlimit(100)]
#[verifier::spinoff_prover]
proof fn lemma_next_date_is_next(a: (int, int, int), b: (int, int, int))
    requires
        calendar_date(a.0, a.1, a.2),
        calendar_date(b.0, b.1, b.2),
        date_key(a.0, a.1, a.2) < date_key(b.0, b.1, b.2),
    ensures
        ({
            let n = day_after(a.0, a.1, a.2);
            date_key(a.0, a.1, a.2) < date_key(n.0, n.1, n.2) <= date_key(b.0, b.1, b.2)
        }),
{
}

/// A later calendar date is counted more days.
#[verifier::rlimit(100)]
#[verifier::spinoff_prover]
proof fn lemma_days_increase(a: (int, int, int), b: (int, int, int))
    requires
        calendar_date(a.0, a.1, a.2),
        calendar_date(b.0, b.1, b.2),
        date_key(a.0, a.1, a.2) < date_key(b.0, b.1, b.2),
    ensures
        days_from_civil(a.0, a.1, a.2) < days_from_civil(b.0, b.1, b.2),
    decreases date_key(b.0, b.1, b.2) - date_key(a.0, a.1, a.2),
{
    let n = day_after(a.0, a.1, a.2);
    lemma_days_after(a.0, a.1, a.2);
    lemma_next_date_is_next(a, b);
    if date_key(n.0, n.1, n.2) < date_key(b.0, b.1, b.2) {
        lemma_days_increase(n, b);
    } else {
        assert(n == b);
    }
}

/// For UTC instants, the order of keys is the order in time.
#[verifier::rlimit(100)]
#[verifier::spinoff_prover]
pub proof fn lemma_key_is_time_order(a: DateTime, b: DateTime)
    requires
        a.is_utc(),
        b.is_utc(),
    ensures
        (key(a) < key(b)) == (a.unix_nanoseconds() < b.unix_nanoseconds()),
        (key(a) == key(b)) == (a.unix_nanoseconds() == b.unix_nanoseconds()),
{
    let da = (a.year as int, a.month as int, a.day as int);
    let db = (b.year as int, b.month as int, b.day as int);
    if date_key(da.0, da.1, da.2) < date_key(db.0, db.1, db.2) {
        lemma_days_increase(da, db);
    } else if date_key(db.0, db.1, db.2) < date_key(da.0, da.1, da.2) {
        lemma_days_increase(db, da);
    } else {
        assert(da == db);
    }
}

} // verus!
