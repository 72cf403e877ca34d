//! Occurrence search: the next and previous matching instants.
//!
//! The search walks UTC instants unit by unit. When a candidate's month,
//! day, hour, minute or second is rejected, it jumps to the first instant of
//! the following unit (forward) or to the last instant of the preceding unit
//! (backward); every instant skipped shares the rejected component, so none
//! of them is an occurrence.
use vstd::prelude::*;

use crate::calendar::{
    day_key, days_in_month, hour_key, key, lemma_to_utc_wf, minute_key, month_key, next_date,
    previous_date, second_key, to_utc, utc_of, unix_timestamp_nanos, lemma_unix_nanoseconds_bound, lemma_key_is_time_order, lemma_to_utc_same_instant, valid_date, weekday_number, DateTime, MAX_YEAR,
    MIN_YEAR,
};
use crate::expression::{is_occurrence, same_instants, CronSchedule, ScheduleView};

verus! {

// ---------------------------------------------------------------------------
// The order of instants
// ---------------------------------------------------------------------------

/// Every component lies within the range that the order of keys relies on.
pub open spec fn in_range(t: DateTime) -> bool {
    &&& 1 <= t.month <= 12
    &&& 1 <= t.day <= 31
    &&& t.hour < 24
    &&& t.minute < 60
    &&& t.second < 60
    &&& t.nanosecond < 1_000_000_000
}

/// `a` and `b` fall in the same month.
pub open spec fn same_month(a: DateTime, b: DateTime) -> bool {
    a.year == b.year && a.month == b.month
}

/// `a` and `b` fall on the same day.
pub open spec fn same_day(a: DateTime, b: DateTime) -> bool {
    same_month(a, b) && a.day == b.day
}

/// `a` and `b` fall in the same hour.
pub open spec fn same_hour(a: DateTime, b: DateTime) -> bool {
    same_day(a, b) && a.hour == b.hour
}

/// `a` and `b` fall in the same minute.
pub open spec fn same_minute(a: DateTime, b: DateTime) -> bool {
    same_hour(a, b) && a.minute == b.minute
}

/// `a` and `b` fall in the same second.
pub open spec fn same_second(a: DateTime, b: DateTime) -> bool {
    same_minute(a, b) && a.second == b.second
}

/// A whole second, and a whole minute unless seconds are searched: the
/// instants that the search visits.
pub open spec fn shaped(t: DateTime, with_seconds: bool) -> bool {
    t.nanosecond == 0 && (with_seconds || t.second == 0)
}

/// Keys order instants lexicographically: a smaller coarse key means an
/// earlier instant, and equal coarse keys mean equal coarse components.
proof fn lemma_key_order(a: DateTime, b: DateTime)
    requires
        in_range(a),
        in_range(b),
    ensures
        month_key(a) < month_key(b) ==> key(a) < key(b),
        day_key(a) < day_key(b) ==> key(a) < key(b),
        hour_key(a) < hour_key(b) ==> key(a) < key(b),
        minute_key(a) < minute_key(b) ==> key(a) < key(b),
        second_key(a) < second_key(b) ==> key(a) < key(b),
        month_key(a) == month_key(b) ==> same_month(a, b),
        day_key(a) == day_key(b) ==> same_day(a, b),
        hour_key(a) == hour_key(b) ==> same_hour(a, b),
        minute_key(a) == minute_key(b) ==> same_minute(a, b),
        second_key(a) == second_key(b) ==> same_second(a, b),
        key(a) == key(b) ==> same_second(a, b) && a.nanosecond == b.nanosecond,
{
    assert(second_key(a) < second_key(b) ==> key(a) < key(b));
    assert(minute_key(a) < minute_key(b) ==> second_key(a) < second_key(b));
    assert(hour_key(a) < hour_key(b) ==> minute_key(a) < minute_key(b));
    assert(day_key(a) < day_key(b) ==> hour_key(a) < hour_key(b));
    assert(month_key(a) < month_key(b) ==> day_key(a) < day_key(b));
    assert(key(a) == key(b) ==> second_key(a) == second_key(b));
    assert(second_key(a) == second_key(b) ==> minute_key(a) == minute_key(b));
    assert(minute_key(a) == minute_key(b) ==> hour_key(a) == hour_key(b));
    assert(hour_key(a) == hour_key(b) ==> day_key(a) == day_key(b));
    assert(day_key(a) == day_key(b) ==> month_key(a) == month_key(b));
}

/// Both orders of [`lemma_key_order`].
proof fn lemma_keys(a: DateTime, b: DateTime)
    requires
        in_range(a),
        in_range(b),
    ensures
        month_key(a) < month_key(b) ==> key(a) < key(b),
        day_key(a) < day_key(b) ==> key(a) < key(b),
        hour_key(a) < hour_key(b) ==> key(a) < key(b),
        minute_key(a) < minute_key(b) ==> key(a) < key(b),
        second_key(a) < second_key(b) ==> key(a) < key(b),
        month_key(b) < month_key(a) ==> key(b) < key(a),
        day_key(b) < day_key(a) ==> key(b) < key(a),
        hour_key(b) < hour_key(a) ==> key(b) < key(a),
        minute_key(b) < minute_key(a) ==> key(b) < key(a),
        second_key(b) < second_key(a) ==> key(b) < key(a),
        month_key(a) == month_key(b) ==> same_month(a, b),
        day_key(a) == day_key(b) ==> same_day(a, b),
        hour_key(a) == hour_key(b) ==> same_hour(a, b),
        minute_key(a) == minute_key(b) ==> same_minute(a, b),
        second_key(a) == second_key(b) ==> same_second(a, b),
        key(a) == key(b) ==> same_second(a, b) && a.nanosecond == b.nanosecond,
{
    lemma_key_order(a, b);
    lemma_key_order(b, a);
}

/// Two UTC instants with the same key are the same instant.
pub proof fn lemma_key_injective(a: DateTime, b: DateTime)
    requires
        a.is_utc(),
        b.is_utc(),
        key(a) == key(b),
    ensures
        a == b,
{
    lemma_keys(a, b);
}

// ---------------------------------------------------------------------------
// Forward steps
// ---------------------------------------------------------------------------

/// A UTC instant at the start of a second.
spec fn whole_second(n: DateTime) -> bool {
    n.is_utc() && n.nanosecond == 0
}

/// The first instant of the month after `c`'s, or `None` when that month
/// is past the representable years.
fn start_of_next_month(c: &DateTime) -> (r: Option<DateTime>)
    requires
        c.is_utc(),
    ensures
        match r {
            Some(n) => whole_second(n) && n.second == 0 && key(*c) < key(n) && forall|t: DateTime|
                t.is_utc() && key(*c) <= key(t) && key(t) < key(n) ==> same_month(t, *c),
            None => forall|t: DateTime| t.is_utc() && key(*c) <= key(t) ==> same_month(t, *c),
        },
{
    let r = if c.month < 12 {
        Some(DateTime { year: c.year, month: c.month + 1, day: 1, hour: 0, minute: 0, second: 0, nanosecond: 0, offset: 0 })
    } else if c.year < MAX_YEAR {
        Some(DateTime { year: c.year + 1, month: 1, day: 1, hour: 0, minute: 0, second: 0, nanosecond: 0, offset: 0 })
    } else {
        None
    };
    proof {
        match r {
            Some(n) => {
                lemma_keys(*c, n);
                assert forall|t: DateTime| t.is_utc() && key(*c) <= key(t) && key(t) < key(n) implies same_month(t, *c) by {
                    lemma_keys(*c, t);
                    lemma_keys(t, n);
                }
            },
            None => {
                assert forall|t: DateTime| t.is_utc() && key(*c) <= key(t) implies same_month(t, *c) by {
                    lemma_keys(*c, t);
                }
            },
        }
    }
    r
}

/// The first instant of the day after `c`'s, or `None` after the last
/// representable day.
fn start_of_next_day(c: &DateTime) -> (r: Option<DateTime>)
    requires
        c.is_utc(),
    ensures
        match r {
            Some(n) => whole_second(n) && n.second == 0 && key(*c) < key(n) && forall|t: DateTime|
                t.is_utc() && key(*c) <= key(t) && key(t) < key(n) ==> same_day(t, *c),
            None => forall|t: DateTime| t.is_utc() && key(*c) <= key(t) ==> same_day(t, *c),
        },
{
    let r = match next_date(c.year, c.month, c.day) {
        Some((y, m, d)) => Some(DateTime { year: y, month: m, day: d, hour: 0, minute: 0, second: 0, nanosecond: 0, offset: 0 }),
        None => None,
    };
    proof {
        let dim = days_in_month(c.year as int, c.month as int);
        match r {
            Some(n) => {
                assert(valid_date(n.year as int, n.month as int, n.day as int));
                lemma_keys(*c, n);
                assert forall|t: DateTime| t.is_utc() && key(*c) <= key(t) && key(t) < key(n) implies same_day(t, *c) by {
                    lemma_keys(*c, t);
                    lemma_keys(t, n);
                }
            },
            None => {
                assert forall|t: DateTime| t.is_utc() && key(*c) <= key(t) implies same_day(t, *c) by {
                    lemma_keys(*c, t);
                }
            },
        }
    }
    r
}

/// The first instant of the hour after `c`'s.
fn start_of_next_hour(c: &DateTime) -> (r: Option<DateTime>)
    requires
        c.is_utc(),
    ensures
        match r {
            Some(n) => whole_second(n) && n.second == 0 && key(*c) < key(n) && forall|t: DateTime|
                t.is_utc() && key(*c) <= key(t) && key(t) < key(n) ==> same_hour(t, *c),
            None => forall|t: DateTime| t.is_utc() && key(*c) <= key(t) ==> same_hour(t, *c),
        },
{
    if c.hour < 23 {
        let n = DateTime { hour: c.hour + 1, minute: 0, second: 0, nanosecond: 0, ..*c };
        proof {
            lemma_keys(*c, n);
            assert forall|t: DateTime| t.is_utc() && key(*c) <= key(t) && key(t) < key(n) implies same_hour(t, *c) by {
                lemma_keys(*c, t);
                lemma_keys(t, n);
            }
        }
        Some(n)
    } else {
        let r = start_of_next_day(c);
        proof {
            assert forall|t: DateTime| t.is_utc() && key(*c) <= key(t) && (r matches Some(n) ==> key(t) < key(n)) implies same_hour(t, *c) by {
                lemma_keys(*c, t);
            }
        }
        r
    }
}

/// The first instant of the minute after `c`'s.
fn start_of_next_minute(c: &DateTime) -> (r: Option<DateTime>)
    requires
        c.is_utc(),
    ensures
        match r {
            Some(n) => whole_second(n) && n.second == 0 && key(*c) < key(n) && forall|t: DateTime|
                t.is_utc() && key(*c) <= key(t) && key(t) < key(n) ==> same_minute(t, *c),
            None => forall|t: DateTime| t.is_utc() && key(*c) <= key(t) ==> same_minute(t, *c),
        },
{
    if c.minute < 59 {
        let n = DateTime { minute: c.minute + 1, second: 0, nanosecond: 0, ..*c };
        proof {
            lemma_keys(*c, n);
            assert forall|t: DateTime| t.is_utc() && key(*c) <= key(t) && key(t) < key(n) implies same_minute(t, *c) by {
                lemma_keys(*c, t);
                lemma_keys(t, n);
            }
        }
        Some(n)
    } else {
        let r = start_of_next_hour(c);
        proof {
            assert forall|t: DateTime| t.is_utc() && key(*c) <= key(t) && (r matches Some(n) ==> key(t) < key(n)) implies same_minute(t, *c) by {
                lemma_keys(*c, t);
            }
        }
        r
    }
}

/// The first instant of the second after `c`'s.
fn next_second(c: &DateTime) -> (r: Option<DateTime>)
    requires
        c.is_utc(),
    ensures
        match r {
            Some(n) => whole_second(n) && key(*c) < key(n) && forall|t: DateTime|
                t.is_utc() && key(*c) <= key(t) && key(t) < key(n) ==> same_second(t, *c),
            None => forall|t: DateTime| t.is_utc() && key(*c) <= key(t) ==> same_second(t, *c),
        },
{
    if c.second < 59 {
        let n = DateTime { second: c.second + 1, nanosecond: 0, ..*c };
        proof {
            lemma_keys(*c, n);
            assert forall|t: DateTime| t.is_utc() && key(*c) <= key(t) && key(t) < key(n) implies same_second(t, *c) by {
                lemma_keys(*c, t);
                lemma_keys(t, n);
            }
        }
        Some(n)
    } else {
        let r = start_of_next_minute(c);
        proof {
            assert forall|t: DateTime| t.is_utc() && key(*c) <= key(t) && (r matches Some(n) ==> key(t) < key(n)) implies same_second(t, *c) by {
                lemma_keys(*c, t);
            }
        }
        r
    }
}

// ---------------------------------------------------------------------------
// Backward steps
// ---------------------------------------------------------------------------

/// The last second of a day that the search visits: `23:59:59`, or
/// `23:59:00` when seconds are not searched.
fn last_second(with_seconds: bool) -> (s: u8)
    ensures
        s == (if with_seconds { 59u8 } else { 0u8 }),
{
    if with_seconds { 59 } else { 0 }
}

/// The last visited instant of the day before `c`'s, or `None` before the
/// first representable day.
fn end_of_prev_day(c: &DateTime, with_seconds: bool) -> (r: Option<DateTime>)
    requires
        c.is_utc(),
    ensures
        match r {
            Some(n) => whole_second(n) && shaped(n, with_seconds) && key(n) < key(*c) && forall|t: DateTime|
                t.is_utc() && shaped(t, with_seconds) && key(n) < key(t) && key(t) <= key(*c) ==> same_day(t, *c),
            None => forall|t: DateTime| t.is_utc() && key(t) <= key(*c) ==> same_day(t, *c),
        },
{
    let r = match previous_date(c.year, c.month, c.day) {
        Some((y, m, d)) => Some(DateTime { year: y, month: m, day: d, hour: 23, minute: 59, second: last_second(with_seconds), nanosecond: 0, offset: 0 }),
        None => None,
    };
    proof {
        match r {
            Some(n) => {
                assert(valid_date(n.year as int, n.month as int, n.day as int));
                lemma_keys(*c, n);
                assert forall|t: DateTime| t.is_utc() && shaped(t, with_seconds) && key(n) < key(t) && key(t) <= key(*c) implies same_day(t, *c) by {
                    lemma_keys(*c, t);
                    lemma_keys(t, n);
                }
            },
            None => {
                assert forall|t: DateTime| t.is_utc() && key(t) <= key(*c) implies same_day(t, *c) by {
                    lemma_keys(*c, t);
                }
            },
        }
    }
    r
}

/// The last visited instant of the month before `c`'s.
fn end_of_prev_month(c: &DateTime, with_seconds: bool) -> (r: Option<DateTime>)
    requires
        c.is_utc(),
    ensures
        match r {
            Some(n) => whole_second(n) && shaped(n, with_seconds) && key(n) < key(*c) && forall|t: DateTime|
                t.is_utc() && shaped(t, with_seconds) && key(n) < key(t) && key(t) <= key(*c) ==> same_month(t, *c),
            None => forall|t: DateTime| t.is_utc() && key(t) <= key(*c) ==> same_month(t, *c),
        },
{
    let first = DateTime { day: 1, hour: 0, minute: 0, second: 0, nanosecond: 0, ..*c };
    let r = end_of_prev_day(&first, with_seconds);
    proof {
        lemma_keys(*c, first);
        assert forall|t: DateTime| t.is_utc() && shaped(t, with_seconds) && (r matches Some(n) ==> key(n) < key(t)) && key(t) <= key(*c) implies same_month(t, *c) by {
            lemma_keys(*c, t);
            lemma_keys(first, t);
        }
    }
    r
}

/// The last visited instant of the hour before `c`'s.
fn end_of_prev_hour(c: &DateTime, with_seconds: bool) -> (r: Option<DateTime>)
    requires
        c.is_utc(),
    ensures
        match r {
            Some(n) => whole_second(n) && shaped(n, with_seconds) && key(n) < key(*c) && forall|t: DateTime|
                t.is_utc() && shaped(t, with_seconds) && key(n) < key(t) && key(t) <= key(*c) ==> same_hour(t, *c),
            None => forall|t: DateTime| t.is_utc() && key(t) <= key(*c) ==> same_hour(t, *c),
        },
{
    if c.hour > 0 {
        let n = DateTime { hour: c.hour - 1, minute: 59, second: last_second(with_seconds), nanosecond: 0, ..*c };
        proof {
            lemma_keys(*c, n);
            assert forall|t: DateTime| t.is_utc() && shaped(t, with_seconds) && key(n) < key(t) && key(t) <= key(*c) implies same_hour(t, *c) by {
                lemma_keys(*c, t);
                lemma_keys(t, n);
            }
        }
        Some(n)
    } else {
        let r = end_of_prev_day(c, with_seconds);
        proof {
            assert forall|t: DateTime| t.is_utc() && shaped(t, with_seconds) && (r matches Some(n) ==> key(n) < key(t)) && key(t) <= key(*c) implies same_hour(t, *c) by {
                lemma_keys(*c, t);
            }
        }
        r
    }
}

/// The last visited instant of the minute before `c`'s.
fn prev_minute(c: &DateTime, with_seconds: bool) -> (r: Option<DateTime>)
    requires
        c.is_utc(),
    ensures
        match r {
            Some(n) => whole_second(n) && shaped(n, with_seconds) && key(n) < key(*c) && forall|t: DateTime|
                t.is_utc() && shaped(t, with_seconds) && key(n) < key(t) && key(t) <= key(*c) ==> same_minute(t, *c),
            None => forall|t: DateTime| t.is_utc() && key(t) <= key(*c) ==> same_minute(t, *c),
        },
{
    if c.minute > 0 {
        let n = DateTime { minute: c.minute - 1, second: last_second(with_seconds), nanosecond: 0, ..*c };
        proof {
            lemma_keys(*c, n);
            assert forall|t: DateTime| t.is_utc() && shaped(t, with_seconds) && key(n) < key(t) && key(t) <= key(*c) implies same_minute(t, *c) by {
                lemma_keys(*c, t);
                lemma_keys(t, n);
            }
        }
        Some(n)
    } else {
        let r = end_of_prev_hour(c, with_seconds);
        proof {
            assert forall|t: DateTime| t.is_utc() && shaped(t, with_seconds) && (r matches Some(n) ==> key(n) < key(t)) && key(t) <= key(*c) implies same_minute(t, *c) by {
                lemma_keys(*c, t);
            }
        }
        r
    }
}

/// The second before `c`'s.
fn prev_second(c: &DateTime) -> (r: Option<DateTime>)
    requires
        c.is_utc(),
    ensures
        match r {
            Some(n) => whole_second(n) && key(n) < key(*c) && forall|t: DateTime|
                t.is_utc() && t.nanosecond == 0 && key(n) < key(t) && key(t) <= key(*c) ==> same_second(t, *c),
            None => forall|t: DateTime| t.is_utc() && key(t) <= key(*c) ==> same_second(t, *c),
        },
{
    if c.second > 0 {
        let n = DateTime { second: c.second - 1, nanosecond: 0, ..*c };
        proof {
            lemma_keys(*c, n);
            assert forall|t: DateTime| t.is_utc() && t.nanosecond == 0 && key(n) < key(t) && key(t) <= key(*c) implies same_second(t, *c) by {
                lemma_keys(*c, t);
                lemma_keys(t, n);
            }
        }
        Some(n)
    } else {
        let r = prev_minute(c, true);
        proof {
            assert forall|t: DateTime| t.is_utc() && t.nanosecond == 0 && (r matches Some(n) ==> key(n) < key(t)) && key(t) <= key(*c) implies same_second(t, *c) by {
                lemma_keys(*c, t);
            }
        }
        r
    }
}

// ---------------------------------------------------------------------------
// The search
// ---------------------------------------------------------------------------

/// How many years forward or backward the occurrence search scans before
/// giving up. An expression that never matches within this horizon (for
/// example 30 February) makes [`CronSchedule::next_after`] and
/// [`CronSchedule::prev_before`] return `None`.
pub const SEARCH_HORIZON_YEARS: i32 = 5;

/// A bound on the magnitude of the second key of a representable instant.
pub open spec fn key_bound() -> int {
    130000int * 32 * 24 * 60 * 60
}

/// `n` is the first occurrence of `s` strictly after the UTC instant `from`.
pub open spec fn is_next(s: ScheduleView, from: DateTime, n: DateTime) -> bool {
    &&& n.is_utc()
    &&& is_occurrence(s, n)
    &&& key(from) < key(n)
    &&& forall|t: DateTime| t.is_utc() && is_occurrence(s, t) && key(from) < key(t) ==> key(n) <= key(t)
}

/// `p` is the last occurrence of `s` strictly before the UTC instant `from`.
pub open spec fn is_prev(s: ScheduleView, from: DateTime, p: DateTime) -> bool {
    &&& p.is_utc()
    &&& is_occurrence(s, p)
    &&& key(p) < key(from)
    &&& forall|t: DateTime| t.is_utc() && is_occurrence(s, t) && key(t) < key(from) ==> key(t) <= key(p)
}

/// The first occurrence of `s` strictly after the UTC instant `from`, if it
/// falls no later than [`SEARCH_HORIZON_YEARS`] years after `from`'s year.
pub open spec fn next_within(s: ScheduleView, from: DateTime) -> Option<DateTime> {
    if exists|n: DateTime| #[trigger] is_next(s, from, n) && n.year <= from.year + SEARCH_HORIZON_YEARS {
        Some(choose|n: DateTime| #[trigger] is_next(s, from, n) && n.year <= from.year + SEARCH_HORIZON_YEARS)
    } else {
        None
    }
}

/// The last occurrence of `s` strictly before the UTC instant `from`, if it
/// falls no earlier than [`SEARCH_HORIZON_YEARS`] years before `from`'s year.
pub open spec fn prev_within(s: ScheduleView, from: DateTime) -> Option<DateTime> {
    if exists|p: DateTime| #[trigger] is_prev(s, from, p) && p.year >= from.year - SEARCH_HORIZON_YEARS {
        Some(choose|p: DateTime| #[trigger] is_prev(s, from, p) && p.year >= from.year - SEARCH_HORIZON_YEARS)
    } else {
        None
    }
}

proof fn lemma_second_key_bound(t: DateTime)
    requires
        t.is_utc(),
    ensures
        -key_bound() < second_key(t) < key_bound(),
{
}

/// The first occurrence after `from` is unique.
pub proof fn lemma_next_unique(s: ScheduleView, from: DateTime, a: DateTime, b: DateTime)
    requires
        is_next(s, from, a),
        is_next(s, from, b),
    ensures
        a == b,
{
    lemma_key_injective(a, b);
}

/// The last occurrence before `from` is unique.
pub proof fn lemma_prev_unique(s: ScheduleView, from: DateTime, a: DateTime, b: DateTime)
    requires
        is_prev(s, from, a),
        is_prev(s, from, b),
    ensures
        a == b,
{
    lemma_key_injective(a, b);
}

proof fn lemma_next_found(s: ScheduleView, from: DateTime, n: DateTime)
    requires
        is_next(s, from, n),
        n.year <= from.year + SEARCH_HORIZON_YEARS,
    ensures
        next_within(s, from) == Some(n),
{
    let m = choose|m: DateTime| #[trigger] is_next(s, from, m) && m.year <= from.year + SEARCH_HORIZON_YEARS;
    lemma_next_unique(s, from, n, m);
}

proof fn lemma_next_none(s: ScheduleView, from: DateTime)
    requires
        forall|t: DateTime| t.is_utc() && is_occurrence(s, t) && key(from) < key(t) ==> t.year > from.year + SEARCH_HORIZON_YEARS,
    ensures
        next_within(s, from) is None,
{
    if exists|n: DateTime| #[trigger] is_next(s, from, n) && n.year <= from.year + SEARCH_HORIZON_YEARS {
        let n = choose|n: DateTime| #[trigger] is_next(s, from, n) && n.year <= from.year + SEARCH_HORIZON_YEARS;
        assert(n.is_utc() && is_occurrence(s, n) && key(from) < key(n));
    }
}

proof fn lemma_prev_found(s: ScheduleView, from: DateTime, p: DateTime)
    requires
        is_prev(s, from, p),
        p.year >= from.year - SEARCH_HORIZON_YEARS,
    ensures
        prev_within(s, from) == Some(p),
{
    let m = choose|m: DateTime| #[trigger] is_prev(s, from, m) && m.year >= from.year - SEARCH_HORIZON_YEARS;
    lemma_prev_unique(s, from, p, m);
}

proof fn lemma_prev_none(s: ScheduleView, from: DateTime)
    requires
        forall|t: DateTime| t.is_utc() && is_occurrence(s, t) && key(t) < key(from) ==> t.year < from.year - SEARCH_HORIZON_YEARS,
    ensures
        prev_within(s, from) is None,
{
    if exists|p: DateTime| #[trigger] is_prev(s, from, p) && p.year >= from.year - SEARCH_HORIZON_YEARS {
        let p = choose|p: DateTime| #[trigger] is_prev(s, from, p) && p.year >= from.year - SEARCH_HORIZON_YEARS;
        assert(p.is_utc() && is_occurrence(s, p) && key(p) < key(from));
    }
}

impl CronSchedule {
    /// The first occurrence strictly after `after`, or `None` if no
    /// occurrence exists within the [`SEARCH_HORIZON_YEARS`] (5) year search
    /// horizon. The result is a UTC instant.
    pub fn next_after(&self, after: &DateTime) -> (r: Option<DateTime>)
        requires
            after.wf(),
            to_utc(*after) is Some,
        ensures
            r == next_within(self@, to_utc(*after)->Some_0),
    {
        proof {
            lemma_to_utc_wf(*after);
        }
        let u = match utc_of(after) {
            Some(u) => u,
            None => {
                return None;
            },
        };
        let ghost s = self@;
        let hs = self.has_seconds();
        let second = self.second();
        let minute = self.minute();
        let hour = self.hour();
        let month = self.month();
        let days = self.days();
        let limit: i32 = u.year + SEARCH_HORIZON_YEARS;
        let first = if hs { next_second(&u) } else { start_of_next_minute(&u) };
        let mut c = match first {
            Some(c) => c,
            None => {
                proof {
                    assert forall|t: DateTime| t.is_utc() && is_occurrence(s, t) && key(u) < key(t) implies t.year > limit by {
                        lemma_keys(u, t);
                    }
                    lemma_next_none(s, u);
                }
                return None;
            },
        };
        proof {
            assert forall|t: DateTime| t.is_utc() && is_occurrence(s, t) && key(u) < key(t) implies key(c) <= key(t) by {
                lemma_keys(u, t);
                lemma_keys(c, t);
            }
        }
        loop
            invariant
                s == self@,
                u == to_utc(*after)->Some_0,
                u.is_utc(),
                limit == u.year + SEARCH_HORIZON_YEARS,
                hs == s.has_seconds,
                s.second == second.value_set(),
                s.minute == minute.value_set(),
                s.hour == hour.value_set(),
                s.month == month.value_set(),
                s.days == days@,
                !hs ==> forall|v: int| second.has(v) <==> v == 0,
                c.is_utc(),
                shaped(c, hs),
                key(u) < key(c),
                forall|t: DateTime| t.is_utc() && is_occurrence(s, t) && key(u) < key(t) ==> key(c) <= key(t),
            decreases key_bound() - second_key(c),
        {
            proof {
                lemma_second_key_bound(c);
            }
            if c.year > limit {
                proof {
                    assert forall|t: DateTime| t.is_utc() && is_occurrence(s, t) && key(u) < key(t) implies t.year > limit by {
                        lemma_keys(c, t);
                    }
                    lemma_next_none(s, u);
                }
                return None;
            }
            let step = if !month.contains(c.month) {
                let r = start_of_next_month(&c);
                proof {
                    assert forall|t: DateTime| t.is_utc() && is_occurrence(s, t) && key(u) < key(t) implies (r matches Some(n) ==> key(n) <= key(t)) && r is Some by {
                        lemma_keys(c, t);
                    }
                }
                r
            } else if !days.accepts_day(c.day, weekday_number(c.year, c.month, c.day)) {
                let r = start_of_next_day(&c);
                proof {
                    assert forall|t: DateTime| t.is_utc() && is_occurrence(s, t) && key(u) < key(t) implies (r matches Some(n) ==> key(n) <= key(t)) && r is Some by {
                        lemma_keys(c, t);
                    }
                }
                r
            } else if !hour.contains(c.hour) {
                let r = start_of_next_hour(&c);
                proof {
                    assert forall|t: DateTime| t.is_utc() && is_occurrence(s, t) && key(u) < key(t) implies (r matches Some(n) ==> key(n) <= key(t)) && r is Some by {
                        lemma_keys(c, t);
                    }
                }
                r
            } else if !minute.contains(c.minute) {
                let r = start_of_next_minute(&c);
                proof {
                    assert forall|t: DateTime| t.is_utc() && is_occurrence(s, t) && key(u) < key(t) implies (r matches Some(n) ==> key(n) <= key(t)) && r is Some by {
                        lemma_keys(c, t);
                    }
                }
                r
            } else if hs && !second.contains(c.second) {
                let r = next_second(&c);
                proof {
                    assert forall|t: DateTime| t.is_utc() && is_occurrence(s, t) && key(u) < key(t) implies (r matches Some(n) ==> key(n) <= key(t)) && r is Some by {
                        lemma_keys(c, t);
                    }
                }
                r
            } else {
                proof {
                    assert(is_next(s, u, c));
                    lemma_next_found(s, u, c);
                }
                return Some(c);
            };
            match step {
                Some(n) => {
                    proof {
                        lemma_second_key_bound(n);
                    }
                    c = n;
                },
                None => {
                    proof {
                        lemma_next_none(s, u);
                    }
                    return None;
                },
            }
        }
    }
    /// The last occurrence strictly before `before`, or `None` if no
    /// occurrence exists within the [`SEARCH_HORIZON_YEARS`] (5) year search
    /// horizon. The result is a UTC instant.
    pub fn prev_before(&self, before: &DateTime) -> (r: Option<DateTime>)
        requires
            before.wf(),
            to_utc(*before) is Some,
        ensures
            r == prev_within(self@, to_utc(*before)->Some_0),
    {
        proof {
            lemma_to_utc_wf(*before);
        }
        let u = match utc_of(before) {
            Some(u) => u,
            None => {
                return None;
            },
        };
        let ghost s = self@;
        let hs = self.has_seconds();
        let second = self.second();
        let minute = self.minute();
        let hour = self.hour();
        let month = self.month();
        let days = self.days();
        let limit: i32 = u.year - SEARCH_HORIZON_YEARS;
        let first = if hs {
            if u.nanosecond > 0 {
                Some(DateTime { nanosecond: 0, ..u })
            } else {
                prev_second(&u)
            }
        } else {
            if u.second > 0 || u.nanosecond > 0 {
                Some(DateTime { second: 0, nanosecond: 0, ..u })
            } else {
                prev_minute(&u, false)
            }
        };
        let mut c = match first {
            Some(c) => c,
            None => {
                proof {
                    assert forall|t: DateTime| t.is_utc() && is_occurrence(s, t) && key(t) < key(u) implies t.year < limit by {
                        lemma_keys(u, t);
                    }
                    lemma_prev_none(s, u);
                }
                return None;
            },
        };
        proof {
            lemma_keys(c, u);
            assert forall|t: DateTime| t.is_utc() && is_occurrence(s, t) && key(t) < key(u) implies key(t) <= key(c) by {
                lemma_keys(u, t);
                lemma_keys(c, t);
            }
        }
        loop
            invariant
                s == self@,
                u == to_utc(*before)->Some_0,
                u.is_utc(),
                limit == u.year - SEARCH_HORIZON_YEARS,
                hs == s.has_seconds,
                s.second == second.value_set(),
                s.minute == minute.value_set(),
                s.hour == hour.value_set(),
                s.month == month.value_set(),
                s.days == days@,
                !hs ==> forall|v: int| second.has(v) <==> v == 0,
                c.is_utc(),
                shaped(c, hs),
                key(c) < key(u),
                forall|t: DateTime| t.is_utc() && is_occurrence(s, t) && key(t) < key(u) ==> key(t) <= key(c),
            decreases second_key(c) + key_bound(),
        {
            proof {
                lemma_second_key_bound(c);
            }
            if c.year < limit {
                proof {
                    assert forall|t: DateTime| t.is_utc() && is_occurrence(s, t) && key(t) < key(u) implies t.year < limit by {
                        lemma_keys(c, t);
                    }
                    lemma_prev_none(s, u);
                }
                return None;
            }
            let step = if !month.contains(c.month) {
                let r = end_of_prev_month(&c, hs);
                proof {
                    assert forall|t: DateTime| t.is_utc() && is_occurrence(s, t) && key(t) < key(u) implies (r matches Some(n) ==> key(t) <= key(n)) && r is Some by {
                        assert(shaped(t, hs));
                        lemma_keys(c, t);
                    }
                }
                r
            } else if !days.accepts_day(c.day, weekday_number(c.year, c.month, c.day)) {
                let r = end_of_prev_day(&c, hs);
                proof {
                    assert forall|t: DateTime| t.is_utc() && is_occurrence(s, t) && key(t) < key(u) implies (r matches Some(n) ==> key(t) <= key(n)) && r is Some by {
                        assert(shaped(t, hs));
                        lemma_keys(c, t);
                    }
                }
                r
            } else if !hour.contains(c.hour) {
                let r = end_of_prev_hour(&c, hs);
                proof {
                    assert forall|t: DateTime| t.is_utc() && is_occurrence(s, t) && key(t) < key(u) implies (r matches Some(n) ==> key(t) <= key(n)) && r is Some by {
                        assert(shaped(t, hs));
                        lemma_keys(c, t);
                    }
                }
                r
            } else if !minute.contains(c.minute) {
                let r = prev_minute(&c, hs);
                proof {
                    assert forall|t: DateTime| t.is_utc() && is_occurrence(s, t) && key(t) < key(u) implies (r matches Some(n) ==> key(t) <= key(n)) && r is Some by {
                        assert(shaped(t, hs));
                        lemma_keys(c, t);
                    }
                }
                r
            } else if hs && !second.contains(c.second) {
                let r = prev_second(&c);
                proof {
                    assert forall|t: DateTime| t.is_utc() && is_occurrence(s, t) && key(t) < key(u) implies (r matches Some(n) ==> key(t) <= key(n)) && r is Some by {
                        lemma_keys(c, t);
                    }
                }
                r
            } else {
                proof {
                    assert(is_prev(s, u, c));
                    lemma_prev_found(s, u, c);
                }
                return Some(c);
            };
            match step {
                Some(n) => {
                    proof {
                        lemma_second_key_bound(n);
                    }
                    c = n;
                },
                None => {
                    proof {
                        lemma_prev_none(s, u);
                    }
                    return None;
                },
            }
        }
    }
    /// The signed number of nanoseconds from `from` until the next
    /// occurrence, or `None` if no occurrence exists within the search
    /// horizon.
    pub fn time_until_next(&self, from: &DateTime) -> (r: Option<i128>)
        requires
            from.wf(),
            to_utc(*from) is Some,
        ensures
            r == match next_within(self@, to_utc(*from)->Some_0) {
                Some(n) => Some((n.unix_nanoseconds() - from.unix_nanoseconds()) as i128),
                None => None,
            },
            r matches Some(d) ==> d > 0,
    {
        match self.next_after(from) {
            Some(n) => {
                let later = unix_timestamp_nanos(&n);
                let earlier = unix_timestamp_nanos(from);
                proof {
                    lemma_unix_nanoseconds_bound(n);
                    lemma_unix_nanoseconds_bound(*from);
                    lemma_to_utc_wf(*from);
                    lemma_to_utc_same_instant(*from);
                    lemma_key_is_time_order(to_utc(*from)->Some_0, n);
                }
                Some(later - earlier)
            },
            None => None,
        }
    }
}

// ---------------------------------------------------------------------------
// Laws
// ---------------------------------------------------------------------------

/// Schedules that compare equal find the same next and previous
/// occurrences from every instant.
pub proof fn lemma_equal_schedules_same_search(a: ScheduleView, b: ScheduleView, from: DateTime)
    requires
        same_instants(a, b),
    ensures
        next_within(a, from) == next_within(b, from),
        prev_within(a, from) == prev_within(b, from),
{
    assert forall|n: DateTime| is_next(a, from, n) == is_next(b, from, n) by {}
    assert forall|n: DateTime| is_prev(a, from, n) == is_prev(b, from, n) by {}
    if let Some(n) = next_within(a, from) {
        lemma_next_found(b, from, n);
    } else if let Some(n) = next_within(b, from) {
        lemma_next_found(a, from, n);
    }
    if let Some(p) = prev_within(a, from) {
        lemma_prev_found(b, from, p);
    } else if let Some(p) = prev_within(b, from) {
        lemma_prev_found(a, from, p);
    }
}

/// The next occurrence after an instant is strictly later, so successive
/// searches from the last result yield strictly increasing occurrences.
pub proof fn lemma_next_is_later(s: ScheduleView, from: DateTime)
    requires
        next_within(s, from) is Some,
    ensures
        key(from) < key(next_within(s, from)->Some_0),
        is_occurrence(s, next_within(s, from)->Some_0),
        next_within(s, from)->Some_0.is_utc(),
{
}

/// `p` comes right before `t`: no UTC instant lies strictly between them.
pub open spec fn right_before(p: DateTime, t: DateTime) -> bool {
    &&& key(p) < key(t)
    &&& forall|w: DateTime| w.is_utc() ==> !(key(p) < key(w) && key(w) < key(t))
}

/// An instant is an occurrence exactly when the search from the instant
/// right before it finds it.
pub proof fn lemma_match_is_next_from_previous(s: ScheduleView, p: DateTime, t: DateTime)
    requires
        p.is_utc(),
        t.is_utc(),
        right_before(p, t),
    ensures
        is_occurrence(s, t) == (next_within(s, p) == Some(t)),
{
    if t.year > p.year + 1 {
        let w = DateTime { year: (p.year + 1) as i32, month: 1, day: 1, hour: 0, minute: 0, second: 0, nanosecond: 0, offset: 0 };
        lemma_keys(p, w);
        lemma_keys(w, t);
        assert(w.is_utc());
        assert(false);
    }
    if is_occurrence(s, t) {
        assert forall|u: DateTime| u.is_utc() && is_occurrence(s, u) && key(p) < key(u) implies key(t) <= key(u) by {}
        assert(is_next(s, p, t));
        lemma_next_found(s, p, t);
    } else if next_within(s, p) == Some(t) {
        lemma_next_is_later(s, p);
    }
}

/// The search in terms of time: the next occurrence is later than the
/// instant searched from, and no occurrence lies in between.
pub proof fn lemma_next_is_earliest_in_time(s: ScheduleView, from: DateTime, n: DateTime)
    requires
        from.is_utc(),
        is_next(s, from, n),
    ensures
        from.unix_nanoseconds() < n.unix_nanoseconds(),
        forall|t: DateTime| t.is_utc() && is_occurrence(s, t) && from.unix_nanoseconds() < t.unix_nanoseconds()
            ==> n.unix_nanoseconds() <= t.unix_nanoseconds(),
{
    lemma_key_is_time_order(from, n);
    assert forall|t: DateTime| t.is_utc() && is_occurrence(s, t) && from.unix_nanoseconds() < t.unix_nanoseconds()
        implies n.unix_nanoseconds() <= t.unix_nanoseconds() by {
        lemma_key_is_time_order(from, t);
        lemma_key_is_time_order(n, t);
    }
}

/// The search backward in terms of time: the previous occurrence is earlier
/// than the instant searched from, and no occurrence lies in between.
pub proof fn lemma_prev_is_latest_in_time(s: ScheduleView, from: DateTime, p: DateTime)
    requires
        from.is_utc(),
        is_prev(s, from, p),
    ensures
        p.unix_nanoseconds() < from.unix_nanoseconds(),
        forall|t: DateTime| t.is_utc() && is_occurrence(s, t) && t.unix_nanoseconds() < from.unix_nanoseconds()
            ==> t.unix_nanoseconds() <= p.unix_nanoseconds(),
{
    lemma_key_is_time_order(p, from);
    assert forall|t: DateTime| t.is_utc() && is_occurrence(s, t) && t.unix_nanoseconds() < from.unix_nanoseconds()
        implies t.unix_nanoseconds() <= p.unix_nanoseconds() by {
        lemma_key_is_time_order(t, from);
        lemma_key_is_time_order(t, p);
    }
}

} // verus!
