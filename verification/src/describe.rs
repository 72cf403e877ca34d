//! Deterministic English description of a cron schedule.
use vstd::prelude::*;

use crate::day_filter::{covers, DayFilter, DaysView};
use crate::expression::{is_kind, same_instants, CronSchedule, ScheduleView};
use crate::field::{ascending_below, FieldKind, FieldSchedule};
use crate::text::{
    is_digit, starts_with, chars_join, chars_of, decimal, decimal_chars, join, push_all, push_str, string_from_chars,
    two_digit_chars, two_digits, views,
};

verus! {

/// The weekday names, Sunday first.
pub open spec fn weekday_names() -> Seq<Seq<char>> {
    seq!["Sunday"@, "Monday"@, "Tuesday"@, "Wednesday"@, "Thursday"@, "Friday"@, "Saturday"@]
}

/// The month names, January first.
pub open spec fn month_names() -> Seq<Seq<char>> {
    seq![
        "January"@, "February"@, "March"@, "April"@, "May"@, "June"@,
        "July"@, "August"@, "September"@, "October"@, "November"@, "December"@,
    ]
}

/// The values of a set in ascending order.
pub open spec fn sorted(set: Set<int>) -> Seq<int> {
    ascending_below(set, 64)
}

/// Each value rendered in decimal.
pub open spec fn numbers(values: Seq<int>) -> Seq<Seq<char>> {
    values.map_values(|v: int| decimal(v as nat))
}

/// The name of `value` in a table whose first entry names `offset`
/// (counting from `0` below it), or its decimal rendering when the table has
/// no such entry.
pub open spec fn name_of(value: int, names: Seq<Seq<char>>, offset: int) -> Seq<char> {
    let index = if value >= offset { value - offset } else { 0 };
    if index < names.len() { names[index] } else { decimal(value as nat) }
}

/// Each value rendered by name.
pub open spec fn named(values: Seq<int>, names: Seq<Seq<char>>, offset: int) -> Seq<Seq<char>> {
    values.map_values(|v: int| name_of(v, names, offset))
}

/// `a`, `a and b`, `a, b and c`, ...
pub open spec fn join_with_and(parts: Seq<Seq<char>>) -> Seq<char> {
    if parts.len() == 0 {
        Seq::empty()
    } else if parts.len() == 1 {
        parts[0]
    } else {
        join(parts.drop_last(), ", "@) + " and "@ + parts.last()
    }
}

/// The clause on minutes and hours.
pub open spec fn time_clause(minute: Set<int>, hour: Set<int>) -> Seq<char> {
    let minutes = sorted(minute);
    let hours = sorted(hour);
    let minute_full = covers(minute, FieldKind::Minute);
    let hour_full = covers(hour, FieldKind::Hour);
    if minute_full && hour_full {
        "every minute"@
    } else if minutes.len() == 1 && hours.len() == 1 {
        "at "@ + two_digits(hours[0] as nat) + ":"@ + two_digits(minutes[0] as nat)
    } else if hour_full {
        "at minute "@ + join_with_and(numbers(minutes)) + " of every hour"@
    } else if minute_full {
        "every minute past hour "@ + join_with_and(numbers(hours))
    } else {
        "at minute "@ + join_with_and(numbers(minutes)) + " past hour "@ + join_with_and(numbers(hours))
    }
}

/// The clause on days.
pub open spec fn day_clause(days: DaysView) -> Seq<char> {
    match days {
        DaysView::EveryDay => "every day"@,
        DaysView::DayOfMonth(d) => "on day "@ + join_with_and(numbers(sorted(d))) + " of the month"@,
        DaysView::DayOfWeek(w) => "on "@ + join_with_and(named(sorted(w), weekday_names(), 0)),
        DaysView::Union(d, w) => "on day "@ + join_with_and(numbers(sorted(d))) + " of the month or on "@
            + join_with_and(named(sorted(w), weekday_names(), 0)),
    }
}

/// The clause on months: empty when every month is accepted.
pub open spec fn month_clause(month: Set<int>) -> Seq<char> {
    if covers(month, FieldKind::Month) {
        Seq::empty()
    } else {
        " in "@ + join_with_and(named(sorted(month), month_names(), 1))
    }
}

/// The English description of a schedule.
pub open spec fn description(s: ScheduleView) -> Seq<char> {
    time_clause(s.minute, s.hour) + " "@ + day_clause(s.days) + month_clause(s.month)
}

/// `a`, `a and b`, `a, b and c`, ...
fn and_list(parts: &Vec<Vec<char>>) -> (out: Vec<char>)
    ensures
        out@ == join_with_and(views(parts@)),
{
    let n = parts.len();
    if n == 0 {
        Vec::new()
    } else if n == 1 {
        let mut out: Vec<char> = Vec::new();
        push_all(&mut out, parts[0].as_slice());
        out
    } else {
        let head = &parts.as_slice()[0..n - 1];
        let comma = chars_of(", ");
        let mut out = chars_join(head, comma.as_slice());
        push_str(&mut out, " and ");
        push_all(&mut out, parts[n - 1].as_slice());
        proof {
            assert(views(head@) =~= views(parts@).drop_last());
        }
        out
    }
}

/// Each value rendered in decimal.
fn number_parts(values: &Vec<u8>) -> (out: Vec<Vec<char>>)
    ensures
        views(out@) == numbers(values@.map_values(|v: u8| v as int)),
{
    let mut out: Vec<Vec<char>> = Vec::new();
    let mut i: usize = 0;
    while i < values.len()
        invariant
            i <= values.len(),
            out@.len() == i,
            forall|j: int| 0 <= j < i ==> (#[trigger] out@[j])@ == decimal(values@[j] as nat),
        decreases values.len() - i,
    {
        out.push(decimal_chars(values[i] as u64));
        i = i + 1;
    }
    assert(views(out@) =~= numbers(values@.map_values(|v: u8| v as int)));
    out
}

/// Each value rendered by name.
fn named_parts(values: &Vec<u8>, names: &Vec<Vec<char>>, offset: u8) -> (out: Vec<Vec<char>>)
    ensures
        views(out@) == named(values@.map_values(|v: u8| v as int), views(names@), offset as int),
{
    let mut out: Vec<Vec<char>> = Vec::new();
    let mut i: usize = 0;
    while i < values.len()
        invariant
            i <= values.len(),
            out@.len() == i,
            forall|j: int| 0 <= j < i ==> (#[trigger] out@[j])@ == name_of(values@[j] as int, views(names@), offset as int),
        decreases values.len() - i,
    {
        let v = values[i];
        let index: usize = if v >= offset { (v - offset) as usize } else { 0 };
        let part = if index < names.len() {
            let mut p: Vec<char> = Vec::new();
            push_all(&mut p, names[index].as_slice());
            p
        } else {
            decimal_chars(v as u64)
        };
        out.push(part);
        i = i + 1;
    }
    assert(views(out@) =~= named(values@.map_values(|v: u8| v as int), views(names@), offset as int));
    out
}

/// The weekday names, Sunday first.
fn weekday_table() -> (t: Vec<Vec<char>>)
    ensures
        views(t@) == weekday_names(),
{
    let t = vec![
        chars_of("Sunday"), chars_of("Monday"), chars_of("Tuesday"), chars_of("Wednesday"),
        chars_of("Thursday"), chars_of("Friday"), chars_of("Saturday"),
    ];
    assert(views(t@) =~= weekday_names());
    t
}

/// The month names, January first.
fn month_table() -> (t: Vec<Vec<char>>)
    ensures
        views(t@) == month_names(),
{
    let t = vec![
        chars_of("January"), chars_of("February"), chars_of("March"), chars_of("April"),
        chars_of("May"), chars_of("June"), chars_of("July"), chars_of("August"),
        chars_of("September"), chars_of("October"), chars_of("November"), chars_of("December"),
    ];
    assert(views(t@) =~= month_names());
    t
}

/// Whether a schedule of `kind` holds its whole range.
fn full(f: FieldSchedule, kind: FieldKind) -> (b: bool)
    requires
        is_kind(f, kind),
    ensures
        b == covers(f.value_set(), kind),
{
    let b = f.is_full();
    proof {
        if b {
            assert forall|v: int| kind.spec_min() <= v <= kind.spec_max() implies f.value_set().contains(v) by {
                assert(f.has(v));
            }
        } else {
            let w = choose|w: int| f.lo() <= w <= f.hi() && !f.has(w);
            assert(!f.value_set().contains(w));
        }
    }
    b
}

/// The values of a field, rendered in decimal and joined.
fn join_numbers(f: FieldSchedule) -> (out: Vec<char>)
    ensures
        out@ == join_with_and(numbers(sorted(f.value_set()))),
{
    let values = f.values();
    let parts = number_parts(&values);
    and_list(&parts)
}

/// The values of a field, rendered by name and joined.
fn join_named(f: FieldSchedule, names: &Vec<Vec<char>>, offset: u8) -> (out: Vec<char>)
    ensures
        out@ == join_with_and(named(sorted(f.value_set()), views(names@), offset as int)),
{
    let values = f.values();
    let parts = named_parts(&values, names, offset);
    and_list(&parts)
}

fn time_clause_chars(minute: FieldSchedule, hour: FieldSchedule) -> (out: Vec<char>)
    requires
        is_kind(minute, FieldKind::Minute),
        is_kind(hour, FieldKind::Hour),
    ensures
        out@ == time_clause(minute.value_set(), hour.value_set()),
{
    let minutes = minute.values();
    let hours = hour.values();
    let minute_full = full(minute, FieldKind::Minute);
    let hour_full = full(hour, FieldKind::Hour);
    let ghost ms = sorted(minute.value_set());
    let ghost hs = sorted(hour.value_set());
    assert(minutes@.len() == ms.len() && hours@.len() == hs.len());
    if minute_full && hour_full {
        chars_of("every minute")
    } else if minutes.len() == 1 && hours.len() == 1 {
        assert(hs[0] == hours@[0] as int && ms[0] == minutes@[0] as int);
        let mut out = chars_of("at ");
        let hh = two_digit_chars(hours[0] as u64);
        push_all(&mut out, hh.as_slice());
        push_str(&mut out, ":");
        let mm = two_digit_chars(minutes[0] as u64);
        push_all(&mut out, mm.as_slice());
        out
    } else if hour_full {
        let mut out = chars_of("at minute ");
        let m = join_numbers(minute);
        push_all(&mut out, m.as_slice());
        push_str(&mut out, " of every hour");
        out
    } else if minute_full {
        let mut out = chars_of("every minute past hour ");
        let h = join_numbers(hour);
        push_all(&mut out, h.as_slice());
        out
    } else {
        let mut out = chars_of("at minute ");
        let m = join_numbers(minute);
        push_all(&mut out, m.as_slice());
        push_str(&mut out, " past hour ");
        let h = join_numbers(hour);
        push_all(&mut out, h.as_slice());
        out
    }
}

fn day_clause_chars(days: DayFilter) -> (out: Vec<char>)
    ensures
        out@ == day_clause(days@),
{
    match days {
        DayFilter::EveryDay => chars_of("every day"),
        DayFilter::DayOfMonth(d) => {
            let mut out = chars_of("on day ");
            let n = join_numbers(d);
            push_all(&mut out, n.as_slice());
            push_str(&mut out, " of the month");
            out
        },
        DayFilter::DayOfWeek(w) => {
            let mut out = chars_of("on ");
            let names = weekday_table();
            let n = join_named(w, &names, 0);
            push_all(&mut out, n.as_slice());
            out
        },
        DayFilter::Union { day_of_month, day_of_week } => {
            let mut out = chars_of("on day ");
            let n = join_numbers(day_of_month);
            push_all(&mut out, n.as_slice());
            push_str(&mut out, " of the month or on ");
            let names = weekday_table();
            let w = join_named(day_of_week, &names, 0);
            push_all(&mut out, w.as_slice());
            out
        },
    }
}

fn month_clause_chars(month: FieldSchedule) -> (out: Vec<char>)
    requires
        is_kind(month, FieldKind::Month),
    ensures
        out@ == month_clause(month.value_set()),
{
    if full(month, FieldKind::Month) {
        Vec::new()
    } else {
        let mut out = chars_of(" in ");
        let names = month_table();
        let n = join_named(month, &names, 1);
        push_all(&mut out, n.as_slice());
        out
    }
}

impl CronSchedule {
    /// An English human-readable description of the schedule.
    ///
    /// List fields are enumerated value by value: a range such as `MON-FRI`
    /// is spelled out as `Monday, Tuesday, Wednesday, Thursday and Friday`,
    /// not compacted back into a range. The wording is meant for display; do
    /// not parse it.
    pub fn describe(&self) -> (s: String)
        ensures
            s@ == description(self@),
    {
        let mut out = time_clause_chars(self.minute(), self.hour());
        push_str(&mut out, " ");
        let d = day_clause_chars(self.days());
        push_all(&mut out, d.as_slice());
        let m = month_clause_chars(self.month());
        push_all(&mut out, m.as_slice());
        string_from_chars(out.as_slice())
    }
}

/// Schedules that compare equal read the same: the description depends only
/// on what equality compares.
pub proof fn lemma_equal_schedules_same_description(a: ScheduleView, b: ScheduleView)
    requires
        same_instants(a, b),
    ensures
        description(a) == description(b),
{
}

/// The ascending values below `n` of a one-value set.
proof fn lemma_ascending_single(m: int, n: int)
    requires
        0 <= m,
        0 <= n,
    ensures
        ascending_below(set![m], n) == (if m < n { seq![m] } else { Seq::<int>::empty() }),
    decreases n,
{
    if n > 0 {
        lemma_ascending_single(m, n - 1);
        if n - 1 == m {
            assert(Seq::<int>::empty().push(m) =~= seq![m]);
        }
    }
}

/// A value of the set below `n` is among its ascending values below `n`.
proof fn lemma_ascending_contains(set: Set<int>, n: int, v: int)
    requires
        0 <= v < n,
        set.contains(v),
    ensures
        ascending_below(set, n).contains(v),
    decreases n,
{
    if v < n - 1 {
        lemma_ascending_contains(set, n - 1, v);
        let s0 = ascending_below(set, n - 1);
        let i = choose|i: int| 0 <= i < s0.len() && s0[i] == v;
        if set.contains(n - 1) {
            assert(s0.push(n - 1)[i] == v);
        }
    } else {
        let s0 = ascending_below(set, n - 1);
        assert(s0.push(n - 1)[s0.len() as int] == v);
    }
}

/// A set with two values below 64 has at least two sorted values.
proof fn lemma_sorted_two(set: Set<int>, a: int, b: int)
    requires
        0 <= a < 64,
        0 <= b < 64,
        a != b,
        set.contains(a),
        set.contains(b),
    ensures
        sorted(set).len() != 1,
{
    lemma_ascending_contains(set, 64, a);
    lemma_ascending_contains(set, 64, b);
}

/// A description names a clock time when it opens with `at ` and a digit.
pub open spec fn names_clock_time(text: Seq<char>) -> bool {
    starts_with(text, "at "@) && text.len() > 3 && is_digit(text[3])
}

/// A schedule that fires at a single minute of a single hour is described by
/// that clock time, `at HH:MM`, followed by its day clause.
pub proof fn lemma_single_time_description(s: ScheduleView, h: int, m: int)
    requires
        s.hour == set![h],
        s.minute == set![m],
        0 <= h < 24,
        0 <= m < 60,
    ensures
        starts_with(description(s), "at "@ + two_digits(h as nat) + ":"@ + two_digits(m as nat) + " "@),
{
    lemma_ascending_single(h, 64);
    lemma_ascending_single(m, 64);
    if covers(s.minute, FieldKind::Minute) {
        assert(s.minute.contains(0) && s.minute.contains(1));
    }
    let p = "at "@ + two_digits(h as nat) + ":"@ + two_digits(m as nat) + " "@;
    assert(description(s).take(p.len() as int) =~= p);
}

/// A schedule that fires at a single minute of every hour is described as
/// `at minute M of every hour`, followed by its day clause.
pub proof fn lemma_minute_of_every_hour(s: ScheduleView, m: int)
    requires
        s.minute == set![m],
        0 <= m < 60,
        covers(s.hour, FieldKind::Hour),
    ensures
        starts_with(description(s), "at minute "@ + decimal(m as nat) + " of every hour "@),
{
    lemma_ascending_single(m, 64);
    assert(s.hour.contains(0) && s.hour.contains(1));
    lemma_sorted_two(s.hour, 0, 1);
    assert(sorted(s.minute) == seq![m]);
    if covers(s.minute, FieldKind::Minute) {
        assert(s.minute.contains(0) && s.minute.contains(1));
    }
    assert(numbers(sorted(s.minute)) =~= seq![decimal(m as nat)]);
    assert(join_with_and(numbers(sorted(s.minute))) == decimal(m as nat));
    assert(!covers(s.minute, FieldKind::Minute));
    assert(sorted(s.hour).len() != 1);
    assert(time_clause(s.minute, s.hour) == "at minute "@ + decimal(m as nat) + " of every hour"@);
    let p = "at minute "@ + decimal(m as nat) + " of every hour "@;
    reveal_strlit(" of every hour ");
    reveal_strlit(" of every hour");
    reveal_strlit(" ");
    assert(description(s).take(p.len() as int) =~= p);
}

/// A description names a clock time only when the schedule fires at one
/// hour and one minute: with two accepted hours, or two accepted minutes,
/// it does not.
pub proof fn lemma_clock_time_needs_one_hour_and_minute(s: ScheduleView)
    requires
        forall|v: int| s.minute.contains(v) ==> 0 <= v < 60,
        forall|v: int| s.hour.contains(v) ==> 0 <= v < 24,
    ensures
        (exists|a: int, b: int| a != b && s.hour.contains(a) && s.hour.contains(b)) ==> !names_clock_time(description(s)),
        (exists|a: int, b: int| a != b && s.minute.contains(a) && s.minute.contains(b)) ==> !names_clock_time(description(s)),
{
    reveal_strlit("at ");
    reveal_strlit("every minute");
    reveal_strlit("at minute ");
    reveal_strlit("every minute past hour ");
    let d = description(s);
    let tc = time_clause(s.minute, s.hour);
    let two_hours = exists|a: int, b: int| a != b && s.hour.contains(a) && s.hour.contains(b);
    let two_minutes = exists|a: int, b: int| a != b && s.minute.contains(a) && s.minute.contains(b);
    if two_hours {
        let (a, b) = choose|a: int, b: int| a != b && s.hour.contains(a) && s.hour.contains(b);
        lemma_sorted_two(s.hour, a, b);
    }
    if two_minutes {
        let (a, b) = choose|a: int, b: int| a != b && s.minute.contains(a) && s.minute.contains(b);
        lemma_sorted_two(s.minute, a, b);
    }
    if two_hours || two_minutes {
        assert(tc.len() > 3);
        assert(d[3] == tc[3]);
        assert(d.take(3) == tc.take(3));
        assert(!names_clock_time(d));
    }
}

} // verus!
