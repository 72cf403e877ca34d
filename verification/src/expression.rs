//! A parsed cron schedule and its parsing entry point.
use vstd::prelude::*;

use crate::calendar::{lemma_to_utc_wf, to_utc, utc_of, weekday_number, weekday_of, DateTime};
use crate::day_filter::{accepts, canonical_days, DayFilter, DaysView};
use crate::error::{CronError, CronErrorView};
use crate::field::{
    field_bits, list_bits, name_index, numeric_value, part_bits, range_bounds, resolved_value, stepped,
    FieldKind, FieldSchedule,
};
use crate::text::{
    lemma_join_ends, lemma_trim_join, lemma_words_of_join, lemma_words_solid, lower, chars_eq_str, chars_join, chars_lower, chars_of, chars_trim, chars_words, digits_value,
    is_canonical_decimal, is_space, join, lemma_leading_space, lemma_trailing_space, lower_all, split_on,
    string_from_chars, trim, views, words,
};

verus! {

/// The mathematical content of a schedule: the accepted seconds, minutes,
/// hours and months, the effective day restriction, whether the expression
/// carried a seconds field, and its normalised text.
pub ghost struct ScheduleView {
    pub second: Set<int>,
    pub minute: Set<int>,
    pub hour: Set<int>,
    pub month: Set<int>,
    pub days: DaysView,
    pub has_seconds: bool,
    pub text: Seq<char>,
}

/// The expression a macro stands for, if `name` (already lowercased) is one.
pub open spec fn macro_body(name: Seq<char>) -> Option<Seq<char>> {
    if name == "@yearly"@ || name == "@annually"@ {
        Some("0 0 1 1 *"@)
    } else if name == "@monthly"@ {
        Some("0 0 1 * *"@)
    } else if name == "@weekly"@ {
        Some("0 0 * * 0"@)
    } else if name == "@daily"@ || name == "@midnight"@ {
        Some("0 0 * * *"@)
    } else if name == "@hourly"@ {
        Some("0 * * * *"@)
    } else {
        None
    }
}

/// The expression with a macro (matched ignoring ASCII case) replaced by its
/// five fields.
pub open spec fn expand_macro(expression: Seq<char>) -> Seq<char> {
    match macro_body(lower_all(expression)) {
        Some(body) => body,
        None => expression,
    }
}

/// A field token that is exactly `*`.
pub open spec fn is_star(token: Seq<char>) -> bool {
    token == seq!['*']
}

/// The schedule an expression denotes, or the error that parsing reports:
/// the expression is trimmed, a macro is expanded, and it must then hold five
/// fields (`minute hour day-of-month month day-of-week`) or six with a
/// leading seconds field.
pub open spec fn schedule_of(expression: Seq<char>) -> Result<ScheduleView, CronErrorView> {
    let trimmed = trim(expression);
    if trimmed.len() == 0 {
        Err(CronErrorView::EmptyExpression)
    } else {
        let fields = words(expand_macro(trimmed));
        if fields.len() != 5 && fields.len() != 6 {
            Err(CronErrorView::WrongFieldCount { found: fields.len() })
        } else {
            schedule_of_fields(fields)
        }
    }
}

/// The schedule five or six field tokens denote, or the error of the first
/// malformed field in the order second, minute, hour, day-of-month, month,
/// day-of-week. A five-field expression fires at second `0`.
pub open spec fn schedule_of_fields(fields: Seq<Seq<char>>) -> Result<ScheduleView, CronErrorView> {
    let with_seconds = fields.len() == 6;
    let o: int = if with_seconds { 1 } else { 0 };
    let second_token = if with_seconds { fields[0] } else { seq!['0'] };
    match field_bits(second_token, FieldKind::Second) {
        Err(e) => Err(e),
        Ok(second) => match field_bits(fields[o], FieldKind::Minute) {
            Err(e) => Err(e),
            Ok(minute) => match field_bits(fields[o + 1], FieldKind::Hour) {
                Err(e) => Err(e),
                Ok(hour) => match field_bits(fields[o + 2], FieldKind::DayOfMonth) {
                    Err(e) => Err(e),
                    Ok(dom) => match field_bits(fields[o + 3], FieldKind::Month) {
                        Err(e) => Err(e),
                        Ok(month) => match field_bits(fields[o + 4], FieldKind::DayOfWeek) {
                            Err(e) => Err(e),
                            Ok(dow) => Ok(
                                ScheduleView {
                                    second,
                                    minute,
                                    hour,
                                    month,
                                    days: canonical_days(
                                        if is_star(fields[o + 2]) { None } else { Some(dom) },
                                        if is_star(fields[o + 4]) { None } else { Some(dow) },
                                    ),
                                    has_seconds: with_seconds,
                                    text: join(fields, seq![' ']),
                                },
                            ),
                        },
                    },
                },
            },
        },
    }
}

/// Whether the UTC instant `t` is an occurrence of `s`: a whole second whose
/// second, minute, hour and month are accepted, on an accepted day.
pub open spec fn is_occurrence(s: ScheduleView, t: DateTime) -> bool {
    &&& t.nanosecond == 0
    &&& s.second.contains(t.second as int)
    &&& s.minute.contains(t.minute as int)
    &&& s.hour.contains(t.hour as int)
    &&& s.month.contains(t.month as int)
    &&& accepts(s.days, t.day as int, weekday_of(t.year as int, t.month as int, t.day as int))
}

/// Two schedules impose the same instants component by component: the same
/// seconds, minutes, hours and months and the same effective day
/// restriction. How the expression was written (its text, and whether it
/// carried a seconds field) does not enter.
pub open spec fn same_instants(a: ScheduleView, b: ScheduleView) -> bool {
    &&& a.second == b.second
    &&& a.minute == b.minute
    &&& a.hour == b.hour
    &&& a.month == b.month
    &&& a.days == b.days
}

/// A parsed cron schedule, evaluated in strict UTC.
///
/// Build one with [`CronSchedule::parse`]. Two schedules are equal when they
/// impose the same instants component by component: the same sets of
/// seconds, minutes, hours and months and the same effective day filter; the
/// spelling of the expression never enters the comparison.
#[derive(Debug)]
pub struct CronSchedule {
    second: FieldSchedule,
    minute: FieldSchedule,
    hour: FieldSchedule,
    month: FieldSchedule,
    days: DayFilter,
    has_seconds: bool,
    normalized: String,
}

/// A schedule of `kind`'s range.
pub open spec fn is_kind(f: FieldSchedule, kind: FieldKind) -> bool {
    f.wf() && f.lo() == kind.spec_min() && f.hi() == kind.spec_max()
}

impl CronSchedule {
    /// The fields hold the ranges of their kinds, and a schedule without a
    /// seconds field fires at second `0` only.
    #[verifier::type_invariant]
    pub closed spec fn inv(self) -> bool {
        &&& is_kind(self.second, FieldKind::Second)
        &&& is_kind(self.minute, FieldKind::Minute)
        &&& is_kind(self.hour, FieldKind::Hour)
        &&& is_kind(self.month, FieldKind::Month)
        &&& self.days.wf()
        &&& (!self.has_seconds ==> forall|v: int| self.second.has(v) <==> v == 0)
    }

    /// The accepted seconds.
    pub closed spec fn second_field(self) -> FieldSchedule {
        self.second
    }

    /// The accepted minutes.
    pub closed spec fn minute_field(self) -> FieldSchedule {
        self.minute
    }

    /// The accepted hours.
    pub closed spec fn hour_field(self) -> FieldSchedule {
        self.hour
    }

    /// The accepted months.
    pub closed spec fn month_field(self) -> FieldSchedule {
        self.month
    }

    /// The effective day restriction.
    pub closed spec fn day_filter(self) -> DayFilter {
        self.days
    }

    /// Whether the expression carried a seconds field.
    pub closed spec fn seconds_given(self) -> bool {
        self.has_seconds
    }

    /// The normalised expression text.
    pub closed spec fn text(self) -> Seq<char> {
        self.normalized@
    }
}

impl View for CronSchedule {
    type V = ScheduleView;

    open spec fn view(&self) -> ScheduleView {
        ScheduleView {
            second: self.second_field().value_set(),
            minute: self.minute_field().value_set(),
            hour: self.hour_field().value_set(),
            month: self.month_field().value_set(),
            days: self.day_filter()@,
            has_seconds: self.seconds_given(),
            text: self.text(),
        }
    }
}

impl Clone for CronSchedule {
    fn clone(&self) -> (r: Self)
        ensures
            r@ == self@,
    {
        proof { use_type_invariant(self); }
        CronSchedule {
            second: self.second,
            minute: self.minute,
            hour: self.hour,
            month: self.month,
            days: self.days,
            has_seconds: self.has_seconds,
            normalized: self.normalized.clone(),
        }
    }
}

/// The expression with a macro replaced by its fields.
fn expand(expression: &[char]) -> (out: Vec<char>)
    ensures
        out@ == expand_macro(expression@),
{
    let lowered = chars_lower(expression);
    let l = lowered.as_slice();
    if chars_eq_str(l, "@yearly") || chars_eq_str(l, "@annually") {
        chars_of("0 0 1 1 *")
    } else if chars_eq_str(l, "@monthly") {
        chars_of("0 0 1 * *")
    } else if chars_eq_str(l, "@weekly") {
        chars_of("0 0 * * 0")
    } else if chars_eq_str(l, "@daily") || chars_eq_str(l, "@midnight") {
        chars_of("0 0 * * *")
    } else if chars_eq_str(l, "@hourly") {
        chars_of("0 * * * *")
    } else {
        let mut out: Vec<char> = Vec::new();
        crate::text::push_all(&mut out, expression);
        out
    }
}

/// Whether a token is exactly `*`.
fn token_is_star(token: &[char]) -> (b: bool)
    ensures
        b == is_star(token@),
{
    if token.len() == 1 && token[0] == '*' {
        assert(token@ =~= seq!['*']);
        true
    } else {
        false
    }
}

/// The seconds of a five-field expression: second `0` only.
proof fn lemma_zero_seconds()
    ensures
        field_bits(seq!['0'], FieldKind::Second) == Ok::<Set<int>, CronErrorView>(set![0int]),
{
    let t = seq!['0'];
    reveal(split_on);
    crate::text::lemma_index_of_none(t, ',');
    assert(split_on(t, ',') =~= seq![t]);
    crate::text::lemma_index_of_none(t, '/');
    crate::text::lemma_index_of_none(t, '-');
    assert(t.drop_last() =~= Seq::<char>::empty());
    assert(t.last() == '0');
    assert(digits_value(Seq::<char>::empty()) == 0);
    assert(digits_value(t) == digits_value(t.drop_last()) * 10 + crate::text::digit_value('0'));
    assert(digits_value(t) == 0);
    assert(is_canonical_decimal(t));
    assert(name_index(FieldKind::Second, t) is None);
    assert(numeric_value(t, FieldKind::Second, t) == Ok::<nat, CronErrorView>(0));
    assert(resolved_value(t, FieldKind::Second, t) == Ok::<nat, CronErrorView>(0));
    assert(t != seq!['*']);
    assert(range_bounds(t, false, FieldKind::Second, t) == Ok::<(nat, nat), CronErrorView>((0, 0)));
    assert(stepped(FieldKind::Second, 1, 0, 1) == Set::<int>::empty());
    assert(stepped(FieldKind::Second, 0, 0, 1) =~= set![0int]);
    assert(part_bits(t, FieldKind::Second) == Ok::<Set<int>, CronErrorView>(set![0int]));
    assert(seq![t].drop_first() =~= Seq::<Seq<char>>::empty());
    assert(set![0int].union(Set::<int>::empty()) =~= set![0int]);
    assert(list_bits(Seq::<Seq<char>>::empty(), FieldKind::Second) == Ok::<Set<int>, CronErrorView>(Set::<int>::empty()));
    assert(list_bits(seq![t], FieldKind::Second) == Ok::<Set<int>, CronErrorView>(set![0int]));
}

/// Parse one field token, or return its error.
fn field_of(token: &[char], kind: FieldKind) -> (r: Result<FieldSchedule, CronError>)
    ensures
        match (r, field_bits(token@, kind)) {
            (Ok(f), Ok(bits)) => is_kind(f, kind) && f.value_set() == bits,
            (Err(e), Err(spec)) => e@ == spec,
            _ => false,
        },
{
    let r = FieldSchedule::parse_chars(token, kind);
    proof {
        match (&r, field_bits(token@, kind)) {
            (Ok(f), Ok(bits)) => {
                assert(f.value_set() =~= bits);
            },
            _ => {},
        }
    }
    r
}

impl CronSchedule {
    /// Parse and fully validate a cron expression.
    ///
    /// Accepts five fields (`minute hour day-of-month month day-of-week`) or
    /// six when a leading seconds field is present, plus the macros
    /// `@yearly`, `@annually`, `@monthly`, `@weekly`, `@daily`, `@midnight`
    /// and `@hourly`. Ranges must not wrap; `a/n` runs from `a` to the field
    /// maximum; in day-of-week both `0` and `7` denote Sunday, and `7/n` is
    /// rejected. When both day fields are restricted (not a bare `*`), a day
    /// matches if either matches.
    ///
    /// # Errors
    ///
    /// Returns a [`CronError`] if the expression is empty, carries the wrong
    /// number of fields, or any field is malformed.
    pub fn parse(expression: &str) -> (r: Result<CronSchedule, CronError>)
        ensures
            match (r, schedule_of(expression@)) {
                (Ok(s), Ok(v)) => s@ == v,
                (Err(e), Err(v)) => e@ == v,
                _ => false,
            },
    {
        let chars = chars_of(expression);
        let trimmed = chars_trim(chars.as_slice());
        if trimmed.len() == 0 {
            return Err(CronError::EmptyExpression);
        }
        let expanded = expand(trimmed.as_slice());
        let fields = chars_words(expanded.as_slice());
        if fields.len() != 5 && fields.len() != 6 {
            return Err(CronError::WrongFieldCount { found: fields.len() });
        }
        Self::from_fields(&fields)
    }

    /// The schedule of five or six field tokens.
    fn from_fields(fields: &Vec<Vec<char>>) -> (r: Result<CronSchedule, CronError>)
        requires
            fields@.len() == 5 || fields@.len() == 6,
        ensures
            match (r, schedule_of_fields(views(fields@))) {
                (Ok(s), Ok(v)) => s@ == v,
                (Err(e), Err(v)) => e@ == v,
                _ => false,
            },
    {
        let mut space: Vec<char> = Vec::new();
        space.push(' ');
        let joined = chars_join(fields.as_slice(), space.as_slice());
        assert(space@ =~= seq![' ']);
        let ghost all = views(fields@);
        assert forall|i: int| 0 <= i < fields@.len() implies all[i] == fields@[i]@ by {}
        let has_seconds = fields.len() == 6;
        let o: usize = if has_seconds { 1 } else { 0 };
        let second = if has_seconds {
            match field_of(fields[0].as_slice(), FieldKind::Second) {
                Ok(f) => f,
                Err(e) => {
                    return Err(e);
                },
            }
        } else {
            let mut zero: Vec<char> = Vec::new();
            zero.push('0');
            assert(zero@ =~= seq!['0']);
            proof { lemma_zero_seconds(); }
            match field_of(zero.as_slice(), FieldKind::Second) {
                Ok(f) => f,
                Err(e) => {
                    return Err(e);
                },
            }
        };
        let minute = match field_of(fields[o].as_slice(), FieldKind::Minute) {
            Ok(f) => f,
            Err(e) => {
                return Err(e);
            },
        };
        let hour = match field_of(fields[o + 1].as_slice(), FieldKind::Hour) {
            Ok(f) => f,
            Err(e) => {
                return Err(e);
            },
        };
        let dom_token = fields[o + 2].as_slice();
        let day_of_month = match field_of(dom_token, FieldKind::DayOfMonth) {
            Ok(f) => f,
            Err(e) => {
                return Err(e);
            },
        };
        let month = match field_of(fields[o + 3].as_slice(), FieldKind::Month) {
            Ok(f) => f,
            Err(e) => {
                return Err(e);
            },
        };
        let weekday_token = fields[o + 4].as_slice();
        let day_of_week = match field_of(weekday_token, FieldKind::DayOfWeek) {
            Ok(f) => f,
            Err(e) => {
                return Err(e);
            },
        };
        let days = DayFilter::new(
            if token_is_star(dom_token) { None } else { Some(day_of_month) },
            if token_is_star(weekday_token) { None } else { Some(day_of_week) },
        );
        proof {
            if !has_seconds {
                assert forall|v: int| second.has(v) <==> v == 0 by {
                    assert(second.value_set().contains(v) == second.has(v));
                }
            }
        }
        Ok(CronSchedule {
            second,
            minute,
            hour,
            month,
            days,
            has_seconds,
            normalized: string_from_chars(joined.as_slice()),
        })
    }

    /// Whether the expression carried a seconds field.
    pub fn has_seconds(&self) -> (b: bool)
        ensures
            b == self@.has_seconds,
    {
        self.has_seconds
    }

    /// The accepted seconds.
    pub fn second(&self) -> (f: FieldSchedule)
        ensures
            f == self.second_field(),
            is_kind(f, FieldKind::Second),
            !self.seconds_given() ==> forall|v: int| f.has(v) <==> v == 0,
    {
        proof { use_type_invariant(self); }
        self.second
    }

    /// The accepted minutes.
    pub fn minute(&self) -> (f: FieldSchedule)
        ensures
            f == self.minute_field(),
            is_kind(f, FieldKind::Minute),
    {
        proof { use_type_invariant(self); }
        self.minute
    }

    /// The accepted hours.
    pub fn hour(&self) -> (f: FieldSchedule)
        ensures
            f == self.hour_field(),
            is_kind(f, FieldKind::Hour),
    {
        proof { use_type_invariant(self); }
        self.hour
    }

    /// The accepted months.
    pub fn month(&self) -> (f: FieldSchedule)
        ensures
            f == self.month_field(),
            is_kind(f, FieldKind::Month),
    {
        proof { use_type_invariant(self); }
        self.month
    }

    /// The effective day restriction.
    pub fn days(&self) -> (d: DayFilter)
        ensures
            d == self.day_filter(),
            d.wf(),
    {
        proof { use_type_invariant(self); }
        self.days
    }

    /// The expression as normalised by parsing: the fields (a macro
    /// expanded) separated by single spaces.
    pub fn to_string(&self) -> (s: String)
        ensures
            s@ == self@.text,
    {
        self.normalized.clone()
    }

    /// Returns true if `datetime` is an occurrence of this schedule,
    /// evaluated in UTC.
    ///
    /// The offset is normalised to UTC before matching. Cron has second
    /// resolution, so an instant carrying a non-zero nanosecond is never an
    /// occurrence.
    pub fn is_match(&self, datetime: &DateTime) -> (b: bool)
        requires
            datetime.wf(),
            datetime.nanosecond != 0 || to_utc(*datetime) is Some,
        ensures
            b == (datetime.nanosecond == 0 && is_occurrence(self@, to_utc(*datetime)->Some_0)),
    {
        if datetime.nanosecond != 0 {
            return false;
        }
        proof {
            use_type_invariant(self);
            lemma_to_utc_wf(*datetime);
        }
        let u = utc_of(datetime).unwrap();
        let weekday = weekday_number(u.year, u.month, u.day);
        self.second.contains(u.second) && self.minute.contains(u.minute) && self.hour.contains(
            u.hour,
        ) && self.month.contains(u.month) && self.days.accepts_day(u.day, weekday)
    }
}

impl PartialEq for CronSchedule {
    fn eq(&self, other: &Self) -> (r: bool) {
        self.second.same_values(other.second) && self.minute.same_values(other.minute)
            && self.hour.same_values(other.hour) && self.month.same_values(other.month)
            && self.days.same_days(other.days)
    }
}

impl vstd::std_specs::cmp::PartialEqSpecImpl for CronSchedule {
    open spec fn obeys_eq_spec() -> bool {
        true
    }

    open spec fn eq_spec(&self, other: &Self) -> bool {
        same_instants(self@, other@)
    }
}

impl Eq for CronSchedule {

}

impl core::hash::Hash for CronSchedule {
    /// Feeds the components that equality compares (the seconds, minutes,
    /// hours, months and day filter) to `state`, so that equal schedules
    /// hash alike. Trusted: the derived `Hash` of the components, which
    /// Verus does not read, is what is called; no property is claimed.
    #[verifier::external_body]
    fn hash<H: core::hash::Hasher>(&self, state: &mut H) {
        self.second.hash(state);
        self.minute.hash(state);
        self.hour.hash(state);
        self.month.hash(state);
        self.days.hash(state);
    }
}

// ---------------------------------------------------------------------------
// Laws
// ---------------------------------------------------------------------------

/// No macro name holds a space.
proof fn lemma_macro_names_have_no_space(name: Seq<char>)
    requires
        name.contains(' '),
    ensures
        macro_body(name) is None,
{
    reveal_strlit("@yearly");
    reveal_strlit("@annually");
    reveal_strlit("@monthly");
    reveal_strlit("@weekly");
    reveal_strlit("@daily");
    reveal_strlit("@midnight");
    reveal_strlit("@hourly");
    let w = choose|w: int| 0 <= w < name.len() && name[w] == ' ';
    if name == "@yearly"@ || name == "@annually"@ || name == "@monthly"@ || name == "@weekly"@
        || name == "@daily"@ || name == "@midnight"@ || name == "@hourly"@ {
        assert(name[w] != ' ');
    }
}

/// A text holding a space is no macro.
proof fn lemma_expand_keeps_spaced(text: Seq<char>)
    requires
        text.contains(' '),
    ensures
        expand_macro(text) == text,
{
    let w = choose|w: int| 0 <= w < text.len() && text[w] == ' ';
    assert(lower_all(text)[w] == lower(' '));
    lemma_macro_names_have_no_space(lower_all(text));
}

/// Parsing the normalised text of a parsed expression gives the same
/// schedule again: the text, and therefore `to_string`, round-trips.
pub proof fn lemma_text_round_trip(expression: Seq<char>)
    requires
        schedule_of(expression) is Ok,
    ensures
        schedule_of(schedule_of(expression)->Ok_0.text) == schedule_of(expression),
{
    let fields = words(expand_macro(trim(expression)));
    lemma_words_solid(expand_macro(trim(expression)));
    let text = join(fields, seq![' ']);
    assert(schedule_of(expression)->Ok_0.text == text);
    lemma_join_ends(fields);
    lemma_trim_join(fields);
    lemma_expand_keeps_spaced(text);
    lemma_words_of_join(fields);
}

/// Schedules that compare equal have the same occurrences.
pub proof fn lemma_equal_schedules_same_occurrences(a: ScheduleView, b: ScheduleView, t: DateTime)
    requires
        same_instants(a, b),
    ensures
        is_occurrence(a, t) == is_occurrence(b, t),
{
}

/// A macro whose five fields are `body` denotes what `body` itself denotes.
proof fn lemma_macro_denotes_body(expression: Seq<char>, body: Seq<char>)
    requires
        lower_all(trim(expression)).len() > 0,
        macro_body(lower_all(trim(expression))) == Some(body),
        body.len() > 0,
        !is_space(body[0]),
        !is_space(body.last()),
        body.contains(' '),
    ensures
        schedule_of(expression) == schedule_of(body),
{
    let name = lower_all(trim(expression));
    assert(trim(expression).len() == name.len());
    lemma_leading_space(body, 0);
    assert(body.skip(0) =~= body);
    lemma_trailing_space(body, body.len() as int);
    assert(body.take(body.len() as int) =~= body);
    assert(trim(body) == body);
    lemma_expand_keeps_spaced(body);
}

/// The macro table, name by name.
#[verifier::rlimit(60)]
proof fn lemma_macro_table()
    ensures
        "@yearly"@.len() > 0 && "@annually"@.len() > 0 && "@monthly"@.len() > 0 && "@weekly"@.len() > 0,
        "@daily"@.len() > 0 && "@midnight"@.len() > 0 && "@hourly"@.len() > 0,
        macro_body("@yearly"@) == Some("0 0 1 1 *"@),
        macro_body("@annually"@) == Some("0 0 1 1 *"@),
        macro_body("@monthly"@) == Some("0 0 1 * *"@),
        macro_body("@weekly"@) == Some("0 0 * * 0"@),
        macro_body("@daily"@) == Some("0 0 * * *"@),
        macro_body("@midnight"@) == Some("0 0 * * *"@),
        macro_body("@hourly"@) == Some("0 * * * *"@),
{
    reveal_strlit("@yearly");
    reveal_strlit("@annually");
    reveal_strlit("@monthly");
    reveal_strlit("@weekly");
    reveal_strlit("@daily");
    reveal_strlit("@midnight");
    reveal_strlit("@hourly");
    let names = seq!["@yearly"@, "@annually"@, "@monthly"@, "@weekly"@, "@daily"@, "@midnight"@, "@hourly"@];
    assert forall|i: int, j: int| 0 <= i < j < 7 implies #[trigger] names[i] != #[trigger] names[j] by {
        if names[i].len() == names[j].len() {
            assert(names[i][1] != names[j][1]);
        }
    }
    assert(names[1] != names[0]);
    assert(names[3] != names[0] && names[3] != names[2]);
    assert(names[4] != names[0] && names[4] != names[1] && names[4] != names[2] && names[4] != names[3]);
    assert(names[5] != names[0] && names[5] != names[1] && names[5] != names[2] && names[5] != names[3]);
    assert(names[6] != names[0] && names[6] != names[1] && names[6] != names[2] && names[6] != names[3]);
}

/// The shape of a five-field expansion: no space at its ends, one inside.
proof fn lemma_expansion_shape(body: Seq<char>)
    requires
        body.len() == 9,
        body[0] == '0',
        body[1] == ' ',
        body[8] == '0' || body[8] == '*',
    ensures
        body.len() > 0,
        !is_space(body[0]),
        !is_space(body.last()),
        body.contains(' '),
{
    assert(body.last() == body[8]);
}

/// `@yearly` and `@annually` denote `0 0 1 1 *`.
#[verifier::spinoff_prover]
proof fn lemma_yearly(expression: Seq<char>)
    requires
        lower_all(trim(expression)) == "@yearly"@ || lower_all(trim(expression)) == "@annually"@,
    ensures
        schedule_of(expression) == schedule_of("0 0 1 1 *"@),
{
    let name = lower_all(trim(expression));
    let body = "0 0 1 1 *"@;
    lemma_macro_table();
    assert(body.len() == 9 && body[0] == '0' && body[1] == ' ' && body[8] == '*') by {
        reveal_strlit("0 0 1 1 *");
    }
    lemma_expansion_shape(body);
    lemma_macro_denotes_body(expression, body);
}

/// `@monthly` denotes `0 0 1 * *`.
#[verifier::spinoff_prover]
proof fn lemma_monthly(expression: Seq<char>)
    requires
        lower_all(trim(expression)) == "@monthly"@,
    ensures
        schedule_of(expression) == schedule_of("0 0 1 * *"@),
{
    let name = lower_all(trim(expression));
    let body = "0 0 1 * *"@;
    lemma_macro_table();
    assert(body.len() == 9 && body[0] == '0' && body[1] == ' ' && body[8] == '*') by {
        reveal_strlit("0 0 1 * *");
    }
    lemma_expansion_shape(body);
    lemma_macro_denotes_body(expression, body);
}

/// `@weekly` denotes `0 0 * * 0`.
#[verifier::spinoff_prover]
proof fn lemma_weekly(expression: Seq<char>)
    requires
        lower_all(trim(expression)) == "@weekly"@,
    ensures
        schedule_of(expression) == schedule_of("0 0 * * 0"@),
{
    let name = lower_all(trim(expression));
    let body = "0 0 * * 0"@;
    lemma_macro_table();
    assert(body.len() == 9 && body[0] == '0' && body[1] == ' ' && body[8] == '0') by {
        reveal_strlit("0 0 * * 0");
    }
    lemma_expansion_shape(body);
    lemma_macro_denotes_body(expression, body);
}

/// `@daily` and `@midnight` denote `0 0 * * *`.
#[verifier::spinoff_prover]
proof fn lemma_daily(expression: Seq<char>)
    requires
        lower_all(trim(expression)) == "@daily"@ || lower_all(trim(expression)) == "@midnight"@,
    ensures
        schedule_of(expression) == schedule_of("0 0 * * *"@),
{
    let name = lower_all(trim(expression));
    let body = "0 0 * * *"@;
    lemma_macro_table();
    assert(body.len() == 9 && body[0] == '0' && body[1] == ' ' && body[8] == '*') by {
        reveal_strlit("0 0 * * *");
    }
    lemma_expansion_shape(body);
    lemma_macro_denotes_body(expression, body);
}

/// `@hourly` denotes `0 * * * *`.
#[verifier::spinoff_prover]
proof fn lemma_hourly(expression: Seq<char>)
    requires
        lower_all(trim(expression)) == "@hourly"@,
    ensures
        schedule_of(expression) == schedule_of("0 * * * *"@),
{
    let name = lower_all(trim(expression));
    let body = "0 * * * *"@;
    lemma_macro_table();
    assert(body.len() == 9 && body[0] == '0' && body[1] == ' ' && body[8] == '*') by {
        reveal_strlit("0 * * * *");
    }
    lemma_expansion_shape(body);
    lemma_macro_denotes_body(expression, body);
}

/// Each macro denotes exactly its documented five-field expansion, whatever
/// the case of its letters and the whitespace around it: `@yearly` and
/// `@annually` are `0 0 1 1 *`, `@monthly` is `0 0 1 * *`, `@weekly` is
/// `0 0 * * 0`, `@daily` and `@midnight` are `0 0 * * *`, and `@hourly` is
/// `0 * * * *` (the same schedule, the same normalised text).
pub proof fn lemma_macros_denote_their_expansions(expression: Seq<char>)
    ensures
        ({
            let name = lower_all(trim(expression));
            &&& (name == "@yearly"@ || name == "@annually"@) ==> schedule_of(expression) == schedule_of("0 0 1 1 *"@)
            &&& name == "@monthly"@ ==> schedule_of(expression) == schedule_of("0 0 1 * *"@)
            &&& name == "@weekly"@ ==> schedule_of(expression) == schedule_of("0 0 * * 0"@)
            &&& (name == "@daily"@ || name == "@midnight"@) ==> schedule_of(expression) == schedule_of("0 0 * * *"@)
            &&& name == "@hourly"@ ==> schedule_of(expression) == schedule_of("0 * * * *"@)
        }),
{
    let name = lower_all(trim(expression));
    if name == "@yearly"@ || name == "@annually"@ {
        lemma_yearly(expression);
    }
    if name == "@monthly"@ {
        lemma_monthly(expression);
    }
    if name == "@weekly"@ {
        lemma_weekly(expression);
    }
    if name == "@daily"@ || name == "@midnight"@ {
        lemma_daily(expression);
    }
    if name == "@hourly"@ {
        lemma_hourly(expression);
    }
}

} // verus!
