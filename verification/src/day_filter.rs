//! The effective day restriction of a schedule, reduced to the predicate it
//! actually imposes.
use vstd::prelude::*;

use crate::calendar::{lemma_to_utc_wf, to_utc, utc_of, weekday_number, weekday_of, DateTime};
use crate::field::{FieldKind, FieldSchedule};

verus! {

/// The day restriction of a schedule, in canonical form.
///
/// Built by [`DayFilter::new`], which folds a restriction accepting every day
/// into [`DayFilter::EveryDay`], so that two schedules imposing the same days
/// hold the same value.
#[derive(Debug, Clone, Copy, PartialEq, Eq, Hash, Structural)]
pub enum DayFilter {
    /// Every day matches.
    EveryDay,
    /// Only the day-of-month field restricts.
    DayOfMonth(FieldSchedule),
    /// Only the day-of-week field restricts.
    DayOfWeek(FieldSchedule),
    /// Both fields restrict; a day matches when either does (Vixie union).
    Union {
        /// The accepted days of the month.
        day_of_month: FieldSchedule,
        /// The accepted days of the week.
        day_of_week: FieldSchedule,
    },
}

/// The mathematical content of a day restriction.
pub ghost enum DaysView {
    EveryDay,
    DayOfMonth(Set<int>),
    DayOfWeek(Set<int>),
    Union(Set<int>, Set<int>),
}

/// A set holds every value of `kind`'s range.
pub open spec fn covers(bits: Set<int>, kind: FieldKind) -> bool {
    forall|v: int| kind.spec_min() <= v <= kind.spec_max() ==> bits.contains(v)
}

/// The canonical restriction of a day-of-month set and a day-of-week set,
/// `None` standing for a bare `*`: a full member imposes nothing, and under
/// the union a full member absorbs the other.
pub open spec fn canonical_days(dom: Option<Set<int>>, dow: Option<Set<int>>) -> DaysView {
    match (dom, dow) {
        (None, None) => DaysView::EveryDay,
        (Some(d), None) => if covers(d, FieldKind::DayOfMonth) {
            DaysView::EveryDay
        } else {
            DaysView::DayOfMonth(d)
        },
        (None, Some(w)) => if covers(w, FieldKind::DayOfWeek) {
            DaysView::EveryDay
        } else {
            DaysView::DayOfWeek(w)
        },
        (Some(d), Some(w)) => if covers(d, FieldKind::DayOfMonth) || covers(w, FieldKind::DayOfWeek) {
            DaysView::EveryDay
        } else {
            DaysView::Union(d, w)
        },
    }
}

/// Whether a restriction accepts the day with this day of the month and
/// weekday (Sunday `0`).
pub open spec fn accepts(days: DaysView, day: int, weekday: int) -> bool {
    match days {
        DaysView::EveryDay => true,
        DaysView::DayOfMonth(d) => d.contains(day),
        DaysView::DayOfWeek(w) => w.contains(weekday),
        DaysView::Union(d, w) => d.contains(day) || w.contains(weekday),
    }
}

impl View for DayFilter {
    type V = DaysView;

    open spec fn view(&self) -> DaysView {
        match *self {
            DayFilter::EveryDay => DaysView::EveryDay,
            DayFilter::DayOfMonth(d) => DaysView::DayOfMonth(d.value_set()),
            DayFilter::DayOfWeek(w) => DaysView::DayOfWeek(w.value_set()),
            DayFilter::Union { day_of_month, day_of_week } => DaysView::Union(
                day_of_month.value_set(),
                day_of_week.value_set(),
            ),
        }
    }
}

/// A day-of-month schedule.
pub open spec fn is_dom(f: FieldSchedule) -> bool {
    f.wf() && f.lo() == 1 && f.hi() == 31
}

/// A day-of-week schedule.
pub open spec fn is_dow(f: FieldSchedule) -> bool {
    f.wf() && f.lo() == 0 && f.hi() == 6
}

proof fn lemma_covers(f: FieldSchedule, kind: FieldKind)
    requires
        f.lo() == kind.spec_min(),
        f.hi() == kind.spec_max(),
    ensures
        covers(f.value_set(), kind) == (forall|v: int| f.lo() <= v <= f.hi() ==> f.has(v)),
{
    if covers(f.value_set(), kind) {
        assert forall|v: int| f.lo() <= v <= f.hi() implies f.has(v) by {
            assert(f.value_set().contains(v));
        }
    }
    if forall|v: int| f.lo() <= v <= f.hi() ==> f.has(v) {
        assert forall|v: int| kind.spec_min() <= v <= kind.spec_max() implies f.value_set().contains(v) by {
            assert(f.has(v));
        }
    }
}

impl DayFilter {
    /// The member schedules are well formed.
    pub open spec fn wf(self) -> bool {
        match self {
            DayFilter::EveryDay => true,
            DayFilter::DayOfMonth(d) => is_dom(d),
            DayFilter::DayOfWeek(w) => is_dow(w),
            DayFilter::Union { day_of_month, day_of_week } => is_dom(day_of_month) && is_dow(
                day_of_week,
            ),
        }
    }

    /// Build the canonical filter. `None` means the field is a bare `*`.
    ///
    /// A restricted field that accepts its whole range imposes nothing, and
    /// under the Vixie union a full member absorbs the other, so both cases
    /// fold into [`DayFilter::EveryDay`].
    pub fn new(day_of_month: Option<FieldSchedule>, day_of_week: Option<FieldSchedule>) -> (r: Self)
        requires
            day_of_month matches Some(d) ==> is_dom(d),
            day_of_week matches Some(w) ==> is_dow(w),
        ensures
            r.wf(),
            r@ == canonical_days(
                match day_of_month {
                    Some(d) => Some(d.value_set()),
                    None => None,
                },
                match day_of_week {
                    Some(w) => Some(w.value_set()),
                    None => None,
                },
            ),
            r is DayOfMonth ==> day_of_month == Some(r->DayOfMonth_0),
            r is DayOfWeek ==> day_of_week == Some(r->DayOfWeek_0),
            r is Union ==> day_of_month == Some(r->day_of_month) && day_of_week == Some(
                r->day_of_week,
            ),
    {
        proof {
            if let Some(d) = day_of_month {
                lemma_covers(d, FieldKind::DayOfMonth);
            }
            if let Some(w) = day_of_week {
                lemma_covers(w, FieldKind::DayOfWeek);
            }
        }
        match (day_of_month, day_of_week) {
            (None, None) => DayFilter::EveryDay,
            (Some(d), None) => {
                if d.is_full() {
                    DayFilter::EveryDay
                } else {
                    DayFilter::DayOfMonth(d)
                }
            },
            (None, Some(w)) => {
                if w.is_full() {
                    DayFilter::EveryDay
                } else {
                    DayFilter::DayOfWeek(w)
                }
            },
            (Some(d), Some(w)) => {
                if d.is_full() || w.is_full() {
                    DayFilter::EveryDay
                } else {
                    DayFilter::Union { day_of_month: d, day_of_week: w }
                }
            },
        }
    }

    /// Whether both filters impose the same restriction.
    pub fn same_days(self, other: DayFilter) -> (b: bool)
        ensures
            b == (self@ == other@),
    {
        match (self, other) {
            (DayFilter::EveryDay, DayFilter::EveryDay) => true,
            (DayFilter::DayOfMonth(a), DayFilter::DayOfMonth(b)) => a.same_values(b),
            (DayFilter::DayOfWeek(a), DayFilter::DayOfWeek(b)) => a.same_values(b),
            (
                DayFilter::Union { day_of_month: a, day_of_week: b },
                DayFilter::Union { day_of_month: c, day_of_week: d },
            ) => a.same_values(c) && b.same_values(d),
            _ => false,
        }
    }

    /// Whether the day with this day of the month and weekday is accepted.
    pub fn accepts_day(self, day: u8, weekday: u8) -> (b: bool)
        ensures
            b == accepts(self@, day as int, weekday as int),
    {
        match self {
            DayFilter::EveryDay => true,
            DayFilter::DayOfMonth(d) => d.contains(day),
            DayFilter::DayOfWeek(w) => w.contains(weekday),
            DayFilter::Union { day_of_month, day_of_week } => day_of_month.contains(day)
                || day_of_week.contains(weekday),
        }
    }

    /// Whether `datetime` falls on a day this filter accepts.
    ///
    /// The offset is normalised to UTC before the day is read, so the calendar
    /// day of the argument is not necessarily the day being judged.
    pub fn matches(self, datetime: &DateTime) -> (b: bool)
        requires
            datetime.wf(),
            to_utc(*datetime) is Some,
        ensures
            ({
                let u = to_utc(*datetime)->Some_0;
                b == accepts(self@, u.day as int, weekday_of(u.year as int, u.month as int, u.day as int))
            }),
    {
        proof {
            lemma_to_utc_wf(*datetime);
        }
        let u = utc_of(datetime).unwrap();
        let weekday = weekday_number(u.year, u.month, u.day);
        self.accepts_day(u.day, weekday)
    }
}

} // verus!
