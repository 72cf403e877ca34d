//! A lazy cursor over upcoming occurrences.
use vstd::prelude::*;

use crate::calendar::{lemma_to_utc_of_utc, to_utc, DateTime};
use crate::expression::{CronSchedule, ScheduleView};
use crate::occurrence::next_within;

verus! {

/// A lazy cursor yielding successive occurrences strictly after a cursor.
///
/// Created by [`CronSchedule::upcoming`]. Each call to [`Upcoming::next`]
/// advances the cursor to the yielded occurrence, so the occurrences come
/// out strictly increasing. It ends when no further occurrence exists within
/// the search horizon.
#[derive(Debug)]
pub struct Upcoming<'a> {
    schedule: &'a CronSchedule,
    cursor: DateTime,
}

impl<'a> Upcoming<'a> {
    /// The cursor is an instant that the search accepts.
    #[verifier::type_invariant]
    spec fn inv(self) -> bool {
        self.cursor.wf() && to_utc(self.cursor) is Some
    }

    /// The schedule whose occurrences are yielded.
    pub closed spec fn schedule(self) -> ScheduleView {
        self.schedule@
    }

    /// The instant after which the next occurrence is searched.
    pub closed spec fn cursor(self) -> DateTime {
        self.cursor
    }

    /// What the next call yields.
    pub open spec fn upcoming_next(self) -> Option<DateTime> {
        match to_utc(self.cursor()) {
            Some(u) => next_within(self.schedule(), u),
            None => None,
        }
    }

    /// The next occurrence strictly after the cursor, which then moves to
    /// it; `None` (leaving the cursor in place) when there is none within the
    /// search horizon.
    pub fn next(&mut self) -> (r: Option<DateTime>)
        ensures
            r == old(self).upcoming_next(),
            final(self).schedule() == old(self).schedule(),
            final(self).cursor() == match r {
                Some(n) => n,
                None => old(self).cursor(),
            },
    {
        proof {
            use_type_invariant(&*self);
        }
        let found = self.schedule.next_after(&self.cursor);
        if let Some(n) = found {
            proof {
                lemma_to_utc_of_utc(n);
            }
            self.cursor = n;
        }
        found
    }
}

impl CronSchedule {
    /// A lazy cursor over the occurrences strictly after `from`.
    pub fn upcoming(&self, from: &DateTime) -> (r: Upcoming<'_>)
        requires
            from.wf(),
            to_utc(*from) is Some,
        ensures
            r.schedule() == self@,
            r.cursor() == *from,
    {
        Upcoming { schedule: self, cursor: *from }
    }
}

} // verus!
