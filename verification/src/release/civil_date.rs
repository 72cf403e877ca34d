//! Formats a Unix timestamp as a proleptic Gregorian, UTC calendar date.
use vstd::prelude::*;

use crate::calendar::{calendar_date, days_from_civil, days_in_month, is_leap};
use crate::text::{decimal, decimal_chars, push_all, push_str, string_from_chars, two_digit_chars, two_digits};

verus! {

/// The civil date `(year, month, day)` of the day `days` days after
/// 1970-01-01, by the era decomposition of the proleptic Gregorian calendar
/// (eras of 400 years, years starting on 1 March).
pub open spec fn civil_from_days(days: int) -> (int, int, int) {
    let shifted = days + 719_468;
    let era = shifted / 146_097;
    let day_of_era = shifted - era * 146_097;
    let year_of_era = (day_of_era - day_of_era / 1460 + day_of_era / 36_524 - day_of_era / 146_096) / 365;
    let day_of_year = day_of_era - (365 * year_of_era + year_of_era / 4 - year_of_era / 100);
    let month_position = (5 * day_of_year + 2) / 153;
    let day = day_of_year - (153 * month_position + 2) / 5 + 1;
    let month = if month_position < 10 { month_position + 3 } else { month_position - 9 };
    let year = year_of_era + era * 400 + if month <= 2 { 1int } else { 0int };
    (year, month, day)
}

/// `s` left-padded with zeros to at least `width` characters.
pub open spec fn zero_padded(s: Seq<char>, width: nat) -> Seq<char> {
    if s.len() >= width {
        s
    } else {
        Seq::new((width - s.len()) as nat, |i: int| '0') + s
    }
}

/// The `YYYY-MM-DD` text of the UTC day containing the Unix time `seconds`.
pub open spec fn civil_date_text(seconds: nat) -> Seq<char> {
    let (year, month, day) = civil_from_days((seconds / 86_400) as int);
    zero_padded(decimal(year as nat), 4) + "-"@ + two_digits(month as nat) + "-"@ + two_digits(day as nat)
}

/// Facts on the ranges of the date of a day on or after the epoch.
proof fn lemma_civil_ranges(days: int)
    requires
        0 <= days <= u64::MAX / 86_400,
    ensures
        ({
            let shifted = days + 719_468;
            let era = shifted / 146_097;
            let day_of_era = shifted - era * 146_097;
            &&& 0 <= era
            &&& 0 <= day_of_era < 146_097
        }),
{
}

/// Formats a Unix timestamp as a UTC calendar date, `YYYY-MM-DD`.
pub fn civil_date_from_unix_seconds(seconds: u64) -> (s: String)
    ensures
        s@ == civil_date_text(seconds as nat),
{
    let days_since_epoch: i64 = (seconds / 86_400) as i64;
    proof {
        lemma_civil_ranges(days_since_epoch as int);
    }
    let shifted_days: i64 = days_since_epoch + 719_468;
    let era: i64 = shifted_days / 146_097;
    let day_of_era: i64 = shifted_days - era * 146_097;
    let year_of_era: i64 = (day_of_era - day_of_era / 1460 + day_of_era / 36_524 - day_of_era / 146_096) / 365;
    assert(0 <= year_of_era <= 400) by (nonlinear_arith)
        requires
            0 <= day_of_era < 146_097,
            year_of_era == (day_of_era - day_of_era / 1460 + day_of_era / 36_524 - day_of_era / 146_096) / 365,
    ;
    let year: i64 = year_of_era + era * 400;
    let day_of_year: i64 = day_of_era - (365 * year_of_era + year_of_era / 4 - year_of_era / 100);
    assert(0 <= day_of_year <= 366) by (nonlinear_arith)
        requires
            0 <= day_of_era < 146_097,
            year_of_era == (day_of_era - day_of_era / 1460 + day_of_era / 36_524 - day_of_era / 146_096) / 365,
            day_of_year == day_of_era - (365 * year_of_era + year_of_era / 4 - year_of_era / 100),
    ;
    let month_position: i64 = (5 * day_of_year + 2) / 153;
    let day: i64 = day_of_year - (153 * month_position + 2) / 5 + 1;
    let month: i64 = if month_position < 10 { month_position + 3 } else { month_position - 9 };
    let year: i64 = if month <= 2 { year + 1 } else { year };
    assert(0 <= month_position <= 11);
    assert(1 <= day <= 32);
    assert(1 <= month <= 12);
    let mut out = zero_pad(decimal_chars(year as u64), 4);
    push_str(&mut out, "-");
    let mm = two_digit_chars(month as u64);
    push_all(&mut out, mm.as_slice());
    push_str(&mut out, "-");
    let dd = two_digit_chars(day as u64);
    push_all(&mut out, dd.as_slice());
    string_from_chars(out.as_slice())
}

/// `s` left-padded with zeros to at least `width` characters.
fn zero_pad(s: Vec<char>, width: usize) -> (out: Vec<char>)
    ensures
        out@ == zero_padded(s@, width as nat),
{
    if s.len() >= width {
        return s;
    }
    let mut out: Vec<char> = Vec::new();
    let mut i: usize = 0;
    while i < width - s.len()
        invariant
            s.len() < width,
            i <= width - s.len(),
            out@ == Seq::new(i as nat, |k: int| '0'),
        decreases width - s.len() - i,
    {
        out.push('0');
        i = i + 1;
        assert(out@ =~= Seq::new(i as nat, |k: int| '0'));
    }
    push_all(&mut out, s.as_slice());
    out
}

/// The era decomposition of a day count on or after 1 March of year 0.
proof fn lemma_era_parts(shifted: int)
    requires
        shifted >= 0,
    ensures
        ({
            let era = shifted / 146_097;
            let day_of_era = shifted - era * 146_097;
            let year_of_era = (day_of_era - day_of_era / 1460 + day_of_era / 36_524 - day_of_era / 146_096) / 365;
            let day_of_year = day_of_era - (365 * year_of_era + year_of_era / 4 - year_of_era / 100);
            &&& 0 <= day_of_era < 146_097
            &&& 0 <= year_of_era <= 399
            &&& 0 <= day_of_year <= 365
            &&& (day_of_year == 365 ==> (year_of_era + 1) % 4 == 0 && ((year_of_era + 1) % 100 != 0 || year_of_era == 399))
        }),
{
    let era = shifted / 146_097;
    let day_of_era = shifted - era * 146_097;
    assert(0 <= day_of_era < 146_097);
    let year_of_era = (day_of_era - day_of_era / 1460 + day_of_era / 36_524 - day_of_era / 146_096) / 365;
    assert(0 <= year_of_era <= 399) by (nonlinear_arith)
        requires
            0 <= day_of_era < 146_097,
            year_of_era == (day_of_era - day_of_era / 1460 + day_of_era / 36_524 - day_of_era / 146_096) / 365,
    ;
    let day_of_year = day_of_era - (365 * year_of_era + year_of_era / 4 - year_of_era / 100);
    assert(0 <= day_of_year <= 365 && (day_of_year == 365 ==> (year_of_era + 1) % 4 == 0 && ((year_of_era + 1) % 100 != 0 || year_of_era == 399))) by (nonlinear_arith)
        requires
            0 <= day_of_era < 146_097,
            0 <= year_of_era <= 399,
            year_of_era == (day_of_era - day_of_era / 1460 + day_of_era / 36_524 - day_of_era / 146_096) / 365,
            day_of_year == day_of_era - (365 * year_of_era + year_of_era / 4 - year_of_era / 100),
    ;
}

/// The date of a day count on or after the epoch is a calendar date whose
/// day count it is: the formatted text names the right day.
pub proof fn lemma_civil_from_days(days: int)
    requires
        days >= 0,
    ensures
        ({
            let (year, month, day) = civil_from_days(days);
            &&& calendar_date(year, month, day)
            &&& days_from_civil(year, month, day) == days
        }),
{
    let shifted = days + 719_468;
    lemma_era_parts(shifted);
    let era = shifted / 146_097;
    let day_of_era = shifted - era * 146_097;
    let year_of_era = (day_of_era - day_of_era / 1460 + day_of_era / 36_524 - day_of_era / 146_096) / 365;
    let day_of_year = day_of_era - (365 * year_of_era + year_of_era / 4 - year_of_era / 100);
    let month_position = (5 * day_of_year + 2) / 153;
    let day = day_of_year - (153 * month_position + 2) / 5 + 1;
    let month = if month_position < 10 { month_position + 3 } else { month_position - 9 };
    let year = year_of_era + era * 400 + if month <= 2 { 1int } else { 0int };
    assert(civil_from_days(days) == (year, month, day));
    assert(0 <= month_position <= 11);
    assert(1 <= day) by {
        assert((153 * month_position + 2) / 5 <= day_of_year);
    }
    let y = if month <= 2 { year - 1 } else { year };
    assert(y == year_of_era + era * 400);
    assert(y / 400 == era);
    assert(y - era * 400 == year_of_era);
    let shifted_month = if month > 2 { month - 3 } else { month + 9 };
    assert(shifted_month == month_position);
    assert(days_from_civil(year, month, day) == days);
    assert(day <= days_in_month(year, month)) by {
        if month_position == 11 {
            assert(day == day_of_year - 336);
            if day_of_year == 365 {
                assert(year == year_of_era + 1 + era * 400);
                assert(year % 4 == (year_of_era + 1) % 4);
                assert(year % 100 == (year_of_era + 1) % 100 || year_of_era == 399);
                if year_of_era == 399 {
                    assert(year % 400 == 0);
                }
                assert(is_leap(year));
            }
        }
    }
}

} // verus!
