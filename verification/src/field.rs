//! A field schedule: the set of matching values for one cron field, stored as
//! a bitset over the field's inclusive range.
use vstd::prelude::*;

use crate::error::{CronError, CronErrorView};
use crate::text::{
    chars_eq, chars_is_canonical_decimal, chars_lower, chars_of, chars_split,
    chars_split_once, digits_value, is_canonical_decimal, lower_all, parse_digits_u32, slice_chars,
    split_on, split_once, string_from_chars, views,
};

verus! {

/// The six cron fields, with their ranges and name tables.
#[derive(Debug, Clone, Copy, PartialEq, Eq, Structural)]
pub enum FieldKind {
    Second,
    Minute,
    Hour,
    DayOfMonth,
    Month,
    DayOfWeek,
}

/// The seconds field, `0..=59`.
pub const SECOND: FieldKind = FieldKind::Second;
/// The minutes field, `0..=59`.
pub const MINUTE: FieldKind = FieldKind::Minute;
/// The hours field, `0..=23`.
pub const HOUR: FieldKind = FieldKind::Hour;
/// The day-of-month field, `1..=31`.
pub const DAY_OF_MONTH: FieldKind = FieldKind::DayOfMonth;
/// The month field, `1..=12`, with names `JAN` to `DEC`.
pub const MONTH: FieldKind = FieldKind::Month;
/// The day-of-week field, `0..=6` (Sunday is `0`, and `7` is accepted as an
/// alias for it), with names `SUN` to `SAT`.
pub const DAY_OF_WEEK: FieldKind = FieldKind::DayOfWeek;

impl FieldKind {
    /// The field's name as it appears in errors.
    pub open spec fn spec_name(self) -> Seq<char> {
        match self {
            FieldKind::Second => "second"@,
            FieldKind::Minute => "minute"@,
            FieldKind::Hour => "hour"@,
            FieldKind::DayOfMonth => "day-of-month"@,
            FieldKind::Month => "month"@,
            FieldKind::DayOfWeek => "day-of-week"@,
        }
    }

    /// The lowest valid value.
    pub open spec fn spec_min(self) -> nat {
        match self {
            FieldKind::DayOfMonth | FieldKind::Month => 1,
            _ => 0,
        }
    }

    /// The highest value of the field's range.
    pub open spec fn spec_max(self) -> nat {
        match self {
            FieldKind::Second | FieldKind::Minute => 59,
            FieldKind::Hour => 23,
            FieldKind::DayOfMonth => 31,
            FieldKind::Month => 12,
            FieldKind::DayOfWeek => 6,
        }
    }

    /// The highest value a token may name: the range maximum, except in
    /// day-of-week where `7` is the Sunday alias.
    pub open spec fn accepted_max(self) -> nat {
        if self == FieldKind::DayOfWeek { 7 } else { self.spec_max() }
    }

    /// The name table; entry `i` names the value `min + i`.
    pub open spec fn spec_names(self) -> Seq<Seq<char>> {
        match self {
            FieldKind::Month => seq![
                "JAN"@, "FEB"@, "MAR"@, "APR"@, "MAY"@, "JUN"@,
                "JUL"@, "AUG"@, "SEP"@, "OCT"@, "NOV"@, "DEC"@,
            ],
            FieldKind::DayOfWeek => seq!["SUN"@, "MON"@, "TUE"@, "WED"@, "THU"@, "FRI"@, "SAT"@],
            _ => Seq::empty(),
        }
    }

    /// The field's name as it appears in errors.
    pub fn name(self) -> (s: &'static str)
        ensures
            s@ == self.spec_name(),
    {
        match self {
            FieldKind::Second => "second",
            FieldKind::Minute => "minute",
            FieldKind::Hour => "hour",
            FieldKind::DayOfMonth => "day-of-month",
            FieldKind::Month => "month",
            FieldKind::DayOfWeek => "day-of-week",
        }
    }

    /// The lowest valid value.
    pub fn min(self) -> (v: u8)
        ensures
            v == self.spec_min(),
    {
        match self {
            FieldKind::DayOfMonth | FieldKind::Month => 1,
            _ => 0,
        }
    }

    /// The highest value of the field's range.
    pub fn max(self) -> (v: u8)
        ensures
            v == self.spec_max(),
    {
        match self {
            FieldKind::Second | FieldKind::Minute => 59,
            FieldKind::Hour => 23,
            FieldKind::DayOfMonth => 31,
            FieldKind::Month => 12,
            FieldKind::DayOfWeek => 6,
        }
    }

    /// The highest value a token may name.
    pub fn max_accepted(self) -> (v: u8)
        ensures
            v == self.accepted_max(),
    {
        match self {
            FieldKind::DayOfWeek => 7,
            _ => self.max(),
        }
    }

    /// The name table.
    fn names(self) -> (t: Vec<Vec<char>>)
        ensures
            views(t@) == self.spec_names(),
    {
        let mut t: Vec<Vec<char>> = Vec::new();
        match self {
            FieldKind::Month => {
                t.push(chars_of("JAN"));
                t.push(chars_of("FEB"));
                t.push(chars_of("MAR"));
                t.push(chars_of("APR"));
                t.push(chars_of("MAY"));
                t.push(chars_of("JUN"));
                t.push(chars_of("JUL"));
                t.push(chars_of("AUG"));
                t.push(chars_of("SEP"));
                t.push(chars_of("OCT"));
                t.push(chars_of("NOV"));
                t.push(chars_of("DEC"));
            },
            FieldKind::DayOfWeek => {
                t.push(chars_of("SUN"));
                t.push(chars_of("MON"));
                t.push(chars_of("TUE"));
                t.push(chars_of("WED"));
                t.push(chars_of("THU"));
                t.push(chars_of("FRI"));
                t.push(chars_of("SAT"));
            },
            _ => {},
        }
        assert(views(t@) =~= self.spec_names());
        t
    }
}

// ---------------------------------------------------------------------------
// The grammar of one field
// ---------------------------------------------------------------------------

/// An `InvalidField` error for `part`.
pub open spec fn invalid(kind: FieldKind, part: Seq<char>, reason: Seq<char>) -> CronErrorView {
    CronErrorView::InvalidField { field: kind.spec_name(), token: part, reason }
}

/// A `ValueOutOfRange` error.
pub open spec fn out_of_range(kind: FieldKind, value: nat) -> CronErrorView {
    CronErrorView::ValueOutOfRange {
        field: kind.spec_name(),
        value,
        min: kind.spec_min(),
        max: kind.accepted_max(),
    }
}

/// `a` and `b` are equal up to ASCII case (`str::eq_ignore_ascii_case`).
pub open spec fn eq_ignore_case(a: Seq<char>, b: Seq<char>) -> bool {
    lower_all(a) == lower_all(b)
}

/// The index of the first name in the table that `raw` spells, ignoring case.
pub open spec fn name_index(kind: FieldKind, raw: Seq<char>) -> Option<int> {
    let names = kind.spec_names();
    if exists|i: int| 0 <= i < names.len() && eq_ignore_case(names[i], raw) {
        Some(choose|i: int| 0 <= i < names.len() && eq_ignore_case(names[i], raw)
            && forall|k: int| 0 <= k < i ==> !eq_ignore_case(names[k], raw))
    } else {
        None
    }
}

/// A numeric token: canonical digits whose value is at most the accepted
/// maximum.
pub open spec fn numeric_value(raw: Seq<char>, kind: FieldKind, part: Seq<char>) -> Result<nat, CronErrorView> {
    if !is_canonical_decimal(raw) {
        Err(invalid(kind, part, "not a canonical number (no leading sign or zero-padding)"@))
    } else if digits_value(raw) > u32::MAX as nat {
        Err(invalid(kind, part, "not a number"@))
    } else if digits_value(raw) > kind.accepted_max() {
        Err(out_of_range(kind, digits_value(raw)))
    } else {
        Ok(digits_value(raw))
    }
}

/// The value a token names: a name from the table or a number, within
/// `min..=accepted_max`.
pub open spec fn resolved_value(raw: Seq<char>, kind: FieldKind, part: Seq<char>) -> Result<nat, CronErrorView> {
    let named: Result<nat, CronErrorView> = match name_index(kind, raw) {
        Some(i) => Ok((kind.spec_min() + i) as nat),
        None => numeric_value(raw, kind, part),
    };
    match named {
        Ok(v) => if v < kind.spec_min() || v > kind.accepted_max() {
            Err(out_of_range(kind, v))
        } else {
            Ok(v)
        },
        Err(e) => Err(e),
    }
}

/// The step of a `range/step` entry.
pub open spec fn step_value(step: Seq<char>, kind: FieldKind, part: Seq<char>) -> Result<nat, CronErrorView> {
    if !is_canonical_decimal(step) {
        Err(invalid(kind, part, "step is not a canonical number (no leading sign or zero-padding)"@))
    } else if digits_value(step) > 255 {
        Err(invalid(kind, part, "step is not a number"@))
    } else if digits_value(step) == 0 {
        Err(invalid(kind, part, "step must be greater than zero"@))
    } else {
        Ok(digits_value(step))
    }
}

/// The inclusive bounds that the range token of an entry covers: `*`, `a-b`,
/// `a` (or `a` up to the maximum when a step follows).
pub open spec fn range_bounds(range: Seq<char>, has_step: bool, kind: FieldKind, part: Seq<char>) -> Result<(nat, nat), CronErrorView> {
    if range == seq!['*'] {
        Ok((kind.spec_min(), kind.spec_max()))
    } else {
        match split_once(range, '-') {
            Some((low, high)) => match resolved_value(low, kind, part) {
                Err(e) => Err(e),
                Ok(a) => match resolved_value(high, kind, part) {
                    Err(e) => Err(e),
                    Ok(b) => Ok((a, b)),
                },
            },
            None => match resolved_value(range, kind, part) {
                Err(e) => Err(e),
                Ok(v) => if !has_step {
                    Ok((v, v))
                } else if kind == FieldKind::DayOfWeek && v == 7 {
                    Err(invalid(kind, part, "a step cannot start from the alias 7; start from 0 instead"@))
                } else {
                    Ok((v, kind.spec_max()))
                },
            },
        }
    }
}

/// The bit that stands for `value` (day-of-week folds `7` onto Sunday).
pub open spec fn bit_of(kind: FieldKind, value: int) -> int {
    if kind == FieldKind::DayOfWeek { value % 7 } else { value }
}

/// The values `start, start + step, ...` up to `end`, as bits.
pub open spec fn stepped(kind: FieldKind, start: int, end: int, step: int) -> Set<int>
    decreases end - start + step,
{
    if step <= 0 || start > end {
        Set::empty()
    } else {
        stepped(kind, start + step, end, step).insert(bit_of(kind, start))
    }
}

/// The set of bits one list entry selects.
pub open spec fn part_bits(part: Seq<char>, kind: FieldKind) -> Result<Set<int>, CronErrorView> {
    if part.len() == 0 {
        Err(invalid(kind, part, "empty list entry"@))
    } else {
        let (range, step): (Seq<char>, Result<nat, CronErrorView>) = match split_once(part, '/') {
            Some((r, s)) => (r, match step_value(s, kind, part) {
                Ok(n) => Ok(n),
                Err(e) => Err(e),
            }),
            None => (part, Ok(0nat)),
        };
        match step {
            Err(e) => Err(e),
            Ok(n) => match range_bounds(range, n > 0, kind, part) {
                Err(e) => Err(e),
                Ok((start, end)) => if start > end {
                    Err(invalid(kind, part, "range start is after range end"@))
                } else {
                    Ok(stepped(kind, start as int, end as int, if n > 0 { n as int } else { 1 }))
                },
            },
        }
    }
}

/// The union of the bits of the entries, or the first entry's error.
pub open spec fn list_bits(parts: Seq<Seq<char>>, kind: FieldKind) -> Result<Set<int>, CronErrorView>
    decreases parts.len(),
{
    if parts.len() == 0 {
        Ok(Set::empty())
    } else {
        match part_bits(parts[0], kind) {
            Err(e) => Err(e),
            Ok(first) => match list_bits(parts.drop_first(), kind) {
                Err(e) => Err(e),
                Ok(rest) => Ok(first.union(rest)),
            },
        }
    }
}

/// The set of values a field token selects: the union of its comma-separated
/// entries, or the error of the first malformed entry.
pub open spec fn field_bits(token: Seq<char>, kind: FieldKind) -> Result<Set<int>, CronErrorView> {
    list_bits(split_on(token, ','), kind)
}

// ---------------------------------------------------------------------------
// Bit sets
// ---------------------------------------------------------------------------

/// The members of `set` below `n`, in ascending order.
pub open spec fn ascending_below(set: Set<int>, n: int) -> Seq<int>
    decreases n,
{
    if n <= 0 {
        Seq::empty()
    } else if set.contains(n - 1) {
        ascending_below(set, n - 1).push(n - 1)
    } else {
        ascending_below(set, n - 1)
    }
}

/// Whether bit `v` is set in `mask`.
pub open spec fn mask_has(mask: u64, v: int) -> bool {
    0 <= v < 64 && (mask & (1u64 << (v as u64))) != 0
}

proof fn lemma_mask_set(m: u64, b: u64, v: u64)
    requires
        b < 64,
        v < 64,
    ensures
        ((m | (1u64 << b)) & (1u64 << v) != 0) == ((m & (1u64 << v) != 0) || v == b),
{
    assert(((m | (1u64 << b)) & (1u64 << v) != 0) == ((m & (1u64 << v) != 0) || v == b))
        by (bit_vector)
        requires
            b < 64,
            v < 64,
    ;
}

proof fn lemma_mask_union(m: u64, n: u64, v: u64)
    requires
        v < 64,
    ensures
        ((m | n) & (1u64 << v) != 0) == ((m & (1u64 << v) != 0) || (n & (1u64 << v) != 0)),
{
    assert(((m | n) & (1u64 << v) != 0) == ((m & (1u64 << v) != 0) || (n & (1u64 << v) != 0)))
        by (bit_vector)
        requires
            v < 64,
    ;
}

proof fn lemma_mask_empty(v: u64)
    requires
        v < 64,
    ensures
        (0u64 & (1u64 << v)) == 0,
{
    assert((0u64 & (1u64 << v)) == 0) by (bit_vector);
}

/// The set of matching values for one cron field.
#[derive(Debug, Clone, Copy, PartialEq, Eq, Hash, Structural)]
pub struct FieldSchedule {
    mask: u64,
    min: u8,
    max: u8,
}

impl FieldSchedule {
    /// Whether `v` is in the set.
    pub closed spec fn has(self, v: int) -> bool {
        mask_has(self.mask, v)
    }

    /// The set of values, as a mathematical set.
    pub open spec fn value_set(self) -> Set<int> {
        Set::new(|v: int| self.has(v))
    }

    /// The lowest value of the field's range.
    pub closed spec fn lo(self) -> int {
        self.min as int
    }

    /// The highest value of the field's range.
    pub closed spec fn hi(self) -> int {
        self.max as int
    }

    /// Every set value lies within the field's range, and the range fits the
    /// bitset.
    pub open spec fn wf(self) -> bool {
        &&& 0 <= self.lo() <= self.hi() < 64
        &&& forall|v: int| self.has(v) ==> self.lo() <= v <= self.hi()
    }

    /// The schedule of `kind` that holds exactly the values of `bits`.
    pub open spec fn is_field_of(self, kind: FieldKind, bits: Set<int>) -> bool {
        &&& self.lo() == kind.spec_min()
        &&& self.hi() == kind.spec_max()
        &&& forall|v: int| self.has(v) <==> bits.contains(v)
    }

    /// Whether `value` is in the set. Values above 63 are never present.
    pub fn contains(self, value: u8) -> (b: bool)
        ensures
            b == self.has(value as int),
    {
        value <= 63 && self.mask & (1u64 << value) != 0
    }

    /// The matching values in ascending order.
    pub fn values(self) -> (out: Vec<u8>)
        ensures
            out@.map_values(|v: u8| v as int) == ascending_below(self.value_set(), 64),
    {
        let mut out: Vec<u8> = Vec::new();
        let mut v: u8 = 0;
        assert(out@.map_values(|v: u8| v as int) =~= ascending_below(self.value_set(), 0));
        while v < 64
            invariant
                v <= 64,
                out@.map_values(|v: u8| v as int) == ascending_below(self.value_set(), v as int),
            decreases 64 - v,
        {
            if self.contains(v) {
                out.push(v);
            }
            assert(out@.map_values(|v: u8| v as int) =~= ascending_below(self.value_set(), v + 1));
            v = v + 1;
        }
        out
    }

    /// Whether every value in the field range is present.
    pub fn is_full(self) -> (b: bool)
        requires
            self.wf(),
        ensures
            b == (forall|v: int| self.lo() <= v <= self.hi() ==> self.has(v)),
    {
        let mut v: u8 = self.min;
        while v <= self.max
            invariant
                self.wf(),
                self.min <= v <= self.max + 1,
                forall|w: int| self.min <= w < v ==> self.has(w),
            decreases self.max + 1 - v,
        {
            if !self.contains(v) {
                return false;
            }
            v = v + 1;
        }
        true
    }

    /// Whether both schedules hold the same values.
    pub fn same_values(self, other: FieldSchedule) -> (b: bool)
        ensures
            b == (self.value_set() == other.value_set()),
    {
        let mut v: u8 = 0;
        while v < 64
            invariant
                v <= 64,
                forall|w: int| 0 <= w < v ==> self.has(w) == other.has(w),
            decreases 64 - v,
        {
            if self.contains(v) != other.contains(v) {
                assert(!self.value_set().contains(v as int) || !other.value_set().contains(v as int));
                assert(self.value_set().contains(v as int) != other.value_set().contains(v as int));
                return false;
            }
            v = v + 1;
        }
        assert(self.value_set() =~= other.value_set()) by {
            assert forall|w: int| self.has(w) == other.has(w) by {
                if w < 0 || w >= 64 {
                    assert(!self.has(w) && !other.has(w));
                }
            }
        }
        true
    }

    /// Parse one cron field token into a `FieldSchedule`.
    ///
    /// # Errors
    ///
    /// Returns [`CronError::InvalidField`] or [`CronError::ValueOutOfRange`]
    /// if the token is malformed or references a value outside the field
    /// range; the error is the one of the first malformed list entry.
    pub fn parse(token: &str, kind: FieldKind) -> (r: Result<FieldSchedule, CronError>)
        ensures
            match (r, field_bits(token@, kind)) {
                (Ok(f), Ok(bits)) => f.wf() && f.is_field_of(kind, bits),
                (Err(e), Err(spec)) => e@ == spec,
                _ => false,
            },
    {
        let cs = chars_of(token);
        Self::parse_chars(cs.as_slice(), kind)
    }

    /// Parse one cron field token, given as characters.
    pub fn parse_chars(token: &[char], kind: FieldKind) -> (r: Result<FieldSchedule, CronError>)
        ensures
            match (r, field_bits(token@, kind)) {
                (Ok(f), Ok(bits)) => f.wf() && f.is_field_of(kind, bits),
                (Err(e), Err(spec)) => e@ == spec,
                _ => false,
            },
    {
        let parts = chars_split(token, ',');
        let ghost all = views(parts@);
        let mut mask: u64 = 0;
        let mut i: usize = 0;
        proof {
            assert(all.skip(0) =~= all);
            assert forall|v: int| !mask_has(0, v) by {
                if 0 <= v < 64 {
                    lemma_mask_empty(v as u64);
                }
            }
            match list_bits(all, kind) {
                Ok(rest) => {
                    assert(Set::new(|v: int| mask_has(0, v)).union(rest) =~= rest);
                },
                Err(e) => {},
            }
        }
        while i < parts.len()
            invariant
                0 <= i <= parts.len(),
                all == views(parts@),
                all == split_on(token@, ','),
                list_bits(all, kind) == (match list_bits(all.skip(i as int), kind) {
                    Ok(rest) => Ok(Set::new(|v: int| mask_has(mask, v)).union(rest)),
                    Err(e) => Err(e),
                }),
                forall|v: int| mask_has(mask, v) ==> kind.spec_min() <= v <= kind.spec_max(),
            decreases parts.len() - i,
        {
            let part = parse_part(parts[i].as_slice(), kind);
            let ghost here = all.skip(i as int);
            proof {
                assert(here[0] == parts@[i as int]@);
                assert(here.drop_first() =~= all.skip(i + 1));
            }
            match part {
                Err(e) => {
                    return Err(e);
                },
                Ok(bits) => {
                    let ghost old_mask = mask;
                    mask = mask | bits;
                    proof {
                        let before = Set::new(|v: int| mask_has(old_mask, v));
                        let added = Set::new(|v: int| mask_has(bits, v));
                        let now = Set::new(|v: int| mask_has(mask, v));
                        assert forall|v: int| mask_has(mask, v) <==> (mask_has(old_mask, v) || mask_has(bits, v)) by {
                            if 0 <= v < 64 {
                                lemma_mask_union(old_mask, bits, v as u64);
                            }
                        }
                        match part_bits(parts@[i as int]@, kind) {
                            Ok(first) => {
                                assert(added =~= first);
                                match list_bits(all.skip(i + 1), kind) {
                                    Ok(rest) => {
                                        assert(list_bits(here, kind) == Ok::<Set<int>, CronErrorView>(first.union(rest)));
                                        assert(now.union(rest) =~= before.union(first.union(rest)));
                                    },
                                    Err(e) => {
                                        assert(list_bits(here, kind) == Err::<Set<int>, CronErrorView>(e));
                                    },
                                }
                            },
                            Err(e) => {},
                        }
                    }
                    i = i + 1;
                },
            }
        }
        proof {
            assert(all.skip(i as int) =~= Seq::<Seq<char>>::empty());
            assert(Set::new(|v: int| mask_has(mask, v)).union(Set::empty()) =~= Set::new(|v: int| mask_has(mask, v)));
        }
        Ok(FieldSchedule { mask, min: kind.min(), max: kind.max() })
    }
}

/// An `InvalidField` error for `part`.
fn invalid_error(kind: FieldKind, part: &[char], reason: &str) -> (e: CronError)
    ensures
        e@ == invalid(kind, part@, reason@),
{
    CronError::InvalidField {
        field: kind.name(),
        token: string_from_chars(part),
        reason: reason.to_owned(),
    }
}

/// A `ValueOutOfRange` error.
fn out_of_range_error(kind: FieldKind, value: u32) -> (e: CronError)
    ensures
        e@ == out_of_range(kind, value as nat),
{
    CronError::ValueOutOfRange {
        field: kind.name(),
        value,
        min: kind.min(),
        max: kind.max_accepted(),
    }
}

/// The bits of one list entry.
fn parse_part(part: &[char], kind: FieldKind) -> (r: Result<u64, CronError>)
    ensures
        match (r, part_bits(part@, kind)) {
            (Ok(m), Ok(bits)) => (forall|v: int| mask_has(m, v) <==> bits.contains(v)) && (forall|v: int|
                mask_has(m, v) ==> kind.spec_min() <= v <= kind.spec_max()),
            (Err(e), Err(spec)) => e@ == spec,
            _ => false,
        },
{
    if part.len() == 0 {
        return Err(invalid_error(kind, part, "empty list entry"));
    }
    let (range, step): (Vec<char>, u32) = match chars_split_once(part, '/') {
        Some((r, s)) => {
            if !chars_is_canonical_decimal(s.as_slice()) {
                return Err(
                    invalid_error(kind, part, "step is not a canonical number (no leading sign or zero-padding)"),
                );
            }
            let n = parse_digits_u32(s.as_slice());
            let n = match n {
                Some(n) if n <= 255 => n,
                _ => {
                    return Err(invalid_error(kind, part, "step is not a number"));
                },
            };
            if n == 0 {
                return Err(invalid_error(kind, part, "step must be greater than zero"));
            }
            (r, n)
        },
        None => (slice_chars(part, 0, part.len()), 0),
    };
    assert(match split_once(part@, '/') {
        Some((r, s)) => range@ == r && step_value(s, kind, part@) == Ok::<nat, CronErrorView>(step as nat),
        None => range@ == part@ && step == 0,
    });
    let (start, end) = match resolve_range(range.as_slice(), step > 0, kind, part) {
        Ok(b) => b,
        Err(e) => {
            return Err(e);
        },
    };
    if start > end {
        return Err(invalid_error(kind, part, "range start is after range end"));
    }
    let step = if step > 0 { step } else { 1 };
    let is_dow = kind == FieldKind::DayOfWeek;
    let mut mask: u64 = 0;
    let mut value: u32 = start as u32;
    let ghost total = stepped(kind, start as int, end as int, step as int);
    assert forall|v: int| mask_has(0, v) <==> false by {
        if 0 <= v < 64 {
            lemma_mask_empty(v as u64);
        }
    }
    while value <= end as u32
        invariant
            kind.spec_min() <= start <= end <= kind.accepted_max(),
            is_dow == (kind == FieldKind::DayOfWeek),
            0 < step <= 255,
            start <= value <= end + step,
            total == stepped(kind, start as int, end as int, step as int),
            forall|v: int| total.contains(v) <==> (mask_has(mask, v) || stepped(kind, value as int, end as int, step as int).contains(v)),
            forall|v: int| mask_has(mask, v) ==> kind.spec_min() <= v <= kind.spec_max(),
        decreases end + step - value,
    {
        let bit: u32 = if is_dow { value % 7 } else { value };
        let ghost old_mask = mask;
        mask = mask | (1u64 << bit);
        proof {
            assert(bit == bit_of(kind, value as int));
            assert(stepped(kind, value as int, end as int, step as int) == stepped(kind, value + step, end as int, step as int).insert(bit as int));
            assert forall|v: int| mask_has(mask, v) <==> (mask_has(old_mask, v) || v == bit) by {
                if 0 <= v < 64 {
                    lemma_mask_set(old_mask, bit as u64, v as u64);
                }
            }
        }
        value = value + step;
    }
    proof {
        assert(stepped(kind, value as int, end as int, step as int) == Set::<int>::empty());
        let spec_step: nat = match split_once(part@, '/') {
            Some((r, s)) => step as nat,
            None => 0,
        };
    }
    Ok(mask)
}

/// The bounds of the range token of an entry.
fn resolve_range(range: &[char], has_step: bool, kind: FieldKind, part: &[char]) -> (r: Result<(u8, u8), CronError>)
    ensures
        match (r, range_bounds(range@, has_step, kind, part@)) {
            (Ok((a, b)), Ok((sa, sb))) => a == sa && b == sb && kind.spec_min() <= a <= kind.accepted_max()
                && kind.spec_min() <= b <= kind.accepted_max() && (has_step ==> b <= kind.spec_max()
                || a <= b),
            (Err(e), Err(spec)) => e@ == spec,
            _ => false,
        },
{
    if range.len() == 1 && range[0] == '*' {
        assert(range@ =~= seq!['*']);
        return Ok((kind.min(), kind.max()));
    }
    assert(range@ != seq!['*']);
    match chars_split_once(range, '-') {
        Some((low, high)) => {
            let a = match resolve_value(low.as_slice(), kind, part) {
                Ok(a) => a,
                Err(e) => {
                    return Err(e);
                },
            };
            let b = match resolve_value(high.as_slice(), kind, part) {
                Ok(b) => b,
                Err(e) => {
                    return Err(e);
                },
            };
            Ok((a, b))
        },
        None => {
            let v = match resolve_value(range, kind, part) {
                Ok(v) => v,
                Err(e) => {
                    return Err(e);
                },
            };
            if !has_step {
                Ok((v, v))
            } else if kind == FieldKind::DayOfWeek && v == 7 {
                Err(invalid_error(kind, part, "a step cannot start from the alias 7; start from 0 instead"))
            } else {
                Ok((v, kind.max()))
            }
        },
    }
}

/// The value a token names.
fn resolve_value(raw: &[char], kind: FieldKind, part: &[char]) -> (r: Result<u8, CronError>)
    ensures
        match (r, resolved_value(raw@, kind, part@)) {
            (Ok(v), Ok(sv)) => v == sv && kind.spec_min() <= v <= kind.accepted_max(),
            (Err(e), Err(spec)) => e@ == spec,
            _ => false,
        },
{
    let value: u32 = match find_name(raw, kind) {
        Some(i) => kind.min() as u32 + i as u32,
        None => match parse_numeric(raw, kind, part) {
            Ok(v) => v,
            Err(e) => {
                return Err(e);
            },
        },
    };
    if value < kind.min() as u32 || value > kind.max_accepted() as u32 {
        return Err(out_of_range_error(kind, value));
    }
    Ok(value as u8)
}

/// The index of the first name that `raw` spells, ignoring ASCII case.
fn find_name(raw: &[char], kind: FieldKind) -> (r: Option<usize>)
    ensures
        r matches Some(i) ==> name_index(kind, raw@) == Some(i as int) && i < 12,
        r is None ==> name_index(kind, raw@) is None,
{
    let names = kind.names();
    let lowered = chars_lower(raw);
    let ghost table = kind.spec_names();
    assert(table.len() <= 12);
    let mut i: usize = 0;
    while i < names.len()
        invariant
            views(names@) == table,
            table == kind.spec_names(),
            table.len() <= 12,
            lowered@ == lower_all(raw@),
            0 <= i <= names.len(),
            forall|k: int| 0 <= k < i ==> !eq_ignore_case(table[k], raw@),
        decreases names.len() - i,
    {
        let name_lowered = chars_lower(names[i].as_slice());
        if chars_eq(name_lowered.as_slice(), lowered.as_slice()) {
            proof {
                assert(table[i as int] == names@[i as int]@);
                assert(eq_ignore_case(table[i as int], raw@));
                let c = choose|c: int| 0 <= c < table.len() && eq_ignore_case(table[c], raw@)
                    && forall|k: int| 0 <= k < c ==> !eq_ignore_case(table[k], raw@);
                assert(c == i) by {
                    if c < i { assert(!eq_ignore_case(table[c], raw@)); }
                    if i < c { assert(!eq_ignore_case(table[i as int], raw@)); }
                }
            }
            return Some(i);
        }
        assert(table[i as int] == names@[i as int]@);
        i = i + 1;
    }
    None
}

/// A numeric token.
fn parse_numeric(raw: &[char], kind: FieldKind, part: &[char]) -> (r: Result<u32, CronError>)
    ensures
        match (r, numeric_value(raw@, kind, part@)) {
            (Ok(v), Ok(sv)) => v == sv && v <= kind.accepted_max(),
            (Err(e), Err(spec)) => e@ == spec,
            _ => false,
        },
{
    if !chars_is_canonical_decimal(raw) {
        return Err(invalid_error(kind, part, "not a canonical number (no leading sign or zero-padding)"));
    }
    let parsed = match parse_digits_u32(raw) {
        Some(v) => v,
        None => {
            return Err(invalid_error(kind, part, "not a number"));
        },
    };
    if parsed > kind.max_accepted() as u32 {
        return Err(out_of_range_error(kind, parsed));
    }
    Ok(parsed)
}

} // verus!
