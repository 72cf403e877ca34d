//! Typed errors returned when parsing a cron expression.
use vstd::prelude::*;

use crate::text::{decimal, decimal_chars, push_all, push_str, string_from_chars};

verus! {

/// An error encountered while parsing a cron expression.
#[derive(Debug, Clone, PartialEq, Eq)]
#[non_exhaustive]
pub enum CronError {
    /// The expression was empty or only whitespace.
    EmptyExpression,
    /// The expression did not carry five or six fields.
    WrongFieldCount {
        /// The number of whitespace-separated fields found.
        found: usize,
    },
    /// A field could not be parsed.
    InvalidField {
        /// The named field, for example "minute".
        field: &'static str,
        /// The offending token within the field.
        token: String,
        /// Why the token is invalid.
        reason: String,
    },
    /// A value fell outside the field's allowed range.
    ValueOutOfRange {
        /// The named field.
        field: &'static str,
        /// The offending value.
        value: u32,
        /// The lowest allowed value.
        min: u8,
        /// The highest allowed value.
        max: u8,
    },
}

/// The mathematical content of a [`CronError`]: its variant and the text of
/// its fields.
pub ghost enum CronErrorView {
    EmptyExpression,
    WrongFieldCount { found: nat },
    InvalidField { field: Seq<char>, token: Seq<char>, reason: Seq<char> },
    ValueOutOfRange { field: Seq<char>, value: nat, min: nat, max: nat },
}

impl View for CronError {
    type V = CronErrorView;

    open spec fn view(&self) -> CronErrorView {
        match self {
            CronError::EmptyExpression => CronErrorView::EmptyExpression,
            CronError::WrongFieldCount { found } => CronErrorView::WrongFieldCount {
                found: *found as nat,
            },
            CronError::InvalidField { field, token, reason } => CronErrorView::InvalidField {
                field: field@,
                token: token@,
                reason: reason@,
            },
            CronError::ValueOutOfRange { field, value, min, max } => CronErrorView::ValueOutOfRange {
                field: field@,
                value: *value as nat,
                min: *min as nat,
                max: *max as nat,
            },
        }
    }
}

/// The English message of an error.
pub open spec fn error_message(e: CronErrorView) -> Seq<char> {
    match e {
        CronErrorView::EmptyExpression => "cron expression must not be empty"@,
        CronErrorView::WrongFieldCount { found } => "cron expression must carry five or six fields, found "@
            + decimal(found),
        CronErrorView::InvalidField { field, token, reason } => "invalid "@ + field
            + " field, token \""@ + token + "\": "@ + reason,
        CronErrorView::ValueOutOfRange { field, value, min, max } => field + " value "@ + decimal(
            value,
        ) + " is out of range "@ + decimal(min) + "..="@ + decimal(max),
    }
}

impl CronError {
    /// The English message of this error, for example
    /// `hour value 24 is out of range 0..=23`.
    pub fn to_string(&self) -> (s: String)
        ensures
            s@ == error_message(self@),
    {
        let mut out: Vec<char> = Vec::new();
        match self {
            CronError::EmptyExpression => {
                push_str(&mut out, "cron expression must not be empty");
            },
            CronError::WrongFieldCount { found } => {
                push_str(&mut out, "cron expression must carry five or six fields, found ");
                let digits = decimal_chars(*found as u64);
                push_all(&mut out, digits.as_slice());
            },
            CronError::InvalidField { field, token, reason } => {
                push_str(&mut out, "invalid ");
                push_str(&mut out, field);
                push_str(&mut out, " field, token \"");
                push_str(&mut out, token.as_str());
                push_str(&mut out, "\": ");
                push_str(&mut out, reason.as_str());
            },
            CronError::ValueOutOfRange { field, value, min, max } => {
                push_str(&mut out, field);
                push_str(&mut out, " value ");
                let v = decimal_chars(*value as u64);
                push_all(&mut out, v.as_slice());
                push_str(&mut out, " is out of range ");
                let lo = decimal_chars(*min as u64);
                push_all(&mut out, lo.as_slice());
                push_str(&mut out, "..=");
                let hi = decimal_chars(*max as u64);
                push_all(&mut out, hi.as_slice());
            },
        }
        string_from_chars(out.as_slice())
    }
}

} // verus!
