//! isochron: a cron occurrence engine.
//!
//! Parse a Vixie-standard cron expression and compute the next or previous
//! occurrence in strict UTC.
pub mod calendar;
pub mod day_filter;
pub mod describe;
pub mod error;
pub mod expression;
pub mod field;
pub mod iter;
pub mod occurrence;
pub mod release;
pub mod text;

pub use calendar::DateTime;
pub use error::CronError;
