//! Recurrence rules ("every 10 days", "every 2nd friday", "every month, every Monday,
//! at 10:00") evaluated into ordered streams of time intervals within a bound.
//!
//! A rule (`Period`, unions of rules in `Every`, refinements in `Schedule`) is an
//! immutable value; `iter_within` opens a session on a bound, and each call of the
//! session's `next` yields the next occurrence. Instants are `Instant`s: a day number
//! and the nanoseconds into that day, for years 1 to 9999.

pub mod at;
pub mod calendar;
pub mod combine;
pub mod duration;
pub mod every;
pub mod every_n;
pub mod instant;
pub mod interval;
pub mod laws;
pub mod merge;
pub mod merge_n;
pub mod month;
pub mod period;
pub mod schedule;
pub mod time;
pub mod timeframe;
pub mod types;
pub mod weekday;

pub use at::At;
pub use calendar::{days_in_month, end_of, start_of, Of};
pub use combine::Combine;
pub use every::Every;
pub use every_n::EveryN;
pub use instant::Instant;
pub use interval::Interval;
pub use merge::Merge;
pub use merge_n::MergeN;
pub use month::MonthIterator;
pub use period::{Period, PeriodIter};
pub use schedule::{Schedule, ScheduleIterator};
pub use timeframe::TimeFrame;
pub use types::{ClockTime, Dimension, Weekday};
