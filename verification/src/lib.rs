//! Schedule model for a directory of restaurant happy-hour listings.
//!
//! The core of the library is a weekly recurring time window: a wall-clock
//! hour value with after-midnight wraparound, a weekday with a fixed cyclic
//! order, and schedule entries that pair a day selector with an hour range.
//! From a schedule the library derives a human-readable rendering and a
//! deterministic, deduplicated set of day-hour grid-highlight tokens.

pub mod cli;
pub mod day;
pub mod hour;
pub mod ordset;
pub mod restaurants;
pub mod schedule;
pub mod text;
