//! The library behind the `vihr` command line time tracker.
//!
//! A [`TimeBook`] keeps named categories of finished time usages, each category sorted by
//! starting time, together with at most one recording that is in progress. It answers how much
//! time was spent on a category within a time span, and renders a log of time usages, newest
//! first.
pub mod book;
pub mod error;
pub mod laws;
pub mod span;
pub mod text;
pub mod time;
pub mod usage;
pub mod usage_log;

pub use book::TimeBook;
pub use error::Error;
pub use span::ShownTimeSpan;
pub use time::{Duration, Timestamp};
pub use usage::TimeUsage;
