//! Time spans by which records are chosen.
use crate::time::Timestamp;
use vstd::prelude::*;

verus! {

/// Specifies the time span from which to show records.
#[derive(Clone, Copy, Debug, PartialEq, Eq, Structural)]
pub enum ShownTimeSpan {
    /// Show all records.
    All,
    /// Show records from the past year.
    Year,
    /// Show records from the past month.
    Month,
    /// Show records from the past week.
    Week,
    /// Show records from **only** yesterday.
    Yesterday,
    /// Show records from today.
    Today,
}

/// Whether a record that started on day number `date` is shown in `span` when today is day
/// number `today`. The spans that reach back count whole calendar days, and a record dated after
/// today counts as recent.
pub open spec fn in_span(span: ShownTimeSpan, date: int, today: int) -> bool {
    match span {
        ShownTimeSpan::All => true,
        ShownTimeSpan::Year => today - date <= 365,
        ShownTimeSpan::Month => today - date <= 28,
        ShownTimeSpan::Week => today - date <= 7,
        ShownTimeSpan::Yesterday => date == today - 1,
        ShownTimeSpan::Today => date == today,
    }
}

/// Returns true if a record starting at `start_time` is within `span`, today being day number
/// `today`.
pub fn in_time_span(start_time: &Timestamp, span: ShownTimeSpan, today: i32) -> (r: bool)
    ensures
        r == in_span(span, start_time.date(), today as int),
{
    let date = start_time.day() as i64;
    let today = today as i64;
    match span {
        ShownTimeSpan::All => true,
        ShownTimeSpan::Year => today - date <= 365,
        ShownTimeSpan::Month => today - date <= 28,
        ShownTimeSpan::Week => today - date <= 7,
        ShownTimeSpan::Yesterday => date == today - 1,
        ShownTimeSpan::Today => date == today,
    }
}

} // verus!
