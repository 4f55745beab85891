//! Moments and spans of time.
//!
//! A [`Timestamp`] is a local date and time held as a day number, a second of that day and a
//! nanosecond of that second. A [`Duration`] is a signed span of time to the nanosecond. What
//! only chrono can tell, the current local time and the calendar text of a moment, is asked of it
//! here; everything else is arithmetic on these plain values.
use chrono::{Datelike, Timelike};
use vstd::arithmetic::div_mod::lemma_div_denominator;
use vstd::prelude::*;

verus! {

/// Day number of January 1, 262144 BCE, the earliest date chrono represents. Day numbers count
/// days in the proleptic Gregorian calendar with January 1, 1 CE as day 1.
pub const MIN_DAY: i32 = -95_746_129;

/// Day number of December 31, 262142 CE, the latest date chrono represents.
pub const MAX_DAY: i32 = 95_745_399;

pub const SECONDS_PER_DAY: u32 = 86_400;

pub const NANOS_PER_SECOND: u32 = 1_000_000_000;

/// Bound on the whole seconds of a [`Duration`], either way.
pub const MAX_DURATION_SECONDS: i128 = 0x2000_0000_0000_0000_0000_0000_0000_0000;

/// Whether a day number, a second of that day and a nanosecond of that second name a moment.
pub open spec fn valid_moment(day: int, second: int, nano: int) -> bool {
    &&& MIN_DAY <= day <= MAX_DAY
    &&& 0 <= second < SECONDS_PER_DAY
    &&& 0 <= nano < NANOS_PER_SECOND
}

/// Nanoseconds from the start of day 0 to a moment.
pub open spec fn moment_nanos(day: int, second: int, nano: int) -> int {
    (day * SECONDS_PER_DAY + second) * NANOS_PER_SECOND + nano
}

/// The pattern with which moments are written: day and month without padding, four-digit
/// year, hours and minutes.
pub open spec fn stamp_pattern() -> Seq<char> {
    seq!['%', '-', 'd', '/', '%', '-', 'm', '/', '%', 'Y', ' ', '%', 'H', ':', '%', 'M']
}

/// The text that chrono renders for a moment with [`stamp_pattern`].
pub uninterp spec fn stamp_text(day: int, second: int, nano: int) -> Seq<char>;

/// Relies on chrono's `Local::now` and `DateTime::naive_local`: the current local date and time,
/// taken apart by `num_days_from_ce`, `num_seconds_from_midnight` and `nanosecond`. chrono builds
/// the time from the system clock's whole seconds and sub-second nanoseconds, so the nanosecond
/// stays below one second, and every `NaiveDate` lies within chrono's range of dates.
#[verifier::external_body]
fn local_now() -> (r: (i32, u32, u32))
    ensures
        valid_moment(r.0 as int, r.1 as int, r.2 as int),
{
    let now = chrono::Local::now().naive_local();
    (now.date().num_days_from_ce(), now.time().num_seconds_from_midnight(), now.time().nanosecond())
}

/// Relies on chrono's `NaiveDateTime::format`, which renders the moment that
/// `NaiveDate::from_num_days_from_ce_opt` and `NaiveTime::from_num_seconds_from_midnight_opt`
/// build from the parts; both accept every valid moment, and the pattern holds no item whose
/// rendering fails.
#[verifier::external_body]
fn chrono_format(day: i32, second: u32, nano: u32, pattern: &str) -> (r: String)
    requires
        valid_moment(day as int, second as int, nano as int),
        pattern@ == stamp_pattern(),
    ensures
        r@ == stamp_text(day as int, second as int, nano as int),
{
    let date = chrono::NaiveDate::from_num_days_from_ce_opt(day).unwrap();
    let time = chrono::NaiveTime::from_num_seconds_from_midnight_opt(second, nano).unwrap();
    date.and_time(time).format(pattern).to_string()
}

/// A local date and time, without a time zone, to the nanosecond. Leap seconds are not held.
#[derive(Clone, Copy, Debug, PartialEq, Eq, Structural)]
pub struct Timestamp {
    day: i32,
    second: u32,
    nano: u32,
}

impl Timestamp {
    #[verifier::type_invariant]
    spec fn is_valid(self) -> bool {
        valid_moment(self.day as int, self.second as int, self.nano as int)
    }

    /// The day number of the date.
    pub closed spec fn date(self) -> int {
        self.day as int
    }

    /// Seconds since midnight.
    pub closed spec fn second_of_day(self) -> int {
        self.second as int
    }

    /// Nanoseconds since the start of the second.
    pub closed spec fn nanosecond(self) -> int {
        self.nano as int
    }

    /// The moment as nanoseconds from the start of day 0.
    pub open spec fn nanos(self) -> int {
        moment_nanos(self.date(), self.second_of_day(), self.nanosecond())
    }

    /// The text of the moment, as [`Timestamp::text`] writes it.
    pub open spec fn text_view(self) -> Seq<char> {
        stamp_text(self.date(), self.second_of_day(), self.nanosecond())
    }

    /// The moment on day `day` (see [`MIN_DAY`]), `second` seconds after midnight and `nano`
    /// nanoseconds into that second; `None` where these name no moment.
    pub fn new(day: i32, second: u32, nano: u32) -> (r: Option<Timestamp>)
        ensures
            r is Some <==> valid_moment(day as int, second as int, nano as int),
            r matches Some(t) ==> t.date() == day && t.second_of_day() == second
                && t.nanosecond() == nano,
    {
        if MIN_DAY <= day && day <= MAX_DAY && second < SECONDS_PER_DAY && nano < NANOS_PER_SECOND {
            Some(Timestamp { day, second, nano })
        } else {
            None
        }
    }

    /// The current local date and time.
    pub fn now() -> (r: Timestamp) {
        let (day, second, nano) = local_now();
        Timestamp { day, second, nano }
    }

    pub fn day(&self) -> (r: i32)
        ensures
            r == self.date(),
    {
        self.day
    }

    pub fn second(&self) -> (r: u32)
        ensures
            r == self.second_of_day(),
    {
        self.second
    }

    pub fn nano(&self) -> (r: u32)
        ensures
            r == self.nanosecond(),
    {
        self.nano
    }

    fn nanos_exec(&self) -> (r: i128)
        ensures
            r == self.nanos(),
            MIN_DAY * SECONDS_PER_DAY * NANOS_PER_SECOND <= r,
            r < (MAX_DAY + 1) * SECONDS_PER_DAY * NANOS_PER_SECOND,
    {
        proof {
            use_type_invariant(self);
        }
        ((self.day as i128) * 86_400 + (self.second as i128)) * 1_000_000_000 + (self.nano as i128)
    }

    /// Whether this moment comes strictly before `other`.
    pub fn is_before(&self, other: &Timestamp) -> (r: bool)
        ensures
            r == (self.nanos() < other.nanos()),
    {
        self.nanos_exec() < other.nanos_exec()
    }

    /// The span from `earlier` to this moment; negative where `earlier` comes after it.
    pub fn since(&self, earlier: &Timestamp) -> (r: Duration)
        ensures
            r@ == self.nanos() - earlier.nanos(),
            -span_bound() <= r@ <= span_bound(),
    {
        let diff = self.nanos_exec() - earlier.nanos_exec();
        Duration::from_nanos(diff)
    }

    /// The moment written as day/month/year hours:minutes, the way chrono renders
    /// [`stamp_pattern`].
    pub fn text(&self) -> (r: String)
        ensures
            r@ == self.text_view(),
    {
        proof {
            use_type_invariant(self);
            reveal_strlit("%-d/%-m/%Y %H:%M");
            assert("%-d/%-m/%Y %H:%M"@ =~= stamp_pattern());
        }
        chrono_format(self.day, self.second, self.nano, "%-d/%-m/%Y %H:%M")
    }
}

/// The day number of today's local date.
pub fn today() -> (r: i32) {
    Timestamp::now().day()
}

/// Bound, in nanoseconds, on the span between any two timestamps.
pub open spec fn span_bound() -> int {
    (MAX_DAY - MIN_DAY + 1) * SECONDS_PER_DAY * NANOS_PER_SECOND
}

/// Bound, in nanoseconds, on a [`Duration`], either way.
pub open spec fn duration_bound() -> int {
    MAX_DURATION_SECONDS * NANOS_PER_SECOND
}

/// The quotient of `v` by `unit`, rounded toward zero.
pub open spec fn whole_units(v: int, unit: int) -> int {
    if v >= 0 {
        v / unit
    } else {
        -((-v) / unit)
    }
}

/// A signed span of time, to the nanosecond.
#[derive(Clone, Copy, Debug, PartialEq, Eq, PartialOrd, Ord, Structural)]
pub struct Duration {
    secs: i128,
    nanos: u32,
}

impl View for Duration {
    type V = int;

    /// The span in nanoseconds.
    closed spec fn view(&self) -> int {
        self.secs * NANOS_PER_SECOND + self.nanos
    }
}

impl Duration {
    #[verifier::type_invariant]
    spec fn is_valid(self) -> bool {
        &&& self.nanos < NANOS_PER_SECOND
        &&& -MAX_DURATION_SECONDS <= self.secs <= MAX_DURATION_SECONDS
    }

    /// The span of `nanos` nanoseconds.
    fn from_nanos(nanos: i128) -> (r: Duration)
        requires
            -span_bound() <= nanos <= span_bound(),
        ensures
            r@ == nanos,
    {
        let unit = NANOS_PER_SECOND as i128;
        if nanos >= 0 {
            Duration { secs: nanos / unit, nanos: (nanos % unit) as u32 }
        } else {
            let m = -nanos;
            let q = m / unit;
            let rem = m % unit;
            if rem == 0 {
                Duration { secs: -q, nanos: 0 }
            } else {
                Duration { secs: -q - 1, nanos: (unit - rem) as u32 }
            }
        }
    }

    /// The empty span.
    pub fn zero() -> (r: Duration)
        ensures
            r@ == 0,
    {
        Duration { secs: 0, nanos: 0 }
    }

    /// A span of whole seconds.
    pub fn seconds(seconds: i64) -> (r: Duration)
        ensures
            r@ == seconds * NANOS_PER_SECOND,
    {
        Duration { secs: seconds as i128, nanos: 0 }
    }

    /// A span of whole minutes.
    pub fn minutes(minutes: i64) -> (r: Duration)
        ensures
            r@ == minutes * 60 * NANOS_PER_SECOND,
    {
        Duration { secs: (minutes as i128) * 60, nanos: 0 }
    }

    /// A span of whole hours.
    pub fn hours(hours: i64) -> (r: Duration)
        ensures
            r@ == hours * 3600 * NANOS_PER_SECOND,
    {
        Duration { secs: (hours as i128) * 3600, nanos: 0 }
    }

    /// The sum of two spans.
    pub fn plus(self, other: Duration) -> (r: Duration)
        requires
            -duration_bound() <= self@ + other@ <= duration_bound(),
        ensures
            r@ == self@ + other@,
    {
        proof {
            use_type_invariant(&self);
            use_type_invariant(&other);
        }
        let mut secs = self.secs + other.secs;
        let mut nanos = self.nanos + other.nanos;
        if nanos >= NANOS_PER_SECOND {
            nanos = nanos - NANOS_PER_SECOND;
            secs = secs + 1;
        }
        Duration { secs, nanos }
    }

    /// Whole seconds in the span, rounded toward zero.
    pub fn num_seconds(&self) -> (r: i128)
        ensures
            r == whole_units(self@, NANOS_PER_SECOND as int),
            -MAX_DURATION_SECONDS <= r <= MAX_DURATION_SECONDS,
    {
        proof {
            use_type_invariant(self);
        }
        if self.secs < 0 && self.nanos > 0 {
            self.secs + 1
        } else {
            self.secs
        }
    }

    /// Whole minutes in the span, rounded toward zero.
    pub fn num_minutes(&self) -> (r: i128)
        ensures
            r == whole_units(self@, 60 * NANOS_PER_SECOND),
    {
        let s = self.num_seconds();
        proof {
            lemma_whole_units_twice(self@, NANOS_PER_SECOND as int, 60);
        }
        if s >= 0 {
            s / 60
        } else {
            -((-s) / 60)
        }
    }

    /// Whole hours in the span, rounded toward zero.
    pub fn num_hours(&self) -> (r: i128)
        ensures
            r == whole_units(self@, 3600 * NANOS_PER_SECOND),
    {
        let s = self.num_seconds();
        proof {
            lemma_whole_units_twice(self@, NANOS_PER_SECOND as int, 3600);
        }
        if s >= 0 {
            s / 3600
        } else {
            -((-s) / 3600)
        }
    }
}

/// Rounding toward zero by one unit and then by a multiple of it is rounding by their product.
proof fn lemma_whole_units_twice(v: int, a: int, b: int)
    requires
        a > 0,
        b > 0,
    ensures
        whole_units(whole_units(v, a), b) == whole_units(v, a * b),
{
    if v >= 0 {
        lemma_div_denominator(v, a, b);
    } else {
        lemma_div_denominator(-v, a, b);
    }
}

} // verus!
