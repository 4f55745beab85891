//! Time usages, and records of them kept in order of their starts.
use crate::span::{in_span, ShownTimeSpan};
use crate::time::{duration_bound, span_bound, Timestamp};
use vstd::prelude::*;

verus! {

/// Defines a time span when time was spent on doing something.
/// `TimeUsage`s are sorted by their starting time.
#[derive(Debug)]
pub struct TimeUsage {
    /// The starting point of the `TimeUsage`.
    pub start: Timestamp,
    /// The ending point of the `TimeUsage`.
    pub stop: Timestamp,
    /// An optional description of the `TimeUsage`.
    pub desc: Option<String>,
}

/// A [`TimeUsage`] with its description as a character sequence.
pub struct UsageView {
    pub start: Timestamp,
    pub stop: Timestamp,
    pub desc: Option<Seq<char>>,
}

/// An optional text as an optional character sequence.
pub open spec fn text_option(o: Option<String>) -> Option<Seq<char>> {
    match o {
        Some(s) => Some(s@),
        None => None,
    }
}

impl View for TimeUsage {
    type V = UsageView;

    open spec fn view(&self) -> UsageView {
        UsageView { start: self.start, stop: self.stop, desc: text_option(self.desc) }
    }
}

/// Whether records are in order of their starting moments.
pub open spec fn sorted_by_start(s: Seq<UsageView>) -> bool {
    forall|i: int, j: int|
        #![trigger s[i], s[j]]
        0 <= i <= j < s.len() ==> s[i].start.nanos() <= s[j].start.nanos()
}

/// Among the first `n` records, the count up to and including the last one that starts no later
/// than `key`.
pub open spec fn count_through(s: Seq<UsageView>, key: int, n: int) -> int
    decreases n,
{
    if n <= 0 {
        0
    } else if s[n - 1].start.nanos() <= key {
        n
    } else {
        count_through(s, key, n - 1)
    }
}

/// Where a record that starts at `key` goes among sorted records: after every record that
/// starts no later than it.
pub open spec fn insert_position(s: Seq<UsageView>, key: int) -> int {
    count_through(s, key, s.len() as int)
}

/// Sorted records with one more, placed after those that start no later than it.
pub open spec fn insert_sorted(s: Seq<UsageView>, u: UsageView) -> Seq<UsageView> {
    s.insert(insert_position(s, u.start.nanos()), u)
}

/// Nanoseconds spent in the records that start within the span, today being day `today`.
pub open spec fn span_total(records: Seq<UsageView>, span: ShownTimeSpan, today: int) -> int
    decreases records.len(),
{
    if records.len() == 0 {
        0
    } else {
        let u = records.last();
        span_total(records.drop_last(), span, today) + if in_span(span, u.start.date(), today) {
            u.stop.nanos() - u.start.nanos()
        } else {
            0
        }
    }
}

/// Inserting a record after those that start no later than it, and before those that start
/// later, keeps records sorted.
pub(crate) proof fn lemma_insert_keeps_sorted(s: Seq<UsageView>, pos: int, u: UsageView)
    requires
        sorted_by_start(s),
        0 <= pos <= s.len(),
        forall|j: int| 0 <= j < pos ==> #[trigger] s[j].start.nanos() <= u.start.nanos(),
        forall|j: int| pos <= j < s.len() ==> u.start.nanos() < #[trigger] s[j].start.nanos(),
    ensures
        sorted_by_start(s.insert(pos, u)),
{
    let t = s.insert(pos, u);
    assert forall|i: int, j: int| 0 <= i <= j < t.len() implies t[i].start.nanos()
        <= t[j].start.nanos() by {
        if i < pos && j < pos {
            assert(s[i].start.nanos() <= s[j].start.nanos());
        } else if i < pos && j > pos {
            assert(s[i].start.nanos() <= s[j - 1].start.nanos());
        } else if i > pos && j > pos {
            assert(s[i - 1].start.nanos() <= s[j - 1].start.nanos());
        }
    }
}

/// Removing a record keeps records sorted.
pub(crate) proof fn lemma_remove_keeps_sorted(s: Seq<UsageView>, pos: int)
    requires
        sorted_by_start(s),
        0 <= pos < s.len(),
    ensures
        sorted_by_start(s.remove(pos)),
{
    let t = s.remove(pos);
    assert forall|i: int, j: int| 0 <= i <= j < t.len() implies t[i].start.nanos()
        <= t[j].start.nanos() by {
        if j < pos {
            assert(s[i].start.nanos() <= s[j].start.nanos());
        } else if i < pos {
            assert(s[i].start.nanos() <= s[j + 1].start.nanos());
        } else {
            assert(s[i + 1].start.nanos() <= s[j + 1].start.nanos());
        }
    }
}

/// Where a record starting at `start` goes among sorted records.
pub(crate) fn insertion_point(records: &Vec<TimeUsage>, start: &Timestamp) -> (r: usize)
    requires
        sorted_by_start(records@.map_values(|u: TimeUsage| u@)),
    ensures
        r == insert_position(records@.map_values(|u: TimeUsage| u@), start.nanos()),
        r <= records@.len(),
        forall|j: int| 0 <= j < r ==> #[trigger] records@[j].start.nanos() <= start.nanos(),
        forall|j: int|
            r <= j < records@.len() ==> start.nanos() < #[trigger] records@[j].start.nanos(),
{
    let ghost s = records@.map_values(|u: TimeUsage| u@);
    let ghost key = start.nanos();
    let mut i: usize = records.len();
    while i > 0 && start.is_before(&records[i - 1].start)
        invariant
            i <= records@.len(),
            s == records@.map_values(|u: TimeUsage| u@),
            key == start.nanos(),
            count_through(s, key, s.len() as int) == count_through(s, key, i as int),
            forall|j: int| i <= j < records@.len() ==> key < #[trigger] records@[j].start.nanos(),
        decreases i,
    {
        assert(s[i - 1] == records@[i - 1]@);
        i = i - 1;
    }
    proof {
        if i > 0 {
            assert(s[i - 1] == records@[i - 1]@);
            assert forall|j: int| 0 <= j < i implies #[trigger] records@[j].start.nanos()
                <= key by {
                assert(s[j] == records@[j]@);
                assert(s[j].start.nanos() <= s[i - 1].start.nanos());
            }
        }
    }
    i
}

/// A total over records, each within [`span_bound`] either way, fits a [`Duration`].
pub(crate) proof fn lemma_total_fits(k: int)
    requires
        0 <= k < usize::MAX,
    ensures
        (k + 1) * span_bound() == k * span_bound() + span_bound(),
        (k + 1) * span_bound() <= duration_bound(),
        0 <= k * span_bound(),
{
    let b = span_bound();
    assert(0 < b < 0x4_0000_0000_0000_0000_00);
    assert((k + 1) * b == k * b + b) by (nonlinear_arith);
    assert(0 <= k * b) by (nonlinear_arith)
        requires
            0 <= k,
            0 < b,
    ;
    assert((k + 1) * b <= 0x4_0000_0000_0000_0000_00 * 0x1_0000_0000_0000_0000) by (nonlinear_arith)
        requires
            0 <= k + 1 <= 0x1_0000_0000_0000_0000,
            0 < b < 0x4_0000_0000_0000_0000_00,
    ;
}

/// Whether records are sorted by start.
pub(crate) fn records_sorted(records: &Vec<TimeUsage>) -> (r: bool)
    ensures
        r == sorted_by_start(records@.map_values(|u: TimeUsage| u@)),
{
    let ghost s = records@.map_values(|u: TimeUsage| u@);
    let mut k: usize = 1;
    if records.len() == 0 {
        return true;
    }
    while k < records.len()
        invariant
            1 <= k <= records@.len(),
            s == records@.map_values(|u: TimeUsage| u@),
            sorted_by_start(s.subrange(0, k as int)),
        decreases records.len() - k,
    {
        assert(s[k - 1] == records@[k - 1]@);
        assert(s[k as int] == records@[k as int]@);
        if records[k].start.is_before(&records[k - 1].start) {
            assert(!sorted_by_start(s)) by {
                assert(s[k - 1].start.nanos() > s[k as int].start.nanos());
            }
            return false;
        }
        proof {
            let t = s.subrange(0, k + 1);
            assert forall|i: int, j: int| 0 <= i <= j < t.len() implies t[i].start.nanos()
                <= t[j].start.nanos() by {
                if j == k {
                    if i < k {
                        assert(s.subrange(0, k as int)[i] == t[i]);
                        assert(s.subrange(0, k as int)[k - 1] == t[k - 1]);
                    }
                } else {
                    assert(s.subrange(0, k as int)[i] == t[i]);
                    assert(s.subrange(0, k as int)[j] == t[j]);
                }
            }
        }
        k = k + 1;
    }
    assert(s.subrange(0, s.len() as int) =~= s);
    true
}

} // verus!
