//! Laws of the time book, stated over the plain-value results that its operations are proved to
//! return.
use crate::book::{
    add_category_result, add_time_usage_result, cancel_result, categories_wf, lemma_slot,
    lemma_update_records, parts_view, rebuilt, remove_category_result, remove_time_usage_result,
    start_result, status_result, stop_result, time_spent_result, BookView,
};
use crate::error::ErrorView;
use crate::span::{in_span, ShownTimeSpan};
use crate::time::Timestamp;
use crate::usage::{
    count_through, insert_position, lemma_insert_keeps_sorted, sorted_by_start, span_total,
    TimeUsage, UsageView,
};
use crate::usage_log::{front, is_next, pending};
use vstd::prelude::*;

verus! {

/// A time book taken apart is made again, equal, from its parts: every category with its sorted
/// records, and the recording in progress, if any.
pub proof fn law_parts_round_trip(
    b: BookView,
    recording: Option<(String, Timestamp)>,
    categories: Seq<(String, Vec<TimeUsage>)>,
)
    requires
        b.wf(),
        parts_view(recording, categories) == b,
    ensures
        rebuilt(recording, categories) == Some(b),
{
}

/// The merge of all categories takes records oldest first: the record it takes after another
/// starts no earlier.
pub proof fn law_merge_takes_records_in_order(
    cats: Seq<(Seq<char>, Seq<UsageView>)>,
    pos: Seq<int>,
    j: int,
    k: int,
)
    requires
        categories_wf(cats),
        pos.len() == cats.len(),
        forall|c: int| 0 <= c < cats.len() ==> 0 <= #[trigger] pos[c],
        is_next(cats, pos, j),
        is_next(cats, pos.update(j, pos[j] + 1), k),
    ensures
        front(cats, pos, j) <= front(cats, pos.update(j, pos[j] + 1), k),
{
    let next = pos.update(j, pos[j] + 1);
    if k == j {
        assert(sorted_by_start(cats[j].1));
        assert(cats[j].1[pos[j]].start.nanos() <= cats[j].1[pos[j] + 1].start.nanos());
    } else {
        assert(next[k] == pos[k]);
        assert(pending(cats, pos, k));
    }
}

/// Time spent over all records, in nanoseconds, whatever their dates.
pub open spec fn total_spent(records: Seq<UsageView>) -> int
    decreases records.len(),
{
    if records.len() == 0 {
        0
    } else {
        total_spent(records.drop_last()) + records.last().stop.nanos()
            - records.last().start.nanos()
    }
}

/// Among sorted records, those before the insert position start no later than `key`, and the
/// others start later.
proof fn lemma_insert_position(s: Seq<UsageView>, key: int, n: int)
    requires
        sorted_by_start(s),
        0 <= n <= s.len(),
    ensures
        0 <= count_through(s, key, n) <= n,
        forall|j: int|
            0 <= j < count_through(s, key, n) ==> #[trigger] s[j].start.nanos() <= key,
        forall|j: int|
            count_through(s, key, n) <= j < n ==> key < #[trigger] s[j].start.nanos(),
    decreases n,
{
    if n > 0 {
        if s[n - 1].start.nanos() <= key {
            assert forall|j: int| 0 <= j < n implies #[trigger] s[j].start.nanos() <= key by {
                assert(s[j].start.nanos() <= s[n - 1].start.nanos());
            }
        } else {
            lemma_insert_position(s, key, n - 1);
        }
    }
}

/// Adding a time usage keeps every category sorted by start, so that any sequence of additions
/// leaves the records of the category sorted after each one.
pub proof fn law_added_usage_keeps_order(b: BookView, name: Seq<char>, u: UsageView)
    requires
        b.wf(),
    ensures
        add_time_usage_result(b, name, u).0.wf(),
        b.has(name) ==> add_time_usage_result(b, name, u).0.has(name) && sorted_by_start(
            add_time_usage_result(b, name, u).0.records(name),
        ),
{
    if b.has(name) {
        let i = b.slot(name);
        let s = b.records(name);
        let key = u.start.nanos();
        let t = s.insert(insert_position(s, key), u);
        assert(sorted_by_start(s));
        lemma_insert_position(s, key, s.len() as int);
        lemma_insert_keeps_sorted(s, insert_position(s, key), u);
        lemma_update_records(b.categories, i, t);
        lemma_slot(b.with_records(name, t), name, i);
    }
}

/// The book after adding each of `usages`, in order, to one category.
pub open spec fn add_all(b: BookView, name: Seq<char>, usages: Seq<UsageView>) -> BookView
    decreases usages.len(),
{
    if usages.len() == 0 {
        b
    } else {
        add_time_usage_result(add_all(b, name, usages.drop_last()), name, usages.last()).0
    }
}

/// However many time usages are added to a category, one after another, its records are sorted
/// by start after each addition.
pub proof fn law_additions_keep_order(b: BookView, name: Seq<char>, usages: Seq<UsageView>)
    requires
        b.wf(),
        b.has(name),
    ensures
        forall|n: int|
            0 <= n <= usages.len() ==> (#[trigger] add_all(b, name, usages.subrange(0, n))).wf()
                && add_all(b, name, usages.subrange(0, n)).has(name) && sorted_by_start(
                add_all(b, name, usages.subrange(0, n)).records(name),
            ),
{
    assert forall|n: int| 0 <= n <= usages.len() implies (#[trigger] add_all(
        b,
        name,
        usages.subrange(0, n),
    )).wf() && add_all(b, name, usages.subrange(0, n)).has(name) && sorted_by_start(
        add_all(b, name, usages.subrange(0, n)).records(name),
    ) by {
        lemma_add_all(b, name, usages.subrange(0, n));
    }
}

proof fn lemma_add_all(b: BookView, name: Seq<char>, usages: Seq<UsageView>)
    requires
        b.wf(),
        b.has(name),
    ensures
        add_all(b, name, usages).wf(),
        add_all(b, name, usages).has(name),
        sorted_by_start(add_all(b, name, usages).records(name)),
    decreases usages.len(),
{
    if usages.len() == 0 {
        let i = b.slot(name);
        assert(sorted_by_start(b.categories[i].1));
    } else {
        lemma_add_all(b, name, usages.drop_last());
        law_added_usage_keeps_order(add_all(b, name, usages.drop_last()), name, usages.last());
    }
}

/// Adding a category a second time fails with `CategoryExists`, and leaves the book, the
/// category's records included, as the first addition left it.
pub proof fn law_add_category_twice(b: BookView, name: Seq<char>)
    ensures
        add_category_result(add_category_result(b, name).0, name) == (
            add_category_result(b, name).0,
            Err::<(), ErrorView>(ErrorView::CategoryExists(name)),
        ),
{
    let after = add_category_result(b, name).0;
    if !b.has(name) {
        assert(after.categories[b.categories.len() as int].0 == name);
    }
    assert(after.has(name));
}

/// Removing a category that does not exist fails with `CategoryDoesntExist` and changes
/// nothing.
pub proof fn law_remove_absent_category(b: BookView, name: Seq<char>)
    requires
        !b.has(name),
    ensures
        remove_category_result(b, name) == (
            b,
            Err::<(), ErrorView>(ErrorView::CategoryDoesntExist(name)),
        ),
{
}

/// Removing a time usage at a position past the category's records fails with
/// `TimeUsageDoesntExist` and changes nothing.
pub proof fn law_remove_usage_out_of_range(b: BookView, name: Seq<char>, id: usize)
    requires
        b.has(name),
        id >= b.records(name).len(),
    ensures
        remove_time_usage_result(b, name, id) == (
            b,
            Err::<(), ErrorView>(ErrorView::TimeUsageDoesntExist(id)),
        ),
{
}

/// Starting while a recording is in progress fails with `AlreadyRecordingTime`, and the
/// recording keeps its category and start.
pub proof fn law_start_while_recording(b: BookView, name: Seq<char>, t: Timestamp)
    requires
        b.recording is Some,
    ensures
        start_result(b, name, t) == (b, Err::<(), ErrorView>(ErrorView::AlreadyRecordingTime)),
{
}

/// While nothing is recorded, stopping, cancelling and asking for the status all fail with
/// `NotRecordingTime`, and change nothing.
pub proof fn law_idle_refuses(b: BookView, t: Timestamp, desc: Option<Seq<char>>)
    requires
        b.recording is None,
    ensures
        stop_result(b, t, desc) == (b, Err::<(), ErrorView>(ErrorView::NotRecordingTime)),
        cancel_result(b) == (b, Err::<(), ErrorView>(ErrorView::NotRecordingTime)),
        status_result(b) == Err::<(Seq<char>, Timestamp), ErrorView>(
            ErrorView::NotRecordingTime,
        ),
{
}

/// Starting on a category at `t1` and stopping at `t2` leaves the book as adding the time usage
/// from `t1` to `t2` directly does, with nothing recording. Where the start fails, it fails as the
/// addition does; where it succeeds, the stop succeeds as the addition does.
pub proof fn law_start_then_stop(
    b: BookView,
    name: Seq<char>,
    t1: Timestamp,
    t2: Timestamp,
    desc: Option<Seq<char>>,
)
    requires
        b.recording is None,
    ensures
        ({
            let (started, r1) = start_result(b, name, t1);
            let (stopped, r2) = stop_result(started, t2, desc);
            let (added, r3) = add_time_usage_result(
                b,
                name,
                UsageView { start: t1, stop: t2, desc: desc },
            );
            &&& stopped == added
            &&& stopped.recording is None
            &&& r1 is Ok ==> r2 == r3
            &&& r1 is Err ==> r1 == r3
        }),
{
    let (started, r1) = start_result(b, name, t1);
    if b.has(name) {
        assert(started.categories == b.categories);
        assert(started.has(name));
        assert(started.slot(name) == b.slot(name));
    }
}

/// Cancelling after a start leaves every category's records as they were, with nothing
/// recording.
pub proof fn law_start_then_cancel(b: BookView, name: Seq<char>, t: Timestamp)
    ensures
        cancel_result(start_result(b, name, t).0).0 == (BookView {
            recording: None,
            categories: b.categories,
        }),
{
}

/// Over all dates, the time spent on a category is the sum of each record's stop minus start.
pub proof fn law_time_spent_all(b: BookView, name: Seq<char>, today: int)
    requires
        b.has(name),
    ensures
        time_spent_result(b, name, ShownTimeSpan::All, today) == Ok::<int, ErrorView>(
            total_spent(b.records(name)),
        ),
{
    lemma_all_span_total(b.records(name), today);
}

proof fn lemma_all_span_total(records: Seq<UsageView>, today: int)
    ensures
        span_total(records, ShownTimeSpan::All, today) == total_spent(records),
    decreases records.len(),
{
    if records.len() > 0 {
        lemma_all_span_total(records.drop_last(), today);
    }
}

/// Where no record of a category starts within the span, the time spent in it is zero.
pub proof fn law_time_spent_none_in_span(
    b: BookView,
    name: Seq<char>,
    span: ShownTimeSpan,
    today: int,
)
    requires
        b.has(name),
        forall|j: int|
            0 <= j < b.records(name).len() ==> !in_span(
                span,
                #[trigger] b.records(name)[j].start.date(),
                today,
            ),
    ensures
        time_spent_result(b, name, span, today) == Ok::<int, ErrorView>(0),
{
    lemma_none_in_span(b.records(name), span, today);
}

proof fn lemma_none_in_span(records: Seq<UsageView>, span: ShownTimeSpan, today: int)
    requires
        forall|j: int|
            0 <= j < records.len() ==> !in_span(span, #[trigger] records[j].start.date(), today),
    ensures
        span_total(records, span, today) == 0,
    decreases records.len(),
{
    if records.len() > 0 {
        let rest = records.drop_last();
        assert forall|j: int| 0 <= j < rest.len() implies !in_span(
            span,
            #[trigger] rest[j].start.date(),
            today,
        ) by {
            assert(rest[j] == records[j]);
        }
        lemma_none_in_span(rest, span, today);
        assert(!in_span(span, records[records.len() - 1].start.date(), today));
    }
}

} // verus!
