//! The text of time usage logs, and the merge of all categories' records by start.
use crate::span::{in_span, ShownTimeSpan};
use crate::text::decimal;
use crate::usage::UsageView;
use vstd::prelude::*;

verus! {

/// The log entry of a record: `<start> - <stop>: <category> (ID: <index>)`, then its
/// description, if any, on an indented line, then a blank line.
pub open spec fn entry_text(u: UsageView, index: int, category: Seq<char>) -> Seq<char> {
    let head = u.start.text_view() + " - "@ + u.stop.text_view() + ": "@ + category + " (ID: "@
        + decimal(index as nat) + ")"@;
    let body = match u.desc {
        Some(d) => head + "\n\t"@ + d,
        None => head,
    };
    body + "\n\n"@
}

/// A log with the entry of a record put in front, where the record starts within the span.
pub open spec fn prepend_entry(
    log: Seq<char>,
    u: UsageView,
    index: int,
    category: Seq<char>,
    span: ShownTimeSpan,
    today: int,
) -> Seq<char> {
    if in_span(span, u.start.date(), today) {
        entry_text(u, index, category) + log
    } else {
        log
    }
}

/// The log of one category: its records taken from oldest to newest, each put in front.
pub open spec fn category_log(
    records: Seq<UsageView>,
    category: Seq<char>,
    span: ShownTimeSpan,
    today: int,
) -> Seq<char>
    decreases records.len(),
{
    if records.len() == 0 {
        Seq::empty()
    } else {
        prepend_entry(
            category_log(records.drop_last(), category, span, today),
            records.last(),
            records.len() - 1,
            category,
            span,
            today,
        )
    }
}

/// Whether category `j` has records left after the first `pos[j]`.
pub open spec fn pending(cats: Seq<(Seq<char>, Seq<UsageView>)>, pos: Seq<int>, j: int) -> bool {
    pos[j] < cats[j].1.len()
}

/// The start of the first record of category `j` that is left.
pub open spec fn front(cats: Seq<(Seq<char>, Seq<UsageView>)>, pos: Seq<int>, j: int) -> int {
    cats[j].1[pos[j]].start.nanos()
}

/// Whether some category has records left.
pub open spec fn any_pending(cats: Seq<(Seq<char>, Seq<UsageView>)>, pos: Seq<int>) -> bool {
    exists|j: int| 0 <= j < cats.len() && #[trigger] pending(cats, pos, j)
}

/// Whether category `j` holds the oldest record left, and no category before it holds one
/// as old.
pub open spec fn is_next(cats: Seq<(Seq<char>, Seq<UsageView>)>, pos: Seq<int>, j: int) -> bool {
    &&& 0 <= j < cats.len()
    &&& pending(cats, pos, j)
    &&& forall|k: int|
        0 <= k < cats.len() && #[trigger] pending(cats, pos, k) ==> front(cats, pos, j) <= front(
            cats,
            pos,
            k,
        )
    &&& forall|k: int|
        0 <= k < j && #[trigger] pending(cats, pos, k) ==> front(cats, pos, j) < front(
            cats,
            pos,
            k,
        )
}

/// The category from which the merge takes its next record.
pub open spec fn next_slot(cats: Seq<(Seq<char>, Seq<UsageView>)>, pos: Seq<int>) -> int {
    choose|j: int| is_next(cats, pos, j)
}

/// Records left in the first `n` categories.
pub open spec fn remaining(cats: Seq<(Seq<char>, Seq<UsageView>)>, pos: Seq<int>, n: int) -> int
    decreases n,
{
    if n <= 0 {
        0
    } else {
        remaining(cats, pos, n - 1) + cats[n - 1].1.len() - pos[n - 1]
    }
}

/// The log of all categories, from the state in which the first `pos[j]` records of each category
/// `j` are in `log`: the oldest record left is put in front, over and over, at most `fuel` times.
pub open spec fn merged_log(
    cats: Seq<(Seq<char>, Seq<UsageView>)>,
    pos: Seq<int>,
    log: Seq<char>,
    span: ShownTimeSpan,
    today: int,
    fuel: nat,
) -> Seq<char>
    decreases fuel,
{
    if fuel == 0 || !any_pending(cats, pos) {
        log
    } else {
        let j = next_slot(cats, pos);
        let i = pos[j];
        merged_log(
            cats,
            pos.update(j, i + 1),
            prepend_entry(log, cats[j].1[i], i, cats[j].0, span, today),
            span,
            today,
            (fuel - 1) as nat,
        )
    }
}

/// No record of any category taken yet.
pub open spec fn nothing_taken(cats: Seq<(Seq<char>, Seq<UsageView>)>) -> Seq<int> {
    Seq::new(cats.len(), |j: int| 0)
}

/// Taking one more record of category `j` leaves one record fewer.
pub(crate) proof fn lemma_remaining_step(cats: Seq<(Seq<char>, Seq<UsageView>)>, pos: Seq<int>, j: int, n: int)
    requires
        0 <= j < n <= cats.len(),
        n <= pos.len(),
    ensures
        remaining(cats, pos.update(j, pos[j] + 1), n) == remaining(cats, pos, n) - 1,
    decreases n,
{
    if n - 1 > j {
        lemma_remaining_step(cats, pos, j, n - 1);
    } else {
        assert(n - 1 == j);
        lemma_remaining_unchanged(cats, pos, pos.update(j, pos[j] + 1), n - 1);
    }
}

/// Counts that agree on the first `n` categories leave as many records there.
pub(crate) proof fn lemma_remaining_unchanged(
    cats: Seq<(Seq<char>, Seq<UsageView>)>,
    p: Seq<int>,
    q: Seq<int>,
    n: int,
)
    requires
        n <= p.len(),
        n <= q.len(),
        forall|k: int| 0 <= k < n ==> p[k] == q[k],
    ensures
        remaining(cats, p, n) == remaining(cats, q, n),
    decreases n,
{
    if n > 0 {
        lemma_remaining_unchanged(cats, p, q, n - 1);
    }
}

/// Where some category has records left, some records are left.
pub(crate) proof fn lemma_remaining_positive(cats: Seq<(Seq<char>, Seq<UsageView>)>, pos: Seq<int>, j: int, n: int)
    requires
        0 <= j < n <= cats.len(),
        n <= pos.len(),
        forall|k: int| 0 <= k < n ==> pos[k] <= #[trigger] cats[k].1.len(),
        pending(cats, pos, j),
    ensures
        remaining(cats, pos, n) > 0,
    decreases n,
{
    lemma_remaining_nonnegative(cats, pos, n - 1);
    if j < n - 1 {
        lemma_remaining_positive(cats, pos, j, n - 1);
    }
}

pub(crate) proof fn lemma_remaining_nonnegative(cats: Seq<(Seq<char>, Seq<UsageView>)>, pos: Seq<int>, n: int)
    requires
        n <= cats.len(),
        n <= pos.len(),
        forall|k: int| 0 <= k < n ==> pos[k] <= #[trigger] cats[k].1.len(),
    ensures
        remaining(cats, pos, n) >= 0,
    decreases n,
{
    if n > 0 {
        lemma_remaining_nonnegative(cats, pos, n - 1);
    }
}

/// Only one category holds the next record.
pub(crate) proof fn lemma_next_unique(cats: Seq<(Seq<char>, Seq<UsageView>)>, pos: Seq<int>, j: int)
    requires
        is_next(cats, pos, j),
    ensures
        any_pending(cats, pos),
        next_slot(cats, pos) == j,
{
    assert(pending(cats, pos, j));
    let k = next_slot(cats, pos);
    assert(is_next(cats, pos, k));
    if k < j {
        assert(pending(cats, pos, k));
    } else if j < k {
        assert(pending(cats, pos, j));
    }
}

} // verus!
