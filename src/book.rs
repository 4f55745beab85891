//! The time book: categories of time usages, and the recording in progress.
use crate::error::{outcome_view, Error, ErrorView};
use crate::span::{in_time_span, ShownTimeSpan};
use crate::text::decimal_text;
use crate::time::{span_bound, today, Duration, Timestamp};
use crate::usage::{
    insert_sorted, insertion_point, lemma_insert_keeps_sorted, lemma_remove_keeps_sorted,
    lemma_total_fits, records_sorted, sorted_by_start, span_total, text_option, TimeUsage,
    UsageView,
};
use crate::usage_log::{
    any_pending, category_log, front, is_next, lemma_next_unique, lemma_remaining_nonnegative,
    lemma_remaining_positive, lemma_remaining_step, merged_log, nothing_taken, pending,
    prepend_entry, remaining,
};
use vstd::prelude::*;

verus! {

/// A time book as plain values: the recording in progress, if any, with its category and start,
/// and each category with its records.
pub struct BookView {
    pub recording: Option<(Seq<char>, Timestamp)>,
    pub categories: Seq<(Seq<char>, Seq<UsageView>)>,
}

/// Whether category names are distinct and each category's records are sorted by start.
pub open spec fn categories_wf(cats: Seq<(Seq<char>, Seq<UsageView>)>) -> bool {
    &&& forall|i: int, j: int|
        #![trigger cats[i], cats[j]]
        0 <= i < j < cats.len() ==> cats[i].0 != cats[j].0
    &&& forall|i: int| 0 <= i < cats.len() ==> sorted_by_start(#[trigger] cats[i].1)
}

impl BookView {
    pub open spec fn wf(self) -> bool {
        categories_wf(self.categories)
    }

    /// Whether a category of that name exists.
    pub open spec fn has(self, name: Seq<char>) -> bool {
        exists|i: int| 0 <= i < self.categories.len() && #[trigger] self.categories[i].0 == name
    }

    /// Where the category of that name stands.
    pub open spec fn slot(self, name: Seq<char>) -> int {
        choose|i: int| 0 <= i < self.categories.len() && #[trigger] self.categories[i].0 == name
    }

    /// The records of the category of that name.
    pub open spec fn records(self, name: Seq<char>) -> Seq<UsageView> {
        self.categories[self.slot(name)].1
    }

    /// The book with the records of the category of that name replaced.
    pub open spec fn with_records(self, name: Seq<char>, records: Seq<UsageView>) -> BookView {
        BookView {
            recording: self.recording,
            categories: self.categories.update(self.slot(name), (name, records)),
        }
    }

    /// The names of the categories, in the order in which they stand.
    pub open spec fn names(self) -> Seq<Seq<char>> {
        self.categories.map_values(|c: (Seq<char>, Seq<UsageView>)| c.0)
    }
}

/// Adding a category: it must not exist yet, and it starts without records.
pub open spec fn add_category_result(b: BookView, name: Seq<char>) -> (
    BookView,
    Result<(), ErrorView>,
) {
    if b.has(name) {
        (b, Err(ErrorView::CategoryExists(name)))
    } else {
        (
            BookView { recording: b.recording, categories: b.categories.push((name, Seq::empty())) },
            Ok(()),
        )
    }
}

/// Removing a category, with all its records.
pub open spec fn remove_category_result(b: BookView, name: Seq<char>) -> (
    BookView,
    Result<(), ErrorView>,
) {
    if !b.has(name) {
        (b, Err(ErrorView::CategoryDoesntExist(name)))
    } else {
        (
            BookView { recording: b.recording, categories: b.categories.remove(b.slot(name)) },
            Ok(()),
        )
    }
}

/// Adding a record to a category, keeping its records sorted by start.
pub open spec fn add_time_usage_result(b: BookView, name: Seq<char>, u: UsageView) -> (
    BookView,
    Result<(), ErrorView>,
) {
    if !b.has(name) {
        (b, Err(ErrorView::CategoryDoesntExist(name)))
    } else {
        (b.with_records(name, insert_sorted(b.records(name), u)), Ok(()))
    }
}

/// Removing the record at position `id` of a category.
pub open spec fn remove_time_usage_result(b: BookView, name: Seq<char>, id: usize) -> (
    BookView,
    Result<(), ErrorView>,
) {
    if !b.has(name) {
        (b, Err(ErrorView::CategoryDoesntExist(name)))
    } else if id >= b.records(name).len() {
        (b, Err(ErrorView::TimeUsageDoesntExist(id)))
    } else {
        (b.with_records(name, b.records(name).remove(id as int)), Ok(()))
    }
}

/// Starting to record time on a category, from `t`: nothing may be recording yet, and the
/// category must exist.
pub open spec fn start_result(b: BookView, name: Seq<char>, t: Timestamp) -> (
    BookView,
    Result<(), ErrorView>,
) {
    if b.recording is Some {
        (b, Err(ErrorView::AlreadyRecordingTime))
    } else if !b.has(name) {
        (b, Err(ErrorView::CategoryDoesntExist(name)))
    } else {
        (BookView { recording: Some((name, t)), categories: b.categories }, Ok(()))
    }
}

/// Stopping the recording at `t`: its time usage is added to its category, and the recording
/// ends. Where the category is gone, the recording goes on and the book stays as it was.
pub open spec fn stop_result(b: BookView, t: Timestamp, desc: Option<Seq<char>>) -> (
    BookView,
    Result<(), ErrorView>,
) {
    match b.recording {
        None => (b, Err(ErrorView::NotRecordingTime)),
        Some((name, start)) => {
            let (after, r) = add_time_usage_result(
                b,
                name,
                UsageView { start: start, stop: t, desc: desc },
            );
            if r is Ok {
                (BookView { recording: None, categories: after.categories }, Ok(()))
            } else {
                (b, r)
            }
        },
    }
}

/// Cancelling the recording: it ends and leaves no time usage.
pub open spec fn cancel_result(b: BookView) -> (BookView, Result<(), ErrorView>) {
    match b.recording {
        None => (b, Err(ErrorView::NotRecordingTime)),
        Some(_) => (BookView { recording: None, categories: b.categories }, Ok(())),
    }
}

/// The category being recorded and the start of the recording.
pub open spec fn status_result(b: BookView) -> Result<(Seq<char>, Timestamp), ErrorView> {
    match b.recording {
        None => Err(ErrorView::NotRecordingTime),
        Some(current) => Ok(current),
    }
}

/// The time spent on a category within a span, in nanoseconds.
pub open spec fn time_spent_result(
    b: BookView,
    name: Seq<char>,
    span: ShownTimeSpan,
    today: int,
) -> Result<int, ErrorView> {
    if !b.has(name) {
        Err(ErrorView::CategoryDoesntExist(name))
    } else {
        Ok(span_total(b.records(name), span, today))
    }
}

/// A result as plain values.
pub open spec fn duration_result(r: Result<Duration, Error>) -> Result<int, ErrorView> {
    match r {
        Ok(d) => Ok(d@),
        Err(e) => Err(e@),
    }
}

/// The log of the records within a span, newest first: of one category, or, without one, of all
/// categories merged by start.
pub open spec fn log_result(
    b: BookView,
    span: ShownTimeSpan,
    category: Option<Seq<char>>,
    today: int,
) -> Result<Seq<char>, ErrorView> {
    match category {
        Some(name) => if !b.has(name) {
            Err(ErrorView::CategoryDoesntExist(name))
        } else {
            Ok(category_log(b.records(name), name, span, today))
        },
        None => {
            let cats = b.categories;
            let start = nothing_taken(cats);
            Ok(merged_log(cats, start, Seq::empty(), span, today, remaining(cats, start, cats.len() as int) as nat))
        },
    }
}

/// A result as plain values.
pub open spec fn text_result(r: Result<String, Error>) -> Result<Seq<char>, ErrorView> {
    match r {
        Ok(s) => Ok(s@),
        Err(e) => Err(e@),
    }
}

/// A recording in progress with its category name as a character sequence.
pub open spec fn recording_view(r: Option<(String, Timestamp)>) -> Option<(Seq<char>, Timestamp)> {
    match r {
        Some((c, t)) => Some((c@, t)),
        None => None,
    }
}

/// Categories with names and descriptions as character sequences.
pub open spec fn categories_view(cats: Seq<(String, Vec<TimeUsage>)>) -> Seq<
    (Seq<char>, Seq<UsageView>),
> {
    cats.map_values(|c: (String, Vec<TimeUsage>)| (c.0@, c.1@.map_values(|u: TimeUsage| u@)))
}

/// Keeps track of all `TimeUsage`s and their associated categories as well as the current
/// task being done.
#[derive(Debug)]
pub struct TimeBook {
    recording: Option<(String, Timestamp)>,
    categories: Vec<(String, Vec<TimeUsage>)>,
}

impl View for TimeBook {
    type V = BookView;

    closed spec fn view(&self) -> BookView {
        BookView {
            recording: recording_view(self.recording),
            categories: categories_view(self.categories@),
        }
    }
}

/// Distinct names pick out one slot each.
pub(crate) proof fn lemma_slot(b: BookView, name: Seq<char>, i: int)
    requires
        b.wf(),
        0 <= i < b.categories.len(),
        b.categories[i].0 == name,
    ensures
        b.has(name),
        b.slot(name) == i,
{
    assert(b.has(name));
    let j = b.slot(name);
    if j != i {
        if j < i {
            assert(b.categories[j].0 != b.categories[i].0);
        } else {
            assert(b.categories[i].0 != b.categories[j].0);
        }
    }
}

/// Replacing the records of one category by sorted ones, under the same name, keeps the
/// categories well formed.
pub(crate) proof fn lemma_update_records(
    cats: Seq<(Seq<char>, Seq<UsageView>)>,
    i: int,
    records: Seq<UsageView>,
)
    requires
        categories_wf(cats),
        0 <= i < cats.len(),
        sorted_by_start(records),
    ensures
        categories_wf(cats.update(i, (cats[i].0, records))),
{
    let c = cats.update(i, (cats[i].0, records));
    assert forall|a: int, b: int| 0 <= a < b < c.len() implies c[a].0 != c[b].0 by {
        assert(cats[a].0 != cats[b].0);
    }
    assert forall|a: int| 0 <= a < c.len() implies sorted_by_start(#[trigger] c[a].1) by {
        if a != i {
            assert(sorted_by_start(cats[a].1));
        }
    }
}

/// A time book as plain values, made of its parts.
pub open spec fn parts_view(
    recording: Option<(String, Timestamp)>,
    categories: Seq<(String, Vec<TimeUsage>)>,
) -> BookView {
    BookView { recording: recording_view(recording), categories: categories_view(categories) }
}

/// The time book that [`TimeBook::from_parts`] makes of its parts, if any.
pub open spec fn rebuilt(
    recording: Option<(String, Timestamp)>,
    categories: Seq<(String, Vec<TimeUsage>)>,
) -> Option<BookView> {
    if categories_wf(categories_view(categories)) {
        Some(parts_view(recording, categories))
    } else {
        None
    }
}

/// Whether category names are distinct and each category's records are sorted by start.
fn categories_valid(cats: &Vec<(String, Vec<TimeUsage>)>) -> (r: bool)
    ensures
        r == categories_wf(categories_view(cats@)),
{
    let ghost c = categories_view(cats@);
    let mut i: usize = 0;
    while i < cats.len()
        invariant
            i <= cats@.len(),
            c == categories_view(cats@),
            forall|a: int, b: int| #![trigger c[a], c[b]] 0 <= a < b < i ==> c[a].0 != c[b].0,
            forall|a: int| 0 <= a < i ==> sorted_by_start(#[trigger] c[a].1),
        decreases cats.len() - i,
    {
        assert(c[i as int].1 == cats@[i as int].1@.map_values(|u: TimeUsage| u@));
        if !records_sorted(&cats[i].1) {
            return false;
        }
        let mut j: usize = 0;
        while j < i
            invariant
                j <= i < cats@.len(),
                c == categories_view(cats@),
                forall|a: int| #![trigger c[a]] 0 <= a < j ==> c[a].0 != c[i as int].0,
            decreases i - j,
        {
            if cats[j].0 == cats[i].0 {
                assert(!categories_wf(c)) by {
                    assert(c[j as int].0 == c[i as int].0);
                }
                return false;
            }
            j = j + 1;
        }
        i = i + 1;
    }
    true
}

impl Default for TimeBook {
    /// Creates a new `TimeBook`.
    fn default() -> (r: TimeBook)
        ensures
            r@ == (BookView { recording: None, categories: Seq::empty() }),
    {
        let r = TimeBook { recording: None, categories: Vec::new() };
        assert(r@.categories =~= Seq::empty());
        r
    }
}

impl TimeBook {
    #[verifier::type_invariant]
    spec fn is_well_formed(self) -> bool {
        self@.wf()
    }

    /// Takes the categories out, leaving none behind.
    fn take_categories(&mut self) -> (r: Vec<(String, Vec<TimeUsage>)>)
        ensures
            r@ == old(self).categories@,
            final(self).recording == old(self).recording,
            final(self).categories@.len() == 0,
            categories_wf(categories_view(r@)),
    {
        proof {
            use_type_invariant(&*self);
        }
        let mut r = Vec::new();
        std::mem::swap(&mut self.categories, &mut r);
        r
    }

    /// Puts well-formed categories back.
    fn put_categories(&mut self, cats: Vec<(String, Vec<TimeUsage>)>)
        requires
            categories_wf(categories_view(cats@)),
        ensures
            final(self).recording == old(self).recording,
            final(self).categories@ == cats@,
    {
        self.categories = cats;
    }

    /// Where the category of that name stands, if it exists.
    fn slot_of(&self, name: &String) -> (r: Option<usize>)
        ensures
            match r {
                Some(i) => i < self@.categories.len() && self@.has(name@) && i == self@.slot(
                    name@,
                ),
                None => !self@.has(name@),
            },
    {
        proof {
            use_type_invariant(self);
        }
        let mut i: usize = 0;
        while i < self.categories.len()
            invariant
                i <= self.categories@.len(),
                self@.wf(),
                self@.categories.len() == self.categories@.len(),
                forall|j: int| 0 <= j < i ==> self@.categories[j].0 != name@,
            decreases self.categories.len() - i,
        {
            if self.categories[i].0 == *name {
                proof {
                    lemma_slot(self@, name@, i as int);
                }
                return Some(i);
            }
            i = i + 1;
        }
        None
    }

    /// Adds a new category.
    /// Returns an `Error` if the category already exists.
    pub fn add_category(&mut self, category: String) -> (r: Result<(), Error>)
        ensures
            (final(self)@, outcome_view(r)) == add_category_result(old(self)@, category@),
    {
        match self.slot_of(&category) {
            Some(_) => Err(Error::CategoryExists(category)),
            None => {
                let ghost before = self@;
                let mut cats = self.take_categories();
                cats.push((category, Vec::new()));
                assert(cats@.last().1@.map_values(|u: TimeUsage| u@) =~= Seq::<UsageView>::empty());
                assert(categories_view(cats@) =~= before.categories.push((category@, Seq::empty())));
                self.put_categories(cats);
                Ok(())
            },
        }
    }

    /// Removes a category.
    /// Returns an `Error` if the category doesn't exist.
    /// A recording on the category goes on; stopping it then fails with `CategoryDoesntExist`.
    pub fn remove_category(&mut self, category: &str) -> (r: Result<(), Error>)
        ensures
            (final(self)@, outcome_view(r)) == remove_category_result(old(self)@, category@),
    {
        let name = category.to_owned();
        match self.slot_of(&name) {
            None => Err(Error::CategoryDoesntExist(name)),
            Some(i) => {
                let ghost before = self@;
                let mut cats = self.take_categories();
                cats.remove(i);
                assert(categories_view(cats@) =~= before.categories.remove(i as int));
                self.put_categories(cats);
                Ok(())
            },
        }
    }

    /// Returns all categories.
    pub fn categories(&self) -> (r: Vec<&String>)
        ensures
            r@.map_values(|s: &String| s@) == self@.names(),
    {
        let mut r: Vec<&String> = Vec::new();
        let mut i: usize = 0;
        while i < self.categories.len()
            invariant
                i <= self.categories@.len(),
                self@.categories.len() == self.categories@.len(),
                r@.map_values(|s: &String| s@) =~= self@.names().subrange(0, i as int),
            decreases self.categories.len() - i,
        {
            let ghost prev = r@;
            r.push(&self.categories[i].0);
            assert(self@.names()[i as int] == self.categories@[i as int].0@);
            assert(r@ == prev.push(&self.categories@[i as int].0));
            assert(self@.names().subrange(0, i + 1) =~= self@.names().subrange(0, i as int).push(
                self@.names()[i as int],
            ));
            i = i + 1;
        }
        r
    }

    /// Creates a new `TimeUsage` and adds it to the `TimeBook` in the specified category.
    /// Returns an `Error` if the category doesn't exist.
    pub fn add_time_usage(
        &mut self,
        category: &str,
        start_time: Timestamp,
        stop_time: Timestamp,
        desc: Option<String>,
    ) -> (r: Result<(), Error>)
        ensures
            (final(self)@, outcome_view(r)) == add_time_usage_result(
                old(self)@,
                category@,
                UsageView { start: start_time, stop: stop_time, desc: text_option(desc) },
            ),
    {
        let name = category.to_owned();
        match self.slot_of(&name) {
            None => Err(Error::CategoryDoesntExist(name)),
            Some(i) => {
                let ghost before = self@;
                let mut cats = self.take_categories();
                let ghost s = before.categories[i as int].1;
                assert(s == cats@[i as int].1@.map_values(|u: TimeUsage| u@));
                let usage = TimeUsage { start: start_time, stop: stop_time, desc };
                let pos = insertion_point(&cats[i].1, &usage.start);
                let ghost u = usage@;
                let ghost inner = cats@[i as int].1@;
                cats[i].1.insert(pos, usage);
                proof {
                    let t = s.insert(pos as int, u);
                    assert(cats@[i as int].1@.map_values(|u: TimeUsage| u@) =~= t);
                    assert forall|j: int| 0 <= j < pos implies #[trigger] s[j].start.nanos()
                        <= u.start.nanos() by {
                        assert(s[j] == inner[j]@);
                    }
                    lemma_insert_keeps_sorted(s, pos as int, u);
                    lemma_update_records(before.categories, i as int, t);
                    assert(categories_view(cats@) =~= before.categories.update(
                        i as int,
                        (name@, t),
                    ));
                }
                self.put_categories(cats);
                Ok(())
            },
        }
    }

    /// Removes time usage from a category.
    /// Returns an `Error` if the category or the time usage with the specified id doesn't exist.
    pub fn remove_time_usage(&mut self, category: &str, id: usize) -> (r: Result<(), Error>)
        ensures
            (final(self)@, outcome_view(r)) == remove_time_usage_result(old(self)@, category@, id),
    {
        let name = category.to_owned();
        match self.slot_of(&name) {
            None => Err(Error::CategoryDoesntExist(name)),
            Some(i) => {
                if id >= self.categories[i].1.len() {
                    return Err(Error::TimeUsageDoesntExist(id));
                }
                let ghost before = self@;
                let mut cats = self.take_categories();
                let ghost s = before.categories[i as int].1;
                assert(s == cats@[i as int].1@.map_values(|u: TimeUsage| u@));
                cats[i].1.remove(id);
                proof {
                    let t = s.remove(id as int);
                    assert(cats@[i as int].1@.map_values(|u: TimeUsage| u@) =~= t);
                    lemma_remove_keeps_sorted(s, id as int);
                    lemma_update_records(before.categories, i as int, t);
                    assert(categories_view(cats@) =~= before.categories.update(
                        i as int,
                        (name@, t),
                    ));
                }
                self.put_categories(cats);
                Ok(())
            },
        }
    }

    /// Starts recording time for a category. If start_time is not specified starts recording from
    /// the current moment.
    /// Returns an `Error` if the category doesn't exist or if time is already being recorded.
    pub fn start(&mut self, category: String, start_time: Option<Timestamp>) -> (r: Result<
        (),
        Error,
    >)
        ensures
            match start_time {
                Some(t) => (final(self)@, outcome_view(r)) == start_result(old(self)@, category@, t),
                None => exists|t: Timestamp|
                    (final(self)@, outcome_view(r)) == #[trigger] start_result(
                        old(self)@,
                        category@,
                        t,
                    ),
            },
    {
        proof {
            use_type_invariant(&*self);
        }
        if self.recording.is_some() {
            assert(self@.recording is Some);
            assert(outcome_view(Err(Error::AlreadyRecordingTime)) == Err::<(), ErrorView>(ErrorView::AlreadyRecordingTime));
            return Err(Error::AlreadyRecordingTime);
        }
        match self.slot_of(&category) {
            None => Err(Error::CategoryDoesntExist(category)),
            Some(_) => {
                let ghost before = self@;
                let ghost name = category@;
                let t = match start_time {
                    Some(t) => t,
                    None => Timestamp::now(),
                };
                self.recording = Some((category, t));
                assert((self@, outcome_view(Ok(()))) == start_result(before, name, t));
                Ok(())
            },
        }
    }

    /// Stops recording time and adds the new `TimeUsage` to the category. If stop_time is not
    /// specified the recording will be stopped at the current moment.
    /// Returns an `Error` if time recording hasn't been started.
    pub fn stop(&mut self, stop_time: Option<Timestamp>, description: Option<String>) -> (r:
        Result<(), Error>)
        ensures
            match stop_time {
                Some(t) => (final(self)@, outcome_view(r)) == stop_result(
                    old(self)@,
                    t,
                    text_option(description),
                ),
                None => exists|t: Timestamp|
                    (final(self)@, outcome_view(r)) == #[trigger] stop_result(
                        old(self)@,
                        t,
                        text_option(description),
                    ),
            },
    {
        let ghost before = self@;
        let ghost desc = text_option(description);
        let stop_time = match stop_time {
            Some(t) => t,
            None => Timestamp::now(),
        };
        let current = match &self.recording {
            Some((c, t)) => Some((c.clone(), *t)),
            None => None,
        };
        match current {
            None => {
                assert((self@, outcome_view(Err(Error::NotRecordingTime))) == stop_result(
                    before,
                    stop_time,
                    desc,
                ));
                Err(Error::NotRecordingTime)
            },
            Some((category, start_time)) => {
                let r = self.add_time_usage(category.as_str(), start_time, stop_time, description);
                proof {
                    use_type_invariant(&*self);
                }
                match r {
                    Ok(()) => {
                        self.recording = None;
                        assert((self@, outcome_view(Ok(()))) == stop_result(
                            before,
                            stop_time,
                            desc,
                        ));
                        Ok(())
                    },
                    Err(e) => {
                        assert((self@, outcome_view(Err(e))) == stop_result(
                            before,
                            stop_time,
                            desc,
                        ));
                        Err(e)
                    },
                }
            },
        }
    }

    /// Returns the current category that is being recorded and the start time for that recording.
    /// Returns an `Error` if time recording hasn't been started.
    pub fn status(&self) -> (r: Result<(&str, Timestamp), Error>)
        ensures
            match r {
                Ok((c, t)) => status_result(self@) == Ok::<(Seq<char>, Timestamp), ErrorView>(
                    (c@, t),
                ),
                Err(e) => status_result(self@) == Err::<(Seq<char>, Timestamp), ErrorView>(e@),
            },
    {
        match &self.recording {
            Some((c, t)) => Ok((c.as_str(), *t)),
            None => Err(Error::NotRecordingTime),
        }
    }

    /// Cancels time recording.
    /// Returns an `Error` if time recording hasn't been started.
    pub fn cancel(&mut self) -> (r: Result<(), Error>)
        ensures
            (final(self)@, outcome_view(r)) == cancel_result(old(self)@),
    {
        proof {
            use_type_invariant(&*self);
        }
        if self.recording.is_some() {
            self.recording = None;
            Ok(())
        } else {
            Err(Error::NotRecordingTime)
        }
    }

    /// Returns the time spent on a category within the specified time span, today being day
    /// number `today`. Returns an `Error` if the category doesn't exist.
    pub fn time_spent_on(&self, category: &str, shown_span: ShownTimeSpan, today: i32) -> (r:
        Result<Duration, Error>)
        ensures
            duration_result(r) == time_spent_result(self@, category@, shown_span, today as int),
    {
        let name = category.to_owned();
        match self.slot_of(&name) {
            None => Err(Error::CategoryDoesntExist(name)),
            Some(i) => {
                let usages = &self.categories[i].1;
                let ghost s = self@.records(name@);
                assert(s == usages@.map_values(|u: TimeUsage| u@));
                let mut total = Duration::zero();
                let mut k: usize = 0;
                while k < usages.len()
                    invariant
                        k <= usages@.len(),
                        s == usages@.map_values(|u: TimeUsage| u@),
                        total@ == span_total(s.subrange(0, k as int), shown_span, today as int),
                        -(k * span_bound()) <= total@ <= k * span_bound(),
                    decreases usages.len() - k,
                {
                    let usage = &usages[k];
                    assert(s.subrange(0, k + 1).drop_last() =~= s.subrange(0, k as int));
                    assert(s[k as int] == usage@);
                    proof {
                        lemma_total_fits(k as int);
                    }
                    if in_time_span(&usage.start, shown_span, today) {
                        let spent = usage.stop.since(&usage.start);
                        total = total.plus(spent);
                    }
                    k = k + 1;
                }
                assert(s.subrange(0, s.len() as int) =~= s);
                Ok(total)
            },
        }
    }

    /// Returns the time spent on a category within the specified time span, as of today's local
    /// date. Returns an `Error` if the category doesn't exist.
    pub fn time_spent(&self, category: &str, shown_span: ShownTimeSpan) -> (r: Result<
        Duration,
        Error,
    >)
        ensures
            exists|today: int|
                duration_result(r) == #[trigger] time_spent_result(
                    self@,
                    category@,
                    shown_span,
                    today,
                ),
    {
        let today = today();
        let r = self.time_spent_on(category, shown_span, today);
        assert(duration_result(r) == time_spent_result(self@, category@, shown_span, today as int));
        r
    }

    /// Concatenates a time usage to the beginning of the specified string and returns the result.
    fn concat_usage(
        s: String,
        usage: &TimeUsage,
        usage_id: usize,
        shown_span: ShownTimeSpan,
        cat: &str,
        today: i32,
    ) -> (r: String)
        ensures
            r@ == prepend_entry(s@, usage@, usage_id as int, cat@, shown_span, today as int),
    {
        if in_time_span(&usage.start, shown_span, today) {
            let mut elem = usage.start.text();
            elem.append(" - ");
            let stop = usage.stop.text();
            elem.append(stop.as_str());
            elem.append(": ");
            elem.append(cat);
            elem.append(" (ID: ");
            let id = decimal_text(usage_id);
            elem.append(id.as_str());
            elem.append(")");
            match &usage.desc {
                Some(d) => {
                    elem.append("\n\t");
                    elem.append(d.as_str());
                },
                None => {},
            }
            elem.append("\n\n");
            elem.append(s.as_str());
            elem
        } else {
            s
        }
    }

    /// The category whose first record not yet taken is the oldest; the first such category
    /// where several are as old.
    fn oldest_pending(&self, pos: &Vec<usize>) -> (r: Option<usize>)
        requires
            pos@.len() == self@.categories.len(),
        ensures
            match r {
                Some(j) => is_next(self@.categories, pos@.map_values(|p: usize| p as int), j as int),
                None => !any_pending(self@.categories, pos@.map_values(|p: usize| p as int)),
            },
    {
        let ghost cats = self@.categories;
        let ghost p = pos@.map_values(|p: usize| p as int);
        let mut best: usize = 0;
        let mut found = false;
        let mut j: usize = 0;
        while j < self.categories.len()
            invariant
                j <= self.categories@.len(),
                cats == self@.categories,
                cats.len() == self.categories@.len(),
                p == pos@.map_values(|p: usize| p as int),
                p.len() == cats.len(),
                found ==> best < j && pending(cats, p, best as int),
                found ==> forall|k: int|
                    0 <= k < j && #[trigger] pending(cats, p, k) ==> front(cats, p, best as int)
                        <= front(cats, p, k),
                found ==> forall|k: int|
                    0 <= k < best && #[trigger] pending(cats, p, k) ==> front(cats, p, best as int)
                        < front(cats, p, k),
                !found ==> forall|k: int| 0 <= k < j ==> !#[trigger] pending(cats, p, k),
            decreases self.categories.len() - j,
        {
            let usages = &self.categories[j].1;
            assert(cats[j as int].1 == usages@.map_values(|u: TimeUsage| u@));
            if pos[j] < usages.len() {
                let candidate = &usages[pos[j]].start;
                assert(front(cats, p, j as int) == candidate.nanos());
                if !found {
                    best = j;
                    found = true;
                } else {
                    let oldest = &self.categories[best].1[pos[best]].start;
                    assert(front(cats, p, best as int) == oldest.nanos());
                    if candidate.is_before(oldest) {
                        best = j;
                    }
                }
            }
            j = j + 1;
        }
        if found {
            Some(best)
        } else {
            None
        }
    }

    /// Returns a log of all time usages from the specified time span, today being day number
    /// `today`. Optionally show logs only from a single category.
    /// Returned log is sorted so that the newest item is at the beginning.
    /// Returns an `Error` if the category doesn't exist.
    pub fn time_usage_log_on(
        &self,
        shown_span: ShownTimeSpan,
        category: Option<String>,
        today: i32,
    ) -> (r: Result<String, Error>)
        ensures
            text_result(r) == log_result(
                self@,
                shown_span,
                text_option(category),
                today as int,
            ),
    {
        proof {
            use_type_invariant(self);
        }
        match category {
            Some(cat) => match self.slot_of(&cat) {
                None => Err(Error::CategoryDoesntExist(cat)),
                Some(i) => {
                    let usages = &self.categories[i].1;
                    let ghost s = self@.records(cat@);
                    assert(s == usages@.map_values(|u: TimeUsage| u@));
                    let mut st = String::new();
                    let mut k: usize = 0;
                    while k < usages.len()
                        invariant
                            k <= usages@.len(),
                            s == usages@.map_values(|u: TimeUsage| u@),
                            st@ == category_log(
                                s.subrange(0, k as int),
                                cat@,
                                shown_span,
                                today as int,
                            ),
                        decreases usages.len() - k,
                    {
                        assert(s.subrange(0, k + 1).drop_last() =~= s.subrange(0, k as int));
                        assert(s[k as int] == usages@[k as int]@);
                        st = TimeBook::concat_usage(st, &usages[k], k, shown_span, cat.as_str(), today);
                        k = k + 1;
                    }
                    assert(s.subrange(0, s.len() as int) =~= s);
                    Ok(st)
                },
            },
            None => {
                let ghost cats = self@.categories;
                let n = self.categories.len();
                let mut pos: Vec<usize> = Vec::new();
                while pos.len() < n
                    invariant
                        n == self.categories@.len(),
                        pos@.len() <= n,
                        forall|k: int| 0 <= k < pos@.len() ==> pos@[k] == 0,
                    decreases n - pos.len(),
                {
                    pos.push(0);
                }
                let ghost start = nothing_taken(cats);
                assert(pos@.map_values(|p: usize| p as int) =~= start);
                proof {
                    lemma_remaining_nonnegative(cats, start, n as int);
                }
                let ghost target = merged_log(
                    cats,
                    start,
                    Seq::empty(),
                    shown_span,
                    today as int,
                    remaining(cats, start, n as int) as nat,
                );
                let mut log = String::new();
                let mut next = self.oldest_pending(&pos);
                while next.is_some()
                    invariant
                        cats == self@.categories,
                        n == cats.len(),
                        pos@.len() == n,
                        forall|k: int|
                            0 <= k < n ==> pos@[k] as int <= #[trigger] cats[k].1.len(),
                        merged_log(
                            cats,
                            pos@.map_values(|p: usize| p as int),
                            log@,
                            shown_span,
                            today as int,
                            remaining(cats, pos@.map_values(|p: usize| p as int), n as int) as nat,
                        ) == target,
                        match next {
                            Some(j) => is_next(cats, pos@.map_values(|p: usize| p as int), j as int),
                            None => !any_pending(cats, pos@.map_values(|p: usize| p as int)),
                        },
                        remaining(cats, pos@.map_values(|p: usize| p as int), n as int) >= 0,
                    decreases remaining(cats, pos@.map_values(|p: usize| p as int), n as int),
                {
                    let j = next.unwrap();
                    let i = pos[j];
                    let ghost p = pos@.map_values(|p: usize| p as int);
                    proof {
                        lemma_next_unique(cats, p, j as int);
                        lemma_remaining_positive(cats, p, j as int, n as int);
                        lemma_remaining_step(cats, p, j as int, n as int);
                    }
                    let usages = &self.categories[j].1;
                    let len = usages.len();
                    assert(cats[j as int].1 == usages@.map_values(|u: TimeUsage| u@));
                    assert(i < len);
                    assert(cats[j as int].1[i as int] == usages@[i as int]@);
                    log = TimeBook::concat_usage(
                        log,
                        &usages[i],
                        i,
                        shown_span,
                        self.categories[j].0.as_str(),
                        today,
                    );
                    pos.set(j, i + 1);
                    assert(pos@.map_values(|p: usize| p as int) =~= p.update(j as int, i + 1));
                    next = self.oldest_pending(&pos);
                }
                proof {
                    let p = pos@.map_values(|p: usize| p as int);
                    assert(merged_log(cats, p, log@, shown_span, today as int, remaining(cats, p, n as int) as nat) == log@);
                }
                Ok(log)
            },
        }
    }

    /// Returns a log of all time usages from the specified time span, as of today's local date.
    /// Optionally show logs only from a single category.
    /// Returned log is sorted so that the newest item is at the beginning.
    /// Returns an `Error` if the category doesn't exist.
    pub fn time_usage_log(&self, shown_span: ShownTimeSpan, category: Option<String>) -> (r:
        Result<String, Error>)
        ensures
            exists|today: int|
                text_result(r) == #[trigger] log_result(
                    self@,
                    shown_span,
                    text_option(category),
                    today,
                ),
    {
        let ghost name = text_option(category);
        let today = today();
        let r = self.time_usage_log_on(shown_span, category, today);
        assert(text_result(r) == log_result(self@, shown_span, name, today as int));
        r
    }

    /// A time book made of its parts: the recording in progress, if any, and each category with
    /// its records. `None` where two categories share a name, or where a category's records are
    /// not sorted by start.
    pub fn from_parts(
        recording: Option<(String, Timestamp)>,
        categories: Vec<(String, Vec<TimeUsage>)>,
    ) -> (r: Option<TimeBook>)
        ensures
            match r {
                Some(b) => rebuilt(recording, categories@) == Some(b@),
                None => rebuilt(recording, categories@) is None,
            },
    {
        if categories_valid(&categories) {
            Some(TimeBook { recording, categories })
        } else {
            None
        }
    }

    /// The parts of the time book: the recording in progress, if any, and each category with its
    /// records.
    pub fn into_parts(self) -> (r: (Option<(String, Timestamp)>, Vec<(String, Vec<TimeUsage>)>))
        ensures
            parts_view(r.0, r.1@) == self@,
    {
        let TimeBook { recording, categories } = self;
        (recording, categories)
    }
}

} // verus!
