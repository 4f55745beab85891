//! What can go wrong in a time book.
use vstd::prelude::*;

verus! {

/// An error with a message intended to be shown to the user.
#[derive(Debug, PartialEq, Eq)]
pub enum Error {
    /// Caused by trying to access a category that doesn't exist.
    CategoryDoesntExist(String),
    /// Caused by trying to create a category that already exists.
    CategoryExists(String),
    /// Caused by trying to access a `TimeUsage` that doesn't exist.
    TimeUsageDoesntExist(usize),
    /// Caused by time recording not being started.
    NotRecordingTime,
    /// Caused by time recording already been started.
    AlreadyRecordingTime,
}

/// An [`Error`] with its category names as character sequences.
pub enum ErrorView {
    CategoryDoesntExist(Seq<char>),
    CategoryExists(Seq<char>),
    TimeUsageDoesntExist(usize),
    NotRecordingTime,
    AlreadyRecordingTime,
}

impl View for Error {
    type V = ErrorView;

    open spec fn view(&self) -> ErrorView {
        match self {
            Error::CategoryDoesntExist(c) => ErrorView::CategoryDoesntExist(c@),
            Error::CategoryExists(c) => ErrorView::CategoryExists(c@),
            Error::TimeUsageDoesntExist(id) => ErrorView::TimeUsageDoesntExist(*id),
            Error::NotRecordingTime => ErrorView::NotRecordingTime,
            Error::AlreadyRecordingTime => ErrorView::AlreadyRecordingTime,
        }
    }
}

/// The outcome of an operation that returns nothing but may fail.
pub open spec fn outcome_view(r: Result<(), Error>) -> Result<(), ErrorView> {
    match r {
        Ok(_) => Ok(()),
        Err(e) => Err(e@),
    }
}

/// The message shown to the user for an error.
pub open spec fn message_view(e: ErrorView) -> Seq<char> {
    match e {
        ErrorView::CategoryExists(c) => "Category "@ + c + " already exists."@,
        ErrorView::CategoryDoesntExist(c) => "Category "@ + c + " doesn't exist."@,
        ErrorView::TimeUsageDoesntExist(id) => "Time Usage with the id "@ + crate::text::decimal(
            id as nat,
        ) + " doesn't exist."@,
        ErrorView::NotRecordingTime => "Time is not being recorded currently."@,
        ErrorView::AlreadyRecordingTime => "Time is already being recorded."@,
    }
}

impl Error {
    /// The message shown to the user.
    pub fn message(&self) -> (r: String)
        ensures
            r@ == message_view(self@),
    {
        match self {
            Error::CategoryExists(c) => {
                let mut s = String::from_str("Category ");
                s.append(c.as_str());
                s.append(" already exists.");
                s
            },
            Error::CategoryDoesntExist(c) => {
                let mut s = String::from_str("Category ");
                s.append(c.as_str());
                s.append(" doesn't exist.");
                s
            },
            Error::TimeUsageDoesntExist(id) => {
                let mut s = String::from_str("Time Usage with the id ");
                let digits = crate::text::decimal_text(*id);
                s.append(digits.as_str());
                s.append(" doesn't exist.");
                s
            },
            Error::NotRecordingTime => String::from_str("Time is not being recorded currently."),
            Error::AlreadyRecordingTime => String::from_str("Time is already being recorded."),
        }
    }
}

} // verus!
