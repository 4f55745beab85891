use chrono::{Datelike, Local, NaiveDate, NaiveDateTime, TimeDelta, Timelike};
use vihr::{Duration, Error, ShownTimeSpan, TimeBook, Timestamp};

fn stamp(dt: NaiveDateTime) -> Timestamp {
    Timestamp::new(
        dt.date().num_days_from_ce(),
        dt.time().num_seconds_from_midnight(),
        dt.time().nanosecond(),
    )
    .unwrap()
}

fn at(y: i32, mo: u32, d: u32, h: u32, mi: u32, s: u32) -> Timestamp {
    stamp(NaiveDate::from_ymd_opt(y, mo, d).unwrap().and_hms_opt(h, mi, s).unwrap())
}

#[test]
fn category_can_be_added_and_removed() {
    let mut book = TimeBook::default();

    book.add_category("test".to_string()).unwrap();

    assert!(book.categories().contains(&&("test".to_string())));

    book.add_category("test1".to_string()).unwrap();

    assert_eq!(book.categories().len(), 2);

    book.remove_category("test").unwrap();

    assert!(book.categories().contains(&&("test1".to_string())));
    assert_eq!(book.categories().len(), 1);
}

#[test]
fn trying_to_remove_nonexistant_category_fails() {
    let mut book = TimeBook::default();
    assert_eq!(
        book.remove_category("test").unwrap_err(),
        Error::CategoryDoesntExist("test".to_string())
    );
}

#[test]
fn adding_already_existing_category_fails() {
    let mut book = TimeBook::default();
    book.add_category("test".to_string()).unwrap();
    assert_eq!(
        book.add_category("test".to_string()).unwrap_err(),
        Error::CategoryExists("test".to_string())
    );
}

#[test]
fn time_usage_cannot_be_added_to_category_that_doesnt_exist() {
    let mut book = TimeBook::default();
    assert_eq!(
        book.add_time_usage(
            "test",
            at(2022, 1, 1, 9, 0, 0),
            at(2022, 1, 1, 10, 0, 0),
            None
        )
        .unwrap_err(),
        Error::CategoryDoesntExist("test".to_string())
    );
}

#[test]
fn time_usage_can_be_added_and_removed_from_multiple_categories() {
    let mut book = TimeBook::default();

    book.add_category("test".to_string()).unwrap();
    book.add_category("test_second".to_string()).unwrap();

    book.add_time_usage(
        "test",
        at(2022, 1, 1, 9, 0, 0),
        at(2022, 1, 1, 10, 0, 0),
        None,
    )
    .unwrap();

    assert_eq!(
        book.time_spent("test", ShownTimeSpan::All).unwrap(),
        Duration::hours(1)
    );
    assert_eq!(
        book.time_spent("test_second", ShownTimeSpan::All).unwrap(),
        Duration::zero()
    );

    book.add_time_usage(
        "test_second",
        at(2022, 1, 1, 9, 0, 0),
        at(2022, 1, 1, 10, 0, 0),
        None,
    )
    .unwrap();

    assert_eq!(
        book.time_spent("test", ShownTimeSpan::All).unwrap(),
        Duration::hours(1)
    );
    assert_eq!(
        book.time_spent("test_second", ShownTimeSpan::All).unwrap(),
        Duration::hours(1)
    );

    book.remove_time_usage("test", 0).unwrap();

    assert_eq!(
        book.time_spent("test", ShownTimeSpan::All).unwrap(),
        Duration::zero()
    );
    assert_eq!(
        book.time_spent("test_second", ShownTimeSpan::All).unwrap(),
        Duration::hours(1)
    );
}

fn time_book_with_usages() -> TimeBook {
    let now = Local::now().naive_local();
    let yesterday = Local::now().naive_local() - TimeDelta::days(1);
    let week_ago = Local::now().naive_local() - TimeDelta::weeks(1);
    let month_ago = Local::now().naive_local() - TimeDelta::weeks(4);
    let year_ago = Local::now().naive_local() - TimeDelta::days(365);
    let two_years_ago = Local::now().naive_local() - TimeDelta::days(700);

    let mut book = TimeBook::default();

    book.add_category("test".to_string()).unwrap();

    book.add_time_usage(
        "test",
        stamp(now),
        stamp(now + TimeDelta::minutes(30)),
        Some("Time usage of today".to_string()),
    )
    .unwrap();

    book.add_time_usage(
        "test",
        stamp(yesterday),
        stamp(yesterday + TimeDelta::minutes(30)),
        None,
    )
    .unwrap();

    book.add_time_usage(
        "test",
        stamp(week_ago),
        stamp(week_ago + TimeDelta::minutes(30)),
        Some("Week ago".to_string()),
    )
    .unwrap();

    book.add_time_usage(
        "test",
        stamp(month_ago),
        stamp(month_ago + TimeDelta::minutes(30)),
        None,
    )
    .unwrap();

    book.add_time_usage(
        "test",
        stamp(year_ago),
        stamp(year_ago + TimeDelta::minutes(30)),
        Some("A Year ago".to_string()),
    )
    .unwrap();

    book.add_time_usage(
        "test",
        stamp(two_years_ago),
        stamp(two_years_ago + TimeDelta::minutes(30)),
        None,
    )
    .unwrap();

    book
}

#[test]
fn time_usage_is_reported_correctly_for_the_correct_shown_time_spans() {
    let book = time_book_with_usages();

    assert_eq!(
        book.time_spent("test", ShownTimeSpan::Today).unwrap(),
        Duration::minutes(30)
    );
    assert_eq!(
        book.time_spent("test", ShownTimeSpan::Yesterday).unwrap(),
        Duration::minutes(30)
    );
    assert_eq!(
        book.time_spent("test", ShownTimeSpan::Week).unwrap(),
        Duration::minutes(90)
    );
    assert_eq!(
        book.time_spent("test", ShownTimeSpan::Month).unwrap(),
        Duration::minutes(120)
    );
    assert_eq!(
        book.time_spent("test", ShownTimeSpan::Year).unwrap(),
        Duration::minutes(150)
    );
    assert_eq!(
        book.time_spent("test", ShownTimeSpan::All).unwrap(),
        Duration::minutes(180)
    );
}

#[test]
fn time_spent_returns_err_for_nonexistant_category() {
    let book = TimeBook::default();
    assert_eq!(
        book.time_spent("test", ShownTimeSpan::All).unwrap_err(),
        Error::CategoryDoesntExist("test".to_string())
    );
}

#[test]
fn time_usage_log_is_written_correctly_for_the_correct_shown_time_spans() {
    let book = time_book_with_usages();

    let now = Local::now().naive_local();
    let yesterday = Local::now().naive_local() - TimeDelta::days(1);
    let week_ago = Local::now().naive_local() - TimeDelta::weeks(1);
    let month_ago = Local::now().naive_local() - TimeDelta::weeks(4);
    let year_ago = Local::now().naive_local() - TimeDelta::days(365);
    let two_years_ago = Local::now().naive_local() - TimeDelta::days(700);

    let fstring = "%-d/%-m/%Y %H:%M";

    let now_str = format!(
        "{} - {}: test (ID: 5)\n\tTime usage of today\n\n",
        now.format(fstring),
        (now + TimeDelta::minutes(30)).format(fstring)
    );

    let yesterday_str = format!(
        "{} - {}: test (ID: 4)\n\n",
        yesterday.format(fstring),
        (yesterday + TimeDelta::minutes(30)).format(fstring)
    );

    let week_str = format!(
        "{} - {}: test (ID: 3)\n\tWeek ago\n\n",
        week_ago.format(fstring),
        (week_ago + TimeDelta::minutes(30)).format(fstring)
    );

    let month_str = format!(
        "{} - {}: test (ID: 2)\n\n",
        month_ago.format(fstring),
        (month_ago + TimeDelta::minutes(30)).format(fstring)
    );

    let year_str = format!(
        "{} - {}: test (ID: 1)\n\tA Year ago\n\n",
        year_ago.format(fstring),
        (year_ago + TimeDelta::minutes(30)).format(fstring)
    );

    let two_years_ago_str = format!(
        "{} - {}: test (ID: 0)\n\n",
        two_years_ago.format(fstring),
        (two_years_ago + TimeDelta::minutes(30)).format(fstring)
    );

    assert_eq!(
        book.time_usage_log(ShownTimeSpan::Today, None).unwrap(),
        now_str
    );
    assert_eq!(
        book.time_usage_log(ShownTimeSpan::Yesterday, None).unwrap(),
        yesterday_str
    );
    assert_eq!(
        book.time_usage_log(ShownTimeSpan::Week, None).unwrap(),
        now_str.clone() + &yesterday_str + &week_str
    );
    assert_eq!(
        book.time_usage_log(ShownTimeSpan::All, None).unwrap(),
        now_str + &yesterday_str + &week_str + &month_str + &year_str + &two_years_ago_str
    );
}

#[test]
fn time_usage_log_is_written_correctly_for_different_category_specifications() {
    let mut book = TimeBook::default();

    book.add_category("test".to_string()).unwrap();
    book.add_category("test_second".to_string()).unwrap();

    book.add_time_usage(
        "test_second",
        at(2022, 1, 1, 9, 0, 0),
        at(2022, 1, 1, 10, 0, 0),
        None,
    )
    .unwrap();

    book.add_time_usage(
        "test",
        at(2022, 1, 1, 10, 0, 0),
        at(2022, 1, 1, 11, 0, 0),
        None,
    )
    .unwrap();

    assert_eq!(
        book.time_usage_log(ShownTimeSpan::All, None).unwrap(),
        "1/1/2022 10:00 - 1/1/2022 11:00: test (ID: 0)\n\n1/1/2022 09:00 - 1/1/2022 10:00: test_second (ID: 0)\n\n"
    );

    assert_eq!(
        book.time_usage_log(ShownTimeSpan::All, Some("test".to_string()))
            .unwrap(),
        "1/1/2022 10:00 - 1/1/2022 11:00: test (ID: 0)\n\n"
    );

    assert_eq!(
        book.time_usage_log(ShownTimeSpan::All, Some("test_second".to_string()))
            .unwrap(),
        "1/1/2022 09:00 - 1/1/2022 10:00: test_second (ID: 0)\n\n"
    );
}

#[test]
fn time_usage_log_returns_err_for_nonexistant_category() {
    let book = TimeBook::default();
    assert_eq!(
        book.time_usage_log(ShownTimeSpan::All, Some("test".to_string()))
            .unwrap_err(),
        Error::CategoryDoesntExist("test".to_string())
    );
}

#[test]
fn cancelling_without_starting_fails() {
    let mut book = TimeBook::default();
    assert_eq!(book.cancel().unwrap_err(), Error::NotRecordingTime);
}

#[test]
fn cancelling_causes_stop_and_cancel_to_fail_and_doesnt_modify_time_usages() {
    let mut book = TimeBook::default();

    book.add_category("test".to_string()).unwrap();
    book.start("test".to_string(), None).unwrap();
    book.cancel().unwrap();

    assert_eq!(book.cancel().unwrap_err(), Error::NotRecordingTime);
    assert_eq!(book.stop(None, None).unwrap_err(), Error::NotRecordingTime);
    assert_eq!(
        book.time_spent("test", ShownTimeSpan::All).unwrap(),
        Duration::zero()
    );
}

#[test]
fn cancelling_stopping_and_status_fail_when_nothing_has_been_started() {
    let mut book = TimeBook::default();

    assert_eq!(book.cancel().unwrap_err(), Error::NotRecordingTime);
    assert_eq!(book.stop(None, None).unwrap_err(), Error::NotRecordingTime);
    assert_eq!(book.status().unwrap_err(), Error::NotRecordingTime);
}

#[test]
fn starting_twice_fails() {
    let mut book = TimeBook::default();

    book.add_category("test".to_string()).unwrap();
    book.start("test".to_string(), None).unwrap();

    assert_eq!(
        book.start("test".to_string(), None).unwrap_err(),
        Error::AlreadyRecordingTime
    );
}

#[test]
fn starting_with_nonexistant_category_fails() {
    let mut book = TimeBook::default();
    assert_eq!(
        book.start("test".to_string(), None).unwrap_err(),
        Error::CategoryDoesntExist("test".to_string())
    );
}

#[test]
fn starting_updates_status_and_stop_adds_time_usage() {
    let mut book = TimeBook::default();

    book.add_category("test".to_string()).unwrap();

    let now = Local::now().naive_local();

    book.start("test".to_string(), Some(stamp(now))).unwrap();

    assert_eq!(book.status().unwrap(), ("test", stamp(now)));

    book.stop(Some(stamp(now + TimeDelta::hours(2))), None).unwrap();

    assert!(book.time_spent("test", ShownTimeSpan::All).unwrap() >= Duration::hours(2));
}
