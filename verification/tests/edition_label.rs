//! Edition labels.

use readtrack::edition::{Date, Model};

#[test]
fn label_with_and_without_title() {
    let date = Date { year: 2026, month: 3, day: 5 };
    let bare = Model { id: 1, date, title: None, views: 0, old_views: 0, hidden: false };
    assert_eq!(bare.label(), "2026-03-05");
    let titled = Model {
        id: 1,
        date,
        title: Some(String::from("Spring")),
        views: 3,
        old_views: 1,
        hidden: false,
    };
    assert_eq!(titled.label(), "2026-03-05 - Spring");
}

#[test]
fn date_spelling_is_zero_padded() {
    assert_eq!(Date { year: 26, month: 1, day: 9 }.to_string(), "0026-01-09");
    assert_eq!(Date { year: 9999, month: 12, day: 31 }.to_string(), "9999-12-31");
}

#[test]
fn date_spelling_matches_the_time_crate() {
    let ours = Date { year: 2026, month: 12, day: 1 };
    let theirs = time::Date::from_calendar_date(2026, time::Month::December, 1).unwrap();
    assert_eq!(ours.to_string(), theirs.to_string());
}
