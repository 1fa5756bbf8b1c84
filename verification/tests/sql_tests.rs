use cip::calendar::{Date, TimeOfDay, Timestamp};
use cip::query::{QueryOptions, Version};
use cip::sql::{condition, stored_form, where_clause};

fn at(year: i32, month: u32, day: u32, hour: u32, minute: u32) -> Timestamp {
    Timestamp { date: Date { year, month, day }, time: TimeOfDay { hour, minute } }
}

const TODAY: Date = Date { year: 2024, month: 6, day: 1 };

#[test]
fn stored_form_carries_date_time_and_offset() {
    assert_eq!(
        stored_form(&at(2024, 6, 10, 20, 0)),
        Some("2024-06-10T20:00:00+02:00".to_string())
    );
    assert_eq!(
        stored_form(&at(2025, 1, 1, 0, 5)),
        Some("2025-01-01T00:05:00+02:00".to_string())
    );
}

#[test]
fn stored_form_of_no_instant() {
    assert_eq!(stored_form(&at(2024, 2, 30, 20, 0)), None);
    assert_eq!(stored_form(&at(2024, 6, 10, 24, 0)), None);
    assert_eq!(stored_form(&at(2024, 6, 10, 20, 60)), None);
}

#[test]
fn stored_forms_order_as_instants_do() {
    let early = stored_form(&at(2024, 6, 10, 3, 59)).unwrap();
    let sharp = stored_form(&at(2024, 6, 10, 4, 0)).unwrap();
    let late = stored_form(&at(2024, 12, 1, 0, 0)).unwrap();
    assert!(early < sharp);
    assert!(sharp < late);
}

#[test]
fn condition_of_nothing_is_empty() {
    assert_eq!(condition(None, None, None), "");
    let options = QueryOptions { day: None, time: None, version: None };
    assert_eq!(where_clause(&options, &TODAY), Some(String::new()));
}

#[test]
fn condition_joins_its_clauses() {
    assert_eq!(condition(Some("A".to_string()), None, None), "WHERE datetime >= 'A'");
    assert_eq!(condition(None, Some("B".to_string()), None), "WHERE datetime <= 'B'");
    assert_eq!(condition(None, None, Some(Version::French)), "WHERE version = 'VF'");
    assert_eq!(
        condition(Some("A".to_string()), Some("B".to_string()), Some(Version::Original)),
        "WHERE datetime >= 'A' AND datetime <= 'B' AND version = 'VO'"
    );
    assert_eq!(
        condition(None, Some("B".to_string()), Some(Version::Original)),
        "WHERE datetime <= 'B' AND version = 'VO'"
    );
}

#[test]
fn where_clause_of_a_day() {
    let options = QueryOptions {
        day: Some(Date { year: 2024, month: 6, day: 10 }),
        time: None,
        version: None,
    };
    assert_eq!(
        where_clause(&options, &TODAY),
        Some(
            "WHERE datetime >= '2024-06-10T04:00:00+02:00' AND datetime <= '2024-06-11T04:00:00+02:00'"
                .to_string()
        )
    );
}

#[test]
fn where_clause_of_time_and_version() {
    let options = QueryOptions {
        day: None,
        time: Some(TimeOfDay { hour: 21, minute: 15 }),
        version: Some(Version::Original),
    };
    assert_eq!(
        where_clause(&options, &TODAY),
        Some(
            "WHERE datetime >= '2024-06-01T21:15:00+02:00' AND datetime <= '2024-06-02T04:00:00+02:00' AND version = 'VO'"
                .to_string()
        )
    );
    let only = QueryOptions { day: None, time: None, version: Some(Version::French) };
    assert_eq!(where_clause(&only, &TODAY), Some("WHERE version = 'VF'".to_string()));
}
