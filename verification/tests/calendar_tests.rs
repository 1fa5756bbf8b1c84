use cip::calendar::{resolve, resolve_date, Date, TimeOfDay, Timestamp};

fn at(year: i32, month: u32, day: u32, hour: u32, minute: u32) -> Timestamp {
    Timestamp { date: Date { year, month, day }, time: TimeOfDay { hour, minute } }
}

#[test]
fn date_new_accepts_calendar_days() {
    assert_eq!(Date::new(2015, 3, 14), Some(Date { year: 2015, month: 3, day: 14 }));
    assert_eq!(Date::new(2024, 2, 29), Some(Date { year: 2024, month: 2, day: 29 }));
    assert_eq!(Date::new(2000, 2, 29), Some(Date { year: 2000, month: 2, day: 29 }));
    assert_eq!(Date::new(-4, 2, 29), Some(Date { year: -4, month: 2, day: 29 }));
    assert_eq!(Date::new(262142, 12, 31), Some(Date { year: 262142, month: 12, day: 31 }));
    assert_eq!(Date::new(-262143, 1, 1), Some(Date { year: -262143, month: 1, day: 1 }));
}

#[test]
fn date_new_rejects_what_the_calendar_lacks() {
    assert_eq!(Date::new(2015, 0, 14), None);
    assert_eq!(Date::new(2015, 13, 1), None);
    assert_eq!(Date::new(2015, 2, 29), None);
    assert_eq!(Date::new(1900, 2, 29), None);
    assert_eq!(Date::new(2023, 4, 31), None);
    assert_eq!(Date::new(2023, 2, 31), None);
    assert_eq!(Date::new(2023, 1, 0), None);
    assert_eq!(Date::new(262143, 1, 1), None);
    assert_eq!(Date::new(-262144, 12, 31), None);
    assert_eq!(Date::new(400000, 1, 1), None);
}

#[test]
fn is_valid_agrees_with_new() {
    assert!(Date { year: 2024, month: 6, day: 30 }.is_valid());
    assert!(!Date { year: 2024, month: 6, day: 31 }.is_valid());
}

#[test]
fn succ_steps_over_month_and_year_ends() {
    assert_eq!(
        Date { year: 2015, month: 6, day: 3 }.succ(),
        Some(Date { year: 2015, month: 6, day: 4 })
    );
    assert_eq!(
        Date { year: 2024, month: 2, day: 28 }.succ(),
        Some(Date { year: 2024, month: 2, day: 29 })
    );
    assert_eq!(
        Date { year: 2023, month: 2, day: 28 }.succ(),
        Some(Date { year: 2023, month: 3, day: 1 })
    );
    assert_eq!(
        Date { year: 2024, month: 4, day: 30 }.succ(),
        Some(Date { year: 2024, month: 5, day: 1 })
    );
    assert_eq!(
        Date { year: 2024, month: 12, day: 31 }.succ(),
        Some(Date { year: 2025, month: 1, day: 1 })
    );
    assert_eq!(Date { year: 262142, month: 12, day: 31 }.succ(), None);
}

#[test]
fn dates_compare_by_year_month_day() {
    let d = Date { year: 2024, month: 6, day: 15 };
    assert!(Date { year: 2023, month: 12, day: 31 }.is_earlier(&d));
    assert!(Date { year: 2024, month: 5, day: 31 }.is_earlier(&d));
    assert!(Date { year: 2024, month: 6, day: 14 }.is_earlier(&d));
    assert!(!d.is_earlier(&d));
    assert!(!Date { year: 2024, month: 6, day: 16 }.is_earlier(&d));
    assert!(!Date { year: 2025, month: 1, day: 1 }.is_earlier(&d));
}

#[test]
fn timestamps_compare_by_date_then_time() {
    let t = at(2024, 6, 10, 20, 0);
    assert!(at(2024, 6, 10, 19, 59).is_earlier(&t));
    assert!(at(2024, 6, 9, 23, 0).is_earlier(&t));
    assert!(!t.is_earlier(&t));
    assert!(t.is_at_most(&t));
    assert!(!at(2024, 6, 10, 20, 1).is_at_most(&t));
    assert!(t.is_at_most(&at(2024, 6, 11, 4, 0)));
}

#[test]
fn time_of_day_bounds() {
    assert_eq!(TimeOfDay::new(23, 59), Some(TimeOfDay { hour: 23, minute: 59 }));
    assert_eq!(TimeOfDay::new(0, 0), Some(TimeOfDay { hour: 0, minute: 0 }));
    assert_eq!(TimeOfDay::new(24, 0), None);
    assert_eq!(TimeOfDay::new(12, 60), None);
    assert_eq!(TimeOfDay::day_start(), TimeOfDay { hour: 4, minute: 0 });
}

#[test]
fn resolve_keeps_the_year_for_a_coming_date() {
    let now = at(2024, 12, 20, 10, 0);
    assert_eq!(resolve(25, 12, 20, 30, &now), Some(at(2024, 12, 25, 20, 30)));
}

#[test]
fn resolve_rolls_a_past_date_into_next_year() {
    let now = at(2024, 12, 20, 10, 0);
    assert_eq!(resolve(5, 1, 14, 0, &now), Some(at(2025, 1, 5, 14, 0)));
    let eve = at(2024, 12, 31, 23, 0);
    assert_eq!(resolve(1, 1, 0, 15, &eve), Some(at(2025, 1, 1, 0, 15)));
}

#[test]
fn resolve_mid_year_stays_this_year() {
    let now = at(2024, 6, 15, 9, 0);
    assert_eq!(resolve(20, 6, 18, 0, &now), Some(at(2024, 6, 20, 18, 0)));
    assert_eq!(resolve(14, 6, 18, 0, &now), Some(at(2025, 6, 14, 18, 0)));
}

#[test]
fn resolve_today_does_not_roll() {
    let now = at(2024, 12, 20, 22, 0);
    assert_eq!(resolve(20, 12, 8, 0, &now), Some(at(2024, 12, 20, 8, 0)));
    assert_eq!(
        resolve_date(20, 12, &Date { year: 2024, month: 12, day: 20 }),
        Some(Date { year: 2024, month: 12, day: 20 })
    );
}

#[test]
fn resolve_is_repeatable() {
    let now = at(2024, 3, 1, 0, 0);
    let first = resolve(29, 2, 21, 45, &now);
    let second = resolve(29, 2, 21, 45, &now);
    assert_eq!(first, second);
}

#[test]
fn resolve_rejects_dates_that_do_not_exist() {
    let now = at(2024, 1, 10, 12, 0);
    assert_eq!(resolve(31, 2, 12, 0, &now), None);
    assert_eq!(resolve(0, 5, 12, 0, &now), None);
    assert_eq!(resolve(10, 13, 12, 0, &now), None);
    assert_eq!(resolve(31, 4, 12, 0, &now), None);
}

#[test]
fn resolve_leap_day_needs_a_leap_year() {
    let before = at(2024, 1, 10, 12, 0);
    assert_eq!(resolve(29, 2, 12, 0, &before), Some(at(2024, 2, 29, 12, 0)));
    let after = at(2024, 3, 1, 12, 0);
    assert_eq!(resolve(29, 2, 12, 0, &after), None);
    let plain = at(2023, 1, 1, 12, 0);
    assert_eq!(resolve(29, 2, 12, 0, &plain), None);
}

#[test]
fn resolve_rejects_times_outside_the_day() {
    let now = at(2024, 1, 10, 12, 0);
    assert_eq!(resolve(11, 1, 24, 0, &now), None);
    assert_eq!(resolve(11, 1, 23, 60, &now), None);
    assert_eq!(resolve(11, 1, 23, 59, &now), Some(at(2024, 1, 11, 23, 59)));
}

#[test]
fn resolve_at_the_last_year_cannot_roll() {
    let now = at(262142, 6, 15, 0, 0);
    assert_eq!(resolve(14, 6, 1, 0, &now), None);
    assert_eq!(resolve(15, 6, 1, 0, &now), Some(at(262142, 6, 15, 1, 0)));
}
