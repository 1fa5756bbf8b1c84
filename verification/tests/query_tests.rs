use cip::calendar::{Date, TimeOfDay, Timestamp};
use cip::catalog::{Cinema, Film};
use cip::grouping::{flatten, group, key_list, note_id, GroupBy};
use cip::query::{find_seance, find_slot, select, QueryOptions, QueryResult, Version};
use cip::seance::Seance;

fn at(year: i32, month: u32, day: u32, hour: u32, minute: u32) -> Timestamp {
    Timestamp { date: Date { year, month, day }, time: TimeOfDay { hour, minute } }
}

fn cinema(id: u64) -> Cinema {
    Cinema {
        id,
        name: format!("Cinema {}", id),
        url_path: format!("/cinemas/{}", id),
        address: format!("{} rue du Test 7500{} Paris", id, id),
        image_path: String::new(),
    }
}

fn film(id: u64) -> Film {
    Film {
        id,
        name: format!("Film {}", id),
        url_path: format!("/films/{}", id),
        image_path: String::new(),
        director: String::new(),
        release_date: format!("0{}/01/2024", id),
    }
}

fn row(id: u64, cinema_id: u64, film_id: u64, datetime: Timestamp, version: &str) -> QueryResult {
    QueryResult {
        cinema: cinema(cinema_id),
        film: film(film_id),
        seance: Seance {
            id,
            cinema_id,
            film_id,
            datetime,
            version: version.to_string(),
            url: None,
        },
    }
}

fn ids(rows: &[QueryResult]) -> Vec<u64> {
    rows.iter().map(|r| r.seance.id).collect()
}

const TODAY: Date = Date { year: 2024, month: 6, day: 1 };

fn day(d: u32) -> Option<Date> {
    Some(Date { year: 2024, month: 6, day: d })
}

#[test]
fn version_tags() {
    assert_eq!(Version::Original.short(), "VO");
    assert_eq!(Version::French.short(), "VF");
}

#[test]
fn version_choice_needs_exactly_one_switch() {
    assert_eq!(Version::choice(true, false), Some(Version::French));
    assert_eq!(Version::choice(false, true), Some(Version::Original));
    assert_eq!(Version::choice(true, true), None);
    assert_eq!(Version::choice(false, false), None);
}

#[test]
fn no_filter_no_window() {
    let options = QueryOptions { day: None, time: None, version: None };
    assert_eq!(options.after(&TODAY), None);
    assert!(options.is_bounded(&TODAY));
    assert_eq!(options.before(&TODAY), None);
}

#[test]
fn window_of_a_day_runs_from_four_to_four() {
    let options = QueryOptions { day: day(10), time: None, version: None };
    assert_eq!(options.after(&TODAY), Some(at(2024, 6, 10, 4, 0)));
    assert_eq!(options.before(&TODAY), Some(at(2024, 6, 11, 4, 0)));
}

#[test]
fn window_of_a_time_starts_today() {
    let options = QueryOptions {
        day: None,
        time: Some(TimeOfDay { hour: 18, minute: 30 }),
        version: None,
    };
    assert_eq!(options.after(&TODAY), Some(at(2024, 6, 1, 18, 30)));
    assert_eq!(options.before(&TODAY), Some(at(2024, 6, 2, 4, 0)));
}

#[test]
fn window_of_day_and_time() {
    let options = QueryOptions {
        day: Some(Date { year: 2024, month: 12, day: 31 }),
        time: Some(TimeOfDay { hour: 21, minute: 0 }),
        version: None,
    };
    assert_eq!(options.after(&TODAY), Some(at(2024, 12, 31, 21, 0)));
    assert_eq!(options.before(&TODAY), Some(at(2025, 1, 1, 4, 0)));
}

#[test]
fn window_is_unbounded_only_past_the_calendar() {
    let last = QueryOptions {
        day: Some(Date { year: 262142, month: 12, day: 31 }),
        time: None,
        version: None,
    };
    assert!(!last.is_bounded(&TODAY));
    let wrong = QueryOptions {
        day: Some(Date { year: 2024, month: 2, day: 30 }),
        time: None,
        version: None,
    };
    assert!(!wrong.is_bounded(&TODAY));
    let fine = QueryOptions { day: day(30), time: None, version: None };
    assert!(fine.is_bounded(&TODAY));
}

#[test]
fn day_boundary_is_four_sharp() {
    let options = QueryOptions { day: day(10), time: None, version: None };
    let early = row(1, 1, 1, at(2024, 6, 10, 3, 59), "VO");
    let sharp = row(2, 1, 1, at(2024, 6, 10, 4, 0), "VO");
    let late = row(3, 1, 1, at(2024, 6, 11, 4, 0), "VO");
    let later = row(4, 1, 1, at(2024, 6, 11, 4, 1), "VO");
    assert!(!options.admits(&TODAY, &early.seance));
    assert!(options.admits(&TODAY, &sharp.seance));
    assert!(options.admits(&TODAY, &late.seance));
    assert!(!options.admits(&TODAY, &later.seance));
}

#[test]
fn time_filter_moves_the_lower_end_only() {
    let options = QueryOptions {
        day: day(10),
        time: Some(TimeOfDay { hour: 20, minute: 0 }),
        version: None,
    };
    assert!(!options.admits(&TODAY, &row(1, 1, 1, at(2024, 6, 10, 19, 59), "VO").seance));
    assert!(options.admits(&TODAY, &row(1, 1, 1, at(2024, 6, 10, 20, 0), "VO").seance));
    assert!(options.admits(&TODAY, &row(1, 1, 1, at(2024, 6, 11, 1, 30), "VO").seance));
    assert!(options.admits(&TODAY, &row(1, 1, 1, at(2024, 6, 11, 4, 0), "VO").seance));
    assert!(!options.admits(&TODAY, &row(1, 1, 1, at(2024, 6, 11, 4, 1), "VO").seance));
}

#[test]
fn version_filter_is_an_exact_match() {
    let vo = QueryOptions { day: None, time: None, version: Some(Version::Original) };
    let vf = QueryOptions { day: None, time: None, version: Some(Version::French) };
    let any = QueryOptions { day: None, time: None, version: None };
    let a = row(1, 1, 1, at(2024, 6, 10, 20, 0), "VO");
    let b = row(2, 1, 1, at(2024, 6, 10, 20, 0), "VF");
    let c = row(3, 1, 1, at(2024, 6, 10, 20, 0), "VOSTFR");
    let d = row(4, 1, 1, at(2024, 6, 10, 20, 0), "vo");
    assert!(vo.admits(&TODAY, &a.seance));
    assert!(!vo.admits(&TODAY, &b.seance));
    assert!(!vo.admits(&TODAY, &c.seance));
    assert!(!vo.admits(&TODAY, &d.seance));
    assert!(vf.admits(&TODAY, &b.seance));
    assert!(!vf.admits(&TODAY, &a.seance));
    assert!(any.admits(&TODAY, &a.seance));
    assert!(any.admits(&TODAY, &b.seance));
    assert!(any.admits(&TODAY, &c.seance));
}

#[test]
fn one_day_two_screenings() {
    let rows = vec![
        row(1, 1, 1, at(2024, 6, 10, 20, 0), "VF"),
        row(2, 1, 1, at(2024, 6, 10, 22, 30), "VO"),
    ];
    let all = QueryOptions { day: day(10), time: None, version: Version::choice(false, false) };
    let found = select(&rows, &all, &TODAY);
    assert_eq!(ids(&found), vec![1, 2]);
    assert_eq!(found[0].seance.datetime, at(2024, 6, 10, 20, 0));
    assert_eq!(found[1].seance.datetime, at(2024, 6, 10, 22, 30));
    let vo = QueryOptions { day: day(10), time: None, version: Version::choice(false, true) };
    let found = select(&rows, &vo, &TODAY);
    assert_eq!(ids(&found), vec![2]);
    assert_eq!(found[0].seance.version, "VO");
    assert_eq!(found[0].cinema.id, 1);
    assert_eq!(found[0].film.name, "Film 1");
}

#[test]
fn select_orders_by_time_and_keeps_ties_in_place() {
    let rows = vec![
        row(1, 1, 1, at(2024, 6, 10, 22, 0), "VO"),
        row(2, 2, 1, at(2024, 6, 10, 18, 0), "VO"),
        row(3, 1, 2, at(2024, 6, 10, 22, 0), "VF"),
        row(4, 2, 2, at(2024, 6, 9, 23, 0), "VO"),
        row(5, 3, 1, at(2024, 6, 10, 18, 0), "VF"),
        row(6, 3, 1, at(2025, 1, 1, 0, 0), "VF"),
    ];
    let all = QueryOptions { day: None, time: None, version: None };
    assert_eq!(ids(&select(&rows, &all, &TODAY)), vec![4, 2, 5, 1, 3, 6]);
    let tenth = QueryOptions { day: day(10), time: None, version: None };
    assert_eq!(ids(&select(&rows, &tenth, &TODAY)), vec![2, 5, 1, 3]);
    let ninth = QueryOptions { day: day(9), time: None, version: None };
    assert_eq!(ids(&select(&rows, &ninth, &TODAY)), vec![4]);
    let vf = QueryOptions { day: None, time: None, version: Some(Version::French) };
    assert_eq!(ids(&select(&rows, &vf, &TODAY)), vec![5, 3, 6]);
    let none: Vec<QueryResult> = Vec::new();
    assert!(select(&none, &all, &TODAY).is_empty());
}

#[test]
fn find_slot_goes_behind_equal_instants() {
    let rows = vec![
        row(1, 1, 1, at(2024, 6, 10, 18, 0), "VO"),
        row(2, 1, 1, at(2024, 6, 10, 20, 0), "VO"),
        row(3, 1, 1, at(2024, 6, 10, 20, 0), "VO"),
        row(4, 1, 1, at(2024, 6, 10, 22, 0), "VO"),
    ];
    assert_eq!(find_slot(&rows, &at(2024, 6, 10, 17, 0)), 0);
    assert_eq!(find_slot(&rows, &at(2024, 6, 10, 18, 0)), 1);
    assert_eq!(find_slot(&rows, &at(2024, 6, 10, 20, 0)), 3);
    assert_eq!(find_slot(&rows, &at(2024, 6, 10, 23, 0)), 4);
}

#[test]
fn find_seance_by_identifier() {
    let rows = vec![
        row(1, 1, 1, at(2024, 6, 10, 18, 0), "VO"),
        row(7, 1, 1, at(2024, 6, 10, 20, 0), "VO"),
    ];
    assert_eq!(find_seance(&rows, 7), Some(1));
    assert_eq!(find_seance(&rows, 1), Some(0));
    assert_eq!(find_seance(&rows, 2), None);
}

#[test]
fn row_duplicate_is_equal() {
    let r = row(5, 2, 3, at(2024, 6, 10, 18, 0), "VF");
    let twin = r.duplicate();
    assert_eq!(twin.seance.id, 5);
    assert_eq!(twin.cinema.name, r.cinema.name);
    assert_eq!(twin.cinema.address, r.cinema.address);
    assert_eq!(twin.film.release_date, r.film.release_date);
    assert_eq!(twin.seance.version, "VF");
}

fn sample() -> Vec<QueryResult> {
    vec![
        row(1, 2, 9, at(2024, 6, 10, 18, 0), "VO"),
        row(2, 1, 9, at(2024, 6, 10, 19, 0), "VO"),
        row(3, 2, 4, at(2024, 6, 10, 20, 0), "VF"),
        row(4, 2, 9, at(2024, 6, 10, 21, 0), "VF"),
        row(5, 1, 4, at(2024, 6, 10, 22, 0), "VO"),
        row(6, 1, 9, at(2024, 6, 10, 23, 0), "VO"),
    ]
}

#[test]
fn group_by_cinema_then_film() {
    let groups = group(&sample(), GroupBy::Cinema);
    assert_eq!(groups.len(), 2);
    assert_eq!(groups[0].id, 1);
    assert_eq!(groups[0].description, "Cinema 1 (Paris)");
    assert_eq!(groups[1].id, 2);
    assert_eq!(groups[1].description, "Cinema 2 (Paris)");
    let inner: Vec<u64> = groups[0].members.iter().map(|l| l.id).collect();
    assert_eq!(inner, vec![4, 9]);
    assert_eq!(groups[0].members[0].description, "Film 4 (04/01/2024)");
    assert_eq!(ids(&groups[0].members[0].results), vec![5]);
    assert_eq!(ids(&groups[0].members[1].results), vec![2, 6]);
    assert_eq!(ids(&groups[1].members[0].results), vec![3]);
    assert_eq!(ids(&groups[1].members[1].results), vec![1, 4]);
}

#[test]
fn group_by_film_then_cinema() {
    let groups = group(&sample(), GroupBy::Film);
    let outer: Vec<u64> = groups.iter().map(|g| g.id).collect();
    assert_eq!(outer, vec![4, 9]);
    assert_eq!(groups[0].description, "Film 4 (04/01/2024)");
    assert_eq!(groups[1].description, "Film 9 (09/01/2024)");
    let inner: Vec<u64> = groups[1].members.iter().map(|l| l.id).collect();
    assert_eq!(inner, vec![1, 2]);
    assert_eq!(groups[1].members[0].description, "Cinema 1 (Paris)");
    assert_eq!(ids(&groups[1].members[0].results), vec![2, 6]);
    assert_eq!(ids(&groups[1].members[1].results), vec![1, 4]);
    assert_eq!(ids(&groups[0].members[0].results), vec![5]);
    assert_eq!(ids(&groups[0].members[1].results), vec![3]);
}

#[test]
fn both_axes_hold_the_same_rows() {
    let rows = sample();
    let mut by_cinema = ids(&flatten(&group(&rows, GroupBy::Cinema)));
    let mut by_film = ids(&flatten(&group(&rows, GroupBy::Film)));
    assert_eq!(by_cinema, vec![5, 2, 6, 3, 1, 4]);
    assert_eq!(by_film, vec![5, 3, 2, 6, 1, 4]);
    by_cinema.sort();
    by_film.sort();
    assert_eq!(by_cinema, by_film);
    assert_eq!(by_cinema, vec![1, 2, 3, 4, 5, 6]);
}

#[test]
fn grouping_nothing_gives_nothing() {
    let none: Vec<QueryResult> = Vec::new();
    assert!(group(&none, GroupBy::Cinema).is_empty());
    assert!(flatten(&group(&none, GroupBy::Film)).is_empty());
}

#[test]
fn axis_helpers() {
    let r = row(1, 2, 9, at(2024, 6, 10, 18, 0), "VO");
    assert_eq!(GroupBy::Cinema.flip(), GroupBy::Film);
    assert_eq!(GroupBy::Film.flip(), GroupBy::Cinema);
    assert_eq!(GroupBy::Cinema.key_of(&r), 2);
    assert_eq!(GroupBy::Film.key_of(&r), 9);
    assert_eq!(GroupBy::Cinema.heading_of(&r), "Cinema 2 (Paris)");
    assert_eq!(GroupBy::Film.heading_of(&r), "Film 9 (09/01/2024)");
    assert!(GroupBy::Cinema.is_filed_under(&r, 2, None));
    assert!(GroupBy::Cinema.is_filed_under(&r, 2, Some(9)));
    assert!(!GroupBy::Cinema.is_filed_under(&r, 2, Some(8)));
    assert!(!GroupBy::Cinema.is_filed_under(&r, 9, None));
    assert!(GroupBy::Film.is_filed_under(&r, 9, Some(2)));
}

#[test]
fn key_list_is_sorted_and_distinct() {
    assert_eq!(key_list(&sample(), GroupBy::Cinema), vec![1, 2]);
    assert_eq!(key_list(&sample(), GroupBy::Film), vec![4, 9]);
    let mut ids: Vec<u64> = Vec::new();
    for id in [5, 1, 9, 5, 3, 1, 10] {
        note_id(&mut ids, id);
    }
    assert_eq!(ids, vec![1, 3, 5, 9, 10]);
}
