//! The text handed to a relational store: instants in their stored form,
//! and the condition that a request puts on the rows.

use crate::calendar::{Date, Timestamp};
use crate::query::{QueryOptions, Version};
use crate::seance::text_of;
use vstd::prelude::*;

verus! {

/// Seconds east of Greenwich of the network's clock.
pub const UTC_OFFSET_SECONDS: i32 = 7200;

/// What `chrono::DateTime::to_rfc3339` writes for the minute with these
/// fields on a clock `offset_seconds` east of Greenwich; nothing where
/// chrono has no such instant.
pub uninterp spec fn rfc3339_text(
    year: i32,
    month: u32,
    day: u32,
    hour: u32,
    minute: u32,
    offset_seconds: i32,
) -> Option<Seq<char>>;

/// `chrono::DateTime::<FixedOffset>::to_rfc3339` on the instant that
/// chrono builds from the fields (`NaiveDate::from_ymd_opt`,
/// `and_hms_opt` at second 0, `FixedOffset::east_opt`,
/// `and_local_timezone`); nothing where one of these finds none.
#[verifier::external_body]
fn format_rfc3339(at: Timestamp, offset_seconds: i32) -> (text: Option<String>)
    ensures
        text_of(text) == rfc3339_text(
            at.date.year,
            at.date.month,
            at.date.day,
            at.time.hour,
            at.time.minute,
            offset_seconds,
        ),
{
    let zone = chrono::FixedOffset::east_opt(offset_seconds)?;
    let day = chrono::NaiveDate::from_ymd_opt(at.date.year, at.date.month, at.date.day)?;
    let naive = day.and_hms_opt(at.time.hour, at.time.minute, 0)?;
    let instant = naive.and_local_timezone(zone).earliest()?;
    Some(instant.to_rfc3339())
}

/// The stored form of an instant: date, time and offset in one text.
pub open spec fn stored_text(at: Timestamp) -> Option<Seq<char>> {
    rfc3339_text(
        at.date.year,
        at.date.month,
        at.date.day,
        at.time.hour,
        at.time.minute,
        UTC_OFFSET_SECONDS,
    )
}

/// Writes an instant in its stored form.
pub fn stored_form(at: &Timestamp) -> (text: Option<String>)
    ensures
        text_of(text) == stored_text(*at),
{
    format_rfc3339(*at, UTC_OFFSET_SECONDS)
}

/// A comparison of a column with a quoted text.
pub open spec fn comparison_text(left: Seq<char>, right: Seq<char>) -> Seq<char> {
    left + "'"@ + right + "'"@
}

/// A condition with one more clause: the first clause opens the
/// condition, each further one is joined by AND.
pub open spec fn and_clause(condition: Seq<char>, clause: Option<Seq<char>>) -> Seq<char> {
    match clause {
        None => condition,
        Some(c) => if condition.len() == 0 {
            "WHERE "@ + c
        } else {
            condition + " AND "@ + c
        },
    }
}

/// The clause that a bound on the instant column makes.
pub open spec fn bound_clause(column_is: Seq<char>, bound: Option<Seq<char>>) -> Option<Seq<char>> {
    match bound {
        Some(text) => Some(comparison_text(column_is, text)),
        None => None,
    }
}

/// The clause that a requested version makes.
pub open spec fn version_clause(version: Option<Version>) -> Option<Seq<char>> {
    match version {
        Some(v) => Some(comparison_text("version = "@, v.tag())),
        None => None,
    }
}

/// The condition of a request whose window ends have the stored forms
/// `low` and `high`: empty where the request asks for nothing.
pub open spec fn condition_text(
    low: Option<Seq<char>>,
    high: Option<Seq<char>>,
    version: Option<Version>,
) -> Seq<char> {
    and_clause(
        and_clause(
            and_clause(Seq::empty(), bound_clause("datetime >= "@, low)),
            bound_clause("datetime <= "@, high),
        ),
        version_clause(version),
    )
}

/// The condition of a request read on `today`; nothing where an end of its
/// window has no stored form.
pub open spec fn where_text(options: QueryOptions, today: Date) -> Option<Seq<char>> {
    let low = match options.lower(today) {
        Some(at) => stored_text(at),
        None => None,
    };
    let high = match options.upper(today) {
        Some(at) => stored_text(at),
        None => None,
    };
    if (options.lower(today) is Some && low is None) || (options.upper(today) is Some && high
        is None) {
        None
    } else {
        Some(condition_text(low, high, options.version))
    }
}

fn comparison(left: &str, right: &str) -> (text: String)
    ensures
        text@ == comparison_text(left@, right@),
{
    let mut text = String::from_str(left);
    text.append("'");
    text.append(right);
    text.append("'");
    text
}

fn with_clause(condition: String, clause: Option<String>) -> (longer: String)
    ensures
        longer@ == and_clause(condition@, text_of(clause)),
{
    match clause {
        None => condition,
        Some(c) => {
            if condition.as_str().is_empty() {
                let mut opened = String::from_str("WHERE ");
                opened.append(c.as_str());
                opened
            } else {
                let mut joined = condition;
                joined.append(" AND ");
                joined.append(c.as_str());
                joined
            }
        },
    }
}

/// Builds the condition from the stored forms of the window ends and the
/// requested version.
pub fn condition(low: Option<String>, high: Option<String>, version: Option<Version>) -> (text:
    String)
    ensures
        text@ == condition_text(text_of(low), text_of(high), version),
{
    let after = match low {
        Some(t) => Some(comparison("datetime >= ", t.as_str())),
        None => None,
    };
    let before = match high {
        Some(t) => Some(comparison("datetime <= ", t.as_str())),
        None => None,
    };
    let tagged = match version {
        Some(v) => Some(comparison("version = ", v.short())),
        None => None,
    };
    with_clause(with_clause(with_clause(String::new(), after), before), tagged)
}

/// The condition that a request, read on `today`, puts on the rows of the
/// store.
pub fn where_clause(options: &QueryOptions, today: &Date) -> (text: Option<String>)
    requires
        options.bounded(*today),
    ensures
        text_of(text) == where_text(*options, *today),
{
    let low = match options.after(today) {
        Some(at) => match stored_form(&at) {
            Some(t) => Some(t),
            None => {
                return None;
            },
        },
        None => None,
    };
    let high = match options.before(today) {
        Some(at) => match stored_form(&at) {
            Some(t) => Some(t),
            None => {
                return None;
            },
        },
        None => None,
    };
    Some(condition(low, high, options.version))
}

} // verus!
