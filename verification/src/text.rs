//! Reading the text fields of a listing: "DD/MM" dates, "HH:MM" times and
//! the pieces around them.

use crate::calendar::{resolve_date, resolved_date, Date, TimeOfDay};
use vstd::prelude::*;

verus! {

/// What `str::trim` leaves of a text.
pub uninterp spec fn trimmed(text: Seq<char>) -> Seq<char>;

/// What `chrono::NaiveTime::parse_from_str` reads from a text under the
/// format `%H:%M`, as hour and minute.
pub uninterp spec fn clock_reading(text: Seq<char>) -> Option<(u32, u32)>;

/// Whether a character is one of the ten decimal digits.
pub open spec fn is_digit(c: char) -> bool {
    '0' <= c <= '9'
}

/// The number that a run of decimal digits writes.
pub open spec fn digits_value(digits: Seq<char>) -> nat
    decreases digits.len(),
{
    if digits.len() == 0 {
        0
    } else {
        digits_value(digits.drop_last()) * 10 + (digits.last() as nat - '0' as nat) as nat
    }
}

/// A text without the one plus sign that may lead it.
pub open spec fn unsigned_part(text: Seq<char>) -> Seq<char> {
    if text.len() > 0 && text[0] == '+' {
        text.subrange(1, text.len() as int)
    } else {
        text
    }
}

/// The number that a text writes in decimal digits, after an optional
/// plus sign, if it writes one that fits 32 bits.
pub open spec fn number_read(text: Seq<char>) -> Option<u32> {
    let digits = unsigned_part(text);
    if digits.len() > 0 && (forall|i: int| 0 <= i < digits.len() ==> is_digit(digits[i]))
        && digits_value(digits) <= u32::MAX {
        Some(digits_value(digits) as u32)
    } else {
        None
    }
}

/// `str::trim`: the text without leading and trailing whitespace.
#[verifier::external_body]
pub(crate) fn trim_field(text: &str) -> (inner: String)
    ensures
        inner@ == trimmed(text@),
{
    text.trim().to_string()
}

/// `str::parse::<u32>`: succeeds exactly on an optional plus sign followed
/// by one or more decimal digits whose value fits, and gives that value.
#[verifier::external_body]
fn parse_number(text: &str) -> (value: Option<u32>)
    ensures
        value == number_read(text@),
{
    text.parse::<u32>().ok()
}

/// `chrono::NaiveTime::parse_from_str` with the format `%H:%M`, handed on
/// as hour and minute; an hour is below 24 and a minute below 60.
#[verifier::external_body]
fn parse_clock(text: &str) -> (reading: Option<(u32, u32)>)
    ensures
        reading == clock_reading(text@),
        reading matches Some(hm) ==> hm.0 < 24 && hm.1 < 60,
{
    match chrono::NaiveTime::parse_from_str(text, "%H:%M") {
        Ok(t) => Some((chrono::Timelike::hour(&t), chrono::Timelike::minute(&t))),
        Err(_) => None,
    }
}

/// Whether `mark` is none of the first `n` characters.
pub open spec fn absent_before(text: Seq<char>, mark: char, n: int) -> bool {
    forall|k: int| 0 <= k < n && k < text.len() ==> text[k] != mark
}

/// The position of the first `mark` in a text.
pub open spec fn first_position(text: Seq<char>, mark: char) -> Option<int> {
    if absent_before(text, mark, text.len() as int) {
        None
    } else {
        Some(choose|i: int| 0 <= i < text.len() && text[i] == mark && absent_before(text, mark, i))
    }
}

/// The two parts of a text around its first `mark`.
pub open spec fn split_at_first(text: Seq<char>, mark: char) -> Option<(Seq<char>, Seq<char>)> {
    match first_position(text, mark) {
        Some(i) => Some((text.subrange(0, i), text.subrange(i + 1, text.len() as int))),
        None => None,
    }
}

/// Day and month that a text of the form "DD/MM" writes.
pub open spec fn day_month_read(text: Seq<char>) -> Option<(u32, u32)> {
    match split_at_first(text, '/') {
        Some(parts) => match (number_read(parts.0), number_read(parts.1)) {
            (Some(day), Some(month)) => Some((day, month)),
            _ => None,
        },
        None => None,
    }
}

/// Day and month that the date field of a listing writes: the field reads
/// as a weekday, a space and "DD/MM", possibly inside whitespace.
pub open spec fn listed_day_month(field: Seq<char>) -> Option<(u32, u32)> {
    match split_at_first(trimmed(field), ' ') {
        Some(parts) => day_month_read(parts.1),
        None => None,
    }
}

/// The time that a reading of hour and minute stands for.
pub open spec fn time_of_reading(reading: Option<(u32, u32)>) -> Option<TimeOfDay> {
    match reading {
        Some(hm) => if hm.0 < 24 && hm.1 < 60 {
            Some(TimeOfDay { hour: hm.0, minute: hm.1 })
        } else {
            None
        },
        None => None,
    }
}

/// Finds the first `mark` in a text.
pub fn find_first(text: &str, mark: char) -> (found: Option<usize>)
    ensures
        match found {
            Some(i) => i < text@.len() && text@[i as int] == mark && absent_before(
                text@,
                mark,
                i as int,
            ),
            None => absent_before(text@, mark, text@.len() as int),
        },
        (match found {
            Some(i) => Some(i as int),
            None => None,
        }) == first_position(text@, mark),
{
    let n = text.unicode_len();
    let mut i: usize = 0;
    while i < n
        invariant
            i <= n,
            n == text@.len(),
            absent_before(text@, mark, i as int),
        decreases n - i,
    {
        if text.get_char(i) == mark {
            proof {
                let j = first_position(text@, mark)->Some_0;
                if j < i {
                    assert(text@[j] != mark);
                } else if i < j {
                    assert(text@[i as int] != mark);
                }
            }
            return Some(i);
        }
        i += 1;
    }
    None
}

/// Splits a text around its first `mark`.
pub fn split_once_at(text: &str, mark: char) -> (parts: Option<(String, String)>)
    ensures
        match parts {
            Some(p) => split_at_first(text@, mark) == Some((p.0@, p.1@)),
            None => split_at_first(text@, mark) is None,
        },
{
    match find_first(text, mark) {
        None => None,
        Some(i) => {
            let n = text.unicode_len();
            let head = String::from_str(text.substring_char(0, i));
            let tail = String::from_str(text.substring_char(i + 1, n));
            Some((head, tail))
        },
    }
}

/// Reads "DD/MM".
pub fn read_day_month(text: &str) -> (found: Option<(u32, u32)>)
    ensures
        found == day_month_read(text@),
{
    match split_once_at(text, '/') {
        None => None,
        Some(parts) => {
            let day = parse_number(parts.0.as_str());
            let month = parse_number(parts.1.as_str());
            match (day, month) {
                (Some(d), Some(m)) => Some((d, m)),
                _ => None,
            }
        },
    }
}

/// Reads the date field of a listing.
pub fn read_listed_day_month(field: &str) -> (found: Option<(u32, u32)>)
    ensures
        found == listed_day_month(field@),
{
    let inner = trim_field(field);
    match split_once_at(inner.as_str(), ' ') {
        None => None,
        Some(parts) => read_day_month(parts.1.as_str()),
    }
}

/// Reads "DD/MM" and gives it the year that it stands for on `today`.
pub fn parse_date(text: &str, today: &Date) -> (found: Option<Date>)
    ensures
        found == (match day_month_read(text@) {
            Some(dm) => resolved_date(dm.0, dm.1, *today),
            None => None,
        }),
        found matches Some(d) ==> d.valid() && !d.earlier(*today),
{
    match read_day_month(text) {
        None => None,
        Some(dm) => resolve_date(dm.0, dm.1, today),
    }
}

/// The time of day for a reading of hour and minute.
pub fn time_from_reading(reading: Option<(u32, u32)>) -> (found: Option<TimeOfDay>)
    ensures
        found == time_of_reading(reading),
        found matches Some(t) ==> t.valid(),
{
    match reading {
        None => None,
        Some(hm) => TimeOfDay::new(hm.0, hm.1),
    }
}

/// Reads "HH:MM".
pub fn parse_time(text: &str) -> (found: Option<TimeOfDay>)
    ensures
        found == time_of_reading(clock_reading(text@)),
        found is Some <==> clock_reading(text@) is Some,
        found matches Some(t) ==> t.valid(),
{
    time_from_reading(parse_clock(text))
}

} // verus!
