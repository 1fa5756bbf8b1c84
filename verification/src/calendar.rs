//! Calendar dates, times of day and timestamps at the network's fixed
//! UTC+2 offset, and the rule that gives a year to an advertised day/month.

use vstd::prelude::*;

verus! {

/// First year that a date can carry.
pub const MIN_YEAR: i32 = -262143;

/// Last year that a date can carry.
pub const MAX_YEAR: i32 = 262142;

/// Hour at which a listing day starts: screenings past midnight belong to
/// the evening before.
pub const DAY_START_HOUR: u32 = 4;

/// Whether February has 29 days in `year`.
pub open spec fn is_leap_year(year: int) -> bool {
    year % 4 == 0 && (year % 100 != 0 || year % 400 == 0)
}

/// The number of days of a month of a year.
pub open spec fn days_in_month(year: int, month: int) -> int {
    if month == 2 {
        if is_leap_year(year) {
            29
        } else {
            28
        }
    } else if month == 4 || month == 6 || month == 9 || month == 11 {
        30
    } else {
        31
    }
}

/// Whether year, month and day name a day of the proleptic Gregorian
/// calendar, in a year that a date can carry.
pub open spec fn date_exists(year: int, month: int, day: int) -> bool {
    &&& MIN_YEAR <= year <= MAX_YEAR
    &&& 1 <= month <= 12
    &&& 1 <= day <= days_in_month(year, month)
}

/// A calendar date.
#[derive(Clone, Copy, Debug, PartialEq, Eq, Structural)]
pub struct Date {
    pub year: i32,
    pub month: u32,
    pub day: u32,
}

/// A time of day, to the minute.
#[derive(Clone, Copy, Debug, PartialEq, Eq, Structural)]
pub struct TimeOfDay {
    pub hour: u32,
    pub minute: u32,
}

/// A wall-clock instant at the fixed UTC+2 offset.
#[derive(Clone, Copy, Debug, PartialEq, Eq, Structural)]
pub struct Timestamp {
    pub date: Date,
    pub time: TimeOfDay,
}

/// The day after `date`, where the calendar still has one.
pub open spec fn next_day(date: Date) -> Option<Date> {
    if date.day < days_in_month(date.year as int, date.month as int) {
        Some(Date { year: date.year, month: date.month, day: (date.day + 1) as u32 })
    } else if date.month < 12 {
        Some(Date { year: date.year, month: (date.month + 1) as u32, day: 1 })
    } else if date.year < MAX_YEAR {
        Some(Date { year: (date.year + 1) as i32, month: 1, day: 1 })
    } else {
        None
    }
}

/// `chrono::NaiveDate::from_ymd_opt`, asked only whether it finds a date:
/// it does exactly when the day exists in the month of that year and the
/// year lies within `MIN_YEAR..=MAX_YEAR`.
#[verifier::external_body]
fn calendar_has(year: i32, month: u32, day: u32) -> (found: bool)
    ensures
        found == date_exists(year as int, month as int, day as int),
{
    chrono::NaiveDate::from_ymd_opt(year, month, day).is_some()
}

/// `chrono::NaiveDate::succ_opt` on an existing date: the next calendar
/// date, or nothing after the last representable one.
#[verifier::external_body]
fn calendar_successor(date: Date) -> (following: Option<Date>)
    requires
        date.valid(),
    ensures
        following == next_day(date),
{
    let day = chrono::NaiveDate::from_ymd_opt(date.year, date.month, date.day)?;
    let next = day.succ_opt()?;
    Some(Date {
        year: chrono::Datelike::year(&next),
        month: chrono::Datelike::month(&next),
        day: chrono::Datelike::day(&next),
    })
}

impl Date {
    /// The calendar has this date.
    pub open spec fn valid(self) -> bool {
        date_exists(self.year as int, self.month as int, self.day as int)
    }

    /// Strict calendar order.
    pub open spec fn earlier(self, other: Date) -> bool {
        self.year < other.year || (self.year == other.year && (self.month < other.month || (
        self.month == other.month && self.day < other.day)))
    }

    /// The date with these fields, if the calendar has it.
    pub fn new(year: i32, month: u32, day: u32) -> (made: Option<Date>)
        ensures
            made == (if date_exists(year as int, month as int, day as int) {
                Some(Date { year, month, day })
            } else {
                None
            }),
    {
        if calendar_has(year, month, day) {
            Some(Date { year, month, day })
        } else {
            None
        }
    }

    /// Whether the calendar has this date.
    pub fn is_valid(&self) -> (ok: bool)
        ensures
            ok == self.valid(),
    {
        calendar_has(self.year, self.month, self.day)
    }

    /// Whether this date lies strictly before `other`.
    pub fn is_earlier(&self, other: &Date) -> (before: bool)
        ensures
            before == self.earlier(*other),
    {
        self.year < other.year || (self.year == other.year && (self.month < other.month || (
        self.month == other.month && self.day < other.day)))
    }

    /// The following calendar day.
    pub fn succ(&self) -> (following: Option<Date>)
        requires
            self.valid(),
        ensures
            following == next_day(*self),
            following matches Some(d) ==> d.valid() && self.earlier(d),
    {
        calendar_successor(*self)
    }
}

impl TimeOfDay {
    /// Hour and minute lie within the day.
    pub open spec fn valid(self) -> bool {
        self.hour < 24 && self.minute < 60
    }

    /// Strict order within the day.
    pub open spec fn earlier(self, other: TimeOfDay) -> bool {
        self.hour < other.hour || (self.hour == other.hour && self.minute < other.minute)
    }

    /// The time with these fields, if a day has it.
    pub fn new(hour: u32, minute: u32) -> (made: Option<TimeOfDay>)
        ensures
            made == (if hour < 24 && minute < 60 {
                Some(TimeOfDay { hour, minute })
            } else {
                None
            }),
    {
        if hour < 24 && minute < 60 {
            Some(TimeOfDay { hour, minute })
        } else {
            None
        }
    }

    /// The start of a listing day, 04:00.
    pub fn day_start() -> (start: TimeOfDay)
        ensures
            start == (TimeOfDay { hour: DAY_START_HOUR, minute: 0 }),
    {
        TimeOfDay { hour: DAY_START_HOUR, minute: 0 }
    }
}

impl Timestamp {
    /// Date and time of day are both valid.
    pub open spec fn valid(self) -> bool {
        self.date.valid() && self.time.valid()
    }

    /// Strict order of instants: by date, then by time of day.
    pub open spec fn earlier(self, other: Timestamp) -> bool {
        self.date.earlier(other.date) || (self.date == other.date && self.time.earlier(
            other.time,
        ))
    }

    /// `self` is no later than `other`.
    pub open spec fn at_most(self, other: Timestamp) -> bool {
        !other.earlier(self)
    }

    /// Whether this instant lies strictly before `other`.
    pub fn is_earlier(&self, other: &Timestamp) -> (before: bool)
        ensures
            before == self.earlier(*other),
    {
        if self.date.is_earlier(&other.date) {
            true
        } else if self.date == other.date {
            self.time.hour < other.time.hour || (self.time.hour == other.time.hour
                && self.time.minute < other.time.minute)
        } else {
            false
        }
    }

    /// Whether this instant is no later than `other`.
    pub fn is_at_most(&self, other: &Timestamp) -> (within: bool)
        ensures
            within == self.at_most(*other),
    {
        !other.is_earlier(self)
    }
}

/// The year-bearing date that an advertised day/month stands for when read
/// on `today`: this year's, unless that lies strictly before `today`, in
/// which case next year's. Nothing where the calendar lacks the date.
pub open spec fn resolved_date(day: u32, month: u32, today: Date) -> Option<Date> {
    let this_year = Date { year: today.year, month, day };
    if !date_exists(today.year as int, month as int, day as int) {
        None
    } else if !this_year.earlier(today) {
        Some(this_year)
    } else if date_exists(today.year + 1, month as int, day as int) {
        Some(Date { year: (today.year + 1) as i32, month, day })
    } else {
        None
    }
}

/// The instant that an advertised day/month and hour:minute stand for.
pub open spec fn resolved(day: u32, month: u32, hour: u32, minute: u32, now: Timestamp) -> Option<
    Timestamp,
> {
    match resolved_date(day, month, now.date) {
        Some(date) => if hour < 24 && minute < 60 {
            Some(Timestamp { date, time: TimeOfDay { hour, minute } })
        } else {
            None
        },
        None => None,
    }
}

/// Gives a year to an advertised day/month, read on `today`.
pub fn resolve_date(day: u32, month: u32, today: &Date) -> (found: Option<Date>)
    ensures
        found == resolved_date(day, month, *today),
        found matches Some(d) ==> d.valid() && !d.earlier(*today),
{
    match Date::new(today.year, month, day) {
        None => None,
        Some(this_year) => {
            if !this_year.is_earlier(today) {
                Some(this_year)
            } else if today.year < MAX_YEAR {
                Date::new(today.year + 1, month, day)
            } else {
                None
            }
        },
    }
}

/// Turns an advertised day/month and hour:minute into an instant, relative
/// to the reference instant `now`.
pub fn resolve(day: u32, month: u32, hour: u32, minute: u32, now: &Timestamp) -> (found: Option<
    Timestamp,
>)
    ensures
        found == resolved(day, month, hour, minute, *now),
        found matches Some(t) ==> t.valid() && !t.date.earlier(now.date),
{
    match resolve_date(day, month, &now.date) {
        None => None,
        Some(date) => match TimeOfDay::new(hour, minute) {
            None => None,
            Some(time) => Some(Timestamp { date, time }),
        },
    }
}

/// A day/month equal to the reference date resolves to the reference date
/// itself: today is never rolled into next year.
pub proof fn lemma_today_stays(hour: u32, minute: u32, now: Timestamp)
    requires
        now.date.valid(),
        hour < 24,
        minute < 60,
    ensures
        resolved(now.date.day, now.date.month, hour, minute, now) == Some(
            Timestamp { date: now.date, time: TimeOfDay { hour, minute } },
        ),
{
}

/// A resolved date lies in the reference year or the one after, and never
/// further: it is the first occurrence of the day/month from `today` on,
/// looking no further than the end of next year.
pub proof fn lemma_resolved_within_a_year(day: u32, month: u32, today: Date)
    requires
        resolved_date(day, month, today) is Some,
    ensures
        ({
            let d = resolved_date(day, month, today)->Some_0;
            &&& d.valid()
            &&& d.month == month
            &&& d.day == day
            &&& !d.earlier(today)
            &&& (d.year == today.year || (d.year == today.year + 1 && (Date {
                year: today.year,
                month,
                day,
            }).earlier(today)))
        }),
{
}

} // verus!
