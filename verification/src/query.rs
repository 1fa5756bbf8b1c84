//! The query rules: which screenings a request admits, and the order in
//! which they are returned.

use crate::calendar::{next_day, Date, TimeOfDay, Timestamp, DAY_START_HOUR};
use crate::catalog::{Cinema, Film};
use crate::seance::Seance;
use vstd::prelude::*;
use vstd::seq_lib::{to_multiset_build, to_multiset_contains, to_multiset_insert};

verus! {

/// The two recognised language versions.
#[derive(Clone, Copy, Debug, PartialEq, Eq, Structural)]
pub enum Version {
    Original,
    French,
}

impl Version {
    /// The tag under which listings carry this version.
    pub open spec fn tag(self) -> Seq<char> {
        match self {
            Version::Original => "VO"@,
            Version::French => "VF"@,
        }
    }

    /// The tag as text.
    pub fn short(&self) -> (tag: &'static str)
        ensures
            tag@ == self.tag(),
    {
        match self {
            Version::Original => "VO",
            Version::French => "VF",
        }
    }

    /// The restriction that the two "only" switches ask for: one version
    /// where exactly one switch is set, none where both or neither are.
    pub fn choice(vf_only: bool, vo_only: bool) -> (wanted: Option<Version>)
        ensures
            wanted == (if vf_only && !vo_only {
                Some(Version::French)
            } else if vo_only && !vf_only {
                Some(Version::Original)
            } else {
                None
            }),
    {
        if vf_only && !vo_only {
            Some(Version::French)
        } else if !vf_only && vo_only {
            Some(Version::Original)
        } else {
            None
        }
    }
}

/// A request: an optional day, an optional earliest time of day, and an
/// optional version.
#[derive(Clone, Copy, Debug)]
pub struct QueryOptions {
    pub day: Option<Date>,
    pub time: Option<TimeOfDay>,
    pub version: Option<Version>,
}

impl QueryOptions {
    /// The first admitted instant: the requested day (else `today`) at the
    /// requested time (else the start of the listing day). No bound where
    /// neither was requested.
    pub open spec fn lower(&self, today: Date) -> Option<Timestamp> {
        if self.day is None && self.time is None {
            None
        } else {
            Some(
                Timestamp {
                    date: match self.day {
                        Some(d) => d,
                        None => today,
                    },
                    time: match self.time {
                        Some(t) => t,
                        None => TimeOfDay { hour: DAY_START_HOUR, minute: 0 },
                    },
                },
            )
        }
    }

    /// The last admitted instant: the start of the listing day that
    /// follows the day of the lower bound.
    pub open spec fn upper(&self, today: Date) -> Option<Timestamp> {
        match self.lower(today) {
            Some(low) => match next_day(low.date) {
                Some(d) => Some(
                    Timestamp { date: d, time: TimeOfDay { hour: DAY_START_HOUR, minute: 0 } },
                ),
                None => None,
            },
            None => None,
        }
    }

    /// The day on which the window opens is a calendar date with a day
    /// after it.
    pub open spec fn bounded(&self, today: Date) -> bool {
        self.lower(today) matches Some(low) ==> low.date.valid() && next_day(low.date) is Some
    }

    /// Whether the request admits `seance`: inside the window, both ends
    /// included, and of the requested version.
    pub open spec fn admitted(&self, today: Date, seance: Seance) -> bool {
        &&& self.lower(today) matches Some(low) ==> low.at_most(seance.datetime)
        &&& self.upper(today) matches Some(high) ==> seance.datetime.at_most(high)
        &&& self.version matches Some(v) ==> seance.version@ == v.tag()
    }

    /// Whether the window, if the request has one, can be closed: its first
    /// day is a calendar date with a day after it.
    pub fn is_bounded(&self, today: &Date) -> (ok: bool)
        ensures
            ok == self.bounded(*today),
    {
        if self.day.is_none() && self.time.is_none() {
            return true;
        }
        let start = match self.day {
            Some(d) => d,
            None => *today,
        };
        if !start.is_valid() {
            return false;
        }
        start.succ().is_some()
    }

    /// The lower end of the window.
    pub fn after(&self, today: &Date) -> (low: Option<Timestamp>)
        ensures
            low == self.lower(*today),
    {
        if self.day.is_none() && self.time.is_none() {
            return None;
        }
        let date = match self.day {
            Some(d) => d,
            None => *today,
        };
        let time = match self.time {
            Some(t) => t,
            None => TimeOfDay::day_start(),
        };
        Some(Timestamp { date, time })
    }

    /// The upper end of the window.
    pub fn before(&self, today: &Date) -> (high: Option<Timestamp>)
        requires
            self.bounded(*today),
        ensures
            high == self.upper(*today),
            high is Some <==> self.lower(*today) is Some,
    {
        match self.after(today) {
            None => None,
            Some(low) => match low.date.succ() {
                Some(date) => Some(Timestamp { date, time: TimeOfDay::day_start() }),
                None => None,
            },
        }
    }

    /// Decides one screening.
    pub fn admits(&self, today: &Date, seance: &Seance) -> (ok: bool)
        requires
            self.bounded(*today),
        ensures
            ok == self.admitted(*today, *seance),
    {
        if let Some(low) = self.after(today) {
            if !low.is_at_most(&seance.datetime) {
                return false;
            }
        }
        if let Some(high) = self.before(today) {
            if !seance.datetime.is_at_most(&high) {
                return false;
            }
        }
        match self.version {
            Some(v) => seance.version == String::from_str(v.short()),
            None => true,
        }
    }
}

/// A screening together with its cinema and its film.
#[derive(Debug)]
pub struct QueryResult {
    pub cinema: Cinema,
    pub film: Film,
    pub seance: Seance,
}

impl QueryResult {
    /// An equal row of its own.
    pub fn duplicate(&self) -> (twin: QueryResult)
        ensures
            twin == *self,
    {
        QueryResult {
            cinema: self.cinema.duplicate(),
            film: self.film.duplicate(),
            seance: self.seance.duplicate(),
        }
    }
}

/// The rows of `rows` that the request admits, in their order.
pub open spec fn admitted_rows(rows: Seq<QueryResult>, options: QueryOptions, today: Date) -> Seq<
    QueryResult,
>
    decreases rows.len(),
{
    if rows.len() == 0 {
        Seq::empty()
    } else {
        let rest = admitted_rows(rows.drop_last(), options, today);
        if options.admitted(today, rows.last().seance) {
            rest.push(rows.last())
        } else {
            rest
        }
    }
}

/// Where a row at instant `at` goes into rows already in time order:
/// behind every row that is not later than it.
pub open spec fn slot(ordered: Seq<QueryResult>, at: Timestamp) -> int
    decreases ordered.len(),
{
    if ordered.len() == 0 {
        0
    } else if at.earlier(ordered.last().seance.datetime) {
        slot(ordered.drop_last(), at)
    } else {
        ordered.len() as int
    }
}

/// Rows in ascending time order, rows at one instant in their given order.
pub open spec fn in_time_order(rows: Seq<QueryResult>) -> Seq<QueryResult>
    decreases rows.len(),
{
    if rows.len() == 0 {
        Seq::empty()
    } else {
        let ordered = in_time_order(rows.drop_last());
        ordered.insert(slot(ordered, rows.last().seance.datetime), rows.last())
    }
}

/// No row is later than a row behind it.
pub open spec fn ascending(rows: Seq<QueryResult>) -> bool {
    forall|i: int, j: int|
        0 <= i < j < rows.len() ==> (#[trigger] rows[i]).seance.datetime.at_most(
            (#[trigger] rows[j]).seance.datetime,
        )
}

/// What a request returns from the joined rows of a store.
pub open spec fn selection(rows: Seq<QueryResult>, options: QueryOptions, today: Date) -> Seq<
    QueryResult,
> {
    in_time_order(admitted_rows(rows, options, today))
}

/// The slot of an instant lies behind every row that is not later and
/// before every row that is.
pub proof fn lemma_slot(ordered: Seq<QueryResult>, at: Timestamp)
    ensures
        0 <= slot(ordered, at) <= ordered.len(),
        forall|k: int|
            slot(ordered, at) <= k < ordered.len() ==> at.earlier(
                (#[trigger] ordered[k]).seance.datetime,
            ),
        slot(ordered, at) > 0 ==> !at.earlier(ordered[slot(ordered, at) - 1].seance.datetime),
    decreases ordered.len(),
{
    if ordered.len() > 0 && at.earlier(ordered.last().seance.datetime) {
        let front = ordered.drop_last();
        lemma_slot(front, at);
        assert forall|k: int| slot(ordered, at) <= k < ordered.len() implies at.earlier(
            (#[trigger] ordered[k]).seance.datetime,
        ) by {
            if k < front.len() {
                assert(ordered[k] == front[k]);
            }
        }
        if slot(ordered, at) > 0 {
            assert(ordered[slot(ordered, at) - 1] == front[slot(front, at) - 1]);
        }
    }
}

/// Time order rearranges and loses nothing: the result is ascending and
/// holds each row as often as the input does.
pub proof fn lemma_in_time_order(rows: Seq<QueryResult>)
    ensures
        ascending(in_time_order(rows)),
        in_time_order(rows).to_multiset() == rows.to_multiset(),
        in_time_order(rows).len() == rows.len(),
    decreases rows.len(),
{
    broadcast use to_multiset_build, to_multiset_insert;

    if rows.len() == 0 {
        assert(rows =~= in_time_order(rows));
    } else {
        let ordered = in_time_order(rows.drop_last());
        let row = rows.last();
        let p = slot(ordered, row.seance.datetime);
        lemma_in_time_order(rows.drop_last());
        lemma_slot(ordered, row.seance.datetime);
        let out = ordered.insert(p, row);
        assert(rows =~= rows.drop_last().push(row));
        assert(out.to_multiset() == rows.to_multiset());
        assert forall|i: int, j: int| 0 <= i < j < out.len() implies (#[trigger] out[i])
            .seance.datetime.at_most((#[trigger] out[j]).seance.datetime) by {
            if j < p {
                assert(ordered[i].seance.datetime.at_most(ordered[j].seance.datetime));
            } else if j == p {
                if i < p - 1 {
                    assert(ordered[i].seance.datetime.at_most(ordered[p - 1].seance.datetime));
                }
            } else if i < p {
                assert(ordered[i].seance.datetime.at_most(ordered[j - 1].seance.datetime));
            } else if i == p {
                assert(row.seance.datetime.earlier(ordered[j - 1].seance.datetime));
            } else {
                assert(ordered[i - 1].seance.datetime.at_most(ordered[j - 1].seance.datetime));
            }
        }
    }
}

/// Rows that are in time order already stay as they are: rows at one
/// instant are never swapped.
pub proof fn lemma_time_order_is_stable(rows: Seq<QueryResult>)
    requires
        ascending(rows),
    ensures
        in_time_order(rows) == rows,
    decreases rows.len(),
{
    if rows.len() == 0 {
        assert(in_time_order(rows) =~= rows);
    } else {
        let front = rows.drop_last();
        assert forall|i: int, j: int| 0 <= i < j < front.len() implies (#[trigger] front[i])
            .seance.datetime.at_most((#[trigger] front[j]).seance.datetime) by {
            assert(rows[i].seance.datetime.at_most(rows[j].seance.datetime));
        }
        lemma_time_order_is_stable(front);
        if front.len() > 0 {
            assert(rows[front.len() - 1].seance.datetime.at_most(
                rows[rows.len() - 1].seance.datetime,
            ));
            assert(front.last() == rows[front.len() - 1]);
        }
        assert(slot(front, rows.last().seance.datetime) == front.len());
        assert(front.insert(front.len() as int, rows.last()) =~= rows);
    }
}

/// A row is among the admitted rows exactly if it is a row that the
/// request admits.
pub proof fn lemma_admitted_rows(rows: Seq<QueryResult>, options: QueryOptions, today: Date)
    ensures
        forall|r: QueryResult|
            #[trigger] admitted_rows(rows, options, today).contains(r) <==> rows.contains(r)
                && options.admitted(today, r.seance),
        admitted_rows(rows, options, today).len() <= rows.len(),
    decreases rows.len(),
{
    let kept = admitted_rows(rows, options, today);
    if rows.len() > 0 {
        let rest = admitted_rows(rows.drop_last(), options, today);
        lemma_admitted_rows(rows.drop_last(), options, today);
        assert forall|r: QueryResult| #[trigger]
            kept.contains(r) <==> rows.contains(r) && options.admitted(today, r.seance) by {
            if kept.contains(r) {
                let i = choose|i: int| 0 <= i < kept.len() && kept[i] == r;
                if i < rest.len() {
                    assert(rest.contains(r));
                    let k = choose|k: int| 0 <= k < rows.drop_last().len() && rows.drop_last()[k] == r;
                    assert(rows[k] == r);
                } else {
                    assert(rows[rows.len() - 1] == r);
                }
            }
            if rows.contains(r) && options.admitted(today, r.seance) {
                let k = choose|k: int| 0 <= k < rows.len() && rows[k] == r;
                if k < rows.len() - 1 {
                    assert(rows.drop_last()[k] == r);
                    assert(rest.contains(r));
                    let i = choose|i: int| 0 <= i < rest.len() && rest[i] == r;
                    assert(kept[i] == r);
                } else {
                    assert(kept[kept.len() - 1] == r);
                }
            }
        }
    }
}

/// What a request returns holds exactly the rows that it admits, in
/// ascending time order.
pub proof fn lemma_selection(rows: Seq<QueryResult>, options: QueryOptions, today: Date)
    ensures
        ascending(selection(rows, options, today)),
        forall|r: QueryResult|
            #[trigger] selection(rows, options, today).contains(r) <==> rows.contains(r)
                && options.admitted(today, r.seance),
{
    let kept = admitted_rows(rows, options, today);
    lemma_admitted_rows(rows, options, today);
    lemma_in_time_order(kept);
    assert forall|r: QueryResult| #[trigger]
        selection(rows, options, today).contains(r) <==> kept.contains(r) by {
        to_multiset_contains(kept, r);
        to_multiset_contains(in_time_order(kept), r);
    }
}

/// Finds the place of a row at instant `at` among rows in time order.
pub fn find_slot(ordered: &Vec<QueryResult>, at: &Timestamp) -> (place: usize)
    ensures
        place == slot(ordered@, *at),
        place <= ordered@.len(),
{
    let mut j: usize = ordered.len();
    proof {
        assert(ordered@.take(ordered@.len() as int) =~= ordered@);
    }
    while j > 0 && at.is_earlier(&ordered[j - 1].seance.datetime)
        invariant
            j <= ordered@.len(),
            slot(ordered@, *at) == slot(ordered@.take(j as int), *at),
        decreases j,
    {
        proof {
            assert(ordered@.take(j as int).drop_last() =~= ordered@.take(j - 1));
        }
        j -= 1;
    }
    j
}

/// Answers a request from the joined rows of a store: the rows that the
/// request admits, in ascending time order, rows at one instant in the
/// order of the store.
pub fn select(rows: &Vec<QueryResult>, options: &QueryOptions, today: &Date) -> (found: Vec<
    QueryResult,
>)
    requires
        options.bounded(*today),
    ensures
        found@ == selection(rows@, *options, *today),
        ascending(found@),
        forall|r: QueryResult|
            #[trigger] found@.contains(r) <==> rows@.contains(r) && options.admitted(
                *today,
                r.seance,
            ),
{
    let mut found: Vec<QueryResult> = Vec::new();
    let mut i: usize = 0;
    while i < rows.len()
        invariant
            i <= rows@.len(),
            options.bounded(*today),
            found@ == selection(rows@.take(i as int), *options, *today),
            found@.len() <= i,
        decreases rows@.len() - i,
    {
        proof {
            assert(rows@.take(i + 1).drop_last() =~= rows@.take(i as int));
            lemma_admitted_rows(rows@.take(i as int), *options, *today);
            lemma_in_time_order(admitted_rows(rows@.take(i as int), *options, *today));
        }
        if options.admits(today, &rows[i].seance) {
            let place = find_slot(&found, &rows[i].seance.datetime);
            proof {
                let kept = admitted_rows(rows@.take(i as int), *options, *today);
                assert(kept.push(rows@[i as int]).drop_last() =~= kept);
            }
            found.insert(place, rows[i].duplicate());
        }
        i += 1;
    }
    proof {
        assert(rows@.take(rows@.len() as int) =~= rows@);
        lemma_selection(rows@, *options, *today);
    }
    found
}

/// The row of the screening numbered `id`: the first such row.
pub fn find_seance(rows: &Vec<QueryResult>, id: u64) -> (found: Option<usize>)
    ensures
        match found {
            Some(i) => i < rows@.len() && rows@[i as int].seance.id == id && forall|k: int|
                0 <= k < i ==> (#[trigger] rows@[k]).seance.id != id,
            None => forall|k: int| 0 <= k < rows@.len() ==> (#[trigger] rows@[k]).seance.id != id,
        },
{
    let mut i: usize = 0;
    while i < rows.len()
        invariant
            i <= rows@.len(),
            forall|k: int| 0 <= k < i ==> (#[trigger] rows@[k]).seance.id != id,
        decreases rows@.len() - i,
    {
        if rows[i].seance.id == id {
            return Some(i);
        }
        i += 1;
    }
    None
}

/// With a day and a time requested, every admitted screening lies between
/// that day at that time and the start of the next listing day, both ends
/// included.
pub proof fn lemma_window(day: Date, time: TimeOfDay, version: Option<Version>, today: Date, seance: Seance)
    requires
        day.valid(),
        next_day(day) is Some,
        (QueryOptions { day: Some(day), time: Some(time), version }).admitted(today, seance),
    ensures
        (Timestamp { date: day, time }).at_most(seance.datetime),
        seance.datetime.at_most(
            Timestamp {
                date: next_day(day)->Some_0,
                time: TimeOfDay { hour: DAY_START_HOUR, minute: 0 },
            },
        ),
{
}

/// With only a day requested, the listing day starts at 04:00 sharp: a
/// screening at 04:00 of that day is admitted, one at 03:59 is not.
pub proof fn lemma_day_boundary(day: Date, today: Date, seance: Seance)
    requires
        day.valid(),
        next_day(day) is Some,
        seance.datetime.date == day,
    ensures
        seance.datetime.time == (TimeOfDay { hour: 4, minute: 0 }) ==> (QueryOptions {
            day: Some(day),
            time: None,
            version: None,
        }).admitted(today, seance),
        seance.datetime.time == (TimeOfDay { hour: 3, minute: 59 }) ==> !(QueryOptions {
            day: Some(day),
            time: None,
            version: None,
        }).admitted(today, seance),
{
}

/// A request restricted to one version admits no screening of another
/// tag; with both switches or neither set, the version does not count.
pub proof fn lemma_version_filter(
    vf_only: bool,
    vo_only: bool,
    day: Option<Date>,
    time: Option<TimeOfDay>,
    today: Date,
    seance: Seance,
)
    ensures
        ({
            let wanted = if vf_only && !vo_only {
                Some(Version::French)
            } else if vo_only && !vf_only {
                Some(Version::Original)
            } else {
                None
            };
            let asked = QueryOptions { day, time, version: wanted };
            let open = QueryOptions { day, time, version: None };
            &&& vo_only && !vf_only && asked.admitted(today, seance) ==> seance.version@ == "VO"@
            &&& vf_only && !vo_only && asked.admitted(today, seance) ==> seance.version@ == "VF"@
            &&& vf_only == vo_only ==> asked.admitted(today, seance) == open.admitted(today, seance)
            &&& (vf_only == vo_only && day is None && time is None) ==> asked.admitted(
                today,
                seance,
            )
        }),
{
}

} // verus!
