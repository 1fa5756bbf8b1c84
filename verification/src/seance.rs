//! Screenings, the key that tells two of them apart, and the accumulator
//! that numbers them and keeps each only once.

use crate::calendar::Timestamp;
use vstd::prelude::*;

verus! {

/// What makes two screenings the same event.
pub struct SeanceKey {
    pub cinema_id: u64,
    pub film_id: u64,
    pub datetime: Timestamp,
    pub version: Seq<char>,
    pub url: Option<Seq<char>>,
}

/// A screening as read from a listing, not yet numbered.
#[derive(Debug)]
pub struct Candidate {
    pub cinema_id: u64,
    pub film_id: u64,
    pub datetime: Timestamp,
    pub version: String,
    pub url: Option<String>,
}

/// A numbered screening.
#[derive(Debug)]
pub struct Seance {
    pub id: u64,
    pub cinema_id: u64,
    pub film_id: u64,
    pub datetime: Timestamp,
    pub version: String,
    pub url: Option<String>,
}

/// The characters of an optional text.
pub open spec fn text_of(s: Option<String>) -> Option<Seq<char>> {
    match s {
        Some(t) => Some(t@),
        None => None,
    }
}

impl Candidate {
    /// The event that this candidate describes.
    pub open spec fn key(&self) -> SeanceKey {
        SeanceKey {
            cinema_id: self.cinema_id,
            film_id: self.film_id,
            datetime: self.datetime,
            version: self.version@,
            url: text_of(self.url),
        }
    }

    /// The screening that this candidate becomes under identifier `id`.
    pub open spec fn numbered(self, id: u64) -> Seance {
        Seance {
            id,
            cinema_id: self.cinema_id,
            film_id: self.film_id,
            datetime: self.datetime,
            version: self.version,
            url: self.url,
        }
    }
}

/// Whether two optional texts read the same.
pub fn same_optional_text(a: &Option<String>, b: &Option<String>) -> (same: bool)
    ensures
        same == (text_of(*a) == text_of(*b)),
{
    match (a, b) {
        (None, None) => true,
        (Some(x), Some(y)) => *x == *y,
        _ => false,
    }
}

impl Seance {
    /// The event that this screening is.
    pub open spec fn key(&self) -> SeanceKey {
        SeanceKey {
            cinema_id: self.cinema_id,
            film_id: self.film_id,
            datetime: self.datetime,
            version: self.version@,
            url: text_of(self.url),
        }
    }

    /// Whether this screening is the event that `candidate` describes.
    pub fn is_event(&self, candidate: &Candidate) -> (same: bool)
        ensures
            same == (self.key() == candidate.key()),
    {
        self.cinema_id == candidate.cinema_id && self.film_id == candidate.film_id
            && self.datetime == candidate.datetime && self.version == candidate.version
            && same_optional_text(&self.url, &candidate.url)
    }

    /// An equal screening of its own.
    pub fn duplicate(&self) -> (twin: Seance)
        ensures
            twin == *self,
    {
        Seance {
            id: self.id,
            cinema_id: self.cinema_id,
            film_id: self.film_id,
            datetime: self.datetime,
            version: self.version.clone(),
            url: match &self.url {
                Some(u) => Some(u.clone()),
                None => None,
            },
        }
    }
}

/// Whether some screening of `held` is the event with key `key`.
pub open spec fn holds_key(held: Seq<Seance>, key: SeanceKey) -> bool {
    exists|i: int| 0 <= i < held.len() && (#[trigger] held[i]).key() == key
}

/// Identifiers count up from 1 in order of acceptance.
pub open spec fn numbered_in_order(held: Seq<Seance>) -> bool {
    forall|i: int| 0 <= i < held.len() ==> (#[trigger] held[i]).id == i + 1
}

/// No event is held twice.
pub open spec fn events_distinct(held: Seq<Seance>) -> bool {
    forall|i: int, j: int|
        0 <= i < j < held.len() ==> (#[trigger] held[i]).key() != (#[trigger] held[j]).key()
}

/// What a list of accepted screenings becomes when `candidate` is
/// submitted: unchanged where the event is already held (or no identifier
/// is left to give), else longer by the candidate under the next
/// identifier.
pub open spec fn submitted(held: Seq<Seance>, candidate: Candidate) -> Seq<Seance> {
    if holds_key(held, candidate.key()) || held.len() >= u64::MAX {
        held
    } else {
        held.push(candidate.numbered((held.len() + 1) as u64))
    }
}

/// The screenings accepted so far in one run, over all cinemas.
pub struct Accumulator {
    seances: Vec<Seance>,
}

impl Accumulator {
    /// The accepted screenings, in order of acceptance.
    pub closed spec fn view(&self) -> Seq<Seance> {
        self.seances@
    }

    /// Identifiers count up from 1 and no event is held twice.
    pub open spec fn wf(&self) -> bool {
        numbered_in_order(self@) && events_distinct(self@)
    }

    /// An accumulator that holds nothing yet.
    pub fn new() -> (fresh: Accumulator)
        ensures
            fresh@ == Seq::<Seance>::empty(),
            fresh.wf(),
    {
        Accumulator { seances: Vec::new() }
    }

    /// The number of screenings accepted so far.
    pub fn len(&self) -> (n: usize)
        ensures
            n == self@.len(),
    {
        self.seances.len()
    }

    /// The screening accepted at position `i`.
    pub fn get(&self, i: usize) -> (seance: &Seance)
        requires
            i < self@.len(),
        ensures
            *seance == self@[i as int],
    {
        &self.seances[i]
    }

    /// Whether the event that `candidate` describes is already held.
    pub fn contains(&self, candidate: &Candidate) -> (found: bool)
        ensures
            found == holds_key(self@, candidate.key()),
    {
        let mut i: usize = 0;
        while i < self.seances.len()
            invariant
                i <= self.seances.len(),
                forall|k: int| 0 <= k < i ==> (#[trigger] self.seances@[k]).key() != candidate.key(),
            decreases self.seances.len() - i,
        {
            if self.seances[i].is_event(candidate) {
                return true;
            }
            i += 1;
        }
        false
    }

    /// Checks and appends in one step: a candidate whose event is already
    /// held is dropped, any other gets the next identifier and is kept.
    /// Returns the identifier given, if any.
    pub fn submit(&mut self, candidate: Candidate) -> (given: Option<u64>)
        requires
            old(self).wf(),
        ensures
            final(self).wf(),
            final(self)@ == submitted(old(self)@, candidate),
            given == (if holds_key(old(self)@, candidate.key()) || old(self)@.len() >= u64::MAX {
                None
            } else {
                Some((old(self)@.len() + 1) as u64)
            }),
    {
        let n = self.seances.len();
        if self.contains(&candidate) || n as u64 >= u64::MAX {
            return None;
        }
        let id: u64 = n as u64 + 1;
        let seance = Seance {
            id,
            cinema_id: candidate.cinema_id,
            film_id: candidate.film_id,
            datetime: candidate.datetime,
            version: candidate.version,
            url: candidate.url,
        };
        self.seances.push(seance);
        Some(id)
    }

    /// Hands over the accepted screenings.
    pub fn into_seances(self) -> (all: Vec<Seance>)
        ensures
            all@ == self@,
    {
        self.seances
    }
}

/// Submitting an event a second time changes nothing: once a candidate
/// was submitted, a further candidate with the same key leaves the list as
/// it is.
pub proof fn lemma_resubmission_changes_nothing(
    held: Seq<Seance>,
    first: Candidate,
    again: Candidate,
)
    requires
        first.key() == again.key(),
    ensures
        submitted(submitted(held, first), again) == submitted(held, first),
{
    let once = submitted(held, first);
    if !(holds_key(held, first.key()) || held.len() >= u64::MAX) {
        assert(once[held.len() as int].key() == again.key());
    } else if held.len() >= u64::MAX {
    } else {
        assert(holds_key(once, again.key()));
    }
}

/// What a list becomes when one candidate is submitted `times` times.
pub open spec fn submitted_times(held: Seq<Seance>, candidate: Candidate, times: nat) -> Seq<Seance>
    decreases times,
{
    if times == 0 {
        held
    } else {
        submitted(submitted_times(held, candidate, (times - 1) as nat), candidate)
    }
}

/// Submitting one candidate any number of times, at least once, leaves
/// what submitting it once leaves.
pub proof fn lemma_many_submissions_are_one(held: Seq<Seance>, candidate: Candidate, times: nat)
    requires
        times >= 1,
    ensures
        submitted_times(held, candidate, times) == submitted(held, candidate),
    decreases times,
{
    if times == 1 {
        assert(submitted_times(held, candidate, 0) == held);
    } else {
        lemma_many_submissions_are_one(held, candidate, (times - 1) as nat);
        lemma_resubmission_changes_nothing(held, candidate, candidate);
    }
}

/// After a candidate was submitted to a well-formed list with an
/// identifier left, the list holds its event exactly once.
pub proof fn lemma_submitted_once(held: Seq<Seance>, candidate: Candidate)
    requires
        numbered_in_order(held),
        events_distinct(held),
        held.len() < u64::MAX,
    ensures
        numbered_in_order(submitted(held, candidate)),
        events_distinct(submitted(held, candidate)),
        holds_key(submitted(held, candidate), candidate.key()),
        forall|i: int, j: int|
            #![trigger submitted(held, candidate)[i], submitted(held, candidate)[j]]
            0 <= i < submitted(held, candidate).len() && 0 <= j < submitted(held, candidate).len()
                && submitted(held, candidate)[i].key() == candidate.key() && submitted(
                held,
                candidate,
            )[j].key() == candidate.key() ==> i == j,
{
    let after = submitted(held, candidate);
    if !holds_key(held, candidate.key()) {
        assert(after[held.len() as int].key() == candidate.key());
        assert forall|i: int, j: int| 0 <= i < j < after.len() implies (#[trigger] after[i]).key()
            != (#[trigger] after[j]).key() by {
            if j < held.len() {
                assert(held[i].key() != held[j].key());
            } else {
                assert(held[i].key() != candidate.key());
            }
        }
    }
    assert forall|i: int, j: int|
        0 <= i < after.len() && 0 <= j < after.len() && after[i].key() == candidate.key()
            && after[j].key() == candidate.key() implies i == j by {
        if i < j {
            assert(after[i].key() != after[j].key());
        } else if j < i {
            assert(after[j].key() != after[i].key());
        }
    }
}

} // verus!
