//! Turning the blocks of one cinema's listing page into screenings.

use crate::calendar::{resolve_date, resolved_date, Date, Timestamp};
use crate::catalog::{find_film, film_position, Film};
use crate::seance::{holds_key, text_of, Accumulator, Candidate, Seance, SeanceKey};
use crate::text::{
    clock_reading, listed_day_month, parse_time, read_listed_day_month, time_of_reading, trimmed,
};
use vstd::prelude::*;

verus! {

/// One advertised screening as the page gives it: the text of its date,
/// time and version nodes, where the page has them, and the target of its
/// reservation link, where it has one.
#[derive(Debug)]
pub struct SessionBlock {
    pub date: Option<String>,
    pub time: Option<String>,
    pub version: Option<String>,
    pub link: Option<String>,
}

/// One film of the page: the target of its poster link, where the page has
/// one, and its screenings.
#[derive(Debug)]
pub struct FilmBlock {
    pub poster: Option<String>,
    pub sessions: Vec<SessionBlock>,
}

/// Why a page could not be read.
#[derive(Clone, Copy, Debug, PartialEq, Eq, Structural)]
pub enum ExtractError {
    /// A film block has no poster link.
    MissingPoster,
    /// A poster link points to no film of the catalog.
    UnknownFilm,
    /// A screening has no date node.
    MissingDate,
    /// A date node does not read as a day of the calendar.
    BadDate,
    /// A screening has no time node.
    MissingTime,
    /// A time node does not read as a time of day.
    BadTime,
    /// A screening has no version node.
    MissingVersion,
}

/// A failure together with the cinema whose page it was found on.
#[derive(Clone, Copy, Debug, PartialEq, Eq, Structural)]
pub struct ExtractFailure {
    pub cinema_id: u64,
    pub error: ExtractError,
}

/// The instant that the date and time fields of a screening stand for.
#[verifier::opaque]
pub open spec fn session_instant(session: SessionBlock, today: Date) -> Result<
    Timestamp,
    ExtractError,
> {
    match (session.date, session.time) {
        (None, _) => Err(ExtractError::MissingDate),
        (Some(date), time) => match listed_day_month(date@) {
            None => Err(ExtractError::BadDate),
            Some(dm) => match resolved_date(dm.0, dm.1, today) {
                None => Err(ExtractError::BadDate),
                Some(day) => match time {
                    None => Err(ExtractError::MissingTime),
                    Some(text) => match time_of_reading(clock_reading(trimmed(text@))) {
                        None => Err(ExtractError::BadTime),
                        Some(at) => Ok(Timestamp { date: day, time: at }),
                    },
                },
            },
        },
    }
}

/// The event that a screening block of a cinema and film advertises.
#[verifier::opaque]
pub open spec fn session_key(cinema_id: u64, film_id: u64, session: SessionBlock, today: Date) -> Result<
    SeanceKey,
    ExtractError,
> {
    match session_instant(session, today) {
        Err(e) => Err(e),
        Ok(datetime) => match session.version {
            None => Err(ExtractError::MissingVersion),
            Some(version) => Ok(
                SeanceKey {
                    cinema_id,
                    film_id,
                    datetime,
                    version: trimmed(version@),
                    url: text_of(session.link),
                },
            ),
        },
    }
}

/// The film that a block advertises: the one its poster link points to.
pub open spec fn block_film(block: FilmBlock, films: Seq<Film>) -> Result<u64, ExtractError> {
    match block.poster {
        None => Err(ExtractError::MissingPoster),
        Some(path) => match film_position(films, path@) {
            None => Err(ExtractError::UnknownFilm),
            Some(i) => Ok(films[i].id),
        },
    }
}

/// The events of the screenings held, in order.
pub open spec fn keys_of(held: Seq<Seance>) -> Seq<SeanceKey> {
    Seq::new(held.len(), |i: int| held[i].key())
}

/// What the held events become when one more is submitted.
pub open spec fn with_key(keys: Seq<SeanceKey>, key: SeanceKey) -> Seq<SeanceKey> {
    if keys.contains(key) || keys.len() >= u64::MAX {
        keys
    } else {
        keys.push(key)
    }
}

/// What the held events become when the screenings of one film block are
/// submitted in order from position `from` on, and the failure that stops
/// this, if one does.
pub open spec fn after_sessions(
    keys: Seq<SeanceKey>,
    cinema_id: u64,
    film_id: u64,
    sessions: Seq<SessionBlock>,
    from: int,
    today: Date,
) -> (Seq<SeanceKey>, Option<ExtractError>)
    decreases sessions.len() - from,
{
    if from < 0 || from >= sessions.len() {
        (keys, None)
    } else {
        match session_key(cinema_id, film_id, sessions[from], today) {
            Err(e) => (keys, Some(e)),
            Ok(key) => after_sessions(
                with_key(keys, key),
                cinema_id,
                film_id,
                sessions,
                from + 1,
                today,
            ),
        }
    }
}

/// What the held events become when the film blocks of a page are worked
/// through in order from position `from` on, and the failure that stops
/// this, if one does.
pub open spec fn after_blocks(
    keys: Seq<SeanceKey>,
    cinema_id: u64,
    blocks: Seq<FilmBlock>,
    films: Seq<Film>,
    from: int,
    today: Date,
) -> (Seq<SeanceKey>, Option<ExtractError>)
    decreases blocks.len() - from,
{
    if from < 0 || from >= blocks.len() {
        (keys, None)
    } else {
        match block_film(blocks[from], films) {
            Err(e) => (keys, Some(e)),
            Ok(film_id) => {
                let done = after_sessions(
                    keys,
                    cinema_id,
                    film_id,
                    blocks[from].sessions@,
                    0,
                    today,
                );
                if done.1 is Some {
                    done
                } else {
                    after_blocks(done.0, cinema_id, blocks, films, from + 1, today)
                }
            },
        }
    }
}

/// Reads one screening block.
pub fn read_session(cinema_id: u64, film_id: u64, session: &SessionBlock, today: &Date) -> (read:
    Result<Candidate, ExtractError>)
    ensures
        match read {
            Ok(c) => session_key(cinema_id, film_id, *session, *today) == Ok::<
                SeanceKey,
                ExtractError,
            >(c.key()) && c.datetime.valid() && !c.datetime.date.earlier(*today),
            Err(e) => session_key(cinema_id, film_id, *session, *today) == Err::<
                SeanceKey,
                ExtractError,
            >(e),
        },
{
    reveal(session_instant);
    reveal(session_key);
    let date = match &session.date {
        None => { return Err(ExtractError::MissingDate); },
        Some(text) => match read_listed_day_month(text.as_str()) {
            None => { return Err(ExtractError::BadDate); },
            Some(dm) => match resolve_date(dm.0, dm.1, today) {
                None => { return Err(ExtractError::BadDate); },
                Some(day) => day,
            },
        },
    };
    let time = match &session.time {
        None => { return Err(ExtractError::MissingTime); },
        Some(text) => {
            let inner = crate::text::trim_field(text.as_str());
            match parse_time(inner.as_str()) {
                None => { return Err(ExtractError::BadTime); },
                Some(at) => at,
            }
        },
    };
    let version = match &session.version {
        None => { return Err(ExtractError::MissingVersion); },
        Some(text) => crate::text::trim_field(text.as_str()),
    };
    let url = match &session.link {
        None => None,
        Some(target) => Some(target.clone()),
    };
    Ok(Candidate { cinema_id, film_id, datetime: Timestamp { date, time }, version, url })
}

/// The film that a block advertises.
pub fn read_block_film(block: &FilmBlock, films: &Vec<Film>) -> (read: Result<u64, ExtractError>)
    ensures
        read == block_film(*block, films@),
{
    match &block.poster {
        None => Err(ExtractError::MissingPoster),
        Some(path) => match find_film(films, path) {
            None => Err(ExtractError::UnknownFilm),
            Some(i) => Ok(films[i].id),
        },
    }
}

/// Submitting a candidate does to the held events what `with_key` says.
pub proof fn lemma_submitted_keys(held: Seq<Seance>, candidate: Candidate)
    ensures
        keys_of(crate::seance::submitted(held, candidate)) == with_key(
            keys_of(held),
            candidate.key(),
        ),
{
    let keys = keys_of(held);
    let key = candidate.key();
    if holds_key(held, key) {
        let i = choose|i: int| 0 <= i < held.len() && (#[trigger] held[i]).key() == key;
        assert(keys[i] == key);
    }
    if keys.contains(key) {
        let i = choose|i: int| 0 <= i < keys.len() && keys[i] == key;
        assert(held[i].key() == key);
    }
    assert(keys_of(crate::seance::submitted(held, candidate)) =~= with_key(keys, key));
}

/// Reads the screenings of one film block, in page order, and submits
/// each to the accumulator. The first that cannot be read stops the work
/// with its failure; what was submitted before it stays.
pub fn extract_sessions(
    cinema_id: u64,
    film_id: u64,
    sessions: &Vec<SessionBlock>,
    today: &Date,
    accumulator: &mut Accumulator,
) -> (done: Result<(), ExtractError>)
    requires
        old(accumulator).wf(),
    ensures
        final(accumulator).wf(),
        keys_of(final(accumulator)@) == after_sessions(
            keys_of(old(accumulator)@),
            cinema_id,
            film_id,
            sessions@,
            0,
            *today,
        ).0,
        (match done {
            Ok(_) => None,
            Err(e) => Some(e),
        }) == after_sessions(
            keys_of(old(accumulator)@),
            cinema_id,
            film_id,
            sessions@,
            0,
            *today,
        ).1,
{
    let ghost start = keys_of(accumulator@);
    let mut j: usize = 0;
    while j < sessions.len()
        invariant
            j <= sessions@.len(),
            accumulator.wf(),
            start == keys_of(old(accumulator)@),
            after_sessions(start, cinema_id, film_id, sessions@, 0, *today) == after_sessions(
                keys_of(accumulator@),
                cinema_id,
                film_id,
                sessions@,
                j as int,
                *today,
            ),
        decreases sessions@.len() - j,
    {
        match read_session(cinema_id, film_id, &sessions[j], today) {
            Err(e) => {
                return Err(e);
            },
            Ok(candidate) => {
                proof {
                    lemma_submitted_keys(accumulator@, candidate);
                }
                accumulator.submit(candidate);
            },
        }
        j += 1;
    }
    Ok(())
}

/// Works through the film blocks of one cinema's page: every screening, in
/// page order, is read and submitted to the accumulator. The first block
/// or screening that cannot be read stops the work with its failure, which
/// names the cinema; what was submitted before it stays.
pub fn extract(
    cinema_id: u64,
    blocks: &Vec<FilmBlock>,
    films: &Vec<Film>,
    today: &Date,
    accumulator: &mut Accumulator,
) -> (done: Result<(), ExtractFailure>)
    requires
        old(accumulator).wf(),
    ensures
        final(accumulator).wf(),
        keys_of(final(accumulator)@) == after_blocks(
            keys_of(old(accumulator)@),
            cinema_id,
            blocks@,
            films@,
            0,
            *today,
        ).0,
        (match done {
            Ok(_) => None,
            Err(failure) => Some(failure.error),
        }) == after_blocks(keys_of(old(accumulator)@), cinema_id, blocks@, films@, 0, *today).1,
        done matches Err(failure) ==> failure.cinema_id == cinema_id,
{
    let ghost start = keys_of(accumulator@);
    let mut i: usize = 0;
    while i < blocks.len()
        invariant
            i <= blocks@.len(),
            accumulator.wf(),
            start == keys_of(old(accumulator)@),
            after_blocks(start, cinema_id, blocks@, films@, 0, *today) == after_blocks(
                keys_of(accumulator@),
                cinema_id,
                blocks@,
                films@,
                i as int,
                *today,
            ),
        decreases blocks@.len() - i,
    {
        match read_block_film(&blocks[i], films) {
            Err(error) => {
                return Err(ExtractFailure { cinema_id, error });
            },
            Ok(film_id) => {
                match extract_sessions(cinema_id, film_id, &blocks[i].sessions, today, accumulator) {
                    Err(error) => {
                        return Err(ExtractFailure { cinema_id, error });
                    },
                    Ok(_) => {},
                }
            },
        }
        i += 1;
    }
    Ok(())
}

} // verus!
