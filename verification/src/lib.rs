//! Showtime listings of a cinema network: calendar resolution of the
//! advertised dates, duplicate-free accumulation of screenings, and the
//! window, version and grouping rules used to answer queries over them.

pub mod calendar;
pub mod catalog;
pub mod extract;
pub mod grouping;
pub mod markup;
pub mod query;
pub mod seance;
pub mod sql;
pub mod text;
