use crate::model::{RatingId, StateId};
use std::ops::Range;
use vstd::prelude::*;

verus! {

/// `Clone` of `std::ops::Range`, as derived by std: each bound is cloned.
pub assume_specification<Idx: Clone>[<Range<Idx> as Clone>::clone](r: &Range<Idx>) -> (res: Range<Idx>)
    ensures
        cloned::<Idx>(r.start, res.start),
        cloned::<Idx>(r.end, res.end),
;

/// Errors that concern a single card or the clozes that make it up.
#[derive(Clone, Debug, PartialEq)]
pub enum CardErrorKind {
    Empty,
    MissingField(String),
    InvalidInput(String),
    EmptyCloze { src: String, at: Range<usize> },
    InvalidSettings { description: String, src: String, at: Range<usize> },
    NotFound { src: String },
}

/// Errors that concern the settings of a note.
#[derive(Clone, Debug, PartialEq)]
pub enum NoteErrorKind {
    InvalidSettings { description: String, advice: Option<String>, src: String, at: Range<usize> },
    SettingsWarning { description: String, src: String, at: Range<usize> },
    Other { description: String },
}

/// Errors raised when opening and closing delimiters do not pair up.
#[derive(Clone, Debug, PartialEq)]
pub enum DelimiterErrorKind {
    UnequalMatches { src: String },
    Unmatched { src: String, at: usize },
}

/// Errors raised when a parser cannot be found.
#[derive(Clone, Debug, PartialEq)]
pub enum ParserErrorKind {
    NotFound(String),
}

/// Errors raised by a scheduler: one that cannot be found, or a state or rating number that
/// it does not know.
#[derive(Clone, Debug, PartialEq)]
pub enum SchedulerErrorKind {
    NotFound(String),
    InvalidState(StateId),
    InvalidRating(RatingId),
}

#[derive(Clone, Debug, PartialEq)]
pub enum LibraryError {
    Card(CardErrorKind),
    Note(NoteErrorKind),
    Delimiter(DelimiterErrorKind),
    Parser(ParserErrorKind),
    Scheduler(SchedulerErrorKind),
}

} // verus!
