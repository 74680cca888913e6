//! The records that the library's responses are made from.

use crate::clozes::NoteId;
use vstd::prelude::*;

verus! {

pub type ParserId = i64;

pub type TagId = i64;

pub type RatingId = i64;

pub type StateId = i64;

pub type CardId = i64;

/// A parser as it is stored: its id and its name.
#[derive(Clone, Debug)]
pub struct Parser {
    pub id: ParserId,
    pub name: String,
}

/// A tag as it is stored.
#[derive(Clone, Debug)]
pub struct Tag {
    pub id: TagId,
    pub parent_id: Option<TagId>,
    pub name: String,
    pub description: String,
    pub query: Option<String>,
    pub auto_delete: bool,
}

/// A link from a note to another note, found by searching for a keyword.
#[derive(Clone, Debug)]
pub struct NoteLink {
    pub searched_keyword: String,
    pub linked_note_id: Option<NoteId>,
    pub matched_keyword: Option<String>,
}

} // verus!
