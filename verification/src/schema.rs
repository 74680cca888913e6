//! What the library answers about parsers, tags and linked notes.

use crate::cards::assemble::copy_hint;
use crate::clozes::NoteId;
use crate::model::{CardId, NoteLink, Parser, ParserId, RatingId, Tag, TagId};
use crate::notes::json::JsonValue;
use vstd::prelude::*;

verus! {

/// A parser, as it is answered.
#[derive(Clone, Debug)]
pub struct ParserResponse {
    pub id: ParserId,
    pub name: String,
}

impl ParserResponse {
    pub fn new(parser: &Parser) -> (r: Self)
        ensures
            r.id == parser.id,
            r.name == parser.name,
    {
        ParserResponse { id: parser.id, name: parser.name.clone() }
    }
}

/// A tag, as it is answered.
#[derive(Clone, Debug)]
pub struct TagResponse {
    pub id: TagId,
    pub parent_id: Option<TagId>,
    pub name: String,
    pub description: String,
    pub query: Option<String>,
    pub auto_delete: bool,
}

impl TagResponse {
    pub fn new(tag: &Tag) -> (r: Self)
        ensures
            r.id == tag.id,
            r.parent_id == tag.parent_id,
            r.name == tag.name,
            r.description == tag.description,
            r.query == tag.query,
            r.auto_delete == tag.auto_delete,
    {
        TagResponse {
            id: tag.id,
            parent_id: tag.parent_id,
            name: tag.name.clone(),
            description: tag.description.clone(),
            query: copy_hint(&tag.query),
            auto_delete: tag.auto_delete,
        }
    }
}

/// A note linked from another note: the keyword searched for and, when a note was found,
/// its id and the keyword it matched.
#[derive(Clone, Debug)]
pub struct LinkedNote {
    pub searched_keyword: String,
    pub linked_note_id: Option<NoteId>,
    pub matched_keyword: Option<String>,
}

impl LinkedNote {
    pub fn new(note_link: NoteLink) -> (r: Self)
        ensures
            r.searched_keyword == note_link.searched_keyword,
            r.linked_note_id == note_link.linked_note_id,
            r.matched_keyword == note_link.matched_keyword,
    {
        LinkedNote {
            searched_keyword: note_link.searched_keyword,
            linked_note_id: note_link.linked_note_id,
            matched_keyword: note_link.matched_keyword,
        }
    }
}

/// Which page of a listing, and how many items on it.
#[derive(Clone, Debug, Default)]
pub struct FilterOptions {
    pub page: Option<usize>,
    pub limit: Option<usize>,
}

/// A request for a new parser.
#[derive(Clone, Debug)]
pub struct CreateParserRequest {
    pub name: String,
}

/// A request to change a parser; `None` leaves the name as it is.
#[derive(Clone, Debug)]
pub struct UpdateParserRequest {
    pub name: Option<String>,
}

/// A request for a new tag.
#[derive(Clone, Debug)]
pub struct CreateTagRequest {
    pub name: String,
    pub description: String,
    pub parent_id: Option<TagId>,
    pub query: Option<String>,
    pub auto_delete: bool,
}

/// A request to change a tag; each `None` leaves its field as it is, and the inner
/// `Option` of `parent_id` and `query` sets the field itself.
#[derive(Clone, Debug)]
pub struct UpdateTagRequest {
    pub parent_id: Option<Option<TagId>>,
    pub name: Option<String>,
    pub description: Option<String>,
    pub query: Option<Option<String>>,
    pub auto_delete: Option<bool>,
}

/// The notes whose files are generated: those a query finds, or those with the given ids.
#[derive(Clone, Debug)]
pub enum GenerateFilesNoteIds {
    Query(String),
    NoteIds(Vec<NoteId>),
}

/// A request to generate and render the files of notes; with no note ids, every note's.
#[derive(Clone, Debug)]
pub struct RenderNotesRequest {
    pub generate_files_note_ids: Option<GenerateFilesNoteIds>,
    pub overridden_output_raw_dir: Option<String>,
    pub include_linked_notes: bool,
    pub include_cards: bool,
    pub generate_rendered: bool,
    pub force_generate_rendered: bool,
}

/// A request for the notes that hold a keyword.
#[derive(Clone, Debug)]
pub struct SearchKeywordRequest {
    pub keyword: String,
}

/// A request for new notes, all read by one parser.
#[derive(Clone, Debug)]
pub struct CreateNotesRequest {
    pub parser_id: i64,
    pub requests: Vec<CreateNoteRequest>,
}

/// A new note: its text, keywords, tags, whether its cards start suspended, and its custom
/// data.
#[derive(Clone, Debug)]
pub struct CreateNoteRequest {
    pub data: String,
    pub keywords: Vec<String>,
    pub tags: Vec<String>,
    pub is_suspended: bool,
    pub custom_data: Vec<(String, JsonValue)>,
}

/// The notes a request is about: by id, or those a query finds.
#[derive(Clone, Debug)]
pub enum NotesSelector {
    Ids(Vec<NoteId>),
    Query(String),
}

/// A request to change notes; each `None` leaves its field as it is. Tags are removed
/// before others are added, and removing `"*"` removes every tag.
#[derive(Clone, Debug)]
pub struct UpdateNotesRequest {
    pub selector: NotesSelector,
    pub parser_id: Option<i64>,
    pub data: Option<String>,
    pub keywords: Option<Vec<String>>,
    pub tags_to_remove: Option<Vec<String>>,
    pub tags_to_add: Option<Vec<String>>,
    pub custom_data: Option<Vec<(String, JsonValue)>>,
}

/// The cards a request is about: by id, or those a query finds.
#[derive(Clone, Debug)]
pub enum CardsSelector {
    Ids(Vec<CardId>),
    Query(String),
}

/// A state that takes a card out of review.
#[derive(Clone, Copy, Debug)]
pub enum SpecialStateUpdate {
    Suspended,
    Buried,
}

/// A request for the leeches of a scheduler.
#[derive(Clone, Debug)]
pub struct GetLeechesRequest {
    pub scheduler_name: String,
}

/// A request for the next card to review, from all cards or from those a filter keeps.
#[derive(Clone, Debug, Default)]
pub struct GetReviewCardRequest {
    pub filter: Option<GetReviewCardFilterRequest>,
}

/// The cards a review draws from: those a query finds, or those of a filtered tag.
#[derive(Clone, Debug)]
pub enum GetReviewCardFilterRequest {
    Query(String),
    FilteredTag { tag_id: TagId },
}

/// Where the back of a card was rendered: a file of its own, or the note's.
#[derive(Clone, Debug)]
pub enum CardBackRenderedPath {
    CardBack(String),
    Note(String),
}

/// The card to review next, with the files to show and edit.
#[derive(Clone, Debug)]
pub struct GetReviewCardResponse {
    pub note_id: NoteId,
    pub card_order: u32,
    pub card_id: CardId,
    pub card_front_rendered_path: String,
    pub card_back_rendered_path: CardBackRenderedPath,
    pub note_raw_path: String,
    pub parser_name: String,
}

/// A rating a scheduler offers: the number it is stored as and its name.
#[derive(Clone, Debug)]
pub struct Rating {
    pub id: RatingId,
    pub description: String,
}

} // verus!
