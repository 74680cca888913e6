//! The keys and delimiters of settings strings, which each parser may choose.

use crate::clozes::NoteId;
use crate::text::{chars_equal, str_chars};
use std::ops::Range;
use vstd::prelude::*;

verus! {

/// Whether two strings are equal.
pub fn str_eq(a: &str, b: &str) -> (r: bool)
    ensures
        r == (a@ == b@),
{
    let va = str_chars(a);
    let vb = str_chars(b);
    chars_equal(&va, &vb)
}

/// A settings key or value that is either read and written with the same string, or
/// read under several spellings and written under one.
#[derive(Clone, Debug)]
pub enum ReadWriteValue {
    Same(&'static str),
    Different { read: Vec<&'static str>, write: &'static str },
}

/// Whether one of the spellings `read` is `value`.
pub open spec fn any_spelling_is(read: Seq<&'static str>, value: Seq<char>) -> bool {
    exists|i: int| 0 <= i < read.len() && (#[trigger] read[i])@ == value
}

pub open spec fn spec_matches_read(v: ReadWriteValue, value: Seq<char>) -> bool {
    match v {
        ReadWriteValue::Same(s) => s@ == value,
        ReadWriteValue::Different { read, .. } => any_spelling_is(read@, value),
    }
}

pub open spec fn spec_write(v: ReadWriteValue) -> &'static str {
    match v {
        ReadWriteValue::Same(s) => s,
        ReadWriteValue::Different { write, .. } => write,
    }
}

impl ReadWriteValue {
    /// The spelling used when writing.
    pub fn get_write(&self) -> (r: &'static str)
        ensures
            r == spec_write(*self),
    {
        match self {
            ReadWriteValue::Same(s) => s,
            ReadWriteValue::Different { write, .. } => write,
        }
    }

    /// Whether `value` is one of the spellings accepted when reading.
    pub fn matches_read(&self, value: &str) -> (r: bool)
        ensures
            r == spec_matches_read(*self, value@),
    {
        match self {
            ReadWriteValue::Same(s) => str_eq(s, value),
            ReadWriteValue::Different { read, write } => {
                let mut i: usize = 0;
                while i < read.len()
                    invariant
                        *self == (ReadWriteValue::Different { read: *read, write: *write }),
                        0 <= i <= read.len(),
                        forall|j: int| 0 <= j < i ==> (#[trigger] read@[j])@ != value@,
                    decreases read.len() - i,
                {
                    if str_eq(read[i], value) {
                        assert((read@[i as int])@ == value@);
                        assert(0 <= i < read@.len());
                        assert(exists|j: int| 0 <= j < read.len() && (#[trigger] read@[j])@ == value@);
                        assert(any_spelling_is(read@, value@));
                        return true;
                    }
                    i += 1;
                }
                false
            },
        }
    }
}

/// The keys of note settings, and the delimiters of settings strings.
#[derive(Clone, Debug)]
pub struct NoteSettingsKeys {
    pub note_id: ReadWriteValue,
    pub action: ReadWriteValue,
    pub action_add: ReadWriteValue,
    pub action_update: ReadWriteValue,
    pub action_delete: ReadWriteValue,
    pub tags: ReadWriteValue,
    pub keywords: ReadWriteValue,
    pub is_suspended: ReadWriteValue,
    pub front_conceal: ReadWriteValue,
    pub back_reveal: ReadWriteValue,
    pub custom_data: ReadWriteValue,
    pub settings_delim: &'static str,
    pub settings_key_value_delim: &'static str,
    pub global_settings_prefix: ReadWriteValue,
    /// How the grouping of all cards is written.
    pub groupings_all: &'static str,
}

impl Default for NoteSettingsKeys {
    fn default() -> (r: Self)
        ensures
            r.settings_delim@ == seq![';'],
            r.settings_key_value_delim@ == seq![':'],
            r.groupings_all@ == seq!['*'],
            spec_write(r.note_id)@ == "note-id"@,
            spec_write(r.action)@ == "action"@,
            spec_write(r.action_add)@ == "add"@,
            spec_write(r.custom_data)@ == "custom-data"@,
            r.note_id == ReadWriteValue::Same("note-id"),
            r.action == ReadWriteValue::Same("action"),
            r.action_add == ReadWriteValue::Same("add"),
            r.action_update == ReadWriteValue::Same("update"),
            r.action_delete == ReadWriteValue::Same("delete"),
            r.is_suspended == ReadWriteValue::Same("is-suspended"),
            r.front_conceal == ReadWriteValue::Same("front-conceal"),
            r.back_reveal == ReadWriteValue::Same("back-reveal"),
            r.custom_data == ReadWriteValue::Same("custom-data"),
            r.global_settings_prefix == ReadWriteValue::Same("g-"),
            r.tags matches ReadWriteValue::Different { read, write } && read@ == seq!["tags", "t"] && write
                == "tags",
            r.keywords matches ReadWriteValue::Different { read, write } && read@ == seq!["keywords", "k"]
                && write == "keywords",
    {
        proof {
            reveal_strlit(";");
            reveal_strlit(":");
            reveal_strlit("*");
        }
        Self {
            note_id: ReadWriteValue::Same("note-id"),
            action: ReadWriteValue::Same("action"),
            action_add: ReadWriteValue::Same("add"),
            action_update: ReadWriteValue::Same("update"),
            action_delete: ReadWriteValue::Same("delete"),
            tags: ReadWriteValue::Different { read: vec!["tags", "t"], write: "tags" },
            keywords: ReadWriteValue::Different { read: vec!["keywords", "k"], write: "keywords" },
            is_suspended: ReadWriteValue::Same("is-suspended"),
            front_conceal: ReadWriteValue::Same("front-conceal"),
            back_reveal: ReadWriteValue::Same("back-reveal"),
            custom_data: ReadWriteValue::Same("custom-data"),
            settings_delim: ";",
            settings_key_value_delim: ":",
            global_settings_prefix: ReadWriteValue::Same("g-"),
            groupings_all: "*",
        }
    }
}

/// The keys of cloze settings.
#[derive(Clone, Debug)]
pub struct ClozeSettingsKeys {
    pub orders: &'static str,
    pub grouping: &'static str,
    /// Also create the complement card: what was a cloze becomes text and the other way round.
    pub include_reverse: &'static str,
    pub reverse_only: &'static str,
    pub is_suspended: &'static str,
    pub hint: &'static str,
    pub hidden_no_answer: &'static str,
    pub front_conceal: &'static str,
    pub back_reveal: &'static str,
    /// Marks the cloze as an item of an overlapping sequence.
    pub overlapper: &'static str,
}

impl Default for ClozeSettingsKeys {
    fn default() -> (r: Self)
        ensures
            r.orders@ == seq!['o'],
            r.grouping@ == seq!['g'],
            r.include_reverse@ == seq!['r'],
            r.reverse_only@ == seq!['r', 'o'],
            r.is_suspended@ == seq!['s'],
            r.hint@ == seq!['h'],
            r.hidden_no_answer@ == seq!['h', 'i', 'd', 'e'],
            r.front_conceal@ == seq!['f'],
            r.back_reveal@ == seq!['b'],
            r.overlapper@ == seq!['o', 'v'],
    {
        proof {
            reveal_strlit("o");
            reveal_strlit("g");
            reveal_strlit("r");
            reveal_strlit("ro");
            reveal_strlit("s");
            reveal_strlit("h");
            reveal_strlit("hide");
            reveal_strlit("f");
            reveal_strlit("b");
            reveal_strlit("ov");
        }
        Self {
            orders: "o",
            grouping: "g",
            include_reverse: "r",
            reverse_only: "ro",
            is_suspended: "s",
            hint: "h",
            hidden_no_answer: "hide",
            front_conceal: "f",
            back_reveal: "b",
            overlapper: "ov",
        }
    }
}

/// A match of some syntax in a note, with the part of it that a pattern captured.
#[derive(Clone, Debug, PartialEq)]
pub struct RegexMatch {
    pub match_range: Range<usize>,
    pub capture_range: Range<usize>,
}

/// What importing a note does.
#[derive(Clone, Copy, Debug, PartialEq, Eq)]
pub enum NoteImportAction {
    Add,
    Update(NoteId),
    Delete(NoteId),
}

impl Default for NoteImportAction {
    fn default() -> (r: Self)
        ensures
            r == NoteImportAction::Add,
    {
        NoteImportAction::Add
    }
}

} // verus!
