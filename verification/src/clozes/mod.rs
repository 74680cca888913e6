//! Clozes: the hidden parts of a note, how they are grouped into cards, and the settings
//! string attached to each of them.

use crate::image_occlusion::ImageOcclusionCloze;
use std::ops::Range;
use vstd::prelude::*;

pub mod construct;
pub mod keys;
pub mod pairs;
pub mod parse;

verus! {

/// Whether the answered clozes are emphasized on the back of a card by default.
pub const DEFAULT_BACK_EMPHASIS: bool = false;

/// The identifier of a note.
pub type NoteId = i64;

/// Where a cloze's settings string is written: on its start or on its end delimiter.
#[derive(Clone, Copy, Debug, PartialEq, Eq)]
pub enum ClozeSettingsSide {
    Start,
    End,
}

/// A card of some note, named by the note's id and the card's order in it.
#[derive(Clone, Copy, Debug, PartialEq, Eq)]
pub struct ReadableCardIdentifier {
    pub note_id: NoteId,
    pub order: usize,
}

/// Which clozes are concealed on the front of a card.
#[derive(Clone, Copy, Debug, PartialEq, Eq, Hash)]
pub enum FrontConceal {
    OnlyGrouping,
    AllGroupings,
}

impl Default for FrontConceal {
    fn default() -> (r: Self)
        ensures
            r == FrontConceal::OnlyGrouping,
    {
        FrontConceal::OnlyGrouping
    }
}

impl FrontConceal {
    pub fn image_occlusion_default() -> (r: Self)
        ensures
            r == FrontConceal::AllGroupings,
    {
        FrontConceal::AllGroupings
    }
}

/// What is revealed on the back of a card.
#[derive(Clone, Copy, Debug, PartialEq, Eq, Hash)]
pub enum BackReveal {
    FullNote,
    OnlyAnswered,
}

impl Default for BackReveal {
    fn default() -> (r: Self)
        ensures
            r == BackReveal::FullNote,
    {
        BackReveal::FullNote
    }
}

impl BackReveal {
    pub fn image_occlusion_default() -> (r: Self)
        ensures
            r == BackReveal::OnlyAnswered,
    {
        BackReveal::OnlyAnswered
    }
}

/// Which file is shown as the back of a card.
#[derive(Clone, Copy, Debug, PartialEq, Eq, Hash)]
pub enum BackType {
    NoteFilePath,
    CardFilePath,
}

impl Default for BackType {
    fn default() -> (r: Self)
        ensures
            r == BackType::NoteFilePath,
    {
        BackType::NoteFilePath
    }
}

pub open spec fn spec_back_type(back_reveal: BackReveal, groupings_count: int, emphasis: bool) -> BackType {
    if emphasis {
        BackType::CardFilePath
    } else {
        match back_reveal {
            BackReveal::FullNote => BackType::NoteFilePath,
            BackReveal::OnlyAnswered => if groupings_count == 1 {
                BackType::NoteFilePath
            } else {
                BackType::CardFilePath
            },
        }
    }
}

/// A card's back can be the note file only where that file shows no more than the back
/// should: without emphasis, and where the whole note is revealed or the note has a single
/// grouping. Revealing only the answered clozes of a note with several groupings, or
/// emphasizing the answers, takes a back file of the card's own.
pub proof fn lemma_back_file_shows_only_what_the_back_reveals(back_reveal: BackReveal, groupings_count: int, emphasis: bool)
    ensures
        spec_back_type(back_reveal, groupings_count, emphasis) == BackType::NoteFilePath <==> !emphasis && (back_reveal
            == BackReveal::FullNote || groupings_count == 1),
        spec_back_type(back_reveal, groupings_count, emphasis) == BackType::CardFilePath <==> emphasis || (back_reveal
            == BackReveal::OnlyAnswered && groupings_count != 1),
{
}

impl BackType {
    /// A card needs its own back file when the answers are emphasized, or when only the
    /// answered clozes are revealed and the note has more than one grouping.
    pub fn from_back_reveal(back_reveal: &BackReveal, groupings_count: usize, emphasis: bool) -> (r: Self)
        ensures
            r == spec_back_type(*back_reveal, groupings_count as int, emphasis),
            r == BackType::NoteFilePath <==> !emphasis && (*back_reveal == BackReveal::FullNote || groupings_count == 1),
            r == BackType::CardFilePath <==> emphasis || (*back_reveal == BackReveal::OnlyAnswered && groupings_count != 1),
    {
        if emphasis {
            return BackType::CardFilePath;
        }
        match back_reveal {
            BackReveal::FullNote => BackType::NoteFilePath,
            BackReveal::OnlyAnswered => {
                if groupings_count == 1 {
                    BackType::NoteFilePath
                } else {
                    BackType::CardFilePath
                }
            },
        }
    }
}

/// The card a cloze belongs to: all cards, an automatically numbered card of its own,
/// or a named group shared with other clozes.
#[derive(Clone, Debug, PartialEq, Eq, Hash)]
pub enum ClozeGrouping {
    All,
    Auto(u32),
    Custom(String),
}

impl ClozeGrouping {
    /// The next automatic grouping; the counter moves on by one.
    pub fn default(current_grouping_number: &mut u32) -> (r: Self)
        requires
            *old(current_grouping_number) < u32::MAX,
        ensures
            r == ClozeGrouping::Auto(*old(current_grouping_number)),
            *final(current_grouping_number) == *old(current_grouping_number) + 1,
    {
        let result = ClozeGrouping::Auto(*current_grouping_number);
        *current_grouping_number += 1;
        result
    }

    /// The grouping as written in a settings string: `groupings_all` for all cards,
    /// nothing for an automatic grouping, and the name of a named one.
    pub fn to_parser_string(&self, groupings_all: &str) -> (r: String)
        ensures
            r@ == match self {
                ClozeGrouping::All => groupings_all@,
                ClozeGrouping::Auto(_) => Seq::<char>::empty(),
                ClozeGrouping::Custom(g) => g@,
            },
    {
        match self {
            ClozeGrouping::All => groupings_all.to_string(),
            ClozeGrouping::Auto(_) => String::new(),
            ClozeGrouping::Custom(group) => group.clone(),
        }
    }
}

/// The settings of a cloze for one of the cards (groupings) it belongs to.
#[derive(Clone, Debug, PartialEq)]
pub struct ClozeGroupingSettings {
    /// The card this cloze belongs to.
    pub grouping: ClozeGrouping,
    /// When the card produced by this cloze is newly created, copy the scheduling fields
    /// from this card. Never serialized.
    pub inherit: Option<ReadableCardIdentifier>,
    /// The order of the cards created from this cloze, written on the first cloze of a card.
    pub orders: Option<Vec<usize>>,
    pub include_forward_card: bool,
    pub include_backward_card: bool,
    /// `s:` is `Some(true)`, `s:n` is `Some(false)`, absent is `None` (leave unchanged).
    pub is_suspended: Option<bool>,
    /// Hidden on the card, but not required to answer.
    pub hidden_no_answer: bool,
    pub front_conceal: FrontConceal,
    pub back_reveal: BackReveal,
    /// Whether the clozes that should be answered are emphasized on the back of the card.
    pub back_emphasis: bool,
    /// Internal: this grouping is not written back into the cloze settings string.
    pub skip_serialization: bool,
}

/// Defaults that replace the front conceal, back reveal and back emphasis of new settings.
pub type ModifyDefaultsFn = Option<(FrontConceal, BackReveal, bool)>;

/// Settings with the default values, for the given grouping.
pub open spec fn default_settings_of(grouping: ClozeGrouping, modify: ModifyDefaultsFn) -> ClozeGroupingSettings {
    ClozeGroupingSettings {
        grouping,
        inherit: None,
        orders: None,
        include_forward_card: true,
        include_backward_card: false,
        is_suspended: None,
        hidden_no_answer: false,
        front_conceal: match modify {
            Some(m) => m.0,
            None => FrontConceal::OnlyGrouping,
        },
        back_reveal: match modify {
            Some(m) => m.1,
            None => BackReveal::FullNote,
        },
        back_emphasis: match modify {
            Some(m) => m.2,
            None => DEFAULT_BACK_EMPHASIS,
        },
        skip_serialization: false,
    }
}

impl ClozeGroupingSettings {
    pub fn default_from_grouping(grouping: ClozeGrouping, modify_defaults_fn: ModifyDefaultsFn) -> (r: Self)
        ensures
            r == default_settings_of(grouping, modify_defaults_fn),
    {
        let mut result = Self {
            grouping,
            inherit: None,
            orders: None,
            include_forward_card: true,
            include_backward_card: false,
            is_suspended: None,
            hidden_no_answer: false,
            front_conceal: FrontConceal::OnlyGrouping,
            back_reveal: BackReveal::FullNote,
            back_emphasis: DEFAULT_BACK_EMPHASIS,
            skip_serialization: false,
        };
        if let Some((front_conceal, back_reveal, back_emphasis)) = modify_defaults_fn {
            result.front_conceal = front_conceal;
            result.back_reveal = back_reveal;
            result.back_emphasis = back_emphasis;
        }
        result
    }

    /// Default settings for the next automatic grouping.
    pub fn default(current_grouping_number: &mut u32, modify_defaults_fn: ModifyDefaultsFn) -> (r: Self)
        requires
            *old(current_grouping_number) < u32::MAX,
        ensures
            r == default_settings_of(ClozeGrouping::Auto(*old(current_grouping_number)), modify_defaults_fn),
            *final(current_grouping_number) == *old(current_grouping_number) + 1,
    {
        ClozeGroupingSettings::default_from_grouping(
            ClozeGrouping::default(current_grouping_number),
            modify_defaults_fn,
        )
    }
}

/// The settings of a cloze that hold for all of its groupings.
#[derive(Clone, Debug, PartialEq)]
pub struct ClozeSettings {
    pub hint: Option<String>,
    /// Whether the cloze belongs to all groupings.
    pub all_groupings: bool,
    /// Whether the cloze is an item of an overlapping sequence.
    pub is_overlapper: bool,
}

impl Default for ClozeSettings {
    fn default() -> (r: Self)
        ensures
            r.hint is None,
            !r.all_groupings,
            !r.is_overlapper,
    {
        ClozeSettings { hint: None, all_groupings: false, is_overlapper: false }
    }
}

/// A cloze of a note: its position among the clozes, its delimiters (byte ranges of the
/// note), the settings shared by its groupings, and the image occlusion it stands for, if any.
#[derive(Clone, Debug, PartialEq)]
pub struct ClozeData {
    /// Original order the cloze appeared in the note.
    pub index: usize,
    pub start_delim: Range<usize>,
    pub end_delim: Range<usize>,
    pub settings: ClozeSettings,
    pub image_occlusion: Option<ImageOcclusionCloze>,
}

/// Where a cloze was found: its start and end delimiters, and its settings string
/// (inside one of the two).
#[derive(Clone, Debug, PartialEq)]
pub struct ClozeMatch {
    pub start_match: Range<usize>,
    pub end_match: Range<usize>,
    pub settings_match: Range<usize>,
}

} // verus!
