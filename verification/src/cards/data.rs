use crate::clozes::{BackReveal, BackType, ClozeGrouping, FrontConceal, ReadableCardIdentifier};
use crate::image_occlusion::ImageOcclusionData;
use vstd::prelude::*;

verus! {

/// How a cloze is shown when it is hidden on a card.
#[derive(Clone, Debug, PartialEq)]
pub enum ClozeHiddenReplacement {
    ToAnswer { hint: Option<String> },
    NotToAnswer,
}

/// One piece of the text of a card.
#[derive(Clone, Debug, PartialEq)]
pub enum NotePart {
    SurroundingData(String),
    ClozeData(String, ClozeHiddenReplacement),
    ClozeStart(String),
    ClozeEnd(String),
    /// An image with its cloze shapes; each rendered shape with how it is hidden.
    ImageOcclusion { cloze_indices: Vec<(usize, ClozeHiddenReplacement)>, data: ImageOcclusionData },
}

/// One card of a note: its order among the note's cards (and the order it had before an
/// edit), its grouping and settings, and its text split into parts.
#[derive(Clone, Debug, PartialEq)]
pub struct CardData {
    pub order: Option<usize>,
    pub previous_order: Option<usize>,
    pub grouping: ClozeGrouping,
    pub is_suspended: Option<bool>,
    pub front_conceal: FrontConceal,
    pub back_reveal: BackReveal,
    pub back_emphasis: bool,
    pub back_type: BackType,
    pub inherit: Option<ReadableCardIdentifier>,
    pub data: Vec<NotePart>,
}

/// Whether the parts before index `i` leave us inside a cloze: the last `ClozeStart` or
/// `ClozeEnd` before `i` is a `ClozeStart`.
pub open spec fn inside_cloze_before(parts: Seq<NotePart>, i: int) -> bool
    decreases i,
{
    if i <= 0 {
        false
    } else {
        match parts[i - 1] {
            NotePart::ClozeStart(_) => true,
            NotePart::ClozeEnd(_) => false,
            _ => inside_cloze_before(parts, i - 1),
        }
    }
}

/// A card is a reverse card when some cloze text lies outside every cloze delimiter pair.
pub open spec fn spec_is_reverse(parts: Seq<NotePart>) -> bool {
    exists|i: int| 0 <= i < parts.len() && (#[trigger] parts[i]) is ClozeData
        && !inside_cloze_before(parts, i)
}

pub fn is_reverse_parts(parts: &Vec<NotePart>) -> (r: bool)
    ensures
        r == spec_is_reverse(parts@),
{
    let mut in_cloze = false;
    let mut i: usize = 0;
    while i < parts.len()
        invariant
            0 <= i <= parts.len(),
            in_cloze == inside_cloze_before(parts@, i as int),
            forall|j: int| 0 <= j < i ==> !((#[trigger] parts@[j]) is ClozeData && !inside_cloze_before(parts@, j)),
        decreases parts.len() - i,
    {
        match &parts[i] {
            NotePart::ClozeStart(_) => { in_cloze = true; },
            NotePart::ClozeEnd(_) => { in_cloze = false; },
            NotePart::ClozeData(_, _) => {
                if !in_cloze {
                    return true;
                }
            },
            _ => {},
        }
        i += 1;
    }
    false
}

impl CardData {
    /// Whether this card is a reverse card (made with `ro:`, or the backward card of `r:`):
    /// some cloze text stands outside the cloze delimiters, where a forward card only has
    /// surrounding text.
    pub fn is_reverse(&self) -> (r: bool)
        ensures
            r == spec_is_reverse(self.data@),
    {
        is_reverse_parts(&self.data)
    }
}

} // verus!
