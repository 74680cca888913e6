//! The checks every card of a note must pass.

use crate::cards::data::{CardData, NotePart};
use crate::error::{CardErrorKind, LibraryError};
use vstd::prelude::*;

verus! {

/// The card shows some text around its clozes.
pub open spec fn has_surrounding(parts: Seq<NotePart>) -> bool {
    exists|i: int| 0 <= i < parts.len() && (#[trigger] parts[i]) is SurroundingData
}

/// The card asks something: a cloze or an image occlusion.
pub open spec fn has_question(parts: Seq<NotePart>) -> bool {
    exists|i: int| 0 <= i < parts.len() && ((#[trigger] parts[i]) is ClozeData || parts[i] is ImageOcclusion)
}

fn card_has_surrounding(parts: &Vec<NotePart>) -> (r: bool)
    ensures
        r == has_surrounding(parts@),
{
    let mut i: usize = 0;
    while i < parts.len()
        invariant
            0 <= i <= parts.len(),
            forall|j: int| 0 <= j < i ==> !((#[trigger] parts@[j]) is SurroundingData),
        decreases parts.len() - i,
    {
        if let NotePart::SurroundingData(_) = &parts[i] {
            return true;
        }
        i += 1;
    }
    false
}

fn card_has_question(parts: &Vec<NotePart>) -> (r: bool)
    ensures
        r == has_question(parts@),
{
    let mut i: usize = 0;
    while i < parts.len()
        invariant
            0 <= i <= parts.len(),
            forall|j: int| 0 <= j < i ==> !((#[trigger] parts@[j]) is ClozeData || parts@[j] is ImageOcclusion),
        decreases parts.len() - i,
    {
        match &parts[i] {
            NotePart::ClozeData(_, _) => {
                return true;
            },
            NotePart::ImageOcclusion { .. } => {
                return true;
            },
            _ => {},
        }
        i += 1;
    }
    false
}

/// Checks the cards of a note: no card is empty; then every card has surrounding text;
/// then every card has a cloze or an image occlusion. The first check that some card fails
/// gives the error.
pub fn validate_cards(cards: &[CardData]) -> (r: Result<(), LibraryError>)
    ensures
        if exists|i: int| 0 <= i < cards@.len() && (#[trigger] cards@[i]).data@.len() == 0 {
            r == Err::<(), LibraryError>(LibraryError::Card(CardErrorKind::Empty))
        } else if exists|i: int| 0 <= i < cards@.len() && !has_surrounding((#[trigger] cards@[i]).data@) {
            r matches Err(LibraryError::Card(CardErrorKind::MissingField(f))) && f@ == "Surrounding data"@
        } else if exists|i: int| 0 <= i < cards@.len() && !has_question((#[trigger] cards@[i]).data@) {
            r matches Err(LibraryError::Card(CardErrorKind::MissingField(f))) && f@ == "Cloze or Image Occlusion"@
        } else {
            r is Ok
        },
{
    let mut i: usize = 0;
    while i < cards.len()
        invariant
            0 <= i <= cards.len(),
            forall|j: int| 0 <= j < i ==> (#[trigger] cards@[j]).data@.len() != 0,
        decreases cards.len() - i,
    {
        if cards[i].data.len() == 0 {
            return Err(LibraryError::Card(CardErrorKind::Empty));
        }
        i += 1;
    }
    let mut i: usize = 0;
    while i < cards.len()
        invariant
            0 <= i <= cards.len(),
            forall|j: int| 0 <= j < cards.len() ==> (#[trigger] cards@[j]).data@.len() != 0,
            forall|j: int| 0 <= j < i ==> has_surrounding((#[trigger] cards@[j]).data@),
        decreases cards.len() - i,
    {
        if !card_has_surrounding(&cards[i].data) {
            return Err(LibraryError::Card(CardErrorKind::MissingField(String::from_str("Surrounding data"))));
        }
        i += 1;
    }
    let mut i: usize = 0;
    while i < cards.len()
        invariant
            0 <= i <= cards.len(),
            forall|j: int| 0 <= j < cards.len() ==> (#[trigger] cards@[j]).data@.len() != 0,
            forall|j: int| 0 <= j < cards.len() ==> has_surrounding((#[trigger] cards@[j]).data@),
            forall|j: int| 0 <= j < i ==> has_question((#[trigger] cards@[j]).data@),
        decreases cards.len() - i,
    {
        if !card_has_question(&cards[i].data) {
            return Err(LibraryError::Card(CardErrorKind::MissingField(String::from_str("Cloze or Image Occlusion"))));
        }
        i += 1;
    }
    Ok(())
}

} // verus!
