//! The ratings and card states of the FSRS scheduler, and the numbers they are stored as.

use crate::error::{LibraryError, SchedulerErrorKind};
use crate::model::{RatingId, StateId};
use vstd::prelude::*;

verus! {

/// Moving due cards: reviewing them ahead of time, or putting their review off.
#[derive(Clone, Copy, Debug, PartialEq, Eq)]
pub enum MoveCardAction {
    Advance,
    Postpone,
}

/// How well a card was recalled.
#[derive(Clone, Copy, Debug, PartialEq, Eq)]
pub enum Rating {
    Again,
    Hard,
    Good,
    Easy,
}

/// Where a card is in its learning.
#[derive(Clone, Copy, Debug, PartialEq, Eq)]
pub enum State {
    New,
    Learning,
    Review,
    Relearning,
}

/// The number a rating is stored as: 1 to 4, from again to easy.
pub open spec fn rating_number(r: Rating) -> RatingId {
    match r {
        Rating::Again => 1,
        Rating::Hard => 2,
        Rating::Good => 3,
        Rating::Easy => 4,
    }
}

/// The number a state is stored as: 0 to 3, from new to relearning.
pub open spec fn state_number(s: State) -> StateId {
    match s {
        State::New => 0,
        State::Learning => 1,
        State::Review => 2,
        State::Relearning => 3,
    }
}

/// The rating stored as `num`, if any.
pub fn number_to_rating(num: RatingId) -> (r: Option<Rating>)
    ensures
        match r {
            Some(rating) => rating_number(rating) == num,
            None => !(1 <= num <= 4),
        },
{
    match num {
        1 => Some(Rating::Again),
        2 => Some(Rating::Hard),
        3 => Some(Rating::Good),
        4 => Some(Rating::Easy),
        _ => None,
    }
}

pub fn rating_to_number(rating: Rating) -> (r: RatingId)
    ensures
        r == rating_number(rating),
{
    match rating {
        Rating::Again => 1,
        Rating::Hard => 2,
        Rating::Good => 3,
        Rating::Easy => 4,
    }
}

/// The state stored as `num`, if any.
pub fn number_to_state(num: StateId) -> (r: Option<State>)
    ensures
        match r {
            Some(state) => state_number(state) == num,
            None => !(0 <= num <= 3),
        },
{
    match num {
        0 => Some(State::New),
        1 => Some(State::Learning),
        2 => Some(State::Review),
        3 => Some(State::Relearning),
        _ => None,
    }
}

pub fn state_to_number(state: State) -> (r: StateId)
    ensures
        r == state_number(state),
{
    match state {
        State::New => 0,
        State::Learning => 1,
        State::Review => 2,
        State::Relearning => 3,
    }
}

/// A rating and a state are stored as distinct numbers: reading back a stored number gives
/// what was stored.
pub proof fn lemma_numbers_identify(r1: Rating, r2: Rating, s1: State, s2: State)
    ensures
        rating_number(r1) == rating_number(r2) ==> r1 == r2,
        state_number(s1) == state_number(s2) ==> s1 == s2,
{
}

/// The ratings of `rs_fsrs`, as `rs_fsrs::Rating::iter` lists them: again, hard, good and
/// easy.
#[verifier::external_body]
fn fsrs_ratings() -> (r: Vec<Rating>)
    ensures
        r@ == seq![Rating::Again, Rating::Hard, Rating::Good, Rating::Easy],
{
    rs_fsrs::Rating::iter()
        .map(|r| match r {
            rs_fsrs::Rating::Again => Rating::Again,
            rs_fsrs::Rating::Hard => Rating::Hard,
            rs_fsrs::Rating::Good => Rating::Good,
            rs_fsrs::Rating::Easy => Rating::Easy,
        })
        .collect()
}

/// The name of a rating, as its `Debug` form writes it.
pub open spec fn rating_name(r: Rating) -> Seq<char> {
    match r {
        Rating::Again => "Again"@,
        Rating::Hard => "Hard"@,
        Rating::Good => "Good"@,
        Rating::Easy => "Easy"@,
    }
}

fn rating_name_exec(r: Rating) -> (s: String)
    ensures
        s@ == rating_name(r),
{
    match r {
        Rating::Again => String::from_str("Again"),
        Rating::Hard => String::from_str("Hard"),
        Rating::Good => String::from_str("Good"),
        Rating::Easy => String::from_str("Easy"),
    }
}

/// The ratings the scheduler offers, in the order of `rs_fsrs`: each with its number and
/// name.
pub fn get_ratings() -> (r: Vec<crate::schema::Rating>)
    ensures
        r.len() == 4,
        forall|i: int|
            0 <= i < 4 ==> {
                let rating = seq![Rating::Again, Rating::Hard, Rating::Good, Rating::Easy][i];
                &&& (#[trigger] r@[i]).id == rating_number(rating)
                &&& r@[i].description@ == rating_name(rating)
            },
{
    let all = fsrs_ratings();
    let mut out: Vec<crate::schema::Rating> = Vec::new();
    let mut i: usize = 0;
    while i < all.len()
        invariant
            0 <= i <= all.len(),
            all@ == seq![Rating::Again, Rating::Hard, Rating::Good, Rating::Easy],
            out.len() == i,
            forall|j: int|
                0 <= j < i ==> (#[trigger] out@[j]).id == rating_number(all@[j]) && out@[j].description@
                    == rating_name(all@[j]),
        decreases all.len() - i,
    {
        let r = all[i];
        out.push(crate::schema::Rating { id: rating_to_number(r), description: rating_name_exec(r) });
        i += 1;
    }
    out
}

/// What the scheduler keeps with a card under a filtered tag: the count of Good ratings in
/// a row under the key `good`, when the data holds one as an unsigned integer.
#[derive(Clone, Copy, Debug, PartialEq, Eq)]
pub struct FilteredTagData {
    pub good: Option<u64>,
}

/// The count of Good ratings in a row that the data holds; none counts as zero.
pub open spec fn good_count(data: Option<&FilteredTagData>) -> int {
    match data {
        Some(d) => match d.good {
            Some(n) => n as int,
            None => 0,
        },
        None => 0,
    }
}

/// How many Good ratings in a row take a card out of a filtered tag.
pub open spec fn good_threshold() -> int {
    2
}

/// The data kept after a rating under a filtered tag, or `None` when the card leaves the
/// filtered tag: Again or Hard start the count again, Easy takes the card out, and Good
/// counts one more, taking the card out once the count reaches the threshold. A number that
/// is no rating is refused.
pub fn filtered_tag_schedule(data: Option<&FilteredTagData>, rating: RatingId) -> (r: Result<
    Option<FilteredTagData>,
    LibraryError,
>)
    requires
        rating == 3 ==> good_count(data) < u64::MAX,
    ensures
        !(1 <= rating <= 4) ==> r == Err::<Option<FilteredTagData>, LibraryError>(
            LibraryError::Scheduler(SchedulerErrorKind::InvalidRating(rating)),
        ),
        rating == 1 || rating == 2 ==> r == Ok::<Option<FilteredTagData>, LibraryError>(
            Some(FilteredTagData { good: None }),
        ),
        rating == 3 && good_count(data) + 1 >= good_threshold() ==> r == Ok::<
            Option<FilteredTagData>,
            LibraryError,
        >(None),
        rating == 3 && good_count(data) + 1 < good_threshold() ==> r == Ok::<Option<FilteredTagData>, LibraryError>(
            Some(FilteredTagData { good: Some((good_count(data) + 1) as u64) }),
        ),
        rating == 4 ==> r == Ok::<Option<FilteredTagData>, LibraryError>(None),
{
    let good_threshold: u64 = 2;
    let rating_kind = match number_to_rating(rating) {
        Some(k) => k,
        None => {
            return Err(LibraryError::Scheduler(SchedulerErrorKind::InvalidRating(rating)));
        },
    };
    match rating_kind {
        Rating::Again | Rating::Hard => Ok(Some(FilteredTagData { good: None })),
        Rating::Good => {
            let current_good_count: u64 = match data {
                Some(d) => match d.good {
                    Some(n) => n,
                    None => 0,
                },
                None => 0,
            };
            if current_good_count + 1 >= good_threshold {
                return Ok(None);
            }
            Ok(Some(FilteredTagData { good: Some(current_good_count + 1) }))
        },
        Rating::Easy => Ok(None),
    }
}

} // verus!
