use spares::cards::match_cards::{match_cards, MatchCardsResult};
use spares::error::{CardErrorKind, LibraryError};

#[test]
fn test_match_cards_basic() {
    let old_cards = vec![Some(1), Some(2), Some(3)];
    let new_cards = vec![Some(1), Some(2), Some(3)];
    let match_cards_res = match_cards(&old_cards, &new_cards);
    assert!(match_cards_res.is_ok());
    if let Ok(MatchCardsResult { move_card_indices, delete_card_indices, create_card_indices }) = match_cards_res {
        assert!(move_card_indices.is_empty());
        assert!(delete_card_indices.is_empty());
        assert!(create_card_indices.is_empty());
    }
}

#[test]
fn test_match_cards_advanced() {
    let old_cards = vec![Some(1), Some(2), Some(3), Some(4)];
    let new_cards = vec![Some(1), Some(3), None, None, None, Some(2)];
    let match_cards_res = match_cards(&old_cards, &new_cards);
    assert!(match_cards_res.is_ok());
    if let Ok(MatchCardsResult { move_card_indices, delete_card_indices, create_card_indices }) = match_cards_res {
        assert_eq!(move_card_indices, vec![(3, 2), (2, 6)]);
        assert_eq!(delete_card_indices, vec![4]);
        assert_eq!(create_card_indices, vec![3, 4, 5]);
    }
}

#[test]
fn test_match_cards_invalid_1() {
    let old_cards = vec![Some(1), Some(2)];
    let new_cards = vec![Some(1), Some(3)];
    let match_cards_res = match_cards(&old_cards, &new_cards);
    assert!(match_cards_res.is_err());
}

#[test]
fn test_match_cards_invalid_2() {
    let old_cards = vec![Some(1), None];
    let new_cards = vec![Some(1), Some(2)];
    let match_cards_res = match_cards(&old_cards, &new_cards);
    assert!(match_cards_res.is_err());
}

#[test]
fn test_match_cards_invalid_3() {
    let old_cards = vec![Some(1), Some(3)];
    let new_cards = vec![Some(1), Some(2)];
    let match_cards_res = match_cards(&old_cards, &new_cards);
    assert!(match_cards_res.is_err());
}

#[test]
fn test_match_cards_swap() {
    let old_cards = vec![Some(1), Some(2)];
    let new_cards = vec![Some(2), Some(1)];
    let match_cards_res = match_cards(&old_cards, &new_cards);
    assert!(match_cards_res.is_ok());
    if let Ok(MatchCardsResult { move_card_indices, delete_card_indices, create_card_indices }) = match_cards_res {
        assert_eq!(move_card_indices, vec![(2, 1), (1, 2)]);
        assert!(delete_card_indices.is_empty());
        assert!(create_card_indices.is_empty());
    }
}

fn invalid_message(r: Result<MatchCardsResult, LibraryError>) -> String {
    match r {
        Err(LibraryError::Card(CardErrorKind::InvalidInput(s))) => s,
        _ => panic!("expected an invalid-input error"),
    }
}

#[test]
fn match_cards_reports_missing_order() {
    let msg = invalid_message(match_cards(&[Some(1), None, Some(3)], &[Some(1)]));
    assert_eq!(msg, "Current cards do not all contain order. Current data is incorrect. Found `1, 3`");
}

#[test]
fn match_cards_reports_unsequential_orders() {
    let msg = invalid_message(match_cards(&[Some(1), Some(3)], &[Some(1)]));
    assert_eq!(
        msg,
        "Current cards do not all contain their expected order. Current data is incorrect. Found orders `1, 3` when expecting sequential orders `1, 2`"
    );
}

#[test]
fn match_cards_reports_order_out_of_range() {
    let msg = invalid_message(match_cards(&[Some(1), Some(2)], &[Some(1), None, Some(3)]));
    assert_eq!(
        msg,
        "New cards do not all contain a valid order. They must all be within the range [1, 2] (inclusive), but the new cards have order `1, 3`."
    );
}

#[test]
fn match_cards_deletes_every_absent_card_in_ascending_order() {
    let r = match_cards(&[Some(1), Some(2), Some(3), Some(4)], &[Some(3), None]).unwrap();
    assert_eq!(r.move_card_indices, vec![(3, 1)]);
    assert_eq!(r.create_card_indices, vec![2]);
    assert_eq!(r.delete_card_indices, vec![1, 2, 4]);
}

#[test]
fn match_cards_on_itself_changes_nothing() {
    let cards: Vec<Option<usize>> = (1..=6).map(Some).collect();
    let r = match_cards(&cards, &cards).unwrap();
    assert!(r.move_card_indices.is_empty());
    assert!(r.create_card_indices.is_empty());
    assert!(r.delete_card_indices.is_empty());
}

#[test]
fn match_cards_of_an_empty_note() {
    let r = match_cards(&[], &[None, None]).unwrap();
    assert!(r.move_card_indices.is_empty());
    assert_eq!(r.create_card_indices, vec![1, 2]);
    assert!(r.delete_card_indices.is_empty());
}

#[test]
fn deleted_cards_are_the_orders_no_new_card_carries_once_each() {
    let old = vec![Some(1), Some(2), Some(3), Some(4), Some(5)];
    let new = vec![Some(4), None, Some(2), Some(4)];
    let r = spares::cards::match_cards::match_cards(&old, &new).unwrap();
    assert_eq!(r.delete_card_indices, vec![1, 3, 5]);
}
