use spares::fsrs::{number_to_rating, number_to_state, rating_to_number, state_to_number, Rating, State};

#[test]
fn ratings_round_trip_through_their_numbers() {
    for r in [Rating::Again, Rating::Hard, Rating::Good, Rating::Easy] {
        assert_eq!(number_to_rating(rating_to_number(r)), Some(r));
    }
    assert_eq!(rating_to_number(Rating::Again), 1);
    assert_eq!(rating_to_number(Rating::Easy), 4);
    assert_eq!(number_to_rating(0), None);
    assert_eq!(number_to_rating(5), None);
}

#[test]
fn states_round_trip_through_their_numbers() {
    for s in [State::New, State::Learning, State::Review, State::Relearning] {
        assert_eq!(number_to_state(state_to_number(s)), Some(s));
    }
    assert_eq!(state_to_number(State::New), 0);
    assert_eq!(state_to_number(State::Relearning), 3);
    assert_eq!(number_to_state(-1), None);
    assert_eq!(number_to_state(4), None);
}

#[test]
fn ratings_offered_with_numbers_and_names() {
    let ratings = spares::fsrs::get_ratings();
    let seen: Vec<(i64, String)> = ratings.into_iter().map(|r| (r.id, r.description)).collect();
    assert_eq!(
        seen,
        vec![
            (1, "Again".to_string()),
            (2, "Hard".to_string()),
            (3, "Good".to_string()),
            (4, "Easy".to_string())
        ]
    );
}
