use spares::error::{LibraryError, SchedulerErrorKind};
use spares::fsrs::{filtered_tag_schedule, FilteredTagData};
use spares::schedulers::{get_all_schedulers, get_scheduler_from_string, stepped_range_inclusive, SchedulerKind};

#[test]
fn stepped_range_stops_before_passing_the_end() {
    assert_eq!(stepped_range_inclusive(0, 10, 3), vec![0, 3, 6, 9]);
}

#[test]
fn stepped_range_includes_an_end_it_lands_on() {
    assert_eq!(stepped_range_inclusive(0, 9, 3), vec![0, 3, 6, 9]);
    assert_eq!(stepped_range_inclusive(2, 2, 5), vec![2]);
}

#[test]
fn stepped_range_is_empty_when_the_start_is_past_the_end() {
    assert_eq!(stepped_range_inclusive(5, 4, 1), Vec::<i128>::new());
    assert_eq!(stepped_range_inclusive(5, 4, -1), Vec::<i128>::new());
}

#[test]
fn stepped_range_of_days_in_nanoseconds() {
    let day: i128 = 86_400_000_000_000;
    assert_eq!(stepped_range_inclusive(0, 3 * day, day), vec![0, day, 2 * day, 3 * day]);
}

#[test]
fn test_schedulers_validation() {
    let all_schedulers = get_all_schedulers();
    assert!(!all_schedulers.is_empty());
    let mut all_scheduler_names = Vec::new();
    for scheduler in all_schedulers {
        all_scheduler_names.push(scheduler.get_scheduler_name());
    }
    let mut unique = all_scheduler_names.clone();
    unique.sort();
    unique.dedup();
    assert_eq!(all_scheduler_names.len(), unique.len());
}

#[test]
fn scheduler_found_by_its_name() {
    assert_eq!(get_scheduler_from_string("fsrs"), Ok(SchedulerKind::Fsrs));
}

#[test]
fn unknown_scheduler_is_not_found() {
    assert_eq!(
        get_scheduler_from_string("sm2"),
        Err(LibraryError::Scheduler(SchedulerErrorKind::NotFound("sm2".to_string())))
    );
}

#[test]
fn again_and_hard_start_the_good_count_again() {
    let data = FilteredTagData { good: Some(1) };
    assert_eq!(filtered_tag_schedule(Some(&data), 1), Ok(Some(FilteredTagData { good: None })));
    assert_eq!(filtered_tag_schedule(None, 2), Ok(Some(FilteredTagData { good: None })));
}

#[test]
fn two_good_ratings_in_a_row_leave_the_filtered_tag() {
    let after_first = filtered_tag_schedule(None, 3).unwrap();
    assert_eq!(after_first, Some(FilteredTagData { good: Some(1) }));
    assert_eq!(filtered_tag_schedule(after_first.as_ref(), 3), Ok(None));
}

#[test]
fn good_without_a_count_in_the_data_counts_from_zero() {
    let data = FilteredTagData { good: None };
    assert_eq!(filtered_tag_schedule(Some(&data), 3), Ok(Some(FilteredTagData { good: Some(1) })));
}

#[test]
fn easy_leaves_the_filtered_tag() {
    assert_eq!(filtered_tag_schedule(None, 4), Ok(None));
}

#[test]
fn a_number_that_is_no_rating_is_refused() {
    assert_eq!(
        filtered_tag_schedule(None, 7),
        Err(LibraryError::Scheduler(SchedulerErrorKind::InvalidRating(7)))
    );
    assert_eq!(
        filtered_tag_schedule(None, 0),
        Err(LibraryError::Scheduler(SchedulerErrorKind::InvalidRating(0)))
    );
}
