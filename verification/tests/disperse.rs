use chrono::{Duration, TimeZone, Utc};
use spares::disperse::{can_place_points_with_arrangement, find_max_min_gap_and_arrangement, maximize_siblings_due_gap};

fn nanos(y: i32, m: u32, d: u32) -> i128 {
    Utc.with_ymd_and_hms(y, m, d, 0, 0, 0).unwrap().timestamp_nanos_opt().unwrap() as i128
}

fn days(n: i64) -> i128 {
    Duration::days(n).num_nanoseconds().unwrap() as i128
}

#[test]
fn test_maximize_siblings_due_gap_1() {
    let data = vec![
        (0, (nanos(2024, 1, 1), nanos(2024, 1, 1))),
        (1, (nanos(2024, 1, 1), nanos(2024, 1, 3))),
        (2, (nanos(2024, 1, 1), nanos(2024, 1, 3))),
    ];
    let solution = maximize_siblings_due_gap(data, days(1), 0);
    assert!(solution.is_some());
    let (siblings, min_gap) = solution.unwrap();
    assert_eq!(siblings.len(), 3);
    assert_eq!(min_gap / days(1), 1);
}

#[test]
fn test_maximize_siblings_due_gap_2() {
    let data = vec![
        (0, (nanos(2024, 1, 1), nanos(2024, 1, 3))),
        (1, (nanos(2024, 1, 1), nanos(2024, 1, 3))),
        (2, (nanos(2024, 1, 2), nanos(2024, 1, 4))),
    ];
    let solution = maximize_siblings_due_gap(data, days(1), 0);
    assert!(solution.is_some());
    let (siblings, min_gap) = solution.unwrap();
    assert_eq!(siblings.len(), 3);
    assert_eq!(min_gap / days(1), 1);
}

#[test]
fn siblings_are_placed_within_their_intervals_and_spread() {
    let data = vec![
        (7u32, (nanos(2024, 1, 1), nanos(2024, 1, 5))),
        (8u32, (nanos(2024, 1, 1), nanos(2024, 1, 5))),
        (9u32, (nanos(2024, 1, 1), nanos(2024, 1, 5))),
    ];
    let (siblings, min_gap) = maximize_siblings_due_gap(data.clone(), days(1), 0).unwrap();
    assert_eq!(min_gap, days(2));
    for (id, at) in &siblings {
        let (lo, hi) = data.iter().find(|(d, _)| d == id).unwrap().1;
        assert!(lo <= *at && *at <= hi);
    }
    let mut times: Vec<i128> = siblings.iter().map(|(_, t)| *t).collect();
    times.sort();
    for w in times.windows(2) {
        assert!(w[1] - w[0] >= min_gap);
    }
}

#[test]
fn greedy_arrangement_places_each_point_as_early_as_the_gap_allows() {
    let points = vec![(0i128, 10i128), (0, 10), (5, 20)];
    assert_eq!(can_place_points_with_arrangement(&points, 4), Some(vec![0, 4, 8]));
    assert_eq!(can_place_points_with_arrangement(&points, 6), Some(vec![0, 6, 12]));
    assert_eq!(can_place_points_with_arrangement(&points, 11), None);
}

#[test]
fn largest_gap_found_by_steps() {
    let points = vec![(0i128, 10i128), (0, 10)];
    let (gap, arrangement) = find_max_min_gap_and_arrangement(points, 5, 0).unwrap();
    assert_eq!(gap, 10);
    assert_eq!(arrangement, vec![0, 10]);
}

#[test]
fn found_gap_is_within_two_steps_of_the_best() {
    let points = vec![(0i128, 100i128), (0, 100), (0, 100)];
    let delta: i128 = 7;
    let (gap, arrangement) = find_max_min_gap_and_arrangement(points.clone(), delta, 0).unwrap();
    assert_eq!(gap, 50);
    assert_eq!(arrangement, vec![0, 50, 100]);
    assert!(can_place_points_with_arrangement(&points, gap).is_some());
    assert!(can_place_points_with_arrangement(&points, gap + 2 * delta).is_none());
}

#[test]
fn no_gap_found_when_even_the_first_step_does_not_fit() {
    let points = vec![(0i128, 0i128), (0, 0)];
    assert_eq!(find_max_min_gap_and_arrangement(points.clone(), 1, 5), None);
    assert!(can_place_points_with_arrangement(&points, 6).is_none());
}

#[test]
fn siblings_are_dispersed_by_their_due_ranges() {
    let d = days(1);
    let ranges = vec![(1i64, (0i128, 2 * d)), (2, (0, 2 * d))];
    let r = spares::disperse::disperse_siblings_distance(ranges, vec![]);
    assert_eq!(r, Some(vec![(1, 0), (2, 2 * d)]));
}

#[test]
fn siblings_keep_away_from_the_latest_review() {
    let d = days(1);
    let ranges = vec![(1i64, (0i128, 2 * d)), (2, (0, 2 * d))];
    let r = spares::disperse::disperse_siblings_distance(ranges, vec![-d, 0]);
    assert_eq!(r, Some(vec![(1, d), (2, 2 * d)]));
}

#[test]
fn main_card_takes_its_dispersed_due_time() {
    let dispersed = Some(vec![(1i64, 5i128), (2, 7)]);
    assert_eq!(spares::disperse::main_card_new_due(2, 100, &dispersed), 7);
    assert_eq!(spares::disperse::main_card_new_due(2, 100, &None), 100);
}
