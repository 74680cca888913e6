use spares::cards::overlapper::{generate_overlapper_groups, overlapper_card_count, OverlapperConfig, OverlapperGroupAssignment};

fn default_config() -> OverlapperConfig {
    OverlapperConfig::default()
}

fn summarise(assignments: &[Vec<OverlapperGroupAssignment>]) -> Vec<Vec<(u32, bool, bool)>> {
    assignments
        .iter()
        .map(|item| item.iter().map(|a| (a.card_group, a.is_first_prompt, a.is_hidden)).collect())
        .collect()
}

#[test]
fn test_standard_4_items_cb1_p1() {
    let config = OverlapperConfig { context_before_item: 1, prompts: 1, context_after_item: 0, ..default_config() };
    let result = generate_overlapper_groups(4, &config, 0);
    let s = summarise(&result);

    assert!(s[0].contains(&(0, true, false)), "a: prompt card 0");
    assert!(s[0].contains(&(2, false, true)), "a: hidden card 2");
    assert!(s[0].contains(&(3, false, true)), "a: hidden card 3");
    assert!(!s[0].iter().any(|(g, _, _)| *g == 1), "a: no assignment card 1 (context)");

    assert!(s[1].contains(&(0, false, true)), "b: hidden card 0");
    assert!(s[1].contains(&(1, true, false)), "b: prompt card 1");
    assert!(s[1].contains(&(3, false, true)), "b: hidden card 3");
    assert!(!s[1].iter().any(|(g, _, _)| *g == 2), "b: no assignment card 2 (context)");

    assert!(s[2].contains(&(0, false, true)));
    assert!(s[2].contains(&(1, false, true)));
    assert!(s[2].contains(&(2, true, false)));
    assert!(!s[2].iter().any(|(g, _, _)| *g == 3), "c: no assignment card 3 (context)");

    assert!(s[3].contains(&(0, false, true)));
    assert!(s[3].contains(&(1, false, true)));
    assert!(s[3].contains(&(2, false, true)));
    assert!(s[3].contains(&(3, true, false)));
}

#[test]
fn test_5_items_cb1_p2() {
    let config = OverlapperConfig { context_before_item: 1, prompts: 2, context_after_item: 0, ..default_config() };
    let result = generate_overlapper_groups(5, &config, 0);
    assert_eq!(result.len(), 5);
    assert_eq!(overlapper_card_count(5, &config), 4);
    assert!(result[0].iter().any(|a| a.card_group == 0 && a.is_first_prompt && !a.is_hidden));
    assert!(result[1].iter().any(|a| a.card_group == 0 && !a.is_first_prompt && !a.is_hidden));
    assert!(result[1].iter().any(|a| a.card_group == 1 && a.is_first_prompt && !a.is_hidden));
}

#[test]
fn test_start_and_end_gradually_p3() {
    let config = OverlapperConfig {
        context_before_item: 1,
        prompts: 3,
        context_after_item: 0,
        start_and_end_gradually: true,
        ..default_config()
    };
    assert_eq!(overlapper_card_count(6, &config), 8);
    let result = generate_overlapper_groups(6, &config, 0);
    assert_eq!(result.len(), 6);
}

#[test]
fn test_no_cues_for_first_item() {
    let config = OverlapperConfig {
        context_before_item: 2,
        prompts: 1,
        context_after_item: 0,
        no_cues_for_first_item: true,
        ..default_config()
    };
    let result = generate_overlapper_groups(4, &config, 0);
    assert!(result[1].iter().any(|a| a.card_group == 0 && a.is_hidden));
    assert!(result[2].iter().any(|a| a.card_group == 0 && a.is_hidden));
    assert!(result[3].iter().any(|a| a.card_group == 0 && a.is_hidden));
}

#[test]
fn test_n_less_than_p() {
    let config = OverlapperConfig { prompts: 3, ..default_config() };
    let result = generate_overlapper_groups(2, &config, 0);
    assert!(result.iter().all(|v| v.is_empty()));
}

#[test]
fn overlapper_every_card_has_exactly_one_first_prompt() {
    let config = OverlapperConfig { context_before_item: 1, prompts: 2, start_and_end_gradually: true, ..default_config() };
    let n = 5;
    let count = overlapper_card_count(n, &config);
    assert_eq!(count, 6);
    let result = generate_overlapper_groups(n, &config, 10);
    for card in 10..10 + count as u32 {
        let firsts = result.iter().flatten().filter(|a| a.card_group == card && a.is_first_prompt).count();
        assert_eq!(firsts, 1);
    }
}

#[test]
fn overlapper_context_after_and_group_offset() {
    let config = OverlapperConfig { context_before_item: 0, prompts: 1, context_after_item: 1, ..default_config() };
    let result = generate_overlapper_groups(3, &config, 7);
    let s = summarise(&result);
    assert_eq!(s[0], vec![(7, true, false), (8, false, true), (9, false, true)]);
    assert_eq!(s[1], vec![(8, true, false), (9, false, true)]);
    assert_eq!(s[2], vec![(7, false, true), (9, true, false)]);
}

#[test]
fn overlapper_zero_prompts_gives_no_cards() {
    let config = OverlapperConfig { prompts: 0, ..default_config() };
    assert_eq!(overlapper_card_count(4, &config), 0);
    let result = generate_overlapper_groups(4, &config, 0);
    assert!(result.iter().all(|v| v.is_empty()));
}

#[test]
fn starting_the_groups_later_shifts_every_group() {
    let mut config = spares::cards::overlapper::OverlapperConfig::default();
    config.prompts = 2;
    config.start_and_end_gradually = true;
    let base = spares::cards::overlapper::generate_overlapper_groups(5, &config, 0);
    let moved = spares::cards::overlapper::generate_overlapper_groups(5, &config, 10);
    assert_eq!(base.len(), moved.len());
    for (b, m) in base.iter().zip(moved.iter()) {
        assert_eq!(b.len(), m.len());
        for (x, y) in b.iter().zip(m.iter()) {
            assert_eq!(x.card_group + 10, y.card_group);
            assert_eq!(x.is_first_prompt, y.is_first_prompt);
            assert_eq!(x.is_hidden, y.is_hidden);
        }
    }
}

#[test]
fn the_groups_used_are_one_per_card() {
    let mut config = spares::cards::overlapper::OverlapperConfig::default();
    config.prompts = 2;
    config.start_and_end_gradually = true;
    let count = spares::cards::overlapper::overlapper_card_count(5, &config);
    assert_eq!(count, 6);
    let groups = spares::cards::overlapper::generate_overlapper_groups(5, &config, 3);
    let mut used: Vec<u32> = groups.iter().flatten().map(|a| a.card_group).collect();
    used.sort();
    used.dedup();
    assert_eq!(used, (3..9).collect::<Vec<u32>>());
}

#[test]
fn fewer_items_than_prompts_give_no_cards() {
    let mut config = spares::cards::overlapper::OverlapperConfig::default();
    config.prompts = 4;
    let groups = spares::cards::overlapper::generate_overlapper_groups(3, &config, 1);
    assert_eq!(groups.len(), 3);
    assert!(groups.iter().all(|g| g.is_empty()));
}
