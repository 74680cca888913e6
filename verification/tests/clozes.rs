use spares::clozes::construct::construct_cloze_string;
use spares::clozes::keys::{ClozeSettingsKeys, NoteSettingsKeys};
use spares::clozes::parse::parse_card_settings;
use spares::clozes::{BackReveal, ClozeGrouping, ClozeGroupingSettings, ClozeSettings, FrontConceal};
use spares::error::{CardErrorKind, LibraryError};

#[test]
fn test_construct_cloze_string_1() {
    let mut global_settings = ClozeSettings::default();
    global_settings.hint = Some("Test".to_string());
    let mut grouping_setting = ClozeGroupingSettings::default(&mut 1, None);
    grouping_setting.orders = Some(vec![1]);
    let all_grouping_settings = vec![grouping_setting];
    let NoteSettingsKeys { settings_delim, settings_key_value_delim, .. } = NoteSettingsKeys::default();
    let cloze_settings_keys = ClozeSettingsKeys::default();
    let result = construct_cloze_string(
        &global_settings,
        &all_grouping_settings,
        &cloze_settings_keys,
        settings_delim,
        settings_key_value_delim,
        None,
    );
    let expected_result = "h:Test;o:1";
    assert_eq!(result, expected_result.to_string());
}

#[test]
fn test_construct_cloze_string_2() {
    let mut global_settings = ClozeSettings::default();
    global_settings.hint = Some("Test".to_string());
    let grouping_setting = ClozeGroupingSettings::default(&mut 1, None);
    let all_grouping_settings = vec![grouping_setting];
    let NoteSettingsKeys { settings_delim, settings_key_value_delim, .. } = NoteSettingsKeys::default();
    let cloze_settings_keys = ClozeSettingsKeys::default();
    let result = construct_cloze_string(
        &global_settings,
        &all_grouping_settings,
        &cloze_settings_keys,
        settings_delim,
        settings_key_value_delim,
        None,
    );
    let expected_result = "h:Test";
    assert_eq!(result, expected_result.to_string());
}

fn parse(data: &str, cur: &mut u32) -> Result<(ClozeSettings, Vec<ClozeGroupingSettings>), LibraryError> {
    parse_card_settings(
        data,
        &(0..data.len()),
        cur,
        &NoteSettingsKeys::default(),
        &ClozeSettingsKeys::default(),
        None,
    )
}

#[test]
fn parse_card_settings_without_groupings_gets_a_new_auto_grouping() {
    let mut cur = 5;
    let (settings, groups) = parse("", &mut cur).unwrap();
    assert_eq!(cur, 6);
    assert_eq!(settings.hint, None);
    assert_eq!(groups.len(), 1);
    assert_eq!(groups[0].grouping, ClozeGrouping::Auto(5));
    assert!(groups[0].include_forward_card);
    assert!(!groups[0].include_backward_card);
}

#[test]
fn parse_card_settings_local_pairs_go_to_a_new_auto_grouping() {
    let mut cur = 1;
    let (settings, groups) = parse("o:2, 3; r:; h:Hint", &mut cur).unwrap();
    assert_eq!(cur, 2);
    assert_eq!(settings.hint, Some("Hint".to_string()));
    assert_eq!(groups.len(), 1);
    assert_eq!(groups[0].grouping, ClozeGrouping::Auto(1));
    assert_eq!(groups[0].orders, Some(vec![2, 3]));
    assert!(groups[0].include_forward_card && groups[0].include_backward_card);
}

#[test]
fn parse_card_settings_groupings_in_order_of_first_mention() {
    let mut cur = 1;
    let (settings, groups) = parse("g:b,a;s:;g:a;hide:;ro:", &mut cur).unwrap();
    assert_eq!(cur, 1);
    assert!(!settings.all_groupings);
    assert_eq!(groups.len(), 2);
    assert_eq!(groups[0].grouping, ClozeGrouping::Custom("b".to_string()));
    assert_eq!(groups[0].is_suspended, Some(true));
    assert!(!groups[0].hidden_no_answer);
    assert_eq!(groups[1].grouping, ClozeGrouping::Custom("a".to_string()));
    assert_eq!(groups[1].is_suspended, Some(true));
    assert!(groups[1].hidden_no_answer);
    assert!(!groups[1].include_forward_card && groups[1].include_backward_card);
}

#[test]
fn parse_card_settings_all_groupings_and_overlapper() {
    let mut cur = 3;
    let (settings, groups) = parse("ov:;g:*;f:all;b:a", &mut cur).unwrap();
    assert_eq!(cur, 3);
    assert!(settings.all_groupings);
    assert!(settings.is_overlapper);
    assert_eq!(groups.len(), 1);
    assert_eq!(groups[0].grouping, ClozeGrouping::All);
    assert_eq!(groups[0].front_conceal, FrontConceal::AllGroupings);
    assert_eq!(groups[0].back_reveal, BackReveal::OnlyAnswered);
}

fn invalid_settings(r: Result<(ClozeSettings, Vec<ClozeGroupingSettings>), LibraryError>) -> (String, std::ops::Range<usize>) {
    match r {
        Err(LibraryError::Card(CardErrorKind::InvalidSettings { description, at, .. })) => (description, at),
        _ => panic!("expected invalid settings"),
    }
}

#[test]
fn parse_card_settings_refuses_a_piece_without_delimiter() {
    let mut cur = 1;
    let (msg, at) = invalid_settings(parse("o:1;oops", &mut cur));
    assert_eq!(msg, "Found 1 parts when processing settings. Expected 2 parts.");
    assert_eq!(at, 0..8);
    assert_eq!(cur, 1);
}

#[test]
fn parse_card_settings_refuses_unknown_key() {
    let mut cur = 1;
    let (msg, _) = invalid_settings(parse("zz:1", &mut cur));
    assert_eq!(msg, "The key `zz` is not supported.");
}

#[test]
fn parse_card_settings_refuses_reverse_and_reverse_only() {
    let mut cur = 1;
    let (msg, _) = invalid_settings(parse("r:;ro:", &mut cur));
    assert_eq!(msg, "`include reverse` and `reverse only` are mutually exclusive settings.");
}

#[test]
fn parse_card_settings_refuses_bad_order() {
    let mut cur = 1;
    let (msg, _) = invalid_settings(parse("o:1,x", &mut cur));
    assert_eq!(msg, "The card order `x` is invalid. Error: invalid digit found in string");
}

#[test]
fn parse_card_settings_refuses_bad_conceal_and_reveal() {
    let mut cur = 1;
    let (msg, _) = invalid_settings(parse("f:none", &mut cur));
    assert_eq!(msg, "The card back `none` is invalid. Error: Matching variant not found");
    let (msg, _) = invalid_settings(parse("b:x", &mut cur));
    assert_eq!(msg, "The card back `x` is invalid. Error: Matching variant not found");
}

#[test]
fn parse_card_settings_reads_a_range_inside_the_note() {
    let data = "text {{[g:x;o:4] cloze}} more";
    let mut cur = 1;
    let start = data.find("g:x").unwrap();
    let (_, groups) = parse_card_settings(
        data,
        &(start..start + 7),
        &mut cur,
        &NoteSettingsKeys::default(),
        &ClozeSettingsKeys::default(),
        Some((FrontConceal::AllGroupings, BackReveal::OnlyAnswered, true)),
    )
    .unwrap();
    assert_eq!(groups.len(), 1);
    assert_eq!(groups[0].grouping, ClozeGrouping::Custom("x".to_string()));
    assert_eq!(groups[0].orders, Some(vec![4]));
    assert_eq!(groups[0].front_conceal, FrontConceal::AllGroupings);
    assert!(groups[0].back_emphasis);
}

#[test]
fn construct_cloze_string_groups_named_groupings_without_settings() {
    let settings = ClozeSettings::default();
    let mut a = ClozeGroupingSettings::default_from_grouping(ClozeGrouping::Custom("a".to_string()), None);
    a.skip_serialization = false;
    let b = ClozeGroupingSettings::default_from_grouping(ClozeGrouping::Custom("b".to_string()), None);
    let mut c = ClozeGroupingSettings::default_from_grouping(ClozeGrouping::Custom("c".to_string()), None);
    c.orders = Some(vec![3, 10]);
    c.include_backward_card = true;
    c.front_conceal = FrontConceal::AllGroupings;
    let r = construct_cloze_string(&settings, &[a, b, c], &ClozeSettingsKeys::default(), ";", ":", None);
    assert_eq!(r, "g:a,b; g:c;o:3,10;r:;f:all");
}

#[test]
fn construct_cloze_string_writes_overlapper_and_skips_hidden_groupings() {
    let mut settings = ClozeSettings::default();
    settings.is_overlapper = true;
    settings.all_groupings = true;
    let mut a = ClozeGroupingSettings::default_from_grouping(ClozeGrouping::Auto(1), None);
    a.skip_serialization = true;
    a.orders = Some(vec![1]);
    let mut b = ClozeGroupingSettings::default_from_grouping(ClozeGrouping::Auto(2), None);
    b.hidden_no_answer = true;
    b.back_reveal = BackReveal::OnlyAnswered;
    let r = construct_cloze_string(&settings, &[a, b], &ClozeSettingsKeys::default(), ";", ":", None);
    assert_eq!(r, "ov:;g:*; hide:;b:a");
}

#[test]
fn written_pairs_are_read_back() {
    use_pairs();
}

fn use_pairs() {
    let pairs = [("g", "x"), ("o", "1,2"), ("h", "a hint")];
    let written = pairs.iter().map(|(k, v)| format!("{}:{}", k, v)).collect::<Vec<_>>().join(";");
    let read = spares::clozes::pairs::get_settings_pairs(&written, &(0..written.len()), ";", ":");
    let expected: Vec<Result<(String, String), (String, std::ops::Range<usize>)>> =
        pairs.iter().map(|(k, v)| Ok((k.to_string(), v.to_string()))).collect();
    assert_eq!(read, expected);
}

#[test]
fn grouping_values_name_groupings() {
    let mut n = 4u32;
    assert_eq!(
        spares::clozes::parse::parse_grouping("a,b", &mut n),
        vec![ClozeGrouping::Custom("a".to_string()), ClozeGrouping::Custom("b".to_string())]
    );
    assert_eq!(spares::clozes::parse::parse_grouping("a,*", &mut n), vec![ClozeGrouping::All]);
    assert_eq!(spares::clozes::parse::parse_grouping("", &mut n), vec![ClozeGrouping::Custom(String::new())]);
    assert_eq!(n, 4);
}

#[test]
fn written_orders_are_read_back() {
    let mut grouping_setting = ClozeGroupingSettings::default(&mut 1, None);
    grouping_setting.orders = Some(vec![3, 10, 0]);
    let keys = NoteSettingsKeys::default();
    let written = construct_cloze_string(
        &ClozeSettings::default(),
        &vec![grouping_setting],
        &ClozeSettingsKeys::default(),
        keys.settings_delim,
        keys.settings_key_value_delim,
        None,
    );
    assert_eq!(written, "o:3,10,0");
    let mut current = 1u32;
    let (_, groupings) =
        parse_card_settings(&written, &(0..written.len()), &mut current, &keys, &ClozeSettingsKeys::default(), None)
            .unwrap();
    assert_eq!(groupings[0].orders, Some(vec![3, 10, 0]));
}

fn construct(gs: &[ClozeGroupingSettings]) -> String {
    let NoteSettingsKeys { settings_delim, settings_key_value_delim, .. } = NoteSettingsKeys::default();
    construct_cloze_string(
        &ClozeSettings::default(),
        gs,
        &ClozeSettingsKeys::default(),
        settings_delim,
        settings_key_value_delim,
        None,
    )
}

#[test]
fn a_skipped_last_grouping_leaves_the_named_groupings_written() {
    let named = ClozeGroupingSettings::default_from_grouping(ClozeGrouping::Custom("1".to_string()), None);
    let mut skipped = ClozeGroupingSettings::default(&mut 1, None);
    skipped.skip_serialization = true;
    assert_eq!(construct(&[named.clone()]), "g:1");
    assert_eq!(construct(&[named.clone(), skipped.clone()]), "g:1");
    let mut ordered = ClozeGroupingSettings::default(&mut 2, None);
    ordered.orders = Some(vec![3]);
    assert_eq!(construct(&[named.clone(), ordered.clone(), skipped]), construct(&[named, ordered]));
}
