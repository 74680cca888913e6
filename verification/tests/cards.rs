use spares::cards::data::{CardData, ClozeHiddenReplacement, NotePart};
use spares::cards::overlapper::{apply_overlapper_groupings, OverlapperConfig};
use spares::cards::validation::validate_cards;
use spares::clozes::{BackReveal, BackType, ClozeGrouping, FrontConceal};
use spares::error::{CardErrorKind, LibraryError};

fn card(data: Vec<NotePart>) -> CardData {
    CardData {
        order: Some(1),
        previous_order: None,
        grouping: ClozeGrouping::Auto(1),
        is_suspended: None,
        front_conceal: FrontConceal::OnlyGrouping,
        back_reveal: BackReveal::FullNote,
        back_emphasis: false,
        back_type: BackType::NoteFilePath,
        inherit: None,
        data,
    }
}

fn forward() -> Vec<NotePart> {
    vec![
        NotePart::SurroundingData("a ".to_string()),
        NotePart::ClozeStart("{{".to_string()),
        NotePart::ClozeData("b".to_string(), ClozeHiddenReplacement::ToAnswer { hint: None }),
        NotePart::ClozeEnd("}}".to_string()),
    ]
}

fn backward() -> Vec<NotePart> {
    vec![
        NotePart::ClozeData("a ".to_string(), ClozeHiddenReplacement::ToAnswer { hint: None }),
        NotePart::ClozeStart("{{".to_string()),
        NotePart::SurroundingData("b".to_string()),
        NotePart::ClozeEnd("}}".to_string()),
    ]
}

#[test]
fn is_reverse_tells_backward_cards() {
    assert!(!card(forward()).is_reverse());
    assert!(card(backward()).is_reverse());
    assert!(!card(vec![]).is_reverse());
}

#[test]
fn validate_cards_accepts_good_cards() {
    assert_eq!(validate_cards(&[card(forward()), card(backward())]), Ok(()));
    assert_eq!(validate_cards(&[]), Ok(()));
}

#[test]
fn validate_cards_refuses_an_empty_card_first() {
    let r = validate_cards(&[card(vec![NotePart::ClozeStart("{{".to_string())]), card(vec![])]);
    assert_eq!(r, Err(LibraryError::Card(CardErrorKind::Empty)));
}

#[test]
fn validate_cards_refuses_a_card_without_surrounding_text() {
    let r = validate_cards(&[card(vec![NotePart::ClozeData("x".to_string(), ClozeHiddenReplacement::NotToAnswer)])]);
    assert_eq!(r, Err(LibraryError::Card(CardErrorKind::MissingField("Surrounding data".to_string()))));
}

#[test]
fn validate_cards_refuses_a_card_without_question() {
    let r = validate_cards(&[card(vec![NotePart::SurroundingData("x".to_string())])]);
    assert_eq!(r, Err(LibraryError::Card(CardErrorKind::MissingField("Cloze or Image Occlusion".to_string()))));
}

fn cloze(start: usize, end: usize) -> spares::clozes::ClozeData {
    spares::clozes::ClozeData {
        index: 0,
        start_delim: start..start + 2,
        end_delim: end..end + 2,
        settings: spares::clozes::ClozeSettings::default(),
        image_occlusion: None,
    }
}

#[test]
fn cards_are_assembled_from_grouped_clozes() {
    use_cards_from_groups();
}

fn use_cards_from_groups() {
    let data = "a {{b}} c {{d}}";
    let mut settings = spares::clozes::ClozeGroupingSettings::default(&mut 1, None);
    settings.orders = Some(vec![5]);
    let groups = vec![vec![(cloze(2, 5), settings.clone())]];
    let cards = spares::cards::assemble::cards_from_groups(data, &groups, 1, &vec![Some(vec![4])], "*").unwrap();
    assert_eq!(cards.len(), 1);
    assert_eq!(cards[0].order, Some(5));
    assert_eq!(cards[0].previous_order, Some(4));
    assert_eq!(cards[0].grouping, ClozeGrouping::Auto(1));
    assert_eq!(
        cards[0].data,
        vec![
            NotePart::SurroundingData("a ".to_string()),
            NotePart::ClozeStart("{{".to_string()),
            NotePart::ClozeData("b".to_string(), ClozeHiddenReplacement::ToAnswer { hint: None }),
            NotePart::ClozeEnd("}}".to_string()),
            NotePart::SurroundingData(" c {{d}}".to_string()),
        ]
    );
    let mut hidden = settings;
    hidden.hidden_no_answer = true;
    let all_hidden = vec![vec![(cloze(2, 5), hidden)]];
    let err = spares::cards::assemble::cards_from_groups(data, &all_hidden, 1, &vec![None], "*").unwrap_err();
    assert!(matches!(err, LibraryError::Card(CardErrorKind::InvalidInput(_))));
}

#[test]
fn overlapper_groupings_are_applied_to_marked_clozes() {
    let mut marked = spares::clozes::ClozeSettings::default();
    marked.is_overlapper = true;
    let item = |s: spares::clozes::ClozeSettings, start: usize| {
        (
            spares::clozes::ClozeData { settings: s, ..cloze(start, start + 3) },
            vec![spares::clozes::ClozeGroupingSettings::default(&mut 1, None)],
        )
    };
    let mut clozes = vec![item(marked.clone(), 0), item(marked.clone(), 10), item(marked.clone(), 20)];
    let config = OverlapperConfig::default();
    let mut current = 7u32;
    let range = apply_overlapper_groupings(&mut clozes, &config, &mut current);
    assert!(range.is_some());
    let range = range.unwrap();
    assert_eq!(range.start, 7);
    assert_eq!(current, range.end);
    assert!(clozes.iter().all(|c| !c.1.is_empty()));
    let mut none = vec![item(spares::clozes::ClozeSettings::default(), 0)];
    let mut current = 7u32;
    assert!(apply_overlapper_groupings(&mut none, &config, &mut current).is_none());
    assert_eq!(current, 7);
}

#[test]
fn previous_orders_come_from_the_first_written_cloze() {
    let mut skipped = spares::clozes::ClozeGroupingSettings::default(&mut 1, None);
    skipped.skip_serialization = true;
    skipped.orders = Some(vec![9]);
    let mut written = spares::clozes::ClozeGroupingSettings::default(&mut 1, None);
    written.orders = Some(vec![3, 4]);
    let mut unordered = written.clone();
    unordered.orders = None;
    let groups = vec![
        vec![(cloze(2, 5), skipped.clone()), (cloze(10, 13), written)],
        vec![(cloze(2, 5), unordered)],
        vec![(cloze(2, 5), skipped)],
    ];
    assert_eq!(spares::cards::assemble::previous_orders(&groups), vec![Some(vec![3, 4]), None, None]);
}

fn note_text_of(parts: &[NotePart]) -> String {
    let mut s = String::new();
    for p in parts {
        match p {
            NotePart::SurroundingData(t) | NotePart::ClozeStart(t) | NotePart::ClozeEnd(t) => s.push_str(t),
            NotePart::ClozeData(t, _) => s.push_str(t),
            NotePart::ImageOcclusion { .. } => {}
        }
    }
    s
}

#[test]
fn every_card_gives_back_the_note() {
    let data = "a {{b}} c {{d}} e";
    let mut forward_and_back = spares::clozes::ClozeGroupingSettings::default(&mut 1, None);
    forward_and_back.include_backward_card = true;
    let second = spares::clozes::ClozeGroupingSettings::default(&mut 2, None);
    let groups = vec![
        vec![(cloze(2, 5), forward_and_back.clone()), (cloze(10, 13), forward_and_back)],
        vec![(cloze(10, 13), second)],
    ];
    let cards = spares::cards::assemble::cards_from_groups(data, &groups, 2, &vec![None, None], "*").unwrap();
    assert_eq!(cards.len(), 3);
    for c in &cards {
        assert_eq!(note_text_of(&c.data), data);
    }
}
