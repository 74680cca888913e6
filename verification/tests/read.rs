use spares::cards::read::text_clozes;
use spares::clozes::keys::{ClozeSettingsKeys, NoteSettingsKeys};
use spares::clozes::{ClozeGrouping, ClozeMatch};
use spares::error::{CardErrorKind, LibraryError};
use std::ops::Range;

fn matched(start: Range<usize>, end: Range<usize>, settings: Range<usize>) -> ClozeMatch {
    ClozeMatch { start_match: start, end_match: end, settings_match: settings }
}

#[test]
fn each_cloze_takes_the_next_grouping() {
    let data = "x {{a}} y {{[g:k;h:hint]b}} z {{c}}";
    let matches = vec![
        matched(2..4, 5..7, 4..4),
        matched(10..12, 26..28, 13..23),
        matched(31..33, 34..36, 33..33),
    ];
    let mut current = 1u32;
    let clozes = text_clozes(
        data,
        &matches,
        &mut current,
        &NoteSettingsKeys::default(),
        &ClozeSettingsKeys::default(),
        None,
    )
    .unwrap();
    assert_eq!(clozes.len(), 3);
    assert_eq!(current, 3);
    assert_eq!(clozes[0].0.start_delim, 2..4);
    assert_eq!(clozes[0].0.end_delim, 5..7);
    assert_eq!(clozes[0].0.index, 0);
    assert!(clozes[0].0.image_occlusion.is_none());
    assert_eq!(clozes[0].1.len(), 1);
    assert_eq!(clozes[0].1[0].grouping, ClozeGrouping::Auto(1));
    assert_eq!(clozes[1].1[0].grouping, ClozeGrouping::Custom("k".to_string()));
    assert_eq!(clozes[1].0.settings.hint, Some("hint".to_string()));
    assert_eq!(clozes[2].1[0].grouping, ClozeGrouping::Auto(2));
}

#[test]
fn a_cloze_without_text_is_refused() {
    let data = "x {{}} y";
    let matches = vec![matched(2..4, 4..6, 4..4)];
    let mut current = 1u32;
    let r = text_clozes(data, &matches, &mut current, &NoteSettingsKeys::default(), &ClozeSettingsKeys::default(), None);
    assert_eq!(
        r.unwrap_err(),
        LibraryError::Card(CardErrorKind::EmptyCloze { src: data.to_string(), at: 2..6 })
    );
}

#[test]
fn refused_settings_stop_the_reading() {
    let data = "x {{[nonsense]a}}";
    let matches = vec![matched(2..4, 15..17, 5..13)];
    let mut current = 1u32;
    let r = text_clozes(data, &matches, &mut current, &NoteSettingsKeys::default(), &ClozeSettingsKeys::default(), None);
    assert!(matches!(r, Err(LibraryError::Card(CardErrorKind::InvalidSettings { .. }))));
}

#[test]
fn clozes_are_numbered_automatically() {
    let data = "{{a}} {{b}} {{c}}";
    let matches = vec![matched(0..2, 3..5, 2..2), matched(6..8, 9..11, 8..8), matched(12..14, 15..17, 14..14)];
    let mut current = 1u32;
    let clozes = text_clozes(data, &matches, &mut current, &NoteSettingsKeys::default(), &ClozeSettingsKeys::default(), None)
        .unwrap();
    let groupings: Vec<ClozeGrouping> = clozes.iter().map(|c| c.1[0].grouping.clone()).collect();
    assert_eq!(groupings, vec![ClozeGrouping::Auto(1), ClozeGrouping::Auto(2), ClozeGrouping::Auto(3)]);
    assert_eq!(current, 4);
}

#[test]
fn image_occlusion_clozes_are_interleaved_with_text_clozes_and_numbered() {
    use_interleaving();
}

fn use_interleaving() {
    let data = "x {{a}} <io> y {{b}}";
    let matches = vec![matched(2..4, 5..7, 4..4), matched(15..17, 18..20, 17..17)];
    let grouping = spares::clozes::ClozeGroupingSettings::default(&mut 7, None);
    let io = spares::image_occlusion::ParsedImageOcclusionData {
        image_occlusion: spares::image_occlusion::ImageOcclusionData {
            original_image_filepath: "i.png".to_string(),
            clozes_filepath: "i.svg".to_string(),
            front_conceal: spares::clozes::FrontConceal::AllGroupings,
            back_reveal: spares::clozes::BackReveal::OnlyAnswered,
        },
        start_delim: 8..9,
        end_delim: 11..12,
        clozes: vec![
            spares::image_occlusion::ParsedImageOcclusionCloze {
                settings: spares::clozes::ClozeSettings::default(),
                grouping_settings: vec![grouping.clone()],
            },
            spares::image_occlusion::ParsedImageOcclusionCloze {
                settings: spares::clozes::ClozeSettings::default(),
                grouping_settings: vec![grouping],
            },
        ],
    };
    let mut current = 1u32;
    let clozes = spares::cards::read::read_note_clozes(
        data,
        &matches,
        vec![io],
        &mut current,
        &NoteSettingsKeys::default(),
        &ClozeSettingsKeys::default(),
        None,
        None,
    )
    .unwrap();
    assert_eq!(current, 3);
    let starts: Vec<Range<usize>> = clozes.iter().map(|c| c.0.start_delim.clone()).collect();
    assert_eq!(starts, vec![2..4, 8..9, 8..9, 15..17]);
    let indices: Vec<usize> = clozes.iter().map(|c| c.0.index).collect();
    assert_eq!(indices, vec![0, 1, 2, 3]);
    assert!(clozes[0].0.image_occlusion.is_none());
    assert!(clozes[1].0.image_occlusion.is_some());
    assert!(clozes[2].0.image_occlusion.is_some());
    assert_eq!(clozes[3].1[0].grouping, ClozeGrouping::Auto(2));
}

#[test]
fn overlapper_items_are_regrouped_after_the_reading() {
    let data = "{{[ov:]a}}{{[ov:]b}}{{[ov:]c}}{{[ov:]d}}";
    let matches: Vec<ClozeMatch> = (0..4usize)
        .map(|k| {
            let o = 10 * k;
            matched(o..o + 2, o + 8..o + 10, o + 3..o + 6)
        })
        .collect();
    let config = spares::cards::overlapper::OverlapperConfig::default();
    let mut current = 1u32;
    let clozes = spares::cards::read::read_note_clozes(
        data,
        &matches,
        Vec::new(),
        &mut current,
        &NoteSettingsKeys::default(),
        &ClozeSettingsKeys::default(),
        None,
        Some(&config),
    )
    .unwrap();
    // The reading takes groups 1 to 4; the four overlapper cards take 5 to 8.
    assert_eq!(current, 9);
    assert_eq!(clozes.len(), 4);
    for (j, cloze) in clozes.iter().enumerate() {
        assert!(cloze.0.settings.is_overlapper);
        let prompts: Vec<&spares::clozes::ClozeGroupingSettings> =
            cloze.1.iter().filter(|g| !g.skip_serialization).collect();
        assert_eq!(prompts.len(), 1);
        assert_eq!(prompts[0].grouping, ClozeGrouping::Auto(5 + j as u32));
        assert!(!prompts[0].hidden_no_answer);
    }
    // The first item is hidden, with nothing to answer, on the cards of the third and fourth.
    let hidden: Vec<ClozeGrouping> =
        clozes[0].1.iter().filter(|g| g.hidden_no_answer).map(|g| g.grouping.clone()).collect();
    assert_eq!(hidden, vec![ClozeGrouping::Auto(7), ClozeGrouping::Auto(8)]);
}

#[test]
fn without_an_overlapper_its_items_keep_their_groupings() {
    let data = "{{[ov:]a}}{{[ov:]b}}";
    let matches = vec![matched(0..2, 8..10, 3..6), matched(10..12, 18..20, 13..16)];
    let mut current = 1u32;
    let clozes = spares::cards::read::read_note_clozes(
        data,
        &matches,
        Vec::new(),
        &mut current,
        &NoteSettingsKeys::default(),
        &ClozeSettingsKeys::default(),
        None,
        None,
    )
    .unwrap();
    assert_eq!(current, 3);
    assert_eq!(clozes[0].1[0].grouping, ClozeGrouping::Auto(1));
    assert_eq!(clozes[1].1[0].grouping, ClozeGrouping::Auto(2));
}
