use spares::cards::data::ClozeHiddenReplacement;
use spares::clozes::{BackReveal, ClozeData, ClozeGroupingSettings, ClozeSettings, FrontConceal};
use spares::image_occlusion::{
    combine_image_occlusion_clozes, combine_image_occlusions, image_occlusion_clozes, ImageOcclusionCloze,
    ImageOcclusionClozeIndex, ImageOcclusionConfig, ImageOcclusionData, ParsedImageOcclusionCloze,
    ParsedImageOcclusionData,
};
use std::ops::Range;

fn image(name: &str) -> ImageOcclusionData {
    ImageOcclusionData {
        original_image_filepath: format!("{}.png", name),
        clozes_filepath: format!("{}.svg", name),
        front_conceal: FrontConceal::AllGroupings,
        back_reveal: BackReveal::OnlyAnswered,
    }
}

fn settings(n: u32, hidden: bool) -> ClozeGroupingSettings {
    let mut s = ClozeGroupingSettings::default(&mut n.clone(), None);
    s.hidden_no_answer = hidden;
    s
}

fn text_cloze(at: usize, n: u32) -> (ClozeData, ClozeGroupingSettings) {
    (
        ClozeData {
            index: 0,
            start_delim: Range { start: at, end: at + 2 },
            end_delim: Range { start: at + 3, end: at + 5 },
            settings: ClozeSettings::default(),
            image_occlusion: None,
        },
        settings(n, false),
    )
}

fn image_cloze(at: usize, shape: usize, hint: Option<&str>, hidden: bool, name: &str) -> (ClozeData, ClozeGroupingSettings) {
    let mut cloze_settings = ClozeSettings::default();
    cloze_settings.hint = hint.map(|h| h.to_string());
    (
        ClozeData {
            index: shape,
            start_delim: Range { start: at, end: at + 2 },
            end_delim: Range { start: at + 3, end: at + 5 },
            settings: cloze_settings,
            image_occlusion: Some(ImageOcclusionCloze {
                index: ImageOcclusionClozeIndex::OriginalIndex(shape),
                data: image(name),
            }),
        },
        settings(1, hidden),
    )
}

#[test]
fn consecutive_shapes_of_one_image_are_combined() {
    let mut clozes = vec![
        text_cloze(0, 1),
        image_cloze(10, 0, Some("h"), false, "a"),
        image_cloze(10, 1, None, true, "a"),
        image_cloze(20, 0, None, false, "b"),
        text_cloze(30, 2),
    ];
    let first_text = clozes[0].clone();
    let last_text = clozes[4].clone();
    combine_image_occlusion_clozes(&mut clozes);
    assert_eq!(clozes.len(), 4);
    assert_eq!(clozes[0], first_text);
    assert_eq!(clozes[3], last_text);
    let a = clozes[1].0.image_occlusion.as_ref().unwrap();
    assert_eq!(
        a.index,
        ImageOcclusionClozeIndex::MultipleIndices(vec![
            (0, ClozeHiddenReplacement::ToAnswer { hint: Some("h".to_string()) }),
            (1, ClozeHiddenReplacement::NotToAnswer),
        ])
    );
    assert_eq!(a.data, image("a"));
    assert_eq!(clozes[1].0.start_delim, 10..12);
    let b = clozes[2].0.image_occlusion.as_ref().unwrap();
    assert_eq!(
        b.index,
        ImageOcclusionClozeIndex::MultipleIndices(vec![(0, ClozeHiddenReplacement::ToAnswer { hint: None })])
    );
    assert_eq!(b.data, image("b"));
}

#[test]
fn text_clozes_alone_are_kept() {
    let mut clozes = vec![text_cloze(0, 1), text_cloze(10, 2)];
    let before = clozes.clone();
    combine_image_occlusion_clozes(&mut clozes);
    assert_eq!(clozes, before);
    let mut empty: Vec<(ClozeData, ClozeGroupingSettings)> = vec![];
    combine_image_occlusion_clozes(&mut empty);
    assert!(empty.is_empty());
}

#[test]
fn a_run_is_the_first_cloze_standing_for_all_shapes() {
    let run = vec![image_cloze(4, 2, None, false, "c"), image_cloze(4, 0, None, true, "c")];
    let (data, grouping) = combine_image_occlusions(run.clone());
    assert_eq!(grouping, run[0].1);
    assert_eq!(data.index, 2);
    assert_eq!(
        data.image_occlusion.unwrap().index,
        ImageOcclusionClozeIndex::MultipleIndices(vec![
            (2, ClozeHiddenReplacement::ToAnswer { hint: None }),
            (0, ClozeHiddenReplacement::NotToAnswer),
        ])
    );
}

#[test]
fn clozes_of_parsed_images_in_order() {
    let parsed = vec![
        ParsedImageOcclusionData {
            image_occlusion: image("a"),
            start_delim: 3..5,
            end_delim: 8..10,
            clozes: vec![
                ParsedImageOcclusionCloze { settings: ClozeSettings::default(), grouping_settings: vec![settings(1, false)] },
                ParsedImageOcclusionCloze { settings: ClozeSettings::default(), grouping_settings: vec![settings(2, false)] },
            ],
        },
        ParsedImageOcclusionData { image_occlusion: image("b"), start_delim: 20..22, end_delim: 25..27, clozes: vec![] },
        ParsedImageOcclusionData {
            image_occlusion: image("c"),
            start_delim: 30..32,
            end_delim: 35..37,
            clozes: vec![ParsedImageOcclusionCloze {
                settings: ClozeSettings::default(),
                grouping_settings: vec![settings(3, true)],
            }],
        },
    ];
    let items = image_occlusion_clozes(parsed);
    assert_eq!(items.len(), 3);
    assert_eq!(items[1].0.start_delim, 3..5);
    assert_eq!(items[1].0.end_delim, 8..10);
    assert_eq!(
        items[1].0.image_occlusion,
        Some(ImageOcclusionCloze { index: ImageOcclusionClozeIndex::OriginalIndex(1), data: image("a") })
    );
    assert_eq!(items[1].1, vec![settings(2, false)]);
    assert_eq!(items[2].0.start_delim, 30..32);
    assert_eq!(
        items[2].0.image_occlusion,
        Some(ImageOcclusionCloze { index: ImageOcclusionClozeIndex::OriginalIndex(0), data: image("c") })
    );
}

#[test]
fn image_occlusion_colors() {
    let config = ImageOcclusionConfig::default();
    assert_eq!(config.cloze_to_answer_color, "#FF7E7E");
    assert_eq!(config.cloze_not_to_answer_color, "#FFEBA2");
    assert_eq!(config.cloze_hint_font_size, 16);
}
