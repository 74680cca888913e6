use spares::cards::data::{CardData, ClozeHiddenReplacement, NotePart};
use spares::clozes::keys::{NoteImportAction, RegexMatch};
use spares::files::{note_settings_ranges, NoteRawData};
use spares::clozes::{BackReveal, BackType, ClozeGrouping, FrontConceal};
use spares::files::{
    construct_cloze_replacement, custom_data_json, get_aux_dir, get_linked_notes_string, get_output_filename, get_output_raw_dir,
    join_strings, note_data_from_cards,
    CardSide, ClozeReplacement, ConstructFileDataType, GenerateNoteFilesRequest, RenderOutputType, Syntax,
};
use spares::notes::json::JsonValue;
use spares::parsers::{LatexParserExerciseSolution, LatexParserNote, MarkdownParser, TypstParser};
use spares::schema::LinkedNote;
use std::ops::Range;

fn linked(searched: &str, id: Option<i64>, matched: Option<&str>) -> LinkedNote {
    LinkedNote {
        searched_keyword: searched.to_string(),
        linked_note_id: id,
        matched_keyword: matched.map(|m| m.to_string()),
    }
}

fn three_links() -> Vec<LinkedNote> {
    vec![
        linked("keyword 1", Some(1), Some("keyword 1")),
        linked("keyword 1.5", Some(1), Some("keyword 1")),
        linked("keyword 2", Some(2), Some("keyword 2")),
    ]
}

#[test]
fn test_typst_linked_notes() {
    let parser = TypstParser::new();
    let note_data = "Third #cl[Cloze here, linking to #lin([keyword 1]), #lin([keyword 1.5]), and #lin([keyword 2])][o:1]";
    let linked_notes_res = parser.get_linked_notes(note_data);
    assert!(linked_notes_res.is_some());
    assert_eq!(linked_notes_res.unwrap().len(), 3);
}

#[test]
fn test_typst_get_linked_notes_string() {
    let original_note_data = "Third #cl[Cloze here, linking to #lin([keyword 1]), #lin([keyword 1.5]), and #lin([keyword 2])][o:1]";
    let linked_notes_opt = Some(three_links());
    let new_note_data = get_linked_notes_string(
        Syntax::Typst,
        original_note_data,
        linked_notes_opt.as_ref(),
        "/tmp/spares/data/notes/typst",
    );
    let expected_new_note_data = "#let li1 = /tmp/spares/data/notes/typst/0001.typ // \"keyword 1 -> keyword 1\"\n#let li2 = /tmp/spares/data/notes/typst/0001.typ // \"keyword 1.5 -> keyword 1\"\n#let li3 = /tmp/spares/data/notes/typst/0002.typ // \"keyword 2 -> keyword 2\"\n\nThird #cl[Cloze here, linking to #lin([keyword 1], note_link: li1), #lin([keyword 1.5], note_link: li2), and #lin([keyword 2], note_link: li3)][o:1]";
    assert_eq!(new_note_data.unwrap(), expected_new_note_data);
}

#[test]
fn test_markdown_linked_notes() {
    let parser = MarkdownParser::new();
    let note_data = "Third {{[o:1] Cloze here, linking to [keyword 1][li], [keyword 1.5][li], and [keyword 2][li] }}";
    let linked_notes_res = parser.get_linked_notes(note_data);
    assert!(linked_notes_res.is_some());
    assert_eq!(linked_notes_res.unwrap().len(), 3);
}

#[test]
fn test_markdown_get_linked_notes_string() {
    let original_note_data = "Third {{[o:1] Cloze here, linking to [keyword 1][li], [keyword 1.5][li], and [keyword 2][li] }}";
    let linked_notes_opt = Some(three_links());
    let new_note_data = get_linked_notes_string(
        Syntax::Markdown,
        original_note_data,
        linked_notes_opt.as_ref(),
        "/tmp/spares/data/notes/markdown",
    );
    let expected_new_note_data = "Third {{[o:1] Cloze here, linking to [keyword 1][li1], [keyword 1.5][li2], and [keyword 2][li3] }}\n\n[li1]: /tmp/spares/data/notes/markdown/0001.md \"keyword 1 -> keyword 1\"\n[li2]: /tmp/spares/data/notes/markdown/0001.md \"keyword 1.5 -> keyword 1\"\n[li3]: /tmp/spares/data/notes/markdown/0002.md \"keyword 2 -> keyword 2\"";
    assert_eq!(new_note_data.unwrap(), expected_new_note_data);
}

#[test]
fn linked_keyword_ranges_are_the_first_argument() {
    let note_data = "See #lin([a]).\nAnd #lin([bc]).";
    let ranges = TypstParser::new().get_linked_notes(note_data).unwrap();
    assert_eq!(ranges, vec![Range { start: 9, end: 12 }, Range { start: 24, end: 28 }]);
    assert_eq!(&note_data[ranges[1].clone()], "[bc]");
    let greedy = "See #lin([a]) and #lin([bc], note_link: li9).";
    assert_eq!(TypstParser::new().get_linked_notes(greedy).unwrap(), vec![Range { start: 9, end: 27 }]);
}

#[test]
fn links_without_a_found_note_are_defined_empty() {
    let links = vec![linked("nothing", None, None)];
    let typst = get_linked_notes_string(Syntax::Typst, "x #lin([nothing]) y", Some(&links), "/d").unwrap();
    assert_eq!(typst, "#let li1 = \"\"\n\nx #lin([nothing], note_link: li1) y");
    let markdown = get_linked_notes_string(Syntax::Markdown, "x [nothing][li] y", Some(&links), "/d").unwrap();
    assert_eq!(markdown, "x [nothing][li1] y\n\n[li1]: -");
}

#[test]
fn note_text_is_kept_without_linked_notes() {
    let text = "x #lin([a]) y";
    assert_eq!(get_linked_notes_string(Syntax::Typst, text, None, "/d").unwrap(), text);
}

#[test]
fn cloze_delimiters_of_each_parser() {
    let typst = TypstParser::new();
    assert_eq!(typst.construct_cloze("o:1", "x"), ("#cl[".to_string(), "][o:1]".to_string()));
    assert_eq!(typst.construct_cloze("", "x"), ("#cl[".to_string(), "]".to_string()));
    let markdown = MarkdownParser::new();
    assert_eq!(markdown.construct_cloze("o:1", "x"), ("{{[o:1]".to_string(), "}}".to_string()));
    assert_eq!(markdown.construct_cloze("", "x"), ("{{".to_string(), "}}".to_string()));
    assert_eq!(
        LatexParserNote::new().construct_cloze("g:1", "x"),
        ("\\begin{cl}[g:1]".to_string(), "\\end{cl}".to_string())
    );
    assert_eq!(
        LatexParserExerciseSolution::new().construct_cloze("", "x"),
        ("\\end{exercise}\n\\begin{solution}".to_string(), "\\end{solution}".to_string())
    );
}

#[test]
fn cloze_replacements_by_side() {
    let to_answer = ClozeHiddenReplacement::ToAnswer { hint: Some("h".to_string()) };
    let front = ClozeReplacement::parse(CardSide::Front, &to_answer, "data");
    assert_eq!(front, ClozeReplacement::Hidden(to_answer.clone()));
    let back = ClozeReplacement::parse(CardSide::Back, &to_answer, "data");
    assert_eq!(back, ClozeReplacement::Reveal("data".to_string()));
    let not_to_answer = ClozeReplacement::parse(CardSide::Back, &ClozeHiddenReplacement::NotToAnswer, "data");
    assert_eq!(not_to_answer, ClozeReplacement::Hidden(ClozeHiddenReplacement::NotToAnswer));

    let typst = TypstParser::new();
    assert_eq!(typst.construct_cloze_replacement(&front, CardSide::Front), "#cloze(hint: \"h\")");
    assert_eq!(typst.construct_cloze_replacement(&back, CardSide::Back), "#block(fill: aqua)[data]");
    assert_eq!(typst.construct_cloze_replacement(&not_to_answer, CardSide::Back), "#cloze(to_answer: false)");
    let markdown = MarkdownParser::new();
    assert_eq!(markdown.construct_cloze_replacement(&front, CardSide::Front), "[_____(h)]{.mark}");
    assert_eq!(markdown.construct_cloze_replacement(&back, CardSide::Back), "[data]{.mark}");
    assert_eq!(
        markdown.construct_cloze_replacement(&not_to_answer, CardSide::Front),
        "[_____(no answer)]{.mark}"
    );
    assert_eq!(markdown.construct_cloze_replacement(&not_to_answer, CardSide::Back), "[_____]{.mark}");
    assert_eq!(construct_cloze_replacement(&front, CardSide::Front), "\\hl{\\_\\_\\_\\_\\_ (h)}");
    assert_eq!(
        construct_cloze_replacement(&not_to_answer, CardSide::Back),
        "{\\sethlcolor{{green}}\\hl{\\_\\_\\_\\_\\_}}"
    );
    assert_eq!(construct_cloze_replacement(&back, CardSide::Back), "{\\sethlcolor{blue}\\hl{data}}");
}

#[test]
fn output_file_names() {
    assert_eq!(get_output_filename(RenderOutputType::Note, 1), "0001.pdf");
    assert_eq!(get_output_filename(RenderOutputType::Note, 12345), "12345.pdf");
    assert_eq!(get_output_filename(RenderOutputType::Card(3, CardSide::Front), 12), "0012-3-front.pdf");
    assert_eq!(get_output_filename(RenderOutputType::Card(10, CardSide::Back), 7), "0007-10-back.pdf");
    assert_eq!(get_output_filename(RenderOutputType::Note, -5), "00-5.pdf");
}

#[test]
fn custom_data_is_written_as_a_json_object() {
    let entries = vec![
        ("a".to_string(), JsonValue { text: "\"b\"".to_string(), as_str: Some("b".to_string()) }),
        ("q\"k".to_string(), JsonValue { text: "[1,2]".to_string(), as_str: None }),
    ];
    let text: String = custom_data_json(&entries).into_iter().collect();
    assert_eq!(text, "{\"a\":\"b\",\"q\\\"k\":[1,2]}");
    let joined: String = join_strings(&vec!["x".to_string(), "y".to_string()], ", ").into_iter().collect();
    assert_eq!(joined, "x, y");
}

fn request(keywords: Vec<&str>) -> GenerateNoteFilesRequest {
    GenerateNoteFilesRequest {
        note_id: 7,
        keywords: keywords.into_iter().map(|k| k.to_string()).collect(),
        tags: vec!["t".to_string()],
        linked_notes: None,
        note_data: "Body #cl[x]".to_string(),
        custom_data: vec![("a".to_string(), JsonValue { text: "\"b\"".to_string(), as_str: Some("b".to_string()) })],
    }
}

#[test]
fn typst_note_file() {
    let r = request(vec!["k1", "k2"]);
    let text = TypstParser::new()
        .construct_file_data(ConstructFileDataType::Note, &r, &NoteImportAction::Add, "/d", &vec![])
        .unwrap();
    assert_eq!(
        text,
        "\n#se[action: add]\n#se[note-id: 7]\n#se[keywords: k1, k2]\n#se[tags: t]\n#se[custom-data: {\"a\":\"b\"}]\n\n// spares: note start\nBody #cl[x]\n// spares: note end\n\n"
    );
    let updated = TypstParser::new()
        .construct_file_data(ConstructFileDataType::Note, &r, &NoteImportAction::Update(7), "/d", &vec![])
        .unwrap();
    assert!(updated.starts_with("\n#se[note-id: 7]\n"));
}

#[test]
fn markdown_note_file() {
    let mut r = request(vec![]);
    r.custom_data = vec![];
    let text = MarkdownParser::new()
        .construct_file_data(ConstructFileDataType::Note, &r, &NoteImportAction::Update(7), "/d", &vec![])
        .unwrap();
    assert_eq!(
        text,
        "\n<!--- # note-id: 7 --->\n<!--- # keywords:  --->\n<!--- # tags: t --->\n<!--- spares: note start --->\nBody #cl[x]\n<!--- spares: note end --->\n\n"
    );
}

fn card_data() -> CardData {
    CardData {
        order: Some(1),
        previous_order: None,
        grouping: ClozeGrouping::Auto(1),
        is_suspended: None,
        front_conceal: FrontConceal::OnlyGrouping,
        back_reveal: BackReveal::FullNote,
        back_emphasis: false,
        back_type: BackType::NoteFilePath,
        inherit: None,
        data: vec![
            NotePart::SurroundingData("A ".to_string()),
            NotePart::ClozeStart("#cl[".to_string()),
            NotePart::ClozeData("x".to_string(), ClozeHiddenReplacement::ToAnswer { hint: Some("h".to_string()) }),
            NotePart::ClozeEnd("]".to_string()),
            NotePart::SurroundingData(" B".to_string()),
        ],
    }
}

#[test]
fn card_files_on_each_side() {
    let r = request(vec![]);
    let card = card_data();
    let parser = TypstParser::new();
    let front = parser
        .construct_file_data(ConstructFileDataType::Card(1, &card, CardSide::Front), &r, &NoteImportAction::Add, "/d", &vec![])
        .unwrap();
    assert_eq!(front, "- note-id: 7\n- tags: t\n\n#line(length: 100%)\n\nA #cloze(hint: \"h\") B");
    let r2 = request(vec!["kw"]);
    let back = MarkdownParser::new()
        .construct_file_data(ConstructFileDataType::Card(1, &card, CardSide::Back), &r2, &NoteImportAction::Add, "/d", &vec![])
        .unwrap();
    assert_eq!(back, "- note-id: 7\n- keywords: kw\n- tags: t\n\n$\\hrulefill$\n\nA [x]{.mark} B");
}

#[test]
fn note_text_is_written_back_from_the_first_card() {
    let card = card_data();
    assert_eq!(note_data_from_cards("old", &vec![card.clone()], &vec![]), "A #cl[x] B");
    assert_eq!(note_data_from_cards("old", &vec![], &vec![]), "old");
}

#[test]
fn raw_directories() {
    assert_eq!(get_output_raw_dir("typst", RenderOutputType::Note, "/data"), "/data/notes/typst");
    assert_eq!(
        get_output_raw_dir("markdown", RenderOutputType::Card(1, CardSide::Front), "/data/"),
        "/data/cards/markdown"
    );
}

#[test]
fn notes_of_a_file_are_found_between_their_comments() {
    let data = "// spares: start\n\n// spares: note start\nA\n// spares: note end\n\n// spares: note start\nB b\n// spares: note end\n";
    let notes = TypstParser::new().get_notes_data(data).unwrap();
    assert_eq!(notes.len(), 2);
    assert_eq!(&data[notes[0].data.clone()], "A");
    assert_eq!(&data[notes[1].data.clone()], "B b");
    assert!(notes[0].metadata.is_none());
    let md = "<!--- spares: note start --->\nC\n<!--- spares: note end --->\n";
    let notes = MarkdownParser::new().get_notes_data(md).unwrap();
    assert_eq!(notes.len(), 1);
    assert_eq!(&md[notes[0].data.clone()], "C");
}

#[test]
fn image_occlusions_of_a_note() {
    let data = "x\n// spares: image occlusion start\nimage: a.png\n// spares: image occlusion end\ny";
    let found = TypstParser::new().get_image_occlusions(data).unwrap();
    assert_eq!(found.len(), 1);
    assert_eq!(&data[found[0].capture_range.clone()], "image: a.png");
    assert_eq!(found[0].match_range.start, 2);
    assert_eq!(&data[found[0].match_range.end..], "y");
}

#[test]
fn full_file_of_two_notes() {
    let r1 = request(vec![]);
    let mut r2 = request(vec![]);
    r2.note_id = 8;
    r2.custom_data = vec![];
    let parser = TypstParser::new();
    let one = parser.construct_file_data(ConstructFileDataType::Note, &r1, &NoteImportAction::Add, "/d", &vec![]).unwrap();
    let two = parser.construct_file_data(ConstructFileDataType::Note, &r2, &NoteImportAction::Add, "/d", &vec![]).unwrap();
    let requests = vec![(ConstructFileDataType::Note, &r1, vec![]), (ConstructFileDataType::Note, &r2, vec![])];
    let full = parser.construct_full_file_data(&requests, &NoteImportAction::Add, "/d").unwrap();
    assert_eq!(full, format!("// spares: start\n\n{}{}\n// spares: end\n", one, two));
    let card = card_data();
    let cards = vec![
        (ConstructFileDataType::Card(1, &card, CardSide::Front), &r1, vec![]),
        (ConstructFileDataType::Card(2, &card, CardSide::Front), &r2, vec![]),
    ];
    let card_file = MarkdownParser::new().construct_full_file_data(&cards, &NoteImportAction::Add, "/d").unwrap();
    assert!(card_file.starts_with("- note-id: 7\n"));
    assert!(card_file.contains("A [_____(h)]{.mark} B- note-id: 8\n"));
}

#[test]
fn latex_note_and_card_files() {
    let mut r = request(vec!["k"]);
    r.linked_notes = Some(vec![linked("kw", Some(2), Some("m")), linked("x", None, None)]);
    let parser = LatexParserNote::new();
    let note = parser.construct_file_data(ConstructFileDataType::Note, &r, &NoteImportAction::Add, "/d/notes/latex-note", &vec![]);
    assert_eq!(
        note,
        "\n\\se{action: add}\n\\se{note-id: 7}\n\\se{keywords: k}\n\\se{tags: t}\n\\se{custom-data: {\"a\":\"b\"}}\n\\begin{note}\nBody #cl[x]\n\\end{note}\n\nLinked Notes:\n\\begin{enumerate}[label=\\arabic*.]\n  \\item{\\lhref{/d/notes/latex-note/0002.tex}{kw $\\rightarrow$ m}}\n  \\item{{-}}\n\\end{enumerate}\n\n"
    );
    let card = card_data();
    let front = LatexParserExerciseSolution::new().construct_file_data(
        ConstructFileDataType::Card(1, &card, CardSide::Front),
        &r,
        &NoteImportAction::Add,
        "/d",
        &vec![],
    );
    assert_eq!(
        front,
        "\n\n\\se{note-id: 7}\n\\se{keywords: k}\n\\se{tags: t}\n\\begin{mdframed}\nA \\hl{\\_\\_\\_\\_\\_ (h)} B\n\\end{mdframed}\n\n"
    );
}

#[test]
fn image_occlusions_on_cards_are_given_in_order() {
    let r = request(vec![]);
    let mut card = card_data();
    let image = spares::image_occlusion::ImageOcclusionData {
        original_image_filepath: "a.png".to_string(),
        clozes_filepath: "a.svg".to_string(),
        front_conceal: FrontConceal::AllGroupings,
        back_reveal: BackReveal::OnlyAnswered,
    };
    card.data.push(NotePart::ImageOcclusion { cloze_indices: vec![], data: image.clone() });
    card.data.push(NotePart::ImageOcclusion { cloze_indices: vec![], data: image });
    let images = vec!["[one]".to_string(), "[two]".to_string()];
    let text = TypstParser::new()
        .construct_file_data(ConstructFileDataType::Card(1, &card, CardSide::Back), &r, &NoteImportAction::Add, "/d", &images)
        .unwrap();
    assert!(text.ends_with("A #block(fill: aqua)[x] B[one][two]"));
    assert_eq!(note_data_from_cards("old", &vec![card], &images), "A #cl[x] B[one][two]");
}

#[test]
fn each_note_takes_the_settings_before_it() {
    let m = |a: usize, b: usize| RegexMatch { match_range: a..b, capture_range: a + 1..b - 1 };
    let settings = vec![m(0, 5), m(6, 10), m(30, 35), m(60, 70)];
    let notes = vec![
        NoteRawData { metadata: None, data: 20..25 },
        NoteRawData { metadata: None, data: 26..28 },
        NoteRawData { metadata: None, data: 40..50 },
    ];
    let split = note_settings_ranges(&settings, &notes);
    assert_eq!(split, vec![vec![1..4, 7..9], vec![], vec![31..34]]);
}

#[test]
fn markdown_settings_are_hidden_comments() {
    let data = "<!--- # tags: a --->\ntext\n<!--- # k: x --->";
    let settings = MarkdownParser::new().get_settings(data).unwrap();
    assert_eq!(settings.len(), 2);
    assert_eq!(&data[settings[0].capture_range.clone()], "tags: a");
    assert_eq!(settings[0].match_range, 0..20);
    assert_eq!(&data[settings[1].capture_range.clone()], "k: x");
}

#[test]
fn aux_dir_is_under_aux_with_the_id_on_four_digits() {
    assert_eq!(get_aux_dir("/tmp/out", 42), "/tmp/out/aux/0042");
    assert_eq!(get_aux_dir("/tmp/out", 12345), "/tmp/out/aux/12345");
}

#[test]
fn custom_data_keys_are_escaped_as_json_strings() {
    let entries = vec![("a\"b\n\u{1}\u{1f}".to_string(), JsonValue { text: "1".to_string(), as_str: None })];
    let text: String = custom_data_json(&entries).into_iter().collect();
    assert_eq!(text, "{\"a\\\"b\\n\\u0001\\u001f\":1}");
}
