use spares::clozes::keys::RegexMatch;
use spares::clozes::ClozeMatch;
use spares::error::{LibraryError, ParserErrorKind};
use spares::parsers::{find_parser, get_all_parsers, validate_parser, ParserKind, TypstParser};
use std::ops::Range;

#[test]
fn test_typst_get_clozes() {
    let parser = TypstParser::new();
    let note_data = "Third #cl[Cloze here, linking to #lin([keyword 1]), #lin([keyword 1.5]), and #lin([keyword 2])][o:1]";
    let cloze_matches = parser.get_clozes(note_data);
    assert_eq!(cloze_matches.len(), 1);
    assert_eq!(
        cloze_matches[0],
        ClozeMatch {
            start_match: 6..10,
            end_match: 94..100,
            settings_match: 96..99,
        }
    );
}

#[test]
fn test_typst_clozes_escaped_bracket() {
    let parser = TypstParser::new();
    let note_data = "Test #cl[math \\] $ [3] $]";
    let clozes = parser.get_clozes(note_data);
    assert_eq!(
        clozes,
        vec![ClozeMatch {
            start_match: 5..9,
            end_match: 24..25,
            settings_match: Range::default(),
        }]
    );
}

#[test]
fn nested_clozes_follow_their_outer_cloze() {
    let parser = TypstParser::new();
    let clozes = parser.get_clozes("#cl[a #cl[b]] #cl[c]");
    assert_eq!(clozes.len(), 3);
    assert_eq!(clozes[0].start_match, 0..4);
    assert_eq!(clozes[1].start_match, 6..10);
    assert_eq!(clozes[2].start_match, 14..18);
}

#[test]
fn typst_settings_are_the_arguments_of_se() {
    let parser = TypstParser::new();
    let settings = parser.get_settings("#se[note-id: 3] text #se[tags: a]");
    assert_eq!(
        settings,
        vec![
            RegexMatch { match_range: 4..14, capture_range: 4..14 },
            RegexMatch { match_range: 25..32, capture_range: 25..32 },
        ]
    );
}

#[test]
fn comments_and_settings_of_each_syntax() {
    let typst = TypstParser::new();
    assert_eq!(typst.construct_setting("tags: a"), "#se[tags: a]\n");
    assert_eq!(typst.construct_comment("spares: note start"), "// spares: note start\n");
    assert_eq!(typst.extract_comment("//   hello  "), "hello");
    assert_eq!(typst.extract_comment("plain"), "plain");
    assert_eq!(spares::parsers::construct_setting("k: v"), "\\se{k: v}\n");
    assert_eq!(spares::parsers::construct_comment("c"), "% c\n");
    assert_eq!(spares::parsers::extract_comment("% c "), "c");
    let markdown = spares::parsers::MarkdownParser::new();
    assert_eq!(markdown.construct_setting("k: v"), "<!--- # k: v --->\n");
    assert_eq!(markdown.construct_comment("c"), "<!--- c --->\n");
}

#[test]
fn test_parsers_validation() {
    let all_parsers = get_all_parsers();
    assert!(!all_parsers.is_empty());
    let mut all_parser_names = Vec::new();
    for parser in &all_parsers {
        all_parser_names.push(parser.get_parser_name());
        assert!(validate_parser(parser).is_none());
    }
    let mut unique = all_parser_names.clone();
    unique.sort();
    unique.dedup();
    assert_eq!(all_parser_names.len(), unique.len());
}

#[test]
fn parsers_are_found_by_name() {
    let all = get_all_parsers();
    assert_eq!(find_parser("typst", &all), Ok(ParserKind::Typst));
    assert_eq!(find_parser("latex-note", &all), Ok(ParserKind::LatexNote));
    assert_eq!(
        find_parser("word", &all),
        Err(LibraryError::Parser(ParserErrorKind::NotFound("word".to_string())))
    );
    let twice = vec![ParserKind::Markdown, ParserKind::Markdown];
    assert_eq!(
        find_parser("markdown", &twice),
        Err(LibraryError::Parser(ParserErrorKind::NotFound("markdown".to_string())))
    );
}

#[test]
fn template_of_a_parser_lies_in_its_configuration_directory() {
    assert_eq!(ParserKind::Typst.template_path("/cfg"), "/cfg/typst/templates/template.typ");
    assert_eq!(ParserKind::LatexNote.template_path("/cfg"), "/cfg/latex-note/templates/template.tex");
    assert_eq!(ParserKind::Markdown.template_path("/cfg"), "/cfg/markdown/templates/template.md");
}

#[test]
fn template_is_filled_at_each_placeholder() {
    let p = ParserKind::Typst;
    assert_eq!(p.body_placeholder(), "// spares: note body\n");
    let template = "#set page(a4)\n// spares: note body\nend\n";
    assert_eq!(p.fill_template(template, "Body.\n"), "#set page(a4)\nBody.\nend\n");
    let twice = "// spares: note body\n// spares: note body\n";
    assert_eq!(p.fill_template(twice, "x"), "xx");
    assert_eq!(p.fill_template("no placeholder", "x"), "no placeholder");
}

#[test]
fn replace_all_takes_matches_from_the_left_without_overlap() {
    assert_eq!(spares::text::replace_all("aaa", "aa", "b"), "ba");
    assert_eq!(spares::text::replace_all("abcabc", "bc", "X"), "aXaX");
    assert_eq!(spares::text::replace_all("", "a", "b"), "");
}

#[test]
fn checked_scan_finds_what_the_scan_finds() {
    let p = TypstParser::new();
    let data = "Test #se[basic] asd #cl[test] #se[key]";
    let settings = p.get_settings_checked(data).unwrap();
    let ranges: Vec<Range<usize>> = settings.iter().map(|m| m.capture_range.clone()).collect();
    assert_eq!(ranges, vec![9..14, 34..37]);
    assert_eq!(p.get_clozes_checked(data).unwrap().len(), 1);
}

#[test]
fn checked_scan_refuses_a_bracket_closing_nothing() {
    let p = TypstParser::new();
    assert_eq!(p.get_clozes_checked("a ] b"), None);
    assert_eq!(p.get_settings_checked("a ] #se[x]"), None);
}
