use spares::cache::{cache_applies, is_up_to_date, with_hash_line};
use spares::parsers::ParserKind;

const HELLO_DIGEST: &str = "2cf24dba5fb0a30e26e83b2ac5b9e29e1b161e5c1fa7425e73043362938b9824";

#[test]
fn hash_line_holds_the_digest_in_a_comment() {
    assert_eq!(with_hash_line(&ParserKind::Typst, "hello"), format!("hello// hash: {HELLO_DIGEST}\n"));
    assert_eq!(with_hash_line(&ParserKind::LatexNote, "hello"), format!("hello% hash: {HELLO_DIGEST}\n"));
    assert_eq!(
        with_hash_line(&ParserKind::Markdown, "hello"),
        format!("hello<!--- hash: {HELLO_DIGEST} --->\n")
    );
}

#[test]
fn a_file_written_with_its_hash_is_up_to_date() {
    let text = "#set page(width: 10cm)\nA note.\n";
    for parser in [ParserKind::Typst, ParserKind::Markdown, ParserKind::LatexNote, ParserKind::LatexExerciseSolution] {
        let written = with_hash_line(&parser, text);
        assert!(is_up_to_date(&parser, &written, text));
    }
}

#[test]
fn a_file_is_not_up_to_date_for_other_text() {
    let written = with_hash_line(&ParserKind::Typst, "old text\n");
    assert!(!is_up_to_date(&ParserKind::Typst, &written, "new text\n"));
}

#[test]
fn a_file_edited_by_hand_is_not_up_to_date() {
    let text = "first line\n";
    let written = with_hash_line(&ParserKind::Typst, text);
    let edited = format!("edited\n{written}");
    assert!(!is_up_to_date(&ParserKind::Typst, &edited, text));
}

#[test]
fn a_file_without_a_hash_is_not_up_to_date() {
    assert!(!is_up_to_date(&ParserKind::Typst, "first line\nsecond line\n", "first line\n"));
    assert!(!is_up_to_date(&ParserKind::Typst, "", ""));
}

#[test]
fn a_hash_in_another_parsers_comment_is_not_read() {
    let text = "body\n";
    let written = with_hash_line(&ParserKind::Markdown, text);
    assert!(!is_up_to_date(&ParserKind::Typst, &written, text));
}

#[test]
fn carriage_returns_before_line_feeds_are_not_given_back() {
    let text = "a\r\nb\n";
    let written = with_hash_line(&ParserKind::Typst, text);
    assert!(!is_up_to_date(&ParserKind::Typst, &written, text));
}

#[test]
fn cache_applies_only_when_rendering_is_not_forced_and_the_files_exist() {
    assert!(cache_applies(true, false, true, true));
    assert!(cache_applies(false, false, true, false));
    assert!(!cache_applies(true, false, true, false));
    assert!(!cache_applies(false, true, true, true));
    assert!(!cache_applies(false, false, false, true));
}

#[test]
fn markdown_comment_text_is_read_between_its_marks() {
    let p = ParserKind::Markdown;
    assert_eq!(p.extract_comment("<!--- hash: abc --->"), "hash: abc");
    assert_eq!(p.extract_comment("<!--->"), "<!--->");
    assert_eq!(p.extract_comment("plain"), "plain");
    assert_eq!(p.construct_comment("x"), "<!--- x --->\n");
}
