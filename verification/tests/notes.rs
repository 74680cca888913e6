use spares::clozes::keys::{NoteImportAction, NoteSettingsKeys};
use spares::error::{LibraryError, NoteErrorKind};
use spares::notes::lists::{parse_settings_list, sort_strings};
use spares::notes::settings::{get_adapter_note_id_key, parse_i64_exec, parse_note_settings, NoteSettings};
use std::ops::Range;

fn strings(v: &[&str]) -> Vec<String> {
    v.iter().map(|s| s.to_string()).collect()
}

#[test]
fn settings_list_adds_removes_and_clears() {
    let mut existing = strings(&["b", "a"]);
    assert_eq!(parse_settings_list("c, -a", &mut existing, false), Ok(()));
    assert_eq!(existing, strings(&["b", "c"]));
    assert_eq!(parse_settings_list("-x, d", &mut existing, true), Err(strings(&["x"])));
    assert_eq!(existing, strings(&["b", "c", "d"]));
    assert_eq!(parse_settings_list("-*, z, y", &mut existing, true), Ok(()));
    assert_eq!(existing, strings(&["y", "z"]));
    assert_eq!(parse_settings_list(" , ", &mut existing, false), Ok(()));
    assert_eq!(existing, strings(&["y", "z"]));
}

#[test]
fn strings_sort_as_str_orders_them() {
    let mut v = strings(&["b", "B", "a", "ab", ""]);
    sort_strings(&mut v);
    assert_eq!(v, strings(&["", "B", "a", "ab", "b"]));
}

#[test]
fn adapter_note_id_keys() {
    assert_eq!(get_adapter_note_id_key("spares"), "note-id");
    assert_eq!(get_adapter_note_id_key("anki"), "anki-note-id");
}

#[test]
fn note_ids_parse_as_i64() {
    assert_eq!(parse_i64_exec("42"), Some(42));
    assert_eq!(parse_i64_exec("+7"), Some(7));
    assert_eq!(parse_i64_exec("-9223372036854775808"), Some(i64::MIN));
    assert_eq!(parse_i64_exec("9223372036854775808"), None);
    assert_eq!(parse_i64_exec(""), None);
    assert_eq!(parse_i64_exec("-"), None);
    assert_eq!(parse_i64_exec("1a"), None);
}

fn parse(data: &str, ranges: &[Range<usize>]) -> (NoteSettings, NoteSettings) {
    let keys = NoteSettingsKeys::default();
    let mut global = NoteSettings::default();
    let mut local = NoteSettings::default();
    parse_note_settings(&keys, data, ranges, &mut global, &mut local, "spares", &(0..data.len()));
    (global, local)
}

#[test]
fn note_settings_with_an_id_update_the_note() {
    let data = "note-id: 12; tags: b, a; k: x";
    let (global, local) = parse(data, &[0..data.len()]);
    assert_eq!(local.action, NoteImportAction::Update(12));
    assert_eq!(local.tags, strings(&["a", "b"]));
    assert_eq!(local.keywords, strings(&["x"]));
    assert!(local.custom_data.is_empty());
    assert!(local.errors_and_warnings.is_empty());
    assert_eq!(global.action, NoteImportAction::Add);
    assert!(global.tags.is_empty());
}

#[test]
fn global_settings_apply_to_both() {
    let data = "g-tags: z; other: v";
    let (global, local) = parse(data, &[0..data.len()]);
    assert_eq!(global.tags, strings(&["z"]));
    assert_eq!(local.tags, strings(&["z"]));
    assert_eq!(local.custom_data.len(), 1);
    assert_eq!(local.custom_data[0].0, "other");
    assert_eq!(local.custom_data[0].1.as_str, Some("v".to_string()));
    assert_eq!(local.custom_data[0].1.text, "\"v\"");
    assert!(global.custom_data.is_empty());
}

#[test]
fn custom_data_json_is_read_into_entries() {
    let data = "custom-data: {\"a\": 1, \"b\": \"c\"}";
    let (_, local) = parse(data, &[0..data.len()]);
    assert_eq!(local.custom_data.len(), 2);
    assert_eq!(local.custom_data[0].0, "a");
    assert_eq!(local.custom_data[0].1.text, "1");
    assert_eq!(local.custom_data[1].1.as_str, Some("c".to_string()));
}

#[test]
fn note_settings_errors() {
    let data = "action: update";
    let (_, local) = parse(data, &[0..data.len()]);
    assert_eq!(local.errors_and_warnings.len(), 1);
    assert!(matches!(
        &local.errors_and_warnings[0],
        LibraryError::Note(NoteErrorKind::InvalidSettings { description, .. })
            if description == "Note id is needed for editing a note."
    ));
    let data = "action: fly";
    let (_, local) = parse(data, &[0..data.len()]);
    assert!(matches!(
        &local.errors_and_warnings[0],
        LibraryError::Note(NoteErrorKind::InvalidSettings { description, .. })
            if description == "The action `fly` is not supported."
    ));
    let data = "tags: -q";
    let (_, local) = parse(data, &[0..data.len()]);
    assert!(matches!(
        &local.errors_and_warnings[0],
        LibraryError::Note(NoteErrorKind::SettingsWarning { description, .. })
            if description == "The item `q` was not found, so it could not be removed."
    ));
}

#[test]
fn each_note_reads_its_settings_after_the_shared_ones() {
    use_notes_settings();
}

fn use_notes_settings() {
    let data = "#se[g-tags: a]\n#se[note-id: 3]\n// spares: note start\nA\n// spares: note end\n#se[k: x]\n// spares: note start\nB\n// spares: note end\n";
    let parser = spares::parsers::TypstParser::new();
    let settings = parser.get_settings(data);
    let notes = parser.get_notes_data(data).unwrap();
    assert_eq!(notes.len(), 2);
    let all = spares::notes::collect::notes_settings(&NoteSettingsKeys::default(), data, &notes, &settings, "spares");
    assert_eq!(all.len(), 2);
    assert_eq!(all[0].tags, strings(&["a"]));
    assert_eq!(all[0].action, NoteImportAction::Update(3));
    assert_eq!(all[1].tags, strings(&["a"]));
    assert_eq!(all[1].keywords, strings(&["x"]));
    assert_eq!(all[1].action, NoteImportAction::Add);
    assert!(all[1].errors_and_warnings.is_empty());
}

#[test]
fn note_body_is_the_note_trimmed() {
    let data = "xx  body \nyy";
    assert_eq!(spares::notes::collect::note_body(data, &(2..10)), ("body".to_string(), None));
}

#[test]
fn note_body_still_holding_todo_is_warned_about() {
    let data = "<!--- a --->\n  TODO: finish  \n";
    let (body, warning) = spares::notes::collect::note_body(data, &(13..29));
    assert_eq!(body, "TODO: finish");
    assert_eq!(
        warning,
        Some(spares::error::LibraryError::Note(spares::error::NoteErrorKind::SettingsWarning {
            description: "The field `data` contains TODO.".to_string(),
            src: data.to_string(),
            at: 13..29,
        }))
    );
}
