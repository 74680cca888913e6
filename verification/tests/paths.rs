use spares::paths::{append_to_stem, get_note_info_from_filepath, note_info_from_names};

#[test]
fn note_info_from_a_note_file_path() {
    let info = get_note_info_from_filepath("/data/notes/typst/0042.typ").unwrap();
    assert_eq!(info.parser_name, "typst");
    assert_eq!(info.note_id, 42);
}

#[test]
fn note_info_errors() {
    assert_eq!(get_note_info_from_filepath("/").unwrap_err(), "Failed to get parent");
    assert_eq!(get_note_info_from_filepath("/notes/abc.md").unwrap_err(), "Failed to parse note id");
    assert_eq!(get_note_info_from_filepath("0001.md").unwrap_err(), "Failed to get file name");
    assert_eq!(
        note_info_from_names(Ok("markdown".to_string()), None).unwrap_err(),
        "Failed to get file stem"
    );
    assert_eq!(note_info_from_names(Err("e".to_string()), Some("1".to_string())).unwrap_err(), "e");
    let d = note_info_from_names(Ok("markdown".to_string()), Some("-3".to_string())).unwrap();
    assert_eq!((d.parser_name.as_str(), d.note_id), ("markdown", -3));
}

#[test]
fn suffix_goes_before_the_extension() {
    assert_eq!(append_to_stem("/a/b/image.png", "-front"), "/a/b/image-front.png");
    assert_eq!(append_to_stem("/a/b/image", "-front"), "/a/b/image");
    assert_eq!(append_to_stem("archive.tar.gz", "-1"), "archive.tar-1.gz");
}

#[test]
fn image_occlusion_files_sit_next_to_the_card() {
    use_card_filepath();
}

fn use_card_filepath() {
    let p = spares::paths::get_image_occlusion_card_filepath(
        "/cache/image_occlusions/0007-1-front.pdf",
        spares::files::CardSide::Front,
        2,
    );
    assert_eq!(p, "/cache/image_occlusions/0007-1-front-io-2.png");
}
