//! File paths of notes: which parser and note a note file belongs to, and new file names
//! made from old ones. Paths are held as text; what `std::path::Path` makes of a path is
//! named by the spec functions below. `std::path` follows the path conventions of the
//! platform the library is built for, so these names stand for that platform's rules.

use crate::cards::assemble::opt_view;
use crate::clozes::NoteId;
use crate::notes::settings::{parse_i64, parse_i64_exec};
use vstd::prelude::*;

verus! {

/// The path without its last component, as `std::path::Path::parent` gives it.
pub uninterp spec fn path_parent_of(path: Seq<char>) -> Option<Seq<char>>;

/// The last component of the path, as `std::path::Path::file_name` gives it.
pub uninterp spec fn path_file_name_of(path: Seq<char>) -> Option<Seq<char>>;

/// The file name without its extension, as `std::path::Path::file_stem` gives it.
pub uninterp spec fn path_file_stem_of(path: Seq<char>) -> Option<Seq<char>>;

/// The extension of the file name, as `std::path::Path::extension` gives it.
pub uninterp spec fn path_extension_of(path: Seq<char>) -> Option<Seq<char>>;

/// The path with its file name replaced by `name`, as `std::path::Path::with_file_name`
/// gives it.
pub uninterp spec fn path_with_file_name(path: Seq<char>, name: Seq<char>) -> Seq<char>;

/// The path `dir` with `name` pushed onto it, as `std::path::Path::join` gives it.
pub uninterp spec fn path_joined(dir: Seq<char>, name: Seq<char>) -> Seq<char>;

/// The path with its extension set to `ext`, as `std::path::Path::with_extension` gives it.
pub uninterp spec fn path_extension_set(path: Seq<char>, ext: Seq<char>) -> Seq<char>;

/// `std::path::Path::join`, on paths written as text.
#[verifier::external_body]
pub(crate) fn join_path(dir: &str, name: &str) -> (r: String)
    ensures
        r@ == path_joined(dir@, name@),
{
    std::path::Path::new(dir).join(name).to_string_lossy().into_owned()
}

/// The extensions the library gives its files hold no path separator.
pub(crate) proof fn lemma_extensions_have_no_separator()
    ensures
        !"typ"@.contains('/') && !"typ"@.contains('\\'),
        !"md"@.contains('/') && !"md"@.contains('\\'),
        !"tex"@.contains('/') && !"tex"@.contains('\\'),
        !"png"@.contains('/') && !"png"@.contains('\\'),
{
    reveal_strlit("typ");
    reveal_strlit("md");
    reveal_strlit("tex");
    reveal_strlit("png");
    assert("typ"@ =~= seq!['t', 'y', 'p']);
    assert("md"@ =~= seq!['m', 'd']);
    assert("tex"@ =~= seq!['t', 'e', 'x']);
    assert("png"@ =~= seq!['p', 'n', 'g']);
}

/// `std::path::Path::with_extension`, on a path and an extension written as text. It
/// panics on an extension holding a path separator (`/`, and also `\\` on Windows), which
/// is left out.
#[verifier::external_body]
pub(crate) fn with_extension(path: &str, ext: &str) -> (r: String)
    requires
        !ext@.contains('/'),
        !ext@.contains('\\'),
    ensures
        r@ == path_extension_set(path@, ext@),
{
    std::path::Path::new(path).with_extension(ext).to_string_lossy().into_owned()
}

/// `std::path::Path::parent`, on a path written as text. A path made from text is valid
/// UTF-8, and so is each of its parts, so the conversions back to text lose nothing.
#[verifier::external_body]
fn parent_of(path: &str) -> (r: Option<String>)
    ensures
        opt_view(r) == path_parent_of(path@),
{
    match std::path::Path::new(path).parent() {
        Some(p) => Some(p.to_string_lossy().into_owned()),
        None => None,
    }
}

/// `std::path::Path::file_name`, on a path written as text.
#[verifier::external_body]
fn file_name_of(path: &str) -> (r: Option<String>)
    ensures
        opt_view(r) == path_file_name_of(path@),
{
    match std::path::Path::new(path).file_name() {
        Some(n) => Some(n.to_string_lossy().into_owned()),
        None => None,
    }
}

/// `std::path::Path::file_stem`, on a path written as text.
#[verifier::external_body]
fn file_stem_of(path: &str) -> (r: Option<String>)
    ensures
        opt_view(r) == path_file_stem_of(path@),
{
    match std::path::Path::new(path).file_stem() {
        Some(n) => Some(n.to_string_lossy().into_owned()),
        None => None,
    }
}

/// `std::path::Path::extension`, on a path written as text.
#[verifier::external_body]
fn extension_of(path: &str) -> (r: Option<String>)
    ensures
        opt_view(r) == path_extension_of(path@),
{
    match std::path::Path::new(path).extension() {
        Some(n) => Some(n.to_string_lossy().into_owned()),
        None => None,
    }
}

/// `std::path::Path::with_file_name`, on a path and a file name written as text.
#[verifier::external_body]
fn with_file_name(path: &str, name: &str) -> (r: String)
    ensures
        r@ == path_with_file_name(path@, name@),
{
    std::path::Path::new(path).with_file_name(name).to_string_lossy().into_owned()
}

/// The parser and the note that a note file belongs to.
#[derive(Clone, Debug)]
pub struct NoteFilepathData {
    pub parser_name: String,
    pub note_id: NoteId,
}

/// The name of the directory that holds the file, or why there is none.
pub open spec fn spec_parser_dir(path: Seq<char>) -> Result<Seq<char>, Seq<char>> {
    match path_parent_of(path) {
        None => Err("Failed to get parent"@),
        Some(parent) => match path_file_name_of(parent) {
            None => Err("Failed to get file name"@),
            Some(name) => Ok(name),
        },
    }
}

/// The parser name and note id from the name of the directory of a note file and the
/// stem of its file name: the directory is named after the parser and the file after
/// the note's id.
pub open spec fn spec_note_info(dir: Result<Seq<char>, Seq<char>>, stem: Option<Seq<char>>) -> Result<
    (Seq<char>, NoteId),
    Seq<char>,
> {
    match dir {
        Err(e) => Err(e),
        Ok(name) => match stem {
            None => Err("Failed to get file stem"@),
            Some(s) => match parse_i64(s) {
                None => Err("Failed to parse note id"@),
                Some(id) => Ok((name, id)),
            },
        },
    }
}

pub open spec fn note_info_view(r: Result<NoteFilepathData, String>) -> Result<(Seq<char>, NoteId), Seq<char>> {
    match r {
        Ok(d) => Ok((d.parser_name@, d.note_id)),
        Err(e) => Err(e@),
    }
}

/// The note file data from the name of the directory of the file, or why there is none,
/// and the stem of the file name.
pub fn note_info_from_names(parser_dir: Result<String, String>, file_stem: Option<String>) -> (r: Result<
    NoteFilepathData,
    String,
>)
    ensures
        note_info_view(r) == spec_note_info(
            match parser_dir {
                Ok(n) => Ok(n@),
                Err(e) => Err(e@),
            },
            opt_view(file_stem),
        ),
{
    match parser_dir {
        Err(e) => Err(e),
        Ok(parser_name) => match file_stem {
            None => Err(String::from_str("Failed to get file stem")),
            Some(stem) => match parse_i64_exec(stem.as_str()) {
                None => Err(String::from_str("Failed to parse note id")),
                Some(note_id) => Ok(NoteFilepathData { parser_name, note_id }),
            },
        },
    }
}

/// The parser and note of a note file, from its path: the file lies in a directory named
/// after the parser, and its name without extension is the note's id.
pub fn get_note_info_from_filepath(note_filepath: &str) -> (r: Result<NoteFilepathData, String>)
    ensures
        note_info_view(r) == spec_note_info(spec_parser_dir(note_filepath@), path_file_stem_of(note_filepath@)),
{
    let parser_dir = match parent_of(note_filepath) {
        None => Err(String::from_str("Failed to get parent")),
        Some(parent) => match file_name_of(parent.as_str()) {
            None => Err(String::from_str("Failed to get file name")),
            Some(name) => Ok(name),
        },
    };
    let stem = file_stem_of(note_filepath);
    note_info_from_names(parser_dir, stem)
}

/// The path with `suffix` added to the file name before its extension; a path without a
/// file stem or an extension is kept as it is.
pub open spec fn spec_append_to_stem(path: Seq<char>, suffix: Seq<char>) -> Seq<char> {
    match (path_file_stem_of(path), path_extension_of(path)) {
        (Some(stem), Some(ext)) => path_with_file_name(path, stem + suffix + seq!['.'] + ext),
        _ => path,
    }
}

/// Adds `suffix` to the file name of `path`, before its extension.
pub fn append_to_stem(path: &str, suffix: &str) -> (r: String)
    ensures
        r@ == spec_append_to_stem(path@, suffix@),
{
    match file_stem_of(path) {
        Some(stem) => match extension_of(path) {
            Some(ext) => {
                let ghost stem_v = stem@;
                let mut name = stem;
                name.append(suffix);
                name.append(".");
                name.append(ext.as_str());
                proof {
                    reveal_strlit(".");
                    assert(name@ =~= stem_v + suffix@ + seq!['.'] + ext@);
                }
                with_file_name(path, name.as_str())
            },
            None => path.to_string(),
        },
        None => path.to_string(),
    }
}

/// The file of the `n`-th image occlusion of a card side whose rendered file is
/// `rendered`: `-io-` and `n` added to the file stem, as a PNG image.
pub open spec fn spec_image_occlusion_card_filepath(rendered: Seq<char>, n: usize) -> Seq<char> {
    path_extension_set(spec_append_to_stem(rendered, "-io-"@ + crate::text_num::decimal(n as nat)), "png"@)
}

/// The file of the `image_occlusion_order_in_card`-th image occlusion of a card side, next
/// to the card side's rendered file (whose name already tells the side).
pub fn get_image_occlusion_card_filepath(
    output_rendered_filepath: &str,
    side: crate::files::CardSide,
    image_occlusion_order_in_card: usize,
) -> (r: String)
    ensures
        r@ == spec_image_occlusion_card_filepath(output_rendered_filepath@, image_occlusion_order_in_card),
{
    let mut suffix = crate::text::str_chars("-io-");
    let digits = crate::text_num::usize_to_decimal(image_occlusion_order_in_card);
    let ghost before = suffix@;
    let mut i: usize = 0;
    while i < digits.len()
        invariant
            0 <= i <= digits.len(),
            suffix@ == before + digits@.take(i as int),
        decreases digits.len() - i,
    {
        suffix.push(digits[i]);
        proof {
            assert(digits@.take(i + 1) =~= digits@.take(i as int).push(digits@[i as int]));
        }
        i += 1;
    }
    proof {
        assert(digits@.take(digits.len() as int) =~= digits@);
    }
    let suffix = crate::text::chars_to_string(suffix.as_slice());
    let stem = append_to_stem(output_rendered_filepath, suffix.as_str());
    proof {
        lemma_extensions_have_no_separator();
    }
    with_extension(stem.as_str(), "png")
}

} // verus!
