//! The parsers of the markup languages notes are written in, and how each writes a setting
//! and a comment.

use crate::clozes::keys::RegexMatch;
use crate::clozes::ClozeMatch;
use crate::error::{LibraryError, ParserErrorKind};
use crate::paths::{join_path, path_joined};
use crate::text::{replace_all, replaced, str_chars, trim, trim_range};
use crate::typst_data::{all_clozes, all_clozes_checked, all_found_clozes, all_found_ranges, all_ranges, all_ranges_checked, start_view, OutputType};
use std::ops::Range;
use vstd::prelude::*;
use vstd::string::StrSliceExecFns;

verus! {

/// `s` without the prefix `prefix`, trimmed, when it starts with it; `s` otherwise.
pub open spec fn strip_and_trim(s: Seq<char>, prefix: Seq<char>) -> Seq<char> {
    if prefix.is_prefix_of(s) {
        trim(s.skip(prefix.len() as int))
    } else {
        s
    }
}

/// The text of `data` after `prefix`, trimmed, when `data` starts with `prefix`; `data`
/// itself otherwise.
fn strip_prefix_trim<'a>(data: &'a str, prefix: &str) -> (r: &'a str)
    ensures
        r@ == strip_and_trim(data@, prefix@),
{
    let v = str_chars(data);
    let p = str_chars(prefix);
    if p.len() <= v.len() && crate::text::range_equals(&v, 0, p.len(), &p) {
        let (a, b) = trim_range(&v, p.len(), v.len());
        proof {
            assert(v@.subrange(p.len() as int, v.len() as int) =~= v@.skip(p.len() as int));
        }
        data.substring_char(a, b)
    } else {
        data
    }
}

pub(crate) fn concat3(a: &str, b: &str, c: &str) -> (r: String)
    ensures
        r@ == a@ + b@ + c@,
{
    let mut out: Vec<char> = Vec::new();
    crate::clozes::parse::push_str(&mut out, a);
    crate::clozes::parse::push_str(&mut out, b);
    crate::clozes::parse::push_str(&mut out, c);
    crate::text::chars_to_string(out.as_slice())
}

/// A LaTeX setting: `\se{data}` on a line of its own.
pub fn construct_setting(data: &str) -> (r: String)
    ensures
        r@ == "\\se{"@ + data@ + "}\n"@,
{
    concat3("\\se{", data, "}\n")
}

/// A LaTeX comment: `% data` on a line of its own.
pub fn construct_comment(data: &str) -> (r: String)
    ensures
        r@ == "% "@ + data@ + "\n"@,
{
    concat3("% ", data, "\n")
}

/// The text of a LaTeX comment: after `%`, trimmed; `data` itself when it is no comment.
pub fn extract_comment<'a>(data: &'a str) -> (r: &'a str)
    ensures
        r@ == strip_and_trim(data@, "%"@),
{
    strip_prefix_trim(data, "%")
}

/// The text of a Markdown comment: after `<!---` and before `--->`, trimmed; the line
/// itself when it is no comment.
pub open spec fn markdown_comment_text(line: Seq<char>) -> Seq<char> {
    let rest = line.skip(5);
    if "<!---"@.is_prefix_of(line) && rest.len() >= 4 && rest.skip(rest.len() - 4) == "--->"@ {
        trim(rest.take(rest.len() - 4))
    } else {
        line
    }
}

/// The parser of LaTeX notes.
#[derive(Clone, Copy, Debug, Default)]
pub struct LatexParserNote {}

impl LatexParserNote {
    pub fn new() -> (r: Self) {
        Self {}
    }

    pub fn get_parser_name(&self) -> (r: &'static str)
        ensures
            r@ == "latex-note"@,
    {
        "latex-note"
    }
}

/// The parser of LaTeX exercises with their solutions.
#[derive(Clone, Copy, Debug, Default)]
pub struct LatexParserExerciseSolution {}

impl LatexParserExerciseSolution {
    pub fn new() -> (r: Self) {
        Self {}
    }

    pub fn get_parser_name(&self) -> (r: &'static str)
        ensures
            r@ == "latex-exercise-solution"@,
    {
        "latex-exercise-solution"
    }
}

/// The settings of the Markdown parser: the Pandoc defaults file used to render, if any.
#[derive(Clone, Debug, Default)]
pub struct MarkdownParserConfig {
    pub defaults_file: Option<String>,
}

/// Whether rendered files go to a note's directory or to its cards'.
#[derive(Clone, Copy, Debug, PartialEq, Eq)]
pub enum RenderOutputDirectoryType {
    Note,
    Card,
}

/// A template that rendered files are made from, and the placeholder in it that a note's
/// body takes the place of.
#[derive(Clone, Debug)]
pub struct TemplateData {
    pub template_contents: String,
    pub body_placeholder: String,
}

/// The parser of Markdown notes.
#[derive(Clone, Copy, Debug, Default)]
pub struct MarkdownParser {}

impl MarkdownParser {
    pub fn new() -> (r: Self) {
        Self {}
    }

    pub fn get_parser_name(&self) -> (r: &'static str)
        ensures
            r@ == "markdown"@,
    {
        "markdown"
    }

    /// A Markdown setting: a hidden comment holding `# data`.
    pub fn construct_setting(&self, data: &str) -> (r: String)
        ensures
            r@ == "<!--- # "@ + data@ + " --->\n"@,
    {
        concat3("<!--- # ", data, " --->\n")
    }

    /// A Markdown comment: `<!--- data --->` on a line of its own.
    pub fn construct_comment(&self, data: &str) -> (r: String)
        ensures
            r@ == "<!--- "@ + data@ + " --->\n"@,
    {
        concat3("<!--- ", data, " --->\n")
    }

    /// The text of a Markdown comment: between `<!---` and `--->`, trimmed; `data` itself
    /// when it is no comment.
    pub fn extract_comment<'a>(&self, data: &'a str) -> (r: &'a str)
        ensures
            r@ == markdown_comment_text(data@),
    {
        let v = str_chars(data);
        let open = str_chars("<!---");
        let close = str_chars("--->");
        proof {
            reveal_strlit("<!---");
            reveal_strlit("--->");
        }
        if 9 <= v.len() && crate::text::range_equals(&v, 0, 5, &open) && crate::text::range_equals(
            &v,
            v.len() - 4,
            v.len(),
            &close,
        ) {
            let (a, b) = trim_range(&v, 5, v.len() - 4);
            proof {
                let rest = data@.skip(5);
                assert(rest.skip(rest.len() - 4) =~= v@.subrange(v.len() - 4, v.len() as int));
                assert(rest.take(rest.len() - 4) =~= v@.subrange(5, v.len() - 4));
                assert(v@.subrange(0, 5) =~= data@.take(5));
            }
            data.substring_char(a, b)
        } else {
            proof {
                if "<!---"@.is_prefix_of(data@) && data@.skip(5).len() >= 4 && data@.skip(5).skip(data@.skip(5).len() - 4)
                    == "--->"@ {
                    assert(v@.subrange(0, 5) =~= data@.take(5));
                    assert(data@.skip(5).skip(data@.skip(5).len() - 4) =~= v@.subrange(v.len() - 4, v.len() as int));
                }
            }
            data
        }
    }
}

/// The parser of Typst notes.
#[derive(Clone, Copy, Debug, Default)]
pub struct TypstParser {}

impl TypstParser {
    pub fn new() -> (r: Self) {
        Self {}
    }

    pub fn get_parser_name(&self) -> (r: &'static str)
        ensures
            r@ == "typst"@,
    {
        "typst"
    }

    /// A Typst setting: `#se[data]` on a line of its own.
    pub fn construct_setting(&self, data: &str) -> (r: String)
        ensures
            r@ == "#se["@ + data@ + "]\n"@,
    {
        concat3("#se[", data, "]\n")
    }

    /// A Typst comment: `// data` on a line of its own.
    pub fn construct_comment(&self, data: &str) -> (r: String)
        ensures
            r@ == "// "@ + data@ + "\n"@,
    {
        concat3("// ", data, "\n")
    }

    /// The text of a Typst comment: after `//`, trimmed; `data` itself when it is no comment.
    pub fn extract_comment<'a>(&self, data: &'a str) -> (r: &'a str)
        ensures
            r@ == strip_and_trim(data@, "//"@),
    {
        strip_prefix_trim(data, "//")
    }
}

/// A setting found where its argument stands: the match and the captured part are both the
/// argument.
pub open spec fn setting_matches(rs: Seq<Range<usize>>) -> Seq<RegexMatch> {
    rs.map_values(|r: Range<usize>| RegexMatch { match_range: r, capture_range: r })
}

impl TypstParser {
    /// The clozes of `data`, scanned without regular expressions so that nested clozes and
    /// brackets are matched: each outermost cloze followed by the clozes nested in it.
    pub fn get_clozes(&self, data: &str) -> (r: Vec<ClozeMatch>)
        requires
            data@.len() < u32::MAX,
            all_found_clozes(start_view(data@)) is Some,
        ensures
            r@ == all_found_clozes(start_view(data@))->Some_0,
    {
        all_clozes(data)
    }

    /// The clozes of `data`, as `get_clozes` finds them; `None` on the text where the scan
    /// panics (a `]` closing no bracket) or does not move on.
    pub fn get_clozes_checked(&self, data: &str) -> (r: Option<Vec<ClozeMatch>>)
        requires
            data@.len() < u32::MAX,
        ensures
            match r {
                Some(v) => all_found_clozes(start_view(data@)) == Some(v@),
                None => all_found_clozes(start_view(data@)) is None,
            },
    {
        all_clozes_checked(data)
    }

    /// The settings of `data`, as `get_settings` finds them; `None` on the text where the
    /// scan panics or does not move on.
    pub fn get_settings_checked(&self, data: &str) -> (r: Option<Vec<RegexMatch>>)
        requires
            data@.len() < u32::MAX,
        ensures
            match r {
                Some(v) => all_found_ranges(start_view(data@), OutputType::Settings) matches Some(rs) && v@
                    == setting_matches(rs),
                None => all_found_ranges(start_view(data@), OutputType::Settings) is None,
            },
    {
        match all_ranges_checked(data, OutputType::Settings) {
            None => None,
            Some(ranges) => {
                let mut out: Vec<RegexMatch> = Vec::new();
                let mut i: usize = 0;
                while i < ranges.len()
                    invariant
                        0 <= i <= ranges.len(),
                        out@ == setting_matches(ranges@).take(i as int),
                    decreases ranges.len() - i,
                {
                    let r = Range { start: ranges[i].start, end: ranges[i].end };
                    let r2 = Range { start: ranges[i].start, end: ranges[i].end };
                    out.push(RegexMatch { match_range: r, capture_range: r2 });
                    proof {
                        assert(setting_matches(ranges@).take(i + 1) =~= setting_matches(ranges@).take(i as int).push(
                            RegexMatch { match_range: ranges@[i as int], capture_range: ranges@[i as int] },
                        ));
                    }
                    i += 1;
                }
                proof {
                    assert(setting_matches(ranges@).take(ranges.len() as int) =~= setting_matches(ranges@));
                }
                Some(out)
            },
        }
    }

    /// The settings of `data`: the argument of each `#se[...]`.
    pub fn get_settings(&self, data: &str) -> (r: Vec<RegexMatch>)
        requires
            data@.len() < u32::MAX,
            all_found_ranges(start_view(data@), OutputType::Settings) is Some,
        ensures
            r@ == setting_matches(all_found_ranges(start_view(data@), OutputType::Settings)->Some_0),
    {
        let ranges = all_ranges(data, OutputType::Settings);
        let mut out: Vec<RegexMatch> = Vec::new();
        let mut i: usize = 0;
        while i < ranges.len()
            invariant
                0 <= i <= ranges.len(),
                out@ == setting_matches(ranges@).take(i as int),
            decreases ranges.len() - i,
        {
            let r = Range { start: ranges[i].start, end: ranges[i].end };
            let r2 = Range { start: ranges[i].start, end: ranges[i].end };
            out.push(RegexMatch { match_range: r, capture_range: r2 });
            proof {
                assert(setting_matches(ranges@).take(i + 1) =~= setting_matches(ranges@).take(i as int).push(
                    RegexMatch { match_range: ranges@[i as int], capture_range: ranges@[i as int] },
                ));
            }
            i += 1;
        }
        proof {
            assert(setting_matches(ranges@).take(ranges.len() as int) =~= setting_matches(ranges@));
        }
        out
    }
}

/// The parsers of the library.
#[derive(Clone, Copy, Debug, PartialEq, Eq)]
pub enum ParserKind {
    LatexExerciseSolution,
    LatexNote,
    Markdown,
    Typst,
}

pub open spec fn parser_name(p: ParserKind) -> Seq<char> {
    match p {
        ParserKind::LatexExerciseSolution => "latex-exercise-solution"@,
        ParserKind::LatexNote => "latex-note"@,
        ParserKind::Markdown => "markdown"@,
        ParserKind::Typst => "typst"@,
    }
}

impl ParserKind {
    /// The name of the parser, which is also the name of the directories of its files.
    pub fn get_parser_name(&self) -> (r: &'static str)
        ensures
            r@ == parser_name(*self),
    {
        match self {
            ParserKind::LatexExerciseSolution => LatexParserExerciseSolution::new().get_parser_name(),
            ParserKind::LatexNote => LatexParserNote::new().get_parser_name(),
            ParserKind::Markdown => MarkdownParser::new().get_parser_name(),
            ParserKind::Typst => TypstParser::new().get_parser_name(),
        }
    }
}

/// A comment, as the parser writes it: on a line of its own.
pub open spec fn comment_of(p: ParserKind, s: Seq<char>) -> Seq<char> {
    match p {
        ParserKind::LatexExerciseSolution | ParserKind::LatexNote => "% "@ + s + "\n"@,
        ParserKind::Markdown => "<!--- "@ + s + " --->\n"@,
        ParserKind::Typst => "// "@ + s + "\n"@,
    }
}

/// The text of a comment line, as the parser reads it; the line itself when it is no
/// comment.
pub open spec fn comment_text_of(p: ParserKind, line: Seq<char>) -> Seq<char> {
    match p {
        ParserKind::LatexExerciseSolution | ParserKind::LatexNote => strip_and_trim(line, "%"@),
        ParserKind::Markdown => markdown_comment_text(line),
        ParserKind::Typst => strip_and_trim(line, "//"@),
    }
}

impl ParserKind {
    /// A comment holding `data`, as the parser writes it.
    pub fn construct_comment(&self, data: &str) -> (r: String)
        ensures
            r@ == comment_of(*self, data@),
    {
        match self {
            ParserKind::LatexExerciseSolution | ParserKind::LatexNote => construct_comment(data),
            ParserKind::Markdown => MarkdownParser::new().construct_comment(data),
            ParserKind::Typst => TypstParser::new().construct_comment(data),
        }
    }

    /// The text of the comment `data`, as the parser reads it.
    pub fn extract_comment<'a>(&self, data: &'a str) -> (r: &'a str)
        ensures
            r@ == comment_text_of(*self, data@),
    {
        match self {
            ParserKind::LatexExerciseSolution | ParserKind::LatexNote => extract_comment(data),
            ParserKind::Markdown => MarkdownParser::new().extract_comment(data),
            ParserKind::Typst => TypstParser::new().extract_comment(data),
        }
    }
}

/// The extension of the parser's files.
pub open spec fn parser_extension(p: ParserKind) -> Seq<char> {
    match p {
        ParserKind::LatexExerciseSolution | ParserKind::LatexNote => "tex"@,
        ParserKind::Markdown => "md"@,
        ParserKind::Typst => "typ"@,
    }
}

/// Where the template of the parser's files lies: `templates/template.` and the extension,
/// in the parser's directory under the configuration directory.
pub open spec fn spec_template_path(p: ParserKind, config_dir: Seq<char>) -> Seq<char> {
    path_joined(path_joined(path_joined(config_dir, parser_name(p)), "templates"@), "template."@ + parser_extension(p))
}

/// The comment in a template that a note's text takes the place of.
pub open spec fn body_placeholder_of(p: ParserKind) -> Seq<char> {
    comment_of(p, "spares: note body"@)
}

impl ParserKind {
    /// The extension of the parser's files.
    pub fn file_extension(&self) -> (r: &'static str)
        ensures
            r@ == parser_extension(*self),
    {
        match self {
            ParserKind::LatexExerciseSolution | ParserKind::LatexNote => "tex",
            ParserKind::Markdown => "md",
            ParserKind::Typst => "typ",
        }
    }

    /// Where the template of the parser's files lies under the configuration directory.
    pub fn template_path(&self, config_dir: &str) -> (r: String)
        ensures
            r@ == spec_template_path(*self, config_dir@),
    {
        let dir = join_path(config_dir, self.get_parser_name());
        let templates = join_path(dir.as_str(), "templates");
        let name = concat3("template.", self.file_extension(), "");
        proof {
            reveal_strlit("");
            assert(name@ =~= "template."@ + parser_extension(*self));
        }
        join_path(templates.as_str(), name.as_str())
    }

    /// The comment in a template that a note's text takes the place of.
    pub fn body_placeholder(&self) -> (r: String)
        ensures
            r@ == body_placeholder_of(*self),
    {
        self.construct_comment("spares: note body")
    }

    /// The template with the note's text in place of each placeholder comment.
    pub fn fill_template(&self, template_contents: &str, note_file_data: &str) -> (r: String)
        ensures
            r@ == replaced(template_contents@, body_placeholder_of(*self), note_file_data@),
    {
        let placeholder = self.body_placeholder();
        proof {
            reveal_strlit("% ");
            reveal_strlit("<!--- ");
            reveal_strlit("// ");
        }
        replace_all(template_contents, placeholder.as_str(), note_file_data)
    }
}

/// All parsers of the library.
pub open spec fn all_parsers() -> Seq<ParserKind> {
    seq![ParserKind::LatexExerciseSolution, ParserKind::LatexNote, ParserKind::Markdown, ParserKind::Typst]
}

pub fn get_all_parsers() -> (r: Vec<ParserKind>)
    ensures
        r@ == all_parsers(),
{
    let r = vec![ParserKind::LatexExerciseSolution, ParserKind::LatexNote, ParserKind::Markdown, ParserKind::Typst];
    proof {
        assert(r@ =~= all_parsers());
    }
    r
}

/// A parser name is used as a directory name, so it may hold lower case ASCII letters and
/// dashes only.
pub open spec fn valid_parser_name(name: Seq<char>) -> bool {
    forall|i: int| 0 <= i < name.len() ==> ('a' <= #[trigger] name[i] <= 'z' || name[i] == '-')
}

pub open spec fn invalid_parser_message() -> Seq<char> {
    "Invalid characters returned from `parser.get_parser_name()`. Only lowercase letters and dashes are allowed."@
}

/// Why the parser's name cannot be a directory name, if it cannot.
pub fn validate_parser(parser: &ParserKind) -> (r: Option<String>)
    ensures
        match r {
            None => valid_parser_name(parser_name(*parser)),
            Some(m) => !valid_parser_name(parser_name(*parser)) && m@ == invalid_parser_message(),
        },
{
    let name = str_chars(parser.get_parser_name());
    let mut i: usize = 0;
    while i < name.len()
        invariant
            0 <= i <= name.len(),
            name@ == parser_name(*parser),
            forall|j: int| 0 <= j < i ==> ('a' <= #[trigger] name@[j] <= 'z' || name@[j] == '-'),
        decreases name.len() - i,
    {
        let c = name[i];
        if !(('a' <= c && c <= 'z') || c == '-') {
            return Some(
                String::from_str(
                    "Invalid characters returned from `parser.get_parser_name()`. Only lowercase letters and dashes are allowed.",
                ),
            );
        }
        i += 1;
    }
    None
}

/// The parsers among `all` named `name`, in order.
pub open spec fn named(all: Seq<ParserKind>, name: Seq<char>) -> Seq<ParserKind> {
    all.filter(|p: ParserKind| parser_name(p) == name)
}

pub open spec fn not_found(e: LibraryError, name: Seq<char>) -> bool {
    e matches LibraryError::Parser(ParserErrorKind::NotFound(n)) && n@ == name
}

/// The parser named `parser_str` among `all_parsers`; not found when none or more than one
/// has that name.
pub fn find_parser(parser_str: &str, all_parsers: &Vec<ParserKind>) -> (r: Result<ParserKind, LibraryError>)
    ensures
        match r {
            Ok(p) => named(all_parsers@, parser_str@) =~= seq![p],
            Err(e) => named(all_parsers@, parser_str@).len() != 1 && not_found(e, parser_str@),
        },
{
    let ghost all = all_parsers@;
    let mut found: Vec<ParserKind> = Vec::new();
    let mut i: usize = 0;
    while i < all_parsers.len()
        invariant
            0 <= i <= all_parsers.len(),
            all == all_parsers@,
            found@ == named(all.take(i as int), parser_str@),
        decreases all_parsers.len() - i,
    {
        let p = all_parsers[i];
        proof {
            assert(all.take(i + 1) =~= all.take(i as int).push(p));
            reveal(Seq::filter);
            assert(all.take(i + 1).drop_last() =~= all.take(i as int));
        }
        if crate::clozes::keys::str_eq(p.get_parser_name(), parser_str) {
            found.push(p);
        }
        i += 1;
    }
    proof {
        assert(all.take(all.len() as int) =~= all);
    }
    if found.len() == 1 {
        Ok(found[0])
    } else {
        Err(LibraryError::Parser(ParserErrorKind::NotFound(parser_str.to_string())))
    }
}

} // verus!
