//! The text of the files that notes and cards are written to: how each parser writes a
//! cloze, a hidden or revealed cloze on a card, and the file of a note or of a card.

use crate::cards::assemble::copy_replacement;
use crate::cards::data::{CardData, ClozeHiddenReplacement, NotePart};
use crate::clozes::parse::push_str;
use crate::clozes::keys::{NoteImportAction, NoteSettingsKeys, RegexMatch};
use crate::clozes::NoteId;
use crate::parsers::{concat3, construct_setting, LatexParserExerciseSolution, LatexParserNote, MarkdownParser, TypstParser};
use crate::clozes::pairs::is_char_start;
use crate::notes::json::{entries_view, json_string, json_string_text, JsonValue, JsonView};
use crate::paths::{join_path, path_extension_set, path_joined, with_extension};
use crate::schema::LinkedNote;
use crate::text::{char_index_at_byte, chars_to_string, join, join_parts, str_chars, substring, text_at, text_between, utf8_len};
use crate::text_num::{decimal, i64_to_decimal, int_text, usize_to_decimal};
use vstd::prelude::*;
use vstd::string::StrSliceExecFns;

verus! {

/// The side of a card.
#[derive(Clone, Copy, Debug, PartialEq, Eq)]
pub enum CardSide {
    Front,
    Back,
}

/// What is rendered: a note, or one side of the card with the given order.
#[derive(Clone, Copy, Debug, PartialEq, Eq)]
pub enum RenderOutputType {
    Note,
    Card(usize, CardSide),
}

/// What a cloze is replaced by on a card: hidden (with how it is to be answered), or
/// revealed with its text.
#[derive(Clone, Debug, PartialEq)]
pub enum ClozeReplacement {
    Hidden(ClozeHiddenReplacement),
    Reveal(String),
}

/// A cloze replacement, as a value.
pub enum ReplacementView {
    Hidden(ClozeHiddenReplacement),
    Reveal(Seq<char>),
}

pub open spec fn replacement_view(r: ClozeReplacement) -> ReplacementView {
    match r {
        ClozeReplacement::Hidden(h) => ReplacementView::Hidden(h),
        ClozeReplacement::Reveal(s) => ReplacementView::Reveal(s@),
    }
}

/// On the front every cloze is hidden; on the back a cloze to be answered is revealed
/// with its text `data`, and the others stay hidden.
pub open spec fn spec_replacement(side: CardSide, r: ClozeHiddenReplacement, data: Seq<char>) -> ReplacementView {
    match side {
        CardSide::Front => ReplacementView::Hidden(r),
        CardSide::Back => match r {
            ClozeHiddenReplacement::ToAnswer { .. } => ReplacementView::Reveal(data),
            ClozeHiddenReplacement::NotToAnswer => ReplacementView::Hidden(r),
        },
    }
}

impl ClozeReplacement {
    /// What the cloze with text `data` is replaced by on the given side of a card.
    pub fn parse(side: CardSide, cloze_replacement: &ClozeHiddenReplacement, data: &str) -> (r: Self)
        ensures
            replacement_view(r) == spec_replacement(side, *cloze_replacement, data@),
    {
        match side {
            CardSide::Front => ClozeReplacement::Hidden(copy_replacement(cloze_replacement)),
            CardSide::Back => match cloze_replacement {
                ClozeHiddenReplacement::ToAnswer { .. } => ClozeReplacement::Reveal(data.to_string()),
                ClozeHiddenReplacement::NotToAnswer => ClozeReplacement::Hidden(ClozeHiddenReplacement::NotToAnswer),
            },
        }
    }
}

pub(crate) fn concat2(a: &str, b: &str) -> (r: String)
    ensures
        r@ == a@ + b@,
{
    let mut out: Vec<char> = Vec::new();
    push_str(&mut out, a);
    push_str(&mut out, b);
    chars_to_string(out.as_slice())
}

/// The settings string of a cloze in square brackets, or nothing when it is empty.
pub open spec fn bracketed(s: Seq<char>) -> Seq<char> {
    if s.len() == 0 {
        Seq::empty()
    } else {
        seq!['['] + s + seq![']']
    }
}

fn bracketed_exec(s: &str) -> (r: String)
    ensures
        r@ == bracketed(s@),
{
    if s.unicode_len() == 0 {
        String::new()
    } else {
        proof {
            reveal_strlit("[");
            reveal_strlit("]");
        }
        concat3("[", s, "]")
    }
}

/// A hidden cloze in Typst: a call of `cloze`, with the hint if there is one.
pub open spec fn typst_replacement(r: ReplacementView) -> Seq<char> {
    match r {
        ReplacementView::Hidden(ClozeHiddenReplacement::ToAnswer { hint }) => match hint {
            Some(h) => "#cloze(hint: \""@ + h@ + "\")"@,
            None => "#cloze()"@,
        },
        ReplacementView::Hidden(ClozeHiddenReplacement::NotToAnswer) => "#cloze(to_answer: false)"@,
        ReplacementView::Reveal(d) => "#block(fill: aqua)["@ + d + "]"@,
    }
}

/// A hidden cloze in Markdown: a marked blank, with the hint if there is one; a cloze not to
/// be answered says so on the front.
pub open spec fn markdown_replacement(r: ReplacementView, side: CardSide) -> Seq<char> {
    match r {
        ReplacementView::Hidden(ClozeHiddenReplacement::ToAnswer { hint }) => match hint {
            Some(h) => "[_____("@ + h@ + ")]{.mark}"@,
            None => "[_____]{.mark}"@,
        },
        ReplacementView::Hidden(ClozeHiddenReplacement::NotToAnswer) => match side {
            CardSide::Front => "[_____(no answer)]{.mark}"@,
            CardSide::Back => "[_____]{.mark}"@,
        },
        ReplacementView::Reveal(d) => "["@ + d + "]{.mark}"@,
    }
}

/// A hidden cloze in LaTeX: a highlighted blank, with the hint if there is one, green when
/// it is not to be answered; a revealed cloze is highlighted in blue.
pub open spec fn latex_replacement(r: ReplacementView) -> Seq<char> {
    match r {
        ReplacementView::Hidden(ClozeHiddenReplacement::ToAnswer { hint }) => match hint {
            Some(h) => "\\hl{\\_\\_\\_\\_\\_ ("@ + h@ + ")}"@,
            None => "\\hl{\\_\\_\\_\\_\\_}"@,
        },
        ReplacementView::Hidden(ClozeHiddenReplacement::NotToAnswer) => "{\\sethlcolor{{green}}\\hl{\\_\\_\\_\\_\\_}}"@,
        ReplacementView::Reveal(d) => "{\\sethlcolor{blue}\\hl{"@ + d + "}}"@,
    }
}

/// A cloze replacement in LaTeX.
pub fn construct_cloze_replacement(cloze_replacement: &ClozeReplacement, side: CardSide) -> (r: String)
    ensures
        r@ == latex_replacement(replacement_view(*cloze_replacement)),
{
    match cloze_replacement {
        ClozeReplacement::Hidden(ClozeHiddenReplacement::ToAnswer { hint }) => match hint {
            Some(h) => concat3("\\hl{\\_\\_\\_\\_\\_ (", h.as_str(), ")}"),
            None => String::from_str("\\hl{\\_\\_\\_\\_\\_}"),
        },
        ClozeReplacement::Hidden(ClozeHiddenReplacement::NotToAnswer) => String::from_str(
            "{\\sethlcolor{{green}}\\hl{\\_\\_\\_\\_\\_}}",
        ),
        ClozeReplacement::Reveal(d) => concat3("{\\sethlcolor{blue}\\hl{", d.as_str(), "}}"),
    }
}

impl TypstParser {
    /// The delimiters of a cloze: `#cl[` before it, `]` and the settings string in square
    /// brackets (if any) after it.
    pub fn construct_cloze(&self, cloze_settings_string: &str, data: &str) -> (r: (String, String))
        ensures
            r.0@ == "#cl["@,
            r.1@ == "]"@ + bracketed(cloze_settings_string@),
    {
        let with_delim = bracketed_exec(cloze_settings_string);
        (String::from_str("#cl["), concat2("]", with_delim.as_str()))
    }

    /// A cloze on a card, in Typst.
    pub fn construct_cloze_replacement(&self, cloze_replacement: &ClozeReplacement, side: CardSide) -> (r: String)
        ensures
            r@ == typst_replacement(replacement_view(*cloze_replacement)),
    {
        match cloze_replacement {
            ClozeReplacement::Hidden(ClozeHiddenReplacement::ToAnswer { hint }) => match hint {
                Some(h) => concat3("#cloze(hint: \"", h.as_str(), "\")"),
                None => String::from_str("#cloze()"),
            },
            ClozeReplacement::Hidden(ClozeHiddenReplacement::NotToAnswer) => String::from_str(
                "#cloze(to_answer: false)",
            ),
            ClozeReplacement::Reveal(d) => concat3("#block(fill: aqua)[", d.as_str(), "]"),
        }
    }
}

impl MarkdownParser {
    /// The delimiters of a cloze: `{{` and the settings string in square brackets (if any)
    /// before it, `}}` after it.
    pub fn construct_cloze(&self, cloze_settings_string: &str, data: &str) -> (r: (String, String))
        ensures
            r.0@ == "{{"@ + bracketed(cloze_settings_string@),
            r.1@ == "}}"@,
    {
        let with_delim = bracketed_exec(cloze_settings_string);
        (concat2("{{", with_delim.as_str()), String::from_str("}}"))
    }

    /// A cloze on a card, in Markdown.
    pub fn construct_cloze_replacement(&self, cloze_replacement: &ClozeReplacement, side: CardSide) -> (r: String)
        ensures
            r@ == markdown_replacement(replacement_view(*cloze_replacement), side),
    {
        match cloze_replacement {
            ClozeReplacement::Hidden(ClozeHiddenReplacement::ToAnswer { hint }) => match hint {
                Some(h) => concat3("[_____(", h.as_str(), ")]{.mark}"),
                None => String::from_str("[_____]{.mark}"),
            },
            ClozeReplacement::Hidden(ClozeHiddenReplacement::NotToAnswer) => match side {
                CardSide::Front => String::from_str("[_____(no answer)]{.mark}"),
                CardSide::Back => String::from_str("[_____]{.mark}"),
            },
            ClozeReplacement::Reveal(d) => concat3("[", d.as_str(), "]{.mark}"),
        }
    }
}

impl LatexParserNote {
    /// The delimiters of a cloze: a `cl` environment, with the settings string in square
    /// brackets (if any) after its start.
    pub fn construct_cloze(&self, cloze_settings_string: &str, data: &str) -> (r: (String, String))
        ensures
            r.0@ == "\\begin{cl}"@ + bracketed(cloze_settings_string@),
            r.1@ == "\\end{cl}"@,
    {
        let with_delim = bracketed_exec(cloze_settings_string);
        (concat2("\\begin{cl}", with_delim.as_str()), String::from_str("\\end{cl}"))
    }
}

impl LatexParserExerciseSolution {
    /// The delimiters of a cloze: the exercise ends and a `solution` environment starts,
    /// with the settings string in square brackets (if any) after its start.
    pub fn construct_cloze(&self, cloze_settings_string: &str, data: &str) -> (r: (String, String))
        ensures
            r.0@ == "\\end{exercise}\n\\begin{solution}"@ + bracketed(cloze_settings_string@),
            r.1@ == "\\end{solution}"@,
    {
        let with_delim = bracketed_exec(cloze_settings_string);
        (concat2("\\end{exercise}\n\\begin{solution}", with_delim.as_str()), String::from_str("\\end{solution}"))
    }
}

/// `s` padded on the left with `0` to at least `width` characters, as the format `{:0>w}`
/// writes it.
pub open spec fn zero_padded(s: Seq<char>, width: nat) -> Seq<char> {
    if s.len() >= width {
        s
    } else {
        Seq::new((width - s.len()) as nat, |i: int| '0') + s
    }
}

/// The name of the rendered file of a note (its id on four digits) or of a side of one of
/// its cards.
pub open spec fn spec_output_filename(output_type: RenderOutputType, note_id: NoteId) -> Seq<char> {
    let id = zero_padded(int_text(note_id as int), 4);
    match output_type {
        RenderOutputType::Note => id + ".pdf"@,
        RenderOutputType::Card(order, side) => id + seq!['-'] + decimal(order as nat) + match side {
            CardSide::Front => "-front.pdf"@,
            CardSide::Back => "-back.pdf"@,
        },
    }
}

fn zero_padded_exec(s: Vec<char>, width: usize) -> (r: Vec<char>)
    ensures
        r@ == zero_padded(s@, width as nat),
{
    if s.len() >= width {
        s
    } else {
        let mut out: Vec<char> = Vec::new();
        let pad = width - s.len();
        let mut i: usize = 0;
        while i < pad
            invariant
                0 <= i <= pad,
                out@ == Seq::new(i as nat, |j: int| '0'),
            decreases pad - i,
        {
            out.push('0');
            proof {
                assert(out@ =~= Seq::new((i + 1) as nat, |j: int| '0'));
            }
            i += 1;
        }
        let mut j: usize = 0;
        while j < s.len()
            invariant
                0 <= j <= s.len(),
                out@ == Seq::new(pad as nat, |k: int| '0') + s@.take(j as int),
            decreases s.len() - j,
        {
            out.push(s[j]);
            proof {
                assert(s@.take(j + 1) =~= s@.take(j as int).push(s@[j as int]));
            }
            j += 1;
        }
        proof {
            assert(s@.take(s.len() as int) =~= s@);
        }
        out
    }
}

/// The name of the rendered file of a note or of a side of one of its cards.
pub fn get_output_filename(output_type: RenderOutputType, note_id: NoteId) -> (r: String)
    ensures
        r@ == spec_output_filename(output_type, note_id),
{
    let mut out = zero_padded_exec(i64_to_decimal(note_id), 4);
    match output_type {
        RenderOutputType::Note => {
            push_str(&mut out, ".pdf");
        },
        RenderOutputType::Card(order, side) => {
            out.push('-');
            let digits = usize_to_decimal(order);
            let ghost before = out@;
            let mut i: usize = 0;
            while i < digits.len()
                invariant
                    0 <= i <= digits.len(),
                    out@ == before + digits@.take(i as int),
                decreases digits.len() - i,
            {
                out.push(digits[i]);
                proof {
                    assert(digits@.take(i + 1) =~= digits@.take(i as int).push(digits@[i as int]));
                }
                i += 1;
            }
            proof {
                assert(digits@.take(digits.len() as int) =~= digits@);
            }
            match side {
                CardSide::Front => push_str(&mut out, "-front.pdf"),
                CardSide::Back => push_str(&mut out, "-back.pdf"),
            }
        },
    }
    chars_to_string(out.as_slice())
}

pub open spec fn strings_view(v: Seq<String>) -> Seq<Seq<char>> {
    v.map_values(|s: String| s@)
}

fn push_chars(out: &mut Vec<char>, s: &Vec<char>)
    ensures
        final(out)@ == old(out)@ + s@,
{
    let ghost before = out@;
    let mut i: usize = 0;
    while i < s.len()
        invariant
            0 <= i <= s.len(),
            out@ == before + s@.take(i as int),
        decreases s.len() - i,
    {
        out.push(s[i]);
        proof {
            assert(s@.take(i + 1) =~= s@.take(i as int).push(s@[i as int]));
        }
        i += 1;
    }
    proof {
        assert(s@.take(s.len() as int) =~= s@);
    }
}

/// The strings joined by `sep`.
pub fn join_strings(v: &Vec<String>, sep: &str) -> (r: Vec<char>)
    ensures
        r@ == join(strings_view(v@), sep@),
{
    let mut parts: Vec<Vec<char>> = Vec::new();
    let mut i: usize = 0;
    while i < v.len()
        invariant
            0 <= i <= v.len(),
            parts@.map_values(|p: Vec<char>| p@) == strings_view(v@).take(i as int),
        decreases v.len() - i,
    {
        let c = str_chars(v[i].as_str());
        let ghost old_parts = parts@;
        parts.push(c);
        proof {
            assert(parts@.map_values(|p: Vec<char>| p@) =~= old_parts.map_values(|p: Vec<char>| p@).push(c@));
            assert(strings_view(v@).take(i + 1) =~= strings_view(v@).take(i as int).push(c@));
        }
        i += 1;
    }
    proof {
        assert(strings_view(v@).take(v.len() as int) =~= strings_view(v@));
    }
    let sep_chars = str_chars(sep);
    join_parts(parts, &sep_chars)
}

/// The custom data of a note written as `serde_json::to_string` writes a map: each key as
/// a JSON string, a colon and the value's JSON text, separated by commas, in braces.
pub open spec fn custom_data_text(entries: Seq<(Seq<char>, JsonView)>) -> Seq<char> {
    "{"@ + join(
        entries.map_values(|e: (Seq<char>, JsonView)| json_string_text(e.0) + ":"@ + e.1.text),
        ","@,
    ) + "}"@
}

pub fn custom_data_json(entries: &Vec<(String, JsonValue)>) -> (r: Vec<char>)
    ensures
        r@ == custom_data_text(entries_view(entries@)),
{
    let ghost want = entries_view(entries@).map_values(
        |e: (Seq<char>, JsonView)| json_string_text(e.0) + ":"@ + e.1.text,
    );
    let mut parts: Vec<Vec<char>> = Vec::new();
    let mut i: usize = 0;
    while i < entries.len()
        invariant
            0 <= i <= entries.len(),
            want == entries_view(entries@).map_values(
                |e: (Seq<char>, JsonView)| json_string_text(e.0) + ":"@ + e.1.text,
            ),
            parts@.map_values(|p: Vec<char>| p@) == want.take(i as int),
        decreases entries.len() - i,
    {
        let key = json_string(entries[i].0.as_str());
        let mut part = str_chars(key.text.as_str());
        push_str(&mut part, ":");
        push_str(&mut part, entries[i].1.text.as_str());
        let ghost old_parts = parts@;
        parts.push(part);
        proof {
            assert(parts@.map_values(|p: Vec<char>| p@) =~= old_parts.map_values(|p: Vec<char>| p@).push(part@));
            assert(want.take(i + 1) =~= want.take(i as int).push(want[i as int]));
            assert(part@ == want[i as int]);
        }
        i += 1;
    }
    proof {
        assert(want.take(entries.len() as int) =~= want);
    }
    let comma = str_chars(",");
    let body = join_parts(parts, &comma);
    let mut out: Vec<char> = str_chars("{");
    push_chars(&mut out, &body);
    push_str(&mut out, "}");
    out
}

/// The markup languages whose parsers write note and card files.
#[derive(Clone, Copy, Debug, PartialEq, Eq)]
pub enum Syntax {
    Markdown,
    Typst,
}

/// The pattern of a link to another note: `#lin(keyword)` (maybe with its `note_link`) in
/// Typst, `[keyword][li…]` in Markdown. The keyword is the first group.
pub open spec fn link_pattern(syntax: Syntax) -> Seq<char> {
    match syntax {
        Syntax::Typst => "(?s)#lin\\(([^,\\n]*)(?:, note_link: ([^\\n\\)]*))?\\)"@,
        Syntax::Markdown => "(?m)\\[([^\\]]*)\\]\\[li([^\\]]*)?\\]"@,
    }
}

fn link_pattern_exec(syntax: Syntax) -> (r: &'static str)
    ensures
        r@ == link_pattern(syntax),
{
    match syntax {
        Syntax::Typst => "(?s)#lin\\(([^,\\n]*)(?:, note_link: ([^\\n\\)]*))?\\)",
        Syntax::Markdown => "(?m)\\[([^\\]]*)\\]\\[li([^\\]]*)?\\]",
    }
}

/// What `fancy_regex` finds for `pattern` in `data`: for each match, in order, the byte
/// ranges of the match and of its first group; `None` when the pattern does not compile,
/// a search fails, or a match has no first group.
pub uninterp spec fn regex_captures(pattern: Seq<char>, data: Seq<char>) -> Option<Seq<(usize, usize, usize, usize)>>;

/// The matches lie in `d` on char boundaries, each group within its match, one match
/// after the other.
pub open spec fn captures_well_placed(d: Seq<char>, ms: Seq<(usize, usize, usize, usize)>) -> bool {
    &&& forall|i: int|
        0 <= i < ms.len() ==> {
            let m = #[trigger] ms[i];
            &&& m.0 <= m.2 <= m.3 <= m.1 <= utf8_len(d)
            &&& is_char_start(d, m.0 as int)
            &&& is_char_start(d, m.1 as int)
            &&& is_char_start(d, m.2 as int)
            &&& is_char_start(d, m.3 as int)
        }
    &&& forall|i: int, j: int| 0 <= i < j < ms.len() ==> (#[trigger] ms[i]).1 <= (#[trigger] ms[j]).0
}

/// The patterns the library searches with: links, notes and image occlusions of each
/// syntax, and Markdown settings. None of them resets the start of a match (`\K`) or
/// captures inside a lookaround, so each of their groups lies within its match.
pub open spec fn library_pattern(pattern: Seq<char>) -> bool {
    ||| pattern == link_pattern(Syntax::Typst)
    ||| pattern == link_pattern(Syntax::Markdown)
    ||| pattern == notes_pattern(Syntax::Typst)
    ||| pattern == notes_pattern(Syntax::Markdown)
    ||| pattern == image_occlusions_pattern(Syntax::Typst)
    ||| pattern == image_occlusions_pattern(Syntax::Markdown)
    ||| pattern == markdown_settings_pattern()
}

/// `fancy_regex::Regex::captures_iter`, with the pattern compiled by `Regex::new`, for one
/// of the library's patterns. Matches come in order and do not overlap, each group lies
/// within its match, and all offsets are on char boundaries of `data`.
#[verifier::external_body]
fn regex_captures_of(pattern: &str, data: &str) -> (r: Option<Vec<(usize, usize, usize, usize)>>)
    requires
        library_pattern(pattern@),
    ensures
        match r {
            Some(v) => regex_captures(pattern@, data@) == Some(v@) && captures_well_placed(data@, v@),
            None => regex_captures(pattern@, data@) is None,
        },
{
    let re = fancy_regex::Regex::new(pattern).ok()?;
    let mut out = Vec::new();
    for c in re.captures_iter(data) {
        let c = c.ok()?;
        match (c.get(0), c.get(1)) {
            (Some(m), Some(g)) => out.push((m.start(), m.end(), g.start(), g.end())),
            _ => return None,
        }
    }
    Some(out)
}

/// The link numbered `k`, to the keyword `keyword`.
pub open spec fn link_text(syntax: Syntax, keyword: Seq<char>, k: nat) -> Seq<char> {
    match syntax {
        Syntax::Typst => "#lin("@ + keyword + ", note_link: li"@ + decimal(k) + ")"@,
        Syntax::Markdown => "["@ + keyword + "][li"@ + decimal(k) + "]"@,
    }
}

/// Where the text after the `n`-th match starts.
pub open spec fn end_of_match(ms: Seq<(usize, usize, usize, usize)>, n: int) -> int {
    if n <= 0 {
        0
    } else {
        ms[n - 1].1 as int
    }
}

/// The text up to the end of the `n`-th match, each match replaced by its numbered link.
pub open spec fn replaced_upto(d: Seq<char>, ms: Seq<(usize, usize, usize, usize)>, n: int, syntax: Syntax) -> Seq<char>
    decreases n,
{
    if n <= 0 {
        Seq::empty()
    } else {
        let m = ms[n - 1];
        replaced_upto(d, ms, n - 1, syntax) + text_between(d, end_of_match(ms, n - 1), m.0 as int) + link_text(
            syntax,
            text_between(d, m.2 as int, m.3 as int),
            n as nat,
        )
    }
}

/// The text with the links to other notes numbered in order, from 1.
pub open spec fn links_numbered(d: Seq<char>, ms: Seq<(usize, usize, usize, usize)>, syntax: Syntax) -> Seq<char> {
    replaced_upto(d, ms, ms.len() as int, syntax) + d.subrange(
        char_index_at_byte(d, end_of_match(ms, ms.len() as int)),
        d.len() as int,
    )
}

/// Where the file of the note `id` lies among the note files in `dir`.
pub open spec fn note_path(dir: Seq<char>, id: NoteId, ext: Seq<char>) -> Seq<char> {
    path_extension_set(path_joined(dir, spec_output_filename(RenderOutputType::Note, id)), ext)
}

pub open spec fn file_extension(syntax: Syntax) -> Seq<char> {
    match syntax {
        Syntax::Typst => "typ"@,
        Syntax::Markdown => "md"@,
    }
}

/// The definition of the link numbered `k`: the file of the linked note, with the keyword
/// searched for and the keyword it matched; or nothing, when no note was found.
pub open spec fn link_item(syntax: Syntax, k: nat, ln: LinkedNote, dir: Seq<char>) -> Seq<char> {
    match syntax {
        Syntax::Typst => match ln.linked_note_id {
            None => "#let li"@ + decimal(k) + " = \"\""@,
            Some(id) => "#let li"@ + decimal(k) + " = "@ + note_path(dir, id, file_extension(syntax)) + " // \""@
                + ln.searched_keyword@ + " -> "@ + ln.matched_keyword->Some_0@ + "\""@,
        },
        Syntax::Markdown => match ln.linked_note_id {
            None => "[li"@ + decimal(k) + "]: -"@,
            Some(id) => "[li"@ + decimal(k) + "]: "@ + note_path(dir, id, file_extension(syntax)) + " \""@
                + ln.searched_keyword@ + " -> "@ + ln.matched_keyword->Some_0@ + "\""@,
        },
    }
}

pub open spec fn link_items(syntax: Syntax, lns: Seq<LinkedNote>, dir: Seq<char>) -> Seq<char> {
    join(Seq::new(lns.len(), |i: int| link_item(syntax, (i + 1) as nat, lns[i], dir)), "\n"@)
}

/// A linked note names the keyword it matched exactly when a note was found.
pub open spec fn links_consistent(lns: Seq<LinkedNote>) -> bool {
    forall|i: int| 0 <= i < lns.len() ==> (#[trigger] lns[i]).linked_note_id.is_some() == lns[i].matched_keyword.is_some()
}

/// The note text with its links numbered and their definitions: before the text in Typst,
/// after it in Markdown.
pub open spec fn linked_notes_text_spec(
    syntax: Syntax,
    d: Seq<char>,
    lns: Seq<LinkedNote>,
    dir: Seq<char>,
    ms: Seq<(usize, usize, usize, usize)>,
) -> Seq<char> {
    match syntax {
        Syntax::Typst => link_items(syntax, lns, dir) + "\n\n"@ + links_numbered(d, ms, syntax),
        Syntax::Markdown => links_numbered(d, ms, syntax) + "\n\n"@ + link_items(syntax, lns, dir),
    }
}

fn decimal_of(n: usize) -> (r: Vec<char>)
    ensures
        r@ == decimal(n as nat),
{
    usize_to_decimal(n)
}

fn link_item_exec(syntax: Syntax, k: usize, ln: &LinkedNote, dir: &str) -> (r: Vec<char>)
    requires
        ln.linked_note_id.is_some() == ln.matched_keyword.is_some(),
    ensures
        r@ == link_item(syntax, k as nat, *ln, dir@),
{
    let num = decimal_of(k);
    match (ln.linked_note_id, &ln.matched_keyword) {
        (Some(id), Some(matched)) => {
            let ext = match syntax {
                Syntax::Typst => "typ",
                Syntax::Markdown => "md",
            };
            let name = get_output_filename(RenderOutputType::Note, id);
            let joined = join_path(dir, name.as_str());
            proof {
                crate::paths::lemma_extensions_have_no_separator();
            }
            let path = with_extension(joined.as_str(), ext);
            let mut out: Vec<char> = match syntax {
                Syntax::Typst => str_chars("#let li"),
                Syntax::Markdown => str_chars("[li"),
            };
            push_chars(&mut out, &num);
            match syntax {
                Syntax::Typst => push_str(&mut out, " = "),
                Syntax::Markdown => push_str(&mut out, "]: "),
            }
            push_str(&mut out, path.as_str());
            match syntax {
                Syntax::Typst => push_str(&mut out, " // \""),
                Syntax::Markdown => push_str(&mut out, " \""),
            }
            push_str(&mut out, ln.searched_keyword.as_str());
            push_str(&mut out, " -> ");
            push_str(&mut out, matched.as_str());
            push_str(&mut out, "\"");
            out
        },
        _ => {
            let mut out: Vec<char> = match syntax {
                Syntax::Typst => str_chars("#let li"),
                Syntax::Markdown => str_chars("[li"),
            };
            push_chars(&mut out, &num);
            match syntax {
                Syntax::Typst => push_str(&mut out, " = \"\""),
                Syntax::Markdown => push_str(&mut out, "]: -"),
            }
            out
        },
    }
}

fn link_items_exec(syntax: Syntax, lns: &Vec<LinkedNote>, dir: &str) -> (r: Vec<char>)
    requires
        links_consistent(lns@),
    ensures
        r@ == link_items(syntax, lns@, dir@),
{
    let ghost want = Seq::new(lns@.len(), |i: int| link_item(syntax, (i + 1) as nat, lns@[i], dir@));
    let mut parts: Vec<Vec<char>> = Vec::new();
    let mut i: usize = 0;
    while i < lns.len()
        invariant
            0 <= i <= lns.len(),
            links_consistent(lns@),
            want == Seq::new(lns@.len(), |i: int| link_item(syntax, (i + 1) as nat, lns@[i], dir@)),
            parts@.map_values(|p: Vec<char>| p@) == want.take(i as int),
        decreases lns.len() - i,
    {
        let item = link_item_exec(syntax, i + 1, &lns[i], dir);
        let ghost old_parts = parts@;
        parts.push(item);
        proof {
            assert(parts@.map_values(|p: Vec<char>| p@) =~= old_parts.map_values(|p: Vec<char>| p@).push(item@));
            assert(want.take(i + 1) =~= want.take(i as int).push(want[i as int]));
        }
        i += 1;
    }
    proof {
        assert(want.take(lns.len() as int) =~= want);
    }
    let nl = str_chars("\n");
    join_parts(parts, &nl)
}

fn push_link(
    syntax: Syntax,
    out: &mut Vec<char>,
    v: &Vec<char>,
    prev: usize,
    m: (usize, usize, usize, usize),
    k: usize,
)
    requires
        prev <= m.0 <= m.2 <= m.3,
        is_char_start(v@, prev as int),
        is_char_start(v@, m.0 as int),
        is_char_start(v@, m.2 as int),
        is_char_start(v@, m.3 as int),
    ensures
        final(out)@ == old(out)@ + text_between(v@, prev as int, m.0 as int) + link_text(
            syntax,
            text_between(v@, m.2 as int, m.3 as int),
            k as nat,
        ),
{
    let before = text_at(v, prev, m.0);
    let keyword = text_at(v, m.2, m.3);
    push_str(out, before.as_str());
    let num = decimal_of(k);
    match syntax {
        Syntax::Typst => push_str(out, "#lin("),
        Syntax::Markdown => push_str(out, "["),
    }
    push_str(out, keyword.as_str());
    match syntax {
        Syntax::Typst => push_str(out, ", note_link: li"),
        Syntax::Markdown => push_str(out, "][li"),
    }
    push_chars(out, &num);
    match syntax {
        Syntax::Typst => push_str(out, ")"),
        Syntax::Markdown => push_str(out, "]"),
    }
}

/// The note text with its links numbered in order, from 1; `captures` are the matches of
/// the link pattern in the text.
pub fn links_numbered_exec(syntax: Syntax, v: &Vec<char>, captures: &Vec<(usize, usize, usize, usize)>) -> (r: Vec<char>)
    requires
        captures_well_placed(v@, captures@),
    ensures
        r@ == links_numbered(v@, captures@, syntax),
{
    let mut out: Vec<char> = Vec::new();
    let mut prev: usize = 0;
    let mut i: usize = 0;
    proof {
        lemma_zero_is_char_start(v@);
    }
    while i < captures.len()
        invariant
            0 <= i <= captures.len(),
            captures_well_placed(v@, captures@),
            prev == end_of_match(captures@, i as int),
            is_char_start(v@, prev as int),
            i > 0 ==> prev == captures@[i - 1].1,
            out@ == replaced_upto(v@, captures@, i as int, syntax),
        decreases captures.len() - i,
    {
        let m = captures[i];
        if i > 0 {
            assert(captures@[i - 1].1 <= captures@[i as int].0);
        }
        push_link(syntax, &mut out, v, prev, m, i + 1);
        prev = m.1;
        i += 1;
    }
    let k = crate::text::char_index_of_byte(v, prev);
    match k {
        Some(k) => {
            proof {
                crate::text::lemma_char_index_at_byte(v@, k as int);
            }
            let rest = substring(v, k, v.len());
            push_str(&mut out, rest.as_str());
        },
        None => {},
    }
    out
}

proof fn lemma_zero_is_char_start(d: Seq<char>)
    ensures
        is_char_start(d, 0),
{
    assert(d.take(0) =~= Seq::<char>::empty());
    assert(crate::text::byte_offset(d, 0) == 0);
}

/// The note text with its links numbered and their definitions, given the matches of the
/// link pattern in the text.
pub fn linked_notes_text(
    syntax: Syntax,
    note_data: &str,
    linked_notes: &Vec<LinkedNote>,
    notes_raw_dir: &str,
    captures: &Vec<(usize, usize, usize, usize)>,
) -> (r: String)
    requires
        captures_well_placed(note_data@, captures@),
        links_consistent(linked_notes@),
    ensures
        r@ == linked_notes_text_spec(syntax, note_data@, linked_notes@, notes_raw_dir@, captures@),
{
    let v = str_chars(note_data);
    let numbered = links_numbered_exec(syntax, &v, captures);
    let items = link_items_exec(syntax, linked_notes, notes_raw_dir);
    let mut out: Vec<char> = Vec::new();
    match syntax {
        Syntax::Typst => {
            push_chars(&mut out, &items);
            push_str(&mut out, "\n\n");
            push_chars(&mut out, &numbered);
        },
        Syntax::Markdown => {
            push_chars(&mut out, &numbered);
            push_str(&mut out, "\n\n");
            push_chars(&mut out, &items);
        },
    }
    chars_to_string(out.as_slice())
}

/// The note text as it is written to the note's file: with links to other notes numbered
/// and defined when the linked notes are given, unchanged otherwise. `None` when the link
/// pattern cannot be searched for.
pub open spec fn spec_linked_notes_string(
    syntax: Syntax,
    d: Seq<char>,
    lns: Option<Seq<LinkedNote>>,
    dir: Seq<char>,
) -> Option<Seq<char>> {
    match lns {
        None => Some(d),
        Some(l) => match regex_captures(link_pattern(syntax), d) {
            None => None,
            Some(ms) => Some(linked_notes_text_spec(syntax, d, l, dir, ms)),
        },
    }
}

pub open spec fn opt_string_seq(o: Option<String>) -> Option<Seq<char>> {
    match o {
        Some(s) => Some(s@),
        None => None,
    }
}

pub open spec fn opt_links(o: Option<&Vec<LinkedNote>>) -> Option<Seq<LinkedNote>> {
    match o {
        Some(v) => Some(v@),
        None => None,
    }
}

/// The note text as it is written to the note's file, in the given syntax.
pub fn get_linked_notes_string(
    syntax: Syntax,
    note_data: &str,
    linked_notes_opt: Option<&Vec<LinkedNote>>,
    notes_raw_dir: &str,
) -> (r: Option<String>)
    requires
        linked_notes_opt matches Some(l) ==> links_consistent(l@),
    ensures
        opt_string_seq(r) == spec_linked_notes_string(syntax, note_data@, opt_links(linked_notes_opt), notes_raw_dir@),
{
    match linked_notes_opt {
        None => Some(note_data.to_string()),
        Some(linked_notes) => {
            let pattern = link_pattern_exec(syntax);
            match regex_captures_of(pattern, note_data) {
                None => None,
                Some(captures) => Some(linked_notes_text(syntax, note_data, linked_notes, notes_raw_dir, &captures)),
            }
        },
    }
}

/// A note whose files are written: its id, keywords, tags, linked notes (left out of the
/// files when `None`), text and custom data.
#[derive(Clone, Debug)]
pub struct GenerateNoteFilesRequest {
    pub note_id: NoteId,
    pub keywords: Vec<String>,
    pub tags: Vec<String>,
    pub linked_notes: Option<Vec<LinkedNote>>,
    pub note_data: String,
    pub custom_data: Vec<(String, JsonValue)>,
}

/// Which file is written: the note's, or one side of the card with the given order.
#[derive(Clone, Copy, Debug)]
pub enum ConstructFileDataType<'a> {
    Note,
    Card(usize, &'a CardData, CardSide),
}

/// A setting, as the syntax writes it.
pub open spec fn setting_text(syntax: Syntax, s: Seq<char>) -> Seq<char> {
    match syntax {
        Syntax::Typst => "#se["@ + s + "]\n"@,
        Syntax::Markdown => "<!--- # "@ + s + " --->\n"@,
    }
}

/// A comment, as the syntax writes it.
pub open spec fn comment_text(syntax: Syntax, s: Seq<char>) -> Seq<char> {
    match syntax {
        Syntax::Typst => "// "@ + s + "\n"@,
        Syntax::Markdown => "<!--- "@ + s + " --->\n"@,
    }
}

/// A cloze on a card, as the syntax writes it.
pub open spec fn replacement_text(syntax: Syntax, r: ReplacementView, side: CardSide) -> Seq<char> {
    match syntax {
        Syntax::Typst => typst_replacement(r),
        Syntax::Markdown => markdown_replacement(r, side),
    }
}

/// The line that separates the header of a card file from the card.
pub open spec fn rule_text(syntax: Syntax) -> Seq<char> {
    match syntax {
        Syntax::Typst => "#line(length: 100%)"@,
        Syntax::Markdown => "$\\hrulefill$"@,
    }
}

/// The number of image occlusions among the parts.
pub open spec fn count_images(parts: Seq<NotePart>) -> nat
    decreases parts.len(),
{
    if parts.len() == 0 {
        0
    } else {
        count_images(parts.drop_last()) + if parts.last() is ImageOcclusion {
            1nat
        } else {
            0nat
        }
    }
}

/// A part of a card on the given side: a cloze is replaced, the text around clozes is kept,
/// the delimiters of clozes are left out, and an image occlusion is written as `image`.
pub open spec fn part_text(syntax: Syntax, p: NotePart, side: CardSide, image: Seq<char>) -> Seq<char> {
    match p {
        NotePart::ClozeData(d, r) => replacement_text(syntax, spec_replacement(side, r, d@), side),
        NotePart::SurroundingData(d) => d@,
        NotePart::ImageOcclusion { .. } => image,
        NotePart::ClozeStart(_) => Seq::empty(),
        NotePart::ClozeEnd(_) => Seq::empty(),
    }
}

/// The text of a card on the given side; the `k`-th image occlusion is written as
/// `images[k]`.
pub open spec fn card_body(syntax: Syntax, parts: Seq<NotePart>, side: CardSide, images: Seq<Seq<char>>) -> Seq<char>
    decreases parts.len(),
{
    if parts.len() == 0 {
        Seq::empty()
    } else {
        card_body(syntax, parts.drop_last(), side, images) + part_text(
            syntax,
            parts.last(),
            side,
            images[count_images(parts.drop_last()) as int],
        )
    }
}

/// The file of a card: a header with the note's id, keywords (when there are any) and
/// tags, a rule, and the card.
pub open spec fn card_file_text(
    syntax: Syntax,
    note_id: NoteId,
    keywords: Seq<String>,
    tags: Seq<String>,
    body: Seq<char>,
) -> Seq<char> {
    let kw = join(strings_view(keywords), ", "@);
    let head = if kw.len() > 0 {
        seq!["- note-id: "@ + int_text(note_id as int), "- keywords: "@ + kw]
    } else {
        seq!["- note-id: "@ + int_text(note_id as int)]
    };
    join(
        head + seq!["- tags: "@ + join(strings_view(tags), ", "@), Seq::empty(), rule_text(syntax), Seq::empty(), body],
        "\n"@,
    )
}

/// The action setting of a note file: none when the note is updated, `action: add` when it
/// is added.
pub open spec fn action_text(syntax: Syntax, action: NoteImportAction) -> Seq<char> {
    match action {
        NoteImportAction::Update(_) => Seq::empty(),
        _ => setting_text(syntax, "action: add"@),
    }
}

/// The custom data setting of a note file: none when there is no custom data.
pub open spec fn custom_setting_text(syntax: Syntax, entries: Seq<(Seq<char>, JsonView)>) -> Seq<char> {
    if entries.len() == 0 {
        Seq::empty()
    } else {
        setting_text(syntax, "custom-data: "@ + custom_data_text(entries))
    }
}

/// The file of a note: its settings (action, id, keywords, tags, custom data) and its text
/// between comments that mark where the note starts and ends.
pub open spec fn note_file_text(
    syntax: Syntax,
    request: GenerateNoteFilesRequest,
    action: NoteImportAction,
    data: Seq<char>,
) -> Seq<char> {
    "\n"@ + action_text(syntax, action) + setting_text(syntax, "note-id: "@ + int_text(request.note_id as int))
        + setting_text(syntax, "keywords: "@ + join(strings_view(request.keywords@), ", "@)) + setting_text(
        syntax,
        "tags: "@ + join(strings_view(request.tags@), ", "@),
    ) + custom_setting_text(syntax, entries_view(request.custom_data@)) + match syntax {
        Syntax::Typst => "\n"@,
        Syntax::Markdown => Seq::empty(),
    } + comment_text(syntax, "spares: note start"@) + data + "\n"@ + comment_text(syntax, "spares: note end"@) + "\n"@
}

pub open spec fn opt_request_links(request: GenerateNoteFilesRequest) -> Option<Seq<LinkedNote>> {
    match request.linked_notes {
        Some(v) => Some(v@),
        None => None,
    }
}

/// The file written for `output_type`, in the given syntax. `None` when the links of the
/// note cannot be searched for.
pub open spec fn spec_file_data(
    syntax: Syntax,
    output_type: ConstructFileDataType,
    request: GenerateNoteFilesRequest,
    action: NoteImportAction,
    notes_raw_dir: Seq<char>,
    images: Seq<Seq<char>>,
) -> Option<Seq<char>> {
    match output_type {
        ConstructFileDataType::Note => match spec_linked_notes_string(
            syntax,
            request.note_data@,
            opt_request_links(request),
            notes_raw_dir,
        ) {
            None => None,
            Some(d) => Some(note_file_text(syntax, request, action, d)),
        },
        ConstructFileDataType::Card(_, card, side) => Some(
            card_file_text(
                syntax,
                request.note_id,
                request.keywords@,
                request.tags@,
                card_body(syntax, card.data@, side, images),
            ),
        ),
    }
}

/// What writing a file asks of its inputs: a note file is written for a note that is added
/// or updated, whose linked notes name a matched keyword exactly when a note was found; a
/// card file is given the text of each image occlusion of the card.
pub open spec fn file_data_ok(
    output_type: ConstructFileDataType,
    request: GenerateNoteFilesRequest,
    action: NoteImportAction,
    images: Seq<Seq<char>>,
) -> bool {
    match output_type {
        ConstructFileDataType::Note => {
            &&& !(action is Delete)
            &&& request.linked_notes matches Some(l) ==> links_consistent(l@)
        },
        ConstructFileDataType::Card(_, card, _) => images.len() >= count_images(card.data@),
    }
}

fn setting_exec(syntax: Syntax, out: &mut Vec<char>, s: &Vec<char>)
    ensures
        final(out)@ == old(out)@ + setting_text(syntax, s@),
{
    match syntax {
        Syntax::Typst => push_str(out, "#se["),
        Syntax::Markdown => push_str(out, "<!--- # "),
    }
    push_chars(out, s);
    match syntax {
        Syntax::Typst => push_str(out, "]\n"),
        Syntax::Markdown => push_str(out, " --->\n"),
    }
}

fn comment_exec(syntax: Syntax, out: &mut Vec<char>, s: &str)
    ensures
        final(out)@ == old(out)@ + comment_text(syntax, s@),
{
    match syntax {
        Syntax::Typst => push_str(out, "// "),
        Syntax::Markdown => push_str(out, "<!--- "),
    }
    push_str(out, s);
    match syntax {
        Syntax::Typst => push_str(out, "\n"),
        Syntax::Markdown => push_str(out, " --->\n"),
    }
}

fn prefixed(prefix: &str, v: &Vec<char>) -> (r: Vec<char>)
    ensures
        r@ == prefix@ + v@,
{
    let mut out = str_chars(prefix);
    push_chars(&mut out, v);
    out
}

fn replacement_exec(syntax: Syntax, r: &ClozeReplacement, side: CardSide) -> (t: String)
    ensures
        t@ == replacement_text(syntax, replacement_view(*r), side),
{
    match syntax {
        Syntax::Typst => TypstParser::new().construct_cloze_replacement(r, side),
        Syntax::Markdown => MarkdownParser::new().construct_cloze_replacement(r, side),
    }
}

fn card_body_exec(syntax: Syntax, parts: &Vec<NotePart>, side: CardSide, images: &Vec<String>) -> (r: Vec<char>)
    requires
        images.len() >= count_images(parts@),
    ensures
        r@ == card_body(syntax, parts@, side, strings_view(images@)),
{
    let mut out: Vec<char> = Vec::new();
    let mut k: usize = 0;
    let mut i: usize = 0;
    while i < parts.len()
        invariant
            0 <= i <= parts.len(),
            images.len() >= count_images(parts@),
            k == count_images(parts@.take(i as int)),
            out@ == card_body(syntax, parts@.take(i as int), side, strings_view(images@)),
        decreases parts.len() - i,
    {
        proof {
            assert(parts@.take(i + 1).drop_last() =~= parts@.take(i as int));
            lemma_count_images_prefix(parts@, i + 1);
        }
        match &parts[i] {
            NotePart::ClozeData(d, r) => {
                let rep = ClozeReplacement::parse(side, r, d.as_str());
                let t = replacement_exec(syntax, &rep, side);
                push_str(&mut out, t.as_str());
            },
            NotePart::SurroundingData(d) => {
                push_str(&mut out, d.as_str());
            },
            NotePart::ImageOcclusion { .. } => {
                push_str(&mut out, images[k].as_str());
                k += 1;
            },
            NotePart::ClozeStart(_) => {},
            NotePart::ClozeEnd(_) => {},
        }
        i += 1;
    }
    proof {
        assert(parts@.take(parts.len() as int) =~= parts@);
    }
    out
}

proof fn lemma_count_images_prefix(parts: Seq<NotePart>, n: int)
    requires
        0 <= n <= parts.len(),
    ensures
        count_images(parts.take(n)) <= count_images(parts),
    decreases parts.len() - n,
{
    if n < parts.len() {
        lemma_count_images_prefix(parts, n + 1);
        assert(parts.take(n + 1).drop_last() =~= parts.take(n));
    } else {
        assert(parts.take(n) =~= parts);
    }
}

fn file_data(
    syntax: Syntax,
    output_type: ConstructFileDataType,
    request: &GenerateNoteFilesRequest,
    note_import_action: &NoteImportAction,
    notes_raw_dir: &str,
    image_occlusions: &Vec<String>,
) -> (r: Option<String>)
    requires
        file_data_ok(output_type, *request, *note_import_action, strings_view(image_occlusions@)),
    ensures
        opt_string_seq(r) == spec_file_data(
            syntax,
            output_type,
            *request,
            *note_import_action,
            notes_raw_dir@,
            strings_view(image_occlusions@),
        ),
{
    let keywords_str = join_strings(&request.keywords, ", ");
    let tags_str = join_strings(&request.tags, ", ");
    match output_type {
        ConstructFileDataType::Note => {
            let linked = match &request.linked_notes {
                Some(l) => Some(l),
                None => None,
            };
            let note_data = match get_linked_notes_string(syntax, request.note_data.as_str(), linked, notes_raw_dir) {
                Some(d) => d,
                None => {
                    return None;
                },
            };
            let mut out: Vec<char> = str_chars("\n");
            match note_import_action {
                NoteImportAction::Update(_) => {},
                _ => {
                    let a = str_chars("action: add");
                    setting_exec(syntax, &mut out, &a);
                },
            }
            let id = prefixed("note-id: ", &i64_to_decimal(request.note_id));
            setting_exec(syntax, &mut out, &id);
            let kw = prefixed("keywords: ", &keywords_str);
            setting_exec(syntax, &mut out, &kw);
            let tg = prefixed("tags: ", &tags_str);
            setting_exec(syntax, &mut out, &tg);
            if request.custom_data.len() > 0 {
                let cd = prefixed("custom-data: ", &custom_data_json(&request.custom_data));
                setting_exec(syntax, &mut out, &cd);
            }
            match syntax {
                Syntax::Typst => push_str(&mut out, "\n"),
                Syntax::Markdown => {},
            }
            comment_exec(syntax, &mut out, "spares: note start");
            push_str(&mut out, note_data.as_str());
            push_str(&mut out, "\n");
            comment_exec(syntax, &mut out, "spares: note end");
            push_str(&mut out, "\n");
            Some(chars_to_string(out.as_slice()))
        },
        ConstructFileDataType::Card(_, card, side) => {
            let body = card_body_exec(syntax, &card.data, side, image_occlusions);
            let mut lines: Vec<Vec<char>> = Vec::new();
            lines.push(prefixed("- note-id: ", &i64_to_decimal(request.note_id)));
            if keywords_str.len() > 0 {
                lines.push(prefixed("- keywords: ", &keywords_str));
            }
            lines.push(prefixed("- tags: ", &tags_str));
            lines.push(Vec::new());
            match syntax {
                Syntax::Typst => lines.push(str_chars("#line(length: 100%)")),
                Syntax::Markdown => lines.push(str_chars("$\\hrulefill$")),
            }
            lines.push(Vec::new());
            lines.push(body);
            let ghost lv = lines@.map_values(|p: Vec<char>| p@);
            let nl = str_chars("\n");
            let joined = join_parts(lines, &nl);
            proof {
                let kw = join(strings_view(request.keywords@), ", "@);
                let head = if kw.len() > 0 {
                    seq!["- note-id: "@ + int_text(request.note_id as int), "- keywords: "@ + kw]
                } else {
                    seq!["- note-id: "@ + int_text(request.note_id as int)]
                };
                assert(lv =~= head + seq![
                    "- tags: "@ + join(strings_view(request.tags@), ", "@),
                    Seq::empty(),
                    rule_text(syntax),
                    Seq::empty(),
                    card_body(syntax, card.data@, side, strings_view(image_occlusions@)),
                ]);
            }
            Some(chars_to_string(joined.as_slice()))
        },
    }
}

impl TypstParser {
    /// The file of a note or of a side of one of its cards, in Typst. `notes_raw_dir` is
    /// the directory of the Typst note files, which links to other notes point into;
    /// `image_occlusions` are the texts of the card's image occlusions, in order.
    pub fn construct_file_data(
        &self,
        output_type: ConstructFileDataType,
        request: &GenerateNoteFilesRequest,
        note_import_action: &NoteImportAction,
        notes_raw_dir: &str,
        image_occlusions: &Vec<String>,
    ) -> (r: Option<String>)
        requires
            file_data_ok(output_type, *request, *note_import_action, strings_view(image_occlusions@)),
        ensures
            opt_string_seq(r) == spec_file_data(
                Syntax::Typst,
                output_type,
                *request,
                *note_import_action,
                notes_raw_dir@,
                strings_view(image_occlusions@),
            ),
    {
        file_data(Syntax::Typst, output_type, request, note_import_action, notes_raw_dir, image_occlusions)
    }
}

impl MarkdownParser {
    /// The file of a note or of a side of one of its cards, in Markdown. `notes_raw_dir` is
    /// the directory of the Markdown note files, which links to other notes point into;
    /// `image_occlusions` are the texts of the card's image occlusions, in order.
    pub fn construct_file_data(
        &self,
        output_type: ConstructFileDataType,
        request: &GenerateNoteFilesRequest,
        note_import_action: &NoteImportAction,
        notes_raw_dir: &str,
        image_occlusions: &Vec<String>,
    ) -> (r: Option<String>)
        requires
            file_data_ok(output_type, *request, *note_import_action, strings_view(image_occlusions@)),
        ensures
            opt_string_seq(r) == spec_file_data(
                Syntax::Markdown,
                output_type,
                *request,
                *note_import_action,
                notes_raw_dir@,
                strings_view(image_occlusions@),
            ),
    {
        file_data(Syntax::Markdown, output_type, request, note_import_action, notes_raw_dir, image_occlusions)
    }
}

/// The byte ranges of the keywords of the links found: the first group of each match.
pub open spec fn keyword_ranges(ms: Seq<(usize, usize, usize, usize)>) -> Seq<std::ops::Range<usize>> {
    ms.map_values(|m: (usize, usize, usize, usize)| m.2..m.3)
}

pub open spec fn spec_linked_notes(syntax: Syntax, d: Seq<char>) -> Option<Seq<std::ops::Range<usize>>> {
    match regex_captures(link_pattern(syntax), d) {
        None => None,
        Some(ms) => Some(keyword_ranges(ms)),
    }
}

pub open spec fn opt_ranges(o: Option<Vec<std::ops::Range<usize>>>) -> Option<Seq<std::ops::Range<usize>>> {
    match o {
        Some(v) => Some(v@),
        None => None,
    }
}

fn linked_notes_of(syntax: Syntax, data: &str) -> (r: Option<Vec<std::ops::Range<usize>>>)
    ensures
        opt_ranges(r) == spec_linked_notes(syntax, data@),
{
    match regex_captures_of(link_pattern_exec(syntax), data) {
        None => None,
        Some(ms) => {
            let mut out: Vec<std::ops::Range<usize>> = Vec::new();
            let mut i: usize = 0;
            while i < ms.len()
                invariant
                    0 <= i <= ms.len(),
                    out@ == keyword_ranges(ms@).take(i as int),
                decreases ms.len() - i,
            {
                out.push(ms[i].2..ms[i].3);
                proof {
                    assert(keyword_ranges(ms@).take(i + 1) =~= keyword_ranges(ms@).take(i as int).push(ms@[i as int].2..ms@[i as int].3));
                }
                i += 1;
            }
            proof {
                assert(keyword_ranges(ms@).take(ms.len() as int) =~= keyword_ranges(ms@));
            }
            Some(out)
        },
    }
}

impl TypstParser {
    /// Where the keywords of the links to other notes stand in `data`: the first argument
    /// of each `#lin` call. `None` when the link pattern cannot be searched for.
    pub fn get_linked_notes(&self, data: &str) -> (r: Option<Vec<std::ops::Range<usize>>>)
        ensures
            opt_ranges(r) == spec_linked_notes(Syntax::Typst, data@),
    {
        linked_notes_of(Syntax::Typst, data)
    }
}

impl MarkdownParser {
    /// Where the keywords of the links to other notes stand in `data`: the text of each
    /// reference link to `li`. `None` when the link pattern cannot be searched for.
    pub fn get_linked_notes(&self, data: &str) -> (r: Option<Vec<std::ops::Range<usize>>>)
        ensures
            opt_ranges(r) == spec_linked_notes(Syntax::Markdown, data@),
    {
        linked_notes_of(Syntax::Markdown, data)
    }
}

/// The text a part of a card was written from: its own text, and for an image occlusion
/// its text in the note, `image`.
pub open spec fn part_source(p: NotePart, image: Seq<char>) -> Seq<char> {
    match p {
        NotePart::ClozeData(d, _) => d@,
        NotePart::SurroundingData(d) => d@,
        NotePart::ClozeStart(d) => d@,
        NotePart::ClozeEnd(d) => d@,
        NotePart::ImageOcclusion { .. } => image,
    }
}

/// The note text that the parts of a card were cut from; the `k`-th image occlusion is
/// written as `images[k]`.
pub open spec fn parts_source(parts: Seq<NotePart>, images: Seq<Seq<char>>) -> Seq<char>
    decreases parts.len(),
{
    if parts.len() == 0 {
        Seq::empty()
    } else {
        parts_source(parts.drop_last(), images) + part_source(parts.last(), images[count_images(parts.drop_last()) as int])
    }
}

/// The note text written back from the cards of a note: the parts of the first card put
/// together, which hold the whole note with the settings of its clozes as they now are;
/// the original text when there is no card.
pub fn note_data_from_cards(original_note_data: &str, card_datas: &Vec<CardData>, image_occlusions: &Vec<String>) -> (r: String)
    requires
        card_datas.len() > 0 ==> image_occlusions.len() >= count_images(card_datas@[0].data@),
    ensures
        r@ == if card_datas.len() == 0 {
            original_note_data@
        } else {
            parts_source(card_datas@[0].data@, strings_view(image_occlusions@))
        },
{
    if card_datas.len() == 0 {
        return original_note_data.to_string();
    }
    let parts = &card_datas[0].data;
    let mut out: Vec<char> = Vec::new();
    let mut k: usize = 0;
    let mut i: usize = 0;
    while i < parts.len()
        invariant
            0 <= i <= parts.len(),
            image_occlusions.len() >= count_images(parts@),
            k == count_images(parts@.take(i as int)),
            out@ == parts_source(parts@.take(i as int), strings_view(image_occlusions@)),
        decreases parts.len() - i,
    {
        proof {
            assert(parts@.take(i + 1).drop_last() =~= parts@.take(i as int));
            lemma_count_images_prefix(parts@, i + 1);
        }
        match &parts[i] {
            NotePart::ClozeData(d, _) => push_str(&mut out, d.as_str()),
            NotePart::SurroundingData(d) => push_str(&mut out, d.as_str()),
            NotePart::ClozeStart(d) => push_str(&mut out, d.as_str()),
            NotePart::ClozeEnd(d) => push_str(&mut out, d.as_str()),
            NotePart::ImageOcclusion { .. } => {
                push_str(&mut out, image_occlusions[k].as_str());
                k += 1;
            },
        }
        i += 1;
    }
    proof {
        assert(parts@.take(parts.len() as int) =~= parts@);
    }
    chars_to_string(out.as_slice())
}

/// The directory of the raw files of a parser's notes or cards under `base_dir`.
pub open spec fn spec_output_raw_dir(parser_name: Seq<char>, output_type: RenderOutputType, base_dir: Seq<char>) -> Seq<char> {
    let sub = match output_type {
        RenderOutputType::Note => "notes"@,
        RenderOutputType::Card(..) => "cards"@,
    };
    path_joined(path_joined(base_dir, sub), parser_name)
}

/// The directory of the raw files of a parser's notes or cards: `notes` or `cards` under
/// `base_dir` (the data directory, or another one), then the parser's name.
pub fn get_output_raw_dir(parser_name: &str, output_type: RenderOutputType, base_dir: &str) -> (r: String)
    ensures
        r@ == spec_output_raw_dir(parser_name@, output_type, base_dir@),
{
    let sub = match output_type {
        RenderOutputType::Note => "notes",
        RenderOutputType::Card(..) => "cards",
    };
    let dir = join_path(base_dir, sub);
    join_path(dir.as_str(), parser_name)
}

/// The directory of the auxiliary files of a LaTeX note: `aux` under the rendered directory,
/// then the note's id on four digits, so that each note's auxiliary files stay few.
pub open spec fn spec_aux_dir(output_rendered_dir: Seq<char>, note_id: NoteId) -> Seq<char> {
    path_joined(path_joined(output_rendered_dir, "aux"@), zero_padded(int_text(note_id as int), 4))
}

/// The directory of the auxiliary files of a LaTeX note, under `output_rendered_dir`.
pub fn get_aux_dir(output_rendered_dir: &str, note_id: NoteId) -> (r: String)
    ensures
        r@ == spec_aux_dir(output_rendered_dir@, note_id),
{
    let aux = join_path(output_rendered_dir, "aux");
    let id = chars_to_string(zero_padded_exec(i64_to_decimal(note_id), 4).as_slice());
    join_path(aux.as_str(), id.as_str())
}

/// The chars a regex gives a meaning to, which `fancy_regex::escape` escapes.
pub open spec fn is_regex_special(c: char) -> bool {
    ||| c == '\\' || c == '.' || c == '+' || c == '*' || c == '?'
    ||| c == '(' || c == ')' || c == '|' || c == '[' || c == ']'
    ||| c == '{' || c == '}' || c == '^' || c == '$' || c == '#'
}

/// A char of an escaped text: a backslash as two, a line feed, tab or carriage return as
/// `\n`, `\t`, `\r`, another special char after a backslash, any other char as it is.
pub open spec fn regex_char_escaped(c: char) -> Seq<char> {
    if c == '\\' {
        seq!['\\', '\\']
    } else if c == '\n' {
        seq!['\\', 'n']
    } else if c == '\t' {
        seq!['\\', 't']
    } else if c == '\r' {
        seq!['\\', 'r']
    } else if is_regex_special(c) {
        seq!['\\', c]
    } else {
        seq![c]
    }
}

pub open spec fn regex_escaped_all(s: Seq<char>) -> Seq<char>
    decreases s.len(),
{
    if s.len() == 0 {
        Seq::empty()
    } else {
        regex_escaped_all(s.drop_last()) + regex_char_escaped(s.last())
    }
}

/// The text `fancy_regex::escape` gives for `text`, a pattern that matches it literally:
/// `text` itself when it holds no special char, each char escaped otherwise.
pub open spec fn regex_escaped(text: Seq<char>) -> Seq<char> {
    if exists|i: int| 0 <= i < text.len() && is_regex_special(#[trigger] text[i]) {
        regex_escaped_all(text)
    } else {
        text
    }
}

/// `fancy_regex::escape`.
#[verifier::external_body]
fn escape_regex(text: &str) -> (r: String)
    ensures
        r@ == regex_escaped(text@),
{
    fancy_regex::escape(text).into_owned()
}

/// Where a note of a file stands: the text between the comments that mark its start and
/// its end (its metadata is not read here).
#[derive(Clone, Debug)]
pub struct NoteRawData {
    pub metadata: Option<std::ops::Range<usize>>,
    pub data: std::ops::Range<usize>,
}

/// The pattern of a note: the start comment, the note (as little as can be), a newline and
/// the end comment, whose last char may be missing.
pub open spec fn notes_pattern(syntax: Syntax) -> Seq<char> {
    "(?ms)"@ + regex_escaped(comment_text(syntax, "spares: note start"@)) + "(.*?)\n"@ + regex_escaped(
        comment_text(syntax, "spares: note end"@),
    ) + "?"@
}

/// The pattern of an image occlusion: its start comment, its settings, a newline and its end
/// comment, whose last char may be missing.
pub open spec fn image_occlusions_pattern(syntax: Syntax) -> Seq<char> {
    "(?s)"@ + comment_text(syntax, "spares: image occlusion start"@) + "(.*?)\n"@ + comment_text(
        syntax,
        "spares: image occlusion end"@,
    ) + "?"@
}

pub open spec fn note_ranges(ms: Seq<(usize, usize, usize, usize)>) -> Seq<std::ops::Range<usize>> {
    ms.map_values(|m: (usize, usize, usize, usize)| m.2..m.3)
}

pub open spec fn notes_view(v: Seq<NoteRawData>) -> Seq<std::ops::Range<usize>> {
    v.map_values(|n: NoteRawData| n.data)
}

/// The notes of a file: where the text of each stands, in order; `None` when the note
/// pattern cannot be searched for.
pub open spec fn spec_notes_data(syntax: Syntax, d: Seq<char>) -> Option<Seq<std::ops::Range<usize>>> {
    match regex_captures(notes_pattern(syntax), d) {
        None => None,
        Some(ms) => Some(note_ranges(ms)),
    }
}

fn comment_string(syntax: Syntax, s: &str) -> (r: String)
    ensures
        r@ == comment_text(syntax, s@),
{
    let mut out: Vec<char> = Vec::new();
    comment_exec(syntax, &mut out, s);
    chars_to_string(out.as_slice())
}

fn notes_data(syntax: Syntax, data: &str) -> (r: Option<Vec<NoteRawData>>)
    ensures
        match r {
            Some(v) => spec_notes_data(syntax, data@) == Some(notes_view(v@)) && forall|i: int|
                0 <= i < v.len() ==> (#[trigger] v@[i]).metadata is None,
            None => spec_notes_data(syntax, data@) is None,
        },
{
    let start = escape_regex(comment_string(syntax, "spares: note start").as_str());
    let end = escape_regex(comment_string(syntax, "spares: note end").as_str());
    let mut pattern = str_chars("(?ms)");
    push_str(&mut pattern, start.as_str());
    push_str(&mut pattern, "(.*?)\n");
    push_str(&mut pattern, end.as_str());
    push_str(&mut pattern, "?");
    let pattern = chars_to_string(pattern.as_slice());
    match regex_captures_of(pattern.as_str(), data) {
        None => None,
        Some(ms) => {
            let mut out: Vec<NoteRawData> = Vec::new();
            let mut i: usize = 0;
            while i < ms.len()
                invariant
                    0 <= i <= ms.len(),
                    notes_view(out@) == note_ranges(ms@).take(i as int),
                    forall|j: int| 0 <= j < out.len() ==> (#[trigger] out@[j]).metadata is None,
                decreases ms.len() - i,
            {
                let ghost before = out@;
                out.push(NoteRawData { metadata: None, data: ms[i].2..ms[i].3 });
                proof {
                    assert(notes_view(out@) =~= notes_view(before).push(ms@[i as int].2..ms@[i as int].3));
                    assert(note_ranges(ms@).take(i + 1) =~= note_ranges(ms@).take(i as int).push(
                        ms@[i as int].2..ms@[i as int].3,
                    ));
                }
                i += 1;
            }
            proof {
                assert(note_ranges(ms@).take(ms.len() as int) =~= note_ranges(ms@));
            }
            Some(out)
        },
    }
}

pub open spec fn match_view(ms: Seq<(usize, usize, usize, usize)>) -> Seq<RegexMatch> {
    ms.map_values(|m: (usize, usize, usize, usize)| RegexMatch { match_range: m.0..m.1, capture_range: m.2..m.3 })
}

/// The image occlusions of a note: each whole, with its settings; `None` when the pattern
/// cannot be searched for.
pub open spec fn spec_image_occlusions(syntax: Syntax, d: Seq<char>) -> Option<Seq<RegexMatch>> {
    match regex_captures(image_occlusions_pattern(syntax), d) {
        None => None,
        Some(ms) => Some(match_view(ms)),
    }
}

pub open spec fn opt_matches(o: Option<Vec<RegexMatch>>) -> Option<Seq<RegexMatch>> {
    match o {
        Some(v) => Some(v@),
        None => None,
    }
}

fn image_occlusions(syntax: Syntax, data: &str) -> (r: Option<Vec<RegexMatch>>)
    ensures
        opt_matches(r) == spec_image_occlusions(syntax, data@),
{
    let mut pattern = str_chars("(?s)");
    comment_exec(syntax, &mut pattern, "spares: image occlusion start");
    push_str(&mut pattern, "(.*?)\n");
    comment_exec(syntax, &mut pattern, "spares: image occlusion end");
    push_str(&mut pattern, "?");
    let pattern = chars_to_string(pattern.as_slice());
    match regex_captures_of(pattern.as_str(), data) {
        None => None,
        Some(ms) => {
            let mut out: Vec<RegexMatch> = Vec::new();
            let mut i: usize = 0;
            while i < ms.len()
                invariant
                    0 <= i <= ms.len(),
                    out@ == match_view(ms@).take(i as int),
                decreases ms.len() - i,
            {
                let m = ms[i];
                out.push(RegexMatch { match_range: m.0..m.1, capture_range: m.2..m.3 });
                proof {
                    assert(match_view(ms@).take(i + 1) =~= match_view(ms@).take(i as int).push(
                        RegexMatch { match_range: m.0..m.1, capture_range: m.2..m.3 },
                    ));
                }
                i += 1;
            }
            proof {
                assert(match_view(ms@).take(ms.len() as int) =~= match_view(ms@));
            }
            Some(out)
        },
    }
}

impl TypstParser {
    /// The notes of a Typst file, between `// spares: note start` and `// spares: note end`.
    pub fn get_notes_data(&self, data: &str) -> (r: Option<Vec<NoteRawData>>)
        ensures
            match r {
                Some(v) => spec_notes_data(Syntax::Typst, data@) == Some(notes_view(v@)) && forall|i: int|
                    0 <= i < v.len() ==> (#[trigger] v@[i]).metadata is None,
                None => spec_notes_data(Syntax::Typst, data@) is None,
            },
    {
        notes_data(Syntax::Typst, data)
    }

    /// The image occlusions of a Typst note, with their settings.
    pub fn get_image_occlusions(&self, data: &str) -> (r: Option<Vec<RegexMatch>>)
        ensures
            opt_matches(r) == spec_image_occlusions(Syntax::Typst, data@),
    {
        image_occlusions(Syntax::Typst, data)
    }
}

impl MarkdownParser {
    /// The notes of a Markdown file, between the comments `spares: note start` and
    /// `spares: note end`.
    pub fn get_notes_data(&self, data: &str) -> (r: Option<Vec<NoteRawData>>)
        ensures
            match r {
                Some(v) => spec_notes_data(Syntax::Markdown, data@) == Some(notes_view(v@)) && forall|i: int|
                    0 <= i < v.len() ==> (#[trigger] v@[i]).metadata is None,
                None => spec_notes_data(Syntax::Markdown, data@) is None,
            },
    {
        notes_data(Syntax::Markdown, data)
    }

    /// The image occlusions of a Markdown note, with their settings.
    pub fn get_image_occlusions(&self, data: &str) -> (r: Option<Vec<RegexMatch>>)
        ensures
            opt_matches(r) == spec_image_occlusions(Syntax::Markdown, data@),
    {
        image_occlusions(Syntax::Markdown, data)
    }
}

/// One file among those written together: what it is for, its note, and the texts of the
/// image occlusions of its card.
pub type FileRequest<'a> = (ConstructFileDataType<'a>, &'a GenerateNoteFilesRequest, Vec<String>);

/// The files are all note files, or all card files of the same side as the first.
pub open spec fn same_kind(reqs: Seq<FileRequest>) -> bool {
    forall|i: int|
        0 <= i < reqs.len() ==> match (reqs[0].0, (#[trigger] reqs[i]).0) {
            (ConstructFileDataType::Note, ConstructFileDataType::Note) => true,
            (ConstructFileDataType::Card(_, _, s1), ConstructFileDataType::Card(_, _, s2)) => s1 == s2,
            _ => false,
        }
}

/// The files of the first `n` requests, one after the other; `None` when one of them cannot
/// be written.
pub open spec fn files_upto(
    syntax: Syntax,
    reqs: Seq<FileRequest>,
    action: NoteImportAction,
    dir: Seq<char>,
    n: int,
) -> Option<Seq<char>>
    decreases n,
{
    if n <= 0 {
        Some(Seq::empty())
    } else {
        match files_upto(syntax, reqs, action, dir, n - 1) {
            None => None,
            Some(done) => {
                let r = reqs[n - 1];
                match spec_file_data(syntax, r.0, *r.1, action, dir, strings_view(r.2@)) {
                    None => None,
                    Some(t) => Some(done + t),
                }
            },
        }
    }
}

/// The file of several notes, or of the same side of several cards: note files are put
/// between the comments that mark the start and the end of the notes of a file.
pub open spec fn spec_full_file_data(
    syntax: Syntax,
    reqs: Seq<FileRequest>,
    action: NoteImportAction,
    dir: Seq<char>,
) -> Option<Seq<char>> {
    match files_upto(syntax, reqs, action, dir, reqs.len() as int) {
        None => None,
        Some(all) => match reqs[0].0 {
            ConstructFileDataType::Note => Some(
                comment_text(syntax, "spares: start"@) + "\n"@ + all + "\n"@ + comment_text(syntax, "spares: end"@),
            ),
            ConstructFileDataType::Card(..) => Some(all),
        },
    }
}

fn full_file_data(
    syntax: Syntax,
    requests: &Vec<FileRequest>,
    note_import_action: &NoteImportAction,
    notes_raw_dir: &str,
) -> (r: Option<String>)
    requires
        requests.len() > 0,
        same_kind(requests@),
        forall|i: int|
            0 <= i < requests.len() ==> file_data_ok(
                (#[trigger] requests@[i]).0,
                *requests@[i].1,
                *note_import_action,
                strings_view(requests@[i].2@),
            ),
    ensures
        opt_string_seq(r) == spec_full_file_data(syntax, requests@, *note_import_action, notes_raw_dir@),
{
    let mut all: Vec<char> = Vec::new();
    let mut i: usize = 0;
    while i < requests.len()
        invariant
            0 <= i <= requests.len(),
            forall|j: int|
                0 <= j < requests.len() ==> file_data_ok(
                    (#[trigger] requests@[j]).0,
                    *requests@[j].1,
                    *note_import_action,
                    strings_view(requests@[j].2@),
                ),
            files_upto(syntax, requests@, *note_import_action, notes_raw_dir@, i as int) == Some(all@),
        decreases requests.len() - i,
    {
        let (output_type, request, images) = &requests[i];
        let t = file_data(syntax, *output_type, *request, note_import_action, notes_raw_dir, images);
        match t {
            None => {
                proof {
                    lemma_files_none_persists(syntax, requests@, *note_import_action, notes_raw_dir@, i as int + 1);
                }
                return None;
            },
            Some(t) => {
                push_str(&mut all, t.as_str());
            },
        }
        i += 1;
    }
    match requests[0].0 {
        ConstructFileDataType::Note => {
            let mut out: Vec<char> = Vec::new();
            comment_exec(syntax, &mut out, "spares: start");
            push_str(&mut out, "\n");
            push_chars(&mut out, &all);
            push_str(&mut out, "\n");
            comment_exec(syntax, &mut out, "spares: end");
            Some(chars_to_string(out.as_slice()))
        },
        ConstructFileDataType::Card(..) => Some(chars_to_string(all.as_slice())),
    }
}

proof fn lemma_files_none_persists(
    syntax: Syntax,
    reqs: Seq<FileRequest>,
    action: NoteImportAction,
    dir: Seq<char>,
    n: int,
)
    requires
        0 <= n <= reqs.len(),
        files_upto(syntax, reqs, action, dir, n) is None,
    ensures
        files_upto(syntax, reqs, action, dir, reqs.len() as int) is None,
    decreases reqs.len() - n,
{
    if n < reqs.len() {
        lemma_files_none_persists(syntax, reqs, action, dir, n + 1);
    }
}

impl TypstParser {
    /// The Typst file of several notes, or of the same side of several cards.
    pub fn construct_full_file_data(
        &self,
        requests: &Vec<FileRequest>,
        note_import_action: &NoteImportAction,
        notes_raw_dir: &str,
    ) -> (r: Option<String>)
        requires
            requests.len() > 0,
            same_kind(requests@),
            forall|i: int|
                0 <= i < requests.len() ==> file_data_ok(
                    (#[trigger] requests@[i]).0,
                    *requests@[i].1,
                    *note_import_action,
                    strings_view(requests@[i].2@),
                ),
        ensures
            opt_string_seq(r) == spec_full_file_data(Syntax::Typst, requests@, *note_import_action, notes_raw_dir@),
    {
        full_file_data(Syntax::Typst, requests, note_import_action, notes_raw_dir)
    }
}

impl MarkdownParser {
    /// The Markdown file of several notes, or of the same side of several cards.
    pub fn construct_full_file_data(
        &self,
        requests: &Vec<FileRequest>,
        note_import_action: &NoteImportAction,
        notes_raw_dir: &str,
    ) -> (r: Option<String>)
        requires
            requests.len() > 0,
            same_kind(requests@),
            forall|i: int|
                0 <= i < requests.len() ==> file_data_ok(
                    (#[trigger] requests@[i]).0,
                    *requests@[i].1,
                    *note_import_action,
                    strings_view(requests@[i].2@),
                ),
        ensures
            opt_string_seq(r) == spec_full_file_data(Syntax::Markdown, requests@, *note_import_action, notes_raw_dir@),
    {
        full_file_data(Syntax::Markdown, requests, note_import_action, notes_raw_dir)
    }
}

/// A LaTeX setting: `\se{s}` on a line of its own.
pub open spec fn latex_setting(s: Seq<char>) -> Seq<char> {
    "\\se{"@ + s + "}\n"@
}

/// The entry of a linked note in the list of linked notes of a LaTeX note file: a link to
/// the linked note's file, showing the keyword searched for and the keyword matched; a
/// dash when no note was found.
pub open spec fn latex_link_item(ln: LinkedNote, dir: Seq<char>) -> Seq<char> {
    match ln.linked_note_id {
        None => "  \\item{{-}}"@,
        Some(id) => "  \\item{\\lhref{"@ + note_path(dir, id, "tex"@) + "}{"@ + ln.searched_keyword@ + " $\\rightarrow$ "@
            + ln.matched_keyword->Some_0@ + "}}"@,
    }
}

/// The list of linked notes at the end of a LaTeX note file; nothing when the linked notes
/// are left out.
pub open spec fn latex_links(lns: Option<Seq<LinkedNote>>, dir: Seq<char>) -> Seq<char> {
    match lns {
        None => Seq::empty(),
        Some(l) => "\n\nLinked Notes:\n\\begin{enumerate}[label=\\arabic*.]\n"@ + join(
            Seq::new(l.len(), |i: int| latex_link_item(l[i], dir)),
            "\n"@,
        ) + "\n\\end{enumerate}"@,
    }
}

/// A part of a card in LaTeX.
pub open spec fn latex_part_text(p: NotePart, side: CardSide, image: Seq<char>) -> Seq<char> {
    match p {
        NotePart::ClozeData(d, r) => latex_replacement(spec_replacement(side, r, d@)),
        NotePart::SurroundingData(d) => d@,
        NotePart::ImageOcclusion { .. } => image,
        NotePart::ClozeStart(_) => Seq::empty(),
        NotePart::ClozeEnd(_) => Seq::empty(),
    }
}

/// The text of a card in LaTeX on the given side; the `k`-th image occlusion is written as
/// `images[k]`.
pub open spec fn latex_card_body(parts: Seq<NotePart>, side: CardSide, images: Seq<Seq<char>>) -> Seq<char>
    decreases parts.len(),
{
    if parts.len() == 0 {
        Seq::empty()
    } else {
        latex_card_body(parts.drop_last(), side, images) + latex_part_text(
            parts.last(),
            side,
            images[count_images(parts.drop_last()) as int],
        )
    }
}

/// The LaTeX file written for `output_type`: a note file holds the settings and the note
/// in a `note` environment, followed by its linked notes; a card file holds the note's id,
/// keywords and tags and the card in a frame.
pub open spec fn spec_latex_file_data(
    output_type: ConstructFileDataType,
    request: GenerateNoteFilesRequest,
    action: NoteImportAction,
    dir: Seq<char>,
    images: Seq<Seq<char>>,
) -> Seq<char> {
    let head = latex_setting("note-id: "@ + int_text(request.note_id as int)) + latex_setting(
        "keywords: "@ + join(strings_view(request.keywords@), ", "@),
    ) + latex_setting("tags: "@ + join(strings_view(request.tags@), ", "@));
    match output_type {
        ConstructFileDataType::Note => "\n"@ + match action {
            NoteImportAction::Update(_) => Seq::empty(),
            _ => latex_setting("action: add"@),
        } + head + if request.custom_data@.len() == 0 {
            Seq::empty()
        } else {
            latex_setting("custom-data: "@ + custom_data_text(entries_view(request.custom_data@)))
        } + "\\begin{note}"@ + "\n"@ + request.note_data@ + "\n"@ + "\\end{note}"@ + latex_links(
            opt_request_links(request),
            dir,
        ) + "\n"@ + "\n"@,
        ConstructFileDataType::Card(_, card, side) => "\n"@ + "\n"@ + head + "\\begin{mdframed}"@ + "\n"@
            + latex_card_body(card.data@, side, images) + "\n"@ + "\\end{mdframed}"@ + "\n"@ + "\n"@,
    }
}

fn latex_link_item_exec(ln: &LinkedNote, dir: &str) -> (r: Vec<char>)
    requires
        ln.linked_note_id.is_some() == ln.matched_keyword.is_some(),
    ensures
        r@ == latex_link_item(*ln, dir@),
{
    match (ln.linked_note_id, &ln.matched_keyword) {
        (Some(id), Some(matched)) => {
            let name = get_output_filename(RenderOutputType::Note, id);
            let joined = join_path(dir, name.as_str());
            proof {
                crate::paths::lemma_extensions_have_no_separator();
            }
            let path = with_extension(joined.as_str(), "tex");
            let mut out = str_chars("  \\item{\\lhref{");
            push_str(&mut out, path.as_str());
            push_str(&mut out, "}{");
            push_str(&mut out, ln.searched_keyword.as_str());
            push_str(&mut out, " $\\rightarrow$ ");
            push_str(&mut out, matched.as_str());
            push_str(&mut out, "}}");
            out
        },
        _ => str_chars("  \\item{{-}}"),
    }
}

fn latex_links_exec(lns: &Vec<LinkedNote>, dir: &str) -> (r: Vec<char>)
    requires
        links_consistent(lns@),
    ensures
        r@ == latex_links(Some(lns@), dir@),
{
    let ghost want = Seq::new(lns@.len(), |i: int| latex_link_item(lns@[i], dir@));
    let mut parts: Vec<Vec<char>> = Vec::new();
    let mut i: usize = 0;
    while i < lns.len()
        invariant
            0 <= i <= lns.len(),
            links_consistent(lns@),
            want == Seq::new(lns@.len(), |i: int| latex_link_item(lns@[i], dir@)),
            parts@.map_values(|p: Vec<char>| p@) == want.take(i as int),
        decreases lns.len() - i,
    {
        let item = latex_link_item_exec(&lns[i], dir);
        let ghost old_parts = parts@;
        parts.push(item);
        proof {
            assert(parts@.map_values(|p: Vec<char>| p@) =~= old_parts.map_values(|p: Vec<char>| p@).push(item@));
            assert(want.take(i + 1) =~= want.take(i as int).push(want[i as int]));
        }
        i += 1;
    }
    proof {
        assert(want.take(lns.len() as int) =~= want);
    }
    let nl = str_chars("\n");
    let items = join_parts(parts, &nl);
    let mut out = str_chars("\n\nLinked Notes:\n\\begin{enumerate}[label=\\arabic*.]\n");
    push_chars(&mut out, &items);
    push_str(&mut out, "\n\\end{enumerate}");
    out
}

fn latex_card_body_exec(parts: &Vec<NotePart>, side: CardSide, images: &Vec<String>) -> (r: Vec<char>)
    requires
        images.len() >= count_images(parts@),
    ensures
        r@ == latex_card_body(parts@, side, strings_view(images@)),
{
    let mut out: Vec<char> = Vec::new();
    let mut k: usize = 0;
    let mut i: usize = 0;
    while i < parts.len()
        invariant
            0 <= i <= parts.len(),
            images.len() >= count_images(parts@),
            k == count_images(parts@.take(i as int)),
            out@ == latex_card_body(parts@.take(i as int), side, strings_view(images@)),
        decreases parts.len() - i,
    {
        proof {
            assert(parts@.take(i + 1).drop_last() =~= parts@.take(i as int));
            lemma_count_images_prefix(parts@, i + 1);
        }
        match &parts[i] {
            NotePart::ClozeData(d, r) => {
                let rep = ClozeReplacement::parse(side, r, d.as_str());
                let t = construct_cloze_replacement(&rep, side);
                push_str(&mut out, t.as_str());
            },
            NotePart::SurroundingData(d) => {
                push_str(&mut out, d.as_str());
            },
            NotePart::ImageOcclusion { .. } => {
                push_str(&mut out, images[k].as_str());
                k += 1;
            },
            NotePart::ClozeStart(_) => {},
            NotePart::ClozeEnd(_) => {},
        }
        i += 1;
    }
    proof {
        assert(parts@.take(parts.len() as int) =~= parts@);
    }
    out
}

fn push_setting(out: &mut Vec<char>, prefix: &str, v: &Vec<char>)
    ensures
        final(out)@ == old(out)@ + latex_setting(prefix@ + v@),
{
    let body = prefixed(prefix, v);
    let text = chars_to_string(body.as_slice());
    let setting = construct_setting(text.as_str());
    push_str(out, setting.as_str());
}

fn latex_file_data(
    output_type: ConstructFileDataType,
    request: &GenerateNoteFilesRequest,
    note_import_action: &NoteImportAction,
    notes_raw_dir: &str,
    image_occlusions: &Vec<String>,
) -> (r: String)
    requires
        file_data_ok(output_type, *request, *note_import_action, strings_view(image_occlusions@)),
    ensures
        r@ == spec_latex_file_data(
            output_type,
            *request,
            *note_import_action,
            notes_raw_dir@,
            strings_view(image_occlusions@),
        ),
{
    let keywords_str = join_strings(&request.keywords, ", ");
    let tags_str = join_strings(&request.tags, ", ");
    let id = i64_to_decimal(request.note_id);
    let mut head: Vec<char> = Vec::new();
    push_setting(&mut head, "note-id: ", &id);
    push_setting(&mut head, "keywords: ", &keywords_str);
    push_setting(&mut head, "tags: ", &tags_str);
    let mut out: Vec<char> = Vec::new();
    match output_type {
        ConstructFileDataType::Note => {
            push_str(&mut out, "\n");
            match note_import_action {
                NoteImportAction::Update(_) => {},
                _ => push_setting(&mut out, "action: add", &Vec::new()),
            }
            push_chars(&mut out, &head);
            if request.custom_data.len() > 0 {
                push_setting(&mut out, "custom-data: ", &custom_data_json(&request.custom_data));
            }
            push_str(&mut out, "\\begin{note}");
            push_str(&mut out, "\n");
            push_str(&mut out, request.note_data.as_str());
            push_str(&mut out, "\n");
            push_str(&mut out, "\\end{note}");
            match &request.linked_notes {
                Some(l) => {
                    let links = latex_links_exec(l, notes_raw_dir);
                    push_chars(&mut out, &links);
                },
                None => {},
            }
            push_str(&mut out, "\n");
            push_str(&mut out, "\n");
        },
        ConstructFileDataType::Card(_, card, side) => {
            push_str(&mut out, "\n");
            push_str(&mut out, "\n");
            push_chars(&mut out, &head);
            push_str(&mut out, "\\begin{mdframed}");
            push_str(&mut out, "\n");
            let body = latex_card_body_exec(&card.data, side, image_occlusions);
            push_chars(&mut out, &body);
            push_str(&mut out, "\n");
            push_str(&mut out, "\\end{mdframed}");
            push_str(&mut out, "\n");
            push_str(&mut out, "\n");
        },
    }
    chars_to_string(out.as_slice())
}

impl LatexParserNote {
    /// The file of a note or of a side of one of its cards, in LaTeX. `notes_raw_dir` is
    /// the directory of the LaTeX note files, which the list of linked notes points into;
    /// `image_occlusions` are the texts of the card's image occlusions, in order.
    pub fn construct_file_data(
        &self,
        output_type: ConstructFileDataType,
        request: &GenerateNoteFilesRequest,
        note_import_action: &NoteImportAction,
        notes_raw_dir: &str,
        image_occlusions: &Vec<String>,
    ) -> (r: String)
        requires
            file_data_ok(output_type, *request, *note_import_action, strings_view(image_occlusions@)),
        ensures
            r@ == spec_latex_file_data(
                output_type,
                *request,
                *note_import_action,
                notes_raw_dir@,
                strings_view(image_occlusions@),
            ),
    {
        latex_file_data(output_type, request, note_import_action, notes_raw_dir, image_occlusions)
    }
}

impl LatexParserExerciseSolution {
    /// The file of a note or of a side of one of its cards, in LaTeX, as for LaTeX notes.
    pub fn construct_file_data(
        &self,
        output_type: ConstructFileDataType,
        request: &GenerateNoteFilesRequest,
        note_import_action: &NoteImportAction,
        notes_raw_dir: &str,
        image_occlusions: &Vec<String>,
    ) -> (r: String)
        requires
            file_data_ok(output_type, *request, *note_import_action, strings_view(image_occlusions@)),
        ensures
            r@ == spec_latex_file_data(
                output_type,
                *request,
                *note_import_action,
                notes_raw_dir@,
                strings_view(image_occlusions@),
            ),
    {
        latex_file_data(output_type, request, note_import_action, notes_raw_dir, image_occlusions)
    }
}

/// The first setting from the `j`-th on that does not end before `bound`.
pub open spec fn first_not_before(settings: Seq<RegexMatch>, j: int, bound: usize) -> int
    decreases settings.len() - j,
{
    if j < 0 || j >= settings.len() {
        j
    } else if settings[j].capture_range.end >= bound {
        j
    } else {
        first_not_before(settings, j + 1, bound)
    }
}

pub open spec fn capture_ranges(settings: Seq<RegexMatch>) -> Seq<std::ops::Range<usize>> {
    settings.map_values(|m: RegexMatch| m.capture_range)
}

/// The settings of the first `k` notes of a file: each note takes, in order, the settings
/// not taken yet that end before the note starts. Also where the next note starts taking.
pub open spec fn settings_split(settings: Seq<RegexMatch>, notes: Seq<NoteRawData>, k: int) -> (
    Seq<Seq<std::ops::Range<usize>>>,
    int,
)
    decreases k,
{
    if k <= 0 {
        (Seq::empty(), 0)
    } else {
        let (parts, j) = settings_split(settings, notes, k - 1);
        let e = first_not_before(settings, j, notes[k - 1].data.start);
        (parts.push(capture_ranges(settings.subrange(j, e))), e)
    }
}

proof fn lemma_first_not_before_bounds(settings: Seq<RegexMatch>, j: int, bound: usize)
    requires
        0 <= j <= settings.len(),
    ensures
        j <= first_not_before(settings, j, bound) <= settings.len(),
    decreases settings.len() - j,
{
    if j < settings.len() && settings[j].capture_range.end < bound {
        lemma_first_not_before_bounds(settings, j + 1, bound);
    }
}

/// Each note takes a run of the settings: its ranges are the capture ranges of some of the
/// settings, in order.
pub proof fn lemma_split_parts(settings: Seq<RegexMatch>, notes: Seq<NoteRawData>, k: int)
    requires
        0 <= k <= notes.len(),
    ensures
        0 <= settings_split(settings, notes, k).1 <= settings.len(),
        settings_split(settings, notes, k).0.len() == k,
        forall|i: int, m: int|
            0 <= i < k && 0 <= m < settings_split(settings, notes, k).0[i].len() ==> exists|t: int|
                0 <= t < settings.len() && #[trigger] settings_split(settings, notes, k).0[i][m] == settings[t].capture_range,
    decreases k,
{
    if k > 0 {
        lemma_split_parts(settings, notes, k - 1);
        let (parts, j) = settings_split(settings, notes, k - 1);
        let e = first_not_before(settings, j, notes[k - 1].data.start);
        lemma_first_not_before_bounds(settings, j, notes[k - 1].data.start);
        let now = settings_split(settings, notes, k).0;
        assert(now == parts.push(capture_ranges(settings.subrange(j, e))));
        assert forall|i: int, m: int| 0 <= i < k && 0 <= m < now[i].len() implies exists|t: int|
            0 <= t < settings.len() && #[trigger] now[i][m] == settings[t].capture_range by {
            if i == k - 1 {
                assert(now[i][m] == settings[j + m].capture_range);
            } else {
                assert(now[i] == parts[i]);
            }
        }
    }
}

/// The ranges of the settings of each note of a file: settings are read in order, and each
/// note takes those not taken yet that end before the note starts (the settings after the
/// last note belong to none).
pub fn note_settings_ranges(settings: &Vec<RegexMatch>, notes: &Vec<NoteRawData>) -> (r: Vec<Vec<std::ops::Range<usize>>>)
    ensures
        r@.map_values(|v: Vec<std::ops::Range<usize>>| v@) == settings_split(settings@, notes@, notes@.len() as int).0,
{
    let mut out: Vec<Vec<std::ops::Range<usize>>> = Vec::new();
    let mut j: usize = 0;
    let mut k: usize = 0;
    while k < notes.len()
        invariant
            0 <= k <= notes.len(),
            0 <= j <= settings.len(),
            j == settings_split(settings@, notes@, k as int).1,
            out@.map_values(|v: Vec<std::ops::Range<usize>>| v@) == settings_split(settings@, notes@, k as int).0,
        decreases notes.len() - k,
    {
        let bound = notes[k].data.start;
        let ghost j0 = j as int;
        let mut mine: Vec<std::ops::Range<usize>> = Vec::new();
        while j < settings.len() && settings[j].capture_range.end < bound
            invariant
                0 <= j0 <= j <= settings.len(),
                first_not_before(settings@, j as int, bound) == first_not_before(settings@, j0, bound),
                mine@ == capture_ranges(settings@.subrange(j0, j as int)),
            decreases settings.len() - j,
        {
            let r = settings[j].capture_range.start..settings[j].capture_range.end;
            mine.push(r);
            proof {
                assert(settings@.subrange(j0, j + 1) =~= settings@.subrange(j0, j as int).push(settings@[j as int]));
                assert(capture_ranges(settings@.subrange(j0, j + 1)) =~= capture_ranges(settings@.subrange(j0, j as int)).push(
                    settings@[j as int].capture_range,
                ));
            }
            j += 1;
        }
        let ghost old_out = out@;
        out.push(mine);
        proof {
            assert(j == first_not_before(settings@, j0, bound));
            assert(out@.map_values(|v: Vec<std::ops::Range<usize>>| v@) =~= old_out.map_values(
                |v: Vec<std::ops::Range<usize>>| v@,
            ).push(mine@));
        }
        k += 1;
    }
    out
}

/// The pattern of a Markdown setting: a hidden comment `<!--- # … --->` on one line; the
/// setting is the first group.
pub open spec fn markdown_settings_pattern() -> Seq<char> {
    "(?s)<!--- # ([^\n]*) --->"@
}

pub open spec fn spec_markdown_settings(d: Seq<char>) -> Option<Seq<RegexMatch>> {
    match regex_captures(markdown_settings_pattern(), d) {
        None => None,
        Some(ms) => Some(match_view(ms)),
    }
}

impl MarkdownParser {
    /// The settings of a Markdown note: each hidden comment `<!--- # … --->`, with its text.
    /// `None` when the pattern cannot be searched for.
    pub fn get_settings(&self, data: &str) -> (r: Option<Vec<RegexMatch>>)
        ensures
            opt_matches(r) == spec_markdown_settings(data@),
            r matches Some(v) ==> crate::notes::settings::valid_ranges(data@, capture_ranges(v@)),
    {
        match regex_captures_of("(?s)<!--- # ([^\n]*) --->", data) {
            None => None,
            Some(ms) => {
                let mut out: Vec<RegexMatch> = Vec::new();
                let mut i: usize = 0;
                while i < ms.len()
                    invariant
                        0 <= i <= ms.len(),
                        out@ == match_view(ms@).take(i as int),
                    decreases ms.len() - i,
                {
                    let m = ms[i];
                    out.push(RegexMatch { match_range: m.0..m.1, capture_range: m.2..m.3 });
                    proof {
                        assert(match_view(ms@).take(i + 1) =~= match_view(ms@).take(i as int).push(
                            RegexMatch { match_range: m.0..m.1, capture_range: m.2..m.3 },
                        ));
                    }
                    i += 1;
                }
                proof {
                    assert(match_view(ms@).take(ms.len() as int) =~= match_view(ms@));
                    assert forall|i: int| 0 <= i < out@.len() implies {
                        let r = #[trigger] capture_ranges(out@)[i];
                        r.start <= r.end && is_char_start(data@, r.start as int) && is_char_start(data@, r.end as int)
                    } by {
                        assert(capture_ranges(out@)[i] == (ms@[i].2..ms@[i].3));
                    }
                }
                Some(out)
            },
        }
    }
}

} // verus!
