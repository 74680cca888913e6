//! Whether the raw file of a note is up to date, so that it need not be written and
//! rendered again: a file written for rendering ends with a comment holding the SHA-256
//! digest of the text before it.

use crate::parsers::{comment_of, comment_text_of, ParserKind};
use crate::text::{chars_to_string, join, join_parts, str_chars};
use vstd::prelude::*;

verus! {

/// The SHA-256 digest of the UTF-8 bytes of `text`, in lowercase hex, as the `sha256` crate
/// gives it.
pub uninterp spec fn sha256_hex(text: Seq<char>) -> Seq<char>;

pub open spec fn is_lower_hex(c: char) -> bool {
    '0' <= c <= '9' || 'a' <= c <= 'f'
}

/// `sha256::digest`: the SHA-256 digest of the UTF-8 bytes of `text`, hex-encoded. Stated:
/// the result is the named digest, 64 lowercase hex digits.
#[verifier::external_body]
fn sha256_digest(text: &str) -> (r: String)
    ensures
        r@ == sha256_hex(text@),
        r@.len() == 64,
        forall|i: int| 0 <= i < r@.len() ==> is_lower_hex(#[trigger] r@[i]),
{
    sha256::digest(text)
}

/// A line without the carriage return that ended it, if one did.
pub open spec fn without_cr(line: Seq<char>) -> Seq<char> {
    if line.len() > 0 && line.last() == '\r' {
        line.drop_last()
    } else {
        line
    }
}

/// The lines completed in the first `k` chars of `s`, and the line begun after them.
pub open spec fn lines_state(s: Seq<char>, k: int) -> (Seq<Seq<char>>, Seq<char>)
    decreases k,
{
    if k <= 0 {
        (Seq::empty(), Seq::empty())
    } else {
        let (done, current) = lines_state(s, k - 1);
        if s[k - 1] == '\n' {
            (done.push(without_cr(current)), Seq::empty())
        } else {
            (done, current.push(s[k - 1]))
        }
    }
}

/// The lines of `s`, as `str::lines` gives them: split at each `\n`, without a `\r` just
/// before it, and with no empty line after a final `\n`.
pub open spec fn text_lines(s: Seq<char>) -> Seq<Seq<char>> {
    let (done, current) = lines_state(s, s.len() as int);
    if current.len() > 0 {
        done.push(current)
    } else {
        done
    }
}

/// The digest a line holds, when it is a comment of the parser whose text starts with
/// `hash: `.
pub open spec fn hash_of_line(parser: ParserKind, line: Seq<char>) -> Option<Seq<char>> {
    let text = comment_text_of(parser, line);
    if "hash: "@.is_prefix_of(text) {
        Some(text.skip(6))
    } else {
        None
    }
}

/// Whether the raw file `current` is up to date for the new text `new`: its last line holds
/// the digest of `new`, and also the digest of the lines before it, each ended by `\n`, so
/// that a file edited by hand since it was written is not taken as up to date.
pub open spec fn up_to_date(parser: ParserKind, current: Seq<char>, new: Seq<char>) -> bool {
    let lines = text_lines(current);
    &&& lines.len() > 0
    &&& hash_of_line(parser, lines.last()) matches Some(h)
    &&& h == sha256_hex(new)
    &&& h == sha256_hex(join(lines.drop_last(), seq!['\n']) + seq!['\n'])
}

fn lines_exec(s: &Vec<char>) -> (r: Vec<Vec<char>>)
    ensures
        r@.map_values(|l: Vec<char>| l@) == text_lines(s@),
{
    let mut done: Vec<Vec<char>> = Vec::new();
    let mut current: Vec<char> = Vec::new();
    let mut i: usize = 0;
    while i < s.len()
        invariant
            0 <= i <= s.len(),
            lines_state(s@, i as int) == (done@.map_values(|l: Vec<char>| l@), current@),
        decreases s.len() - i,
    {
        let c = s[i];
        let ghost before = done@;
        if c == '\n' {
            if current.len() > 0 && current[current.len() - 1] == '\r' {
                current.pop();
            }
            done.push(current);
            current = Vec::new();
            proof {
                assert(done@.map_values(|l: Vec<char>| l@) =~= before.map_values(|l: Vec<char>| l@).push(
                    done@.last()@,
                ));
            }
        } else {
            current.push(c);
        }
        i += 1;
    }
    if current.len() > 0 {
        let ghost before = done@;
        done.push(current);
        proof {
            assert(done@.map_values(|l: Vec<char>| l@) =~= before.map_values(|l: Vec<char>| l@).push(done@.last()@));
        }
    }
    done
}

/// Whether the raw file `current_raw` is up to date for the new text `note_file_data`.
pub fn is_up_to_date(parser: &ParserKind, current_raw: &str, note_file_data: &str) -> (r: bool)
    ensures
        r == up_to_date(*parser, current_raw@, note_file_data@),
{
    let chars = str_chars(current_raw);
    let mut lines = lines_exec(&chars);
    let ghost lv = lines@.map_values(|l: Vec<char>| l@);
    if lines.len() == 0 {
        return false;
    }
    let last = match lines.pop() {
        Some(l) => l,
        None => {
            return false;
        },
    };
    proof {
        assert(lines@.map_values(|l: Vec<char>| l@) =~= lv.drop_last());
        assert(last@ == lv.last());
    }
    let last_line = chars_to_string(last.as_slice());
    let text = parser.extract_comment(last_line.as_str());
    let text_chars = str_chars(text);
    let prefix = str_chars("hash: ");
    proof {
        reveal_strlit("hash: ");
    }
    if !(prefix.len() <= text_chars.len() && crate::text::range_equals(&text_chars, 0, prefix.len(), &prefix)) {
        proof {
            if "hash: "@.is_prefix_of(text@) {
                assert(text_chars@.subrange(0, 6) =~= text@.take(6));
            }
        }
        return false;
    }
    proof {
        assert(text_chars@.subrange(0, 6) =~= text@.take(6));
    }
    let hash = crate::text::substring(&text_chars, 6, text_chars.len());
    let new_hash = sha256_digest(note_file_data);
    if !crate::clozes::keys::str_eq(hash.as_str(), new_hash.as_str()) {
        return false;
    }
    let nl = vec!['\n'];
    let mut before = join_parts(lines, &nl);
    let ghost joined = before@;
    before.push('\n');
    let before_text = chars_to_string(before.as_slice());
    let current_hash = sha256_digest(before_text.as_str());
    proof {
        assert(hash@ =~= text@.skip(6));
        assert(nl@ =~= seq!['\n']);
        assert(joined == join(lv.drop_last(), seq!['\n']));
        assert(before_text@ == join(lv.drop_last(), seq!['\n']) + seq!['\n']);
    }
    crate::clozes::keys::str_eq(hash.as_str(), current_hash.as_str())
}

/// Whether the raw file may be up to date at all: rendering is not forced, the raw file
/// exists, and so does the rendered file when rendering is asked for.
pub fn cache_applies(render: bool, force_render: bool, raw_exists: bool, rendered_exists: bool) -> (r: bool)
    ensures
        r == (!force_render && raw_exists && (!render || rendered_exists)),
{
    !force_render && raw_exists && (!render || rendered_exists)
}

/// The file text with its digest appended in a comment of the parser: `hash: ` and the
/// digest of `file_contents`.
pub fn with_hash_line(parser: &ParserKind, file_contents: &str) -> (r: String)
    ensures
        r@ == file_contents@ + comment_of(*parser, "hash: "@ + sha256_hex(file_contents@)),
        file_contents@.len() > 0 && file_contents@.last() == '\n' && no_crlf(file_contents@) ==> up_to_date(
            *parser,
            r@,
            file_contents@,
        ),
{
    let digest = sha256_digest(file_contents);
    let mut text = str_chars("hash: ");
    proof {
        reveal_strlit("hash: ");
    }
    crate::clozes::parse::push_str(&mut text, digest.as_str());
    let hash_text = chars_to_string(text.as_slice());
    let line = parser.construct_comment(hash_text.as_str());
    let mut out = str_chars(file_contents);
    crate::clozes::parse::push_str(&mut out, line.as_str());
    proof {
        if file_contents@.len() > 0 && file_contents@.last() == '\n' && no_crlf(file_contents@) {
            lemma_hash_line_round_trip(*parser, file_contents@, digest@);
        }
    }
    chars_to_string(out.as_slice())
}

/// No carriage return stands just before a line feed in `s`.
pub open spec fn no_crlf(s: Seq<char>) -> bool {
    forall|i: int| 0 <= i < s.len() - 1 ==> !(#[trigger] s[i] == '\r' && s[i + 1] == '\n')
}

/// Each line followed by `\n`.
pub open spec fn lines_with_newlines(lines: Seq<Seq<char>>) -> Seq<char>
    decreases lines.len(),
{
    if lines.len() == 0 {
        Seq::empty()
    } else {
        lines_with_newlines(lines.drop_last()) + lines.last() + seq!['\n']
    }
}

proof fn lemma_lines_prefix(s: Seq<char>, t: Seq<char>, k: int)
    requires
        0 <= k <= s.len(),
        k <= t.len(),
        s.take(k) == t.take(k),
    ensures
        lines_state(s, k) == lines_state(t, k),
    decreases k,
{
    if k > 0 {
        assert(s.take(k - 1) =~= s.take(k).take(k - 1));
        assert(t.take(k - 1) =~= t.take(k).take(k - 1));
        lemma_lines_prefix(s, t, k - 1);
        assert(s[k - 1] == s.take(k)[k - 1]);
        assert(t[k - 1] == t.take(k)[k - 1]);
    }
}

proof fn lemma_lines_append(a: Seq<char>, b: Seq<char>, k: int)
    requires
        0 <= k <= b.len(),
        lines_state(a, a.len() as int).1.len() == 0,
    ensures
        lines_state(a + b, a.len() + k) == (
            lines_state(a, a.len() as int).0 + lines_state(b, k).0,
            lines_state(b, k).1,
        ),
    decreases k,
{
    let ab = a + b;
    if k == 0 {
        assert(ab.take(a.len() as int) =~= a.take(a.len() as int));
        lemma_lines_prefix(ab, a, a.len() as int);
        assert(lines_state(a, a.len() as int).0 + Seq::<Seq<char>>::empty() =~= lines_state(a, a.len() as int).0);
        assert(lines_state(a, a.len() as int).1 =~= Seq::<char>::empty());
    } else {
        lemma_lines_append(a, b, k - 1);
        assert(ab[a.len() + k - 1] == b[k - 1]);
        let da = lines_state(a, a.len() as int).0;
        let (db, cb) = lines_state(b, k - 1);
        assert((da + db).push(without_cr(cb)) =~= da + db.push(without_cr(cb)));
    }
}

/// The lines of a text with no line feed.
proof fn lemma_lines_of_one_line(x: Seq<char>, k: int)
    requires
        0 <= k <= x.len(),
        !x.contains('\n'),
    ensures
        lines_state(x, k) == (Seq::<Seq<char>>::empty(), x.take(k)),
    decreases k,
{
    if k > 0 {
        lemma_lines_of_one_line(x, k - 1);
        assert(x.take(k) =~= x.take(k - 1).push(x[k - 1]));
    } else {
        assert(x.take(0) =~= Seq::<char>::empty());
    }
}

/// A line that is ended by `\n` is the one line of the text.
proof fn lemma_lines_of_ended_line(x: Seq<char>)
    requires
        !x.contains('\n'),
        x.len() > 0,
        x.last() != '\r',
    ensures
        lines_state(x + seq!['\n'], x.len() + 1int) == (seq![x], Seq::<char>::empty()),
{
    let t = x + seq!['\n'];
    lemma_lines_of_one_line(x, x.len() as int);
    assert(t.take(x.len() as int) =~= x.take(x.len() as int));
    lemma_lines_prefix(t, x, x.len() as int);
    assert(x.take(x.len() as int) =~= x);
    assert(t[x.len() as int] == '\n');
    assert(Seq::<Seq<char>>::empty().push(x) =~= seq![x]);
}

/// Without `\r` before `\n`, the lines read so far, each followed by `\n`, then the line
/// begun, give back the text read so far.
proof fn lemma_lines_give_back(s: Seq<char>, k: int)
    requires
        0 <= k <= s.len(),
        no_crlf(s),
    ensures
        lines_with_newlines(lines_state(s, k).0) + lines_state(s, k).1 == s.take(k),
    decreases k,
{
    if k == 0 {
        assert(s.take(0) =~= Seq::<char>::empty());
        assert(lines_with_newlines(Seq::<Seq<char>>::empty()) + Seq::<char>::empty() =~= Seq::<char>::empty());
    } else {
        lemma_lines_give_back(s, k - 1);
        let (d, c) = lines_state(s, k - 1);
        assert(s.take(k) =~= s.take(k - 1).push(s[k - 1]));
        if s[k - 1] == '\n' {
            if c.len() > 0 {
                assert((lines_with_newlines(d) + c).last() == c.last());
                assert(s.take(k - 1).last() == s[k - 2]);
                assert(!(s[k - 2] == '\r' && s[k - 1] == '\n'));
            }
            assert(without_cr(c) == c);
            let d2 = d.push(c);
            assert(d2.drop_last() =~= d);
            assert(lines_with_newlines(d2) + Seq::<char>::empty() =~= lines_with_newlines(d) + c + seq!['\n']);
        } else {
            assert(lines_with_newlines(d) + c.push(s[k - 1]) =~= (lines_with_newlines(d) + c).push(s[k - 1]));
        }
    }
}

proof fn lemma_join_lines(lines: Seq<Seq<char>>)
    requires
        lines.len() > 0,
    ensures
        join(lines, seq!['\n']) + seq!['\n'] == lines_with_newlines(lines),
    decreases lines.len(),
{
    if lines.len() == 1 {
        assert(lines.drop_last() =~= Seq::<Seq<char>>::empty());
        assert(lines_with_newlines(lines.drop_last()) =~= Seq::<char>::empty());
        assert(lines.last() == lines[0]);
        assert(Seq::<char>::empty() + lines[0] + seq!['\n'] =~= lines[0] + seq!['\n']);
    } else {
        lemma_join_lines(lines.drop_last());
        assert(join(lines, seq!['\n']) + seq!['\n'] =~= (join(lines.drop_last(), seq!['\n']) + seq!['\n']) + lines.last()
            + seq!['\n']);
    }
}

/// The text of a hash comment, trimmed: a space before it, and after it too when
/// `trailing_space`, are dropped, and the digest, which ends in a hex digit, is kept whole.
proof fn lemma_trim_hash_text(h: Seq<char>, trailing_space: bool)
    requires
        h.len() > 0,
        forall|i: int| 0 <= i < h.len() ==> is_lower_hex(#[trigger] h[i]),
    ensures
        crate::text::trim(seq![' '] + "hash: "@ + h + (if trailing_space {
            seq![' ']
        } else {
            Seq::empty()
        })) == "hash: "@ + h,
{
    reveal_strlit("hash: ");
    let inner = "hash: "@ + h;
    let tail: Seq<char> = if trailing_space {
        seq![' ']
    } else {
        Seq::empty()
    };
    let t = seq![' '] + inner + tail;
    assert(t.drop_first() =~= inner + tail);
    assert((inner + tail)[0] == 'h');
    assert(crate::text::trim_start(inner + tail) == inner + tail);
    assert(crate::text::trim_start(t) == inner + tail);
    assert(is_lower_hex(h[h.len() - 1]));
    assert(inner.last() == h.last());
    assert(crate::text::trim_end(inner) == inner);
    if trailing_space {
        assert((inner + tail).drop_last() =~= inner);
        assert(crate::text::trim_end(inner + tail) == crate::text::trim_end(inner));
    } else {
        assert(inner + tail =~= inner);
    }
    assert(crate::text::trim(t) == crate::text::trim_end(crate::text::trim_start(t)));
    assert(t =~= seq![' '] + "hash: "@ + h + tail);
}

/// The digest follows `hash: `, and no line feed stands in either.
proof fn lemma_hash_body(h: Seq<char>)
    requires
        h.len() > 0,
        forall|i: int| 0 <= i < h.len() ==> is_lower_hex(#[trigger] h[i]),
    ensures
        !("hash: "@ + h).contains('\n'),
        ("hash: "@ + h).last() == h.last(),
        is_lower_hex(h.last()),
        "hash: "@.is_prefix_of("hash: "@ + h),
        ("hash: "@ + h).skip(6) == h,
{
    reveal_strlit("hash: ");
    let body = "hash: "@ + h;
    assert(is_lower_hex(h[h.len() - 1]));
    assert forall|i: int| 0 <= i < body.len() implies body[i] != '\n' by {
        if i >= 6 {
            assert(body[i] == h[i - 6]);
        }
    }
    assert(body.skip(6) =~= h);
    assert(body.take(6) =~= "hash: "@);
}

/// What the round trip needs of the line a parser writes for the digest: it is the
/// comment without its final line feed, holds no other line feed, does not end with a
/// carriage return, and gives the digest back.
pub open spec fn hash_line_reads_back(parser: ParserKind, h: Seq<char>) -> bool {
    let c = comment_of(parser, "hash: "@ + h);
    let x = c.drop_last();
    &&& c == x + seq!['\n']
    &&& !x.contains('\n')
    &&& x.len() > 0
    &&& x.last() != '\r'
    &&& hash_of_line(parser, x) == Some(h)
}

proof fn lemma_hash_comment(parser: ParserKind, h: Seq<char>)
    requires
        h.len() > 0,
        forall|i: int| 0 <= i < h.len() ==> is_lower_hex(#[trigger] h[i]),
    ensures
        hash_line_reads_back(parser, h),
{
    lemma_hash_body(h);
    match parser {
        ParserKind::LatexExerciseSolution | ParserKind::LatexNote => lemma_hash_comment_latex(parser, h),
        ParserKind::Typst => lemma_hash_comment_typst(h),
        ParserKind::Markdown => lemma_hash_comment_markdown(h),
    }
}

proof fn lemma_hash_comment_latex(parser: ParserKind, h: Seq<char>)
    requires
        parser is LatexExerciseSolution || parser is LatexNote,
        h.len() > 0,
        forall|i: int| 0 <= i < h.len() ==> is_lower_hex(#[trigger] h[i]),
        !("hash: "@ + h).contains('\n'),
        ("hash: "@ + h).last() == h.last(),
        is_lower_hex(h.last()),
        "hash: "@.is_prefix_of("hash: "@ + h),
        ("hash: "@ + h).skip(6) == h,
    ensures
        hash_line_reads_back(parser, h),
{
    reveal_strlit("% ");
    reveal_strlit("%");
    reveal_strlit("\n");
    let body = "hash: "@ + h;
    let x = seq!['%', ' '] + body;
    assert(comment_of(parser, body) =~= x + seq!['\n']);
    assert((x + seq!['\n']).drop_last() =~= x);
    assert(x.take(1) =~= "%"@);
    assert(x.skip(1) =~= seq![' '] + "hash: "@ + h + Seq::<char>::empty());
    lemma_trim_hash_text(h, false);
    assert(comment_text_of(parser, x) == body);
    assert forall|i: int| 0 <= i < x.len() implies x[i] != '\n' by {
        if i >= 2 {
            assert(x[i] == body[i - 2]);
        }
    }
}

proof fn lemma_hash_comment_typst(h: Seq<char>)
    requires
        h.len() > 0,
        forall|i: int| 0 <= i < h.len() ==> is_lower_hex(#[trigger] h[i]),
        !("hash: "@ + h).contains('\n'),
        ("hash: "@ + h).last() == h.last(),
        is_lower_hex(h.last()),
        "hash: "@.is_prefix_of("hash: "@ + h),
        ("hash: "@ + h).skip(6) == h,
    ensures
        hash_line_reads_back(ParserKind::Typst, h),
{
    reveal_strlit("// ");
    reveal_strlit("//");
    reveal_strlit("\n");
    let body = "hash: "@ + h;
    let x = seq!['/', '/', ' '] + body;
    assert(comment_of(ParserKind::Typst, body) =~= x + seq!['\n']);
    assert((x + seq!['\n']).drop_last() =~= x);
    assert(x.take(2) =~= "//"@);
    assert(x.skip(2) =~= seq![' '] + "hash: "@ + h + Seq::<char>::empty());
    lemma_trim_hash_text(h, false);
    assert(comment_text_of(ParserKind::Typst, x) == body);
    assert forall|i: int| 0 <= i < x.len() implies x[i] != '\n' by {
        if i >= 3 {
            assert(x[i] == body[i - 3]);
        }
    }
}

proof fn lemma_hash_comment_markdown(h: Seq<char>)
    requires
        h.len() > 0,
        forall|i: int| 0 <= i < h.len() ==> is_lower_hex(#[trigger] h[i]),
        !("hash: "@ + h).contains('\n'),
        ("hash: "@ + h).last() == h.last(),
        is_lower_hex(h.last()),
        "hash: "@.is_prefix_of("hash: "@ + h),
        ("hash: "@ + h).skip(6) == h,
    ensures
        hash_line_reads_back(ParserKind::Markdown, h),
{
    reveal_strlit("<!--- ");
    reveal_strlit("<!---");
    reveal_strlit(" --->\n");
    reveal_strlit("--->");
    let body = "hash: "@ + h;
    let close = seq![' ', '-', '-', '-', '>'];
    let x = seq!['<', '!', '-', '-', '-', ' '] + body + close;
    assert(comment_of(ParserKind::Markdown, body) =~= x + seq!['\n']);
    assert((x + seq!['\n']).drop_last() =~= x);
    assert(x.take(5) =~= "<!---"@);
    let rest = x.skip(5);
    assert(rest =~= seq![' '] + body + close);
    assert(rest.skip(rest.len() - 4) =~= "--->"@);
    assert(rest.take(rest.len() - 4) =~= seq![' '] + "hash: "@ + h + seq![' ']);
    lemma_trim_hash_text(h, true);
    assert(comment_text_of(ParserKind::Markdown, x) == body);
    assert forall|i: int| 0 <= i < x.len() implies x[i] != '\n' by {
        if 6 <= i < 6 + body.len() {
            assert(x[i] == body[i - 6]);
        }
    }
}

/// A text written with its digest is up to date when it is next written unchanged: the
/// text ends with a line feed and has no carriage return before one, so its lines give it
/// back.
proof fn lemma_hash_line_round_trip(parser: ParserKind, text: Seq<char>, h: Seq<char>)
    requires
        text.len() > 0,
        text.last() == '\n',
        no_crlf(text),
        h == sha256_hex(text),
        h.len() > 0,
        forall|i: int| 0 <= i < h.len() ==> is_lower_hex(#[trigger] h[i]),
    ensures
        up_to_date(parser, text + comment_of(parser, "hash: "@ + h), text),
{
    let c = comment_of(parser, "hash: "@ + h);
    lemma_hash_comment(parser, h);
    let x = c.drop_last();
    let k = text.len() as int;
    let (d, cur) = lines_state(text, k);
    assert(cur.len() == 0);
    assert(d.len() > 0);
    lemma_lines_append(text, c, c.len() as int);
    lemma_lines_of_ended_line(x);
    assert(c.len() == x.len() + 1);
    let file = text + c;
    assert(lines_state(file, file.len() as int) == (d + seq![x], Seq::<char>::empty()));
    let lines = text_lines(file);
    assert(lines == d + seq![x]);
    assert(lines.last() == x);
    assert(lines.drop_last() =~= d);
    lemma_lines_give_back(text, k);
    assert(text.take(k) =~= text);
    assert(lines_with_newlines(d) + cur =~= lines_with_newlines(d));
    lemma_join_lines(d);
}

} // verus!
