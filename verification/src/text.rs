//! Text handling: a string is seen as its sequence of `char`s, and positions into it
//! are given either as char indices or as UTF-8 byte offsets.

use vstd::prelude::*;
use vstd::utf8::*;

verus! {

/// Number of bytes of the UTF-8 encoding of `c`.
pub open spec fn char_width(c: char) -> nat {
    if (c as u32) <= 0x7F {
        1
    } else if (c as u32) <= 0x7FF {
        2
    } else if (c as u32) <= 0xFFFF {
        3
    } else {
        4
    }
}

/// Number of bytes of the UTF-8 encoding of `s`.
pub open spec fn utf8_len(s: Seq<char>) -> nat
    decreases s.len(),
{
    if s.len() == 0 {
        0
    } else {
        char_width(s[0]) + utf8_len(s.drop_first())
    }
}

/// The UTF-8 byte offset at which char `k` of `s` starts.
pub open spec fn byte_offset(s: Seq<char>, k: int) -> nat {
    utf8_len(s.take(k))
}

pub proof fn lemma_utf8_len_concat(a: Seq<char>, b: Seq<char>)
    ensures
        utf8_len(a + b) == utf8_len(a) + utf8_len(b),
    decreases a.len(),
{
    if a.len() > 0 {
        assert((a + b).drop_first() =~= a.drop_first() + b);
        lemma_utf8_len_concat(a.drop_first(), b);
    } else {
        assert(a + b =~= b);
    }
}

pub proof fn lemma_utf8_len_is_encoding_len(s: Seq<char>)
    ensures
        utf8_len(s) == encode_utf8(s).len(),
    decreases s.len(),
{
    if s.len() > 0 {
        let c = s[0];
        assert(is_scalar(c as u32)) by {
            char_is_scalar(c);
        }
        lemma_utf8_len_is_encoding_len(s.drop_first());
    }
}

/// The byte offset of char `k + 1` is that of char `k` plus the width of char `k`.
pub proof fn lemma_byte_offset_step(s: Seq<char>, k: int)
    requires
        0 <= k < s.len(),
    ensures
        byte_offset(s, k + 1) == byte_offset(s, k) + char_width(s[k]),
{
    assert(s.take(k + 1) =~= s.take(k) + seq![s[k]]);
    lemma_utf8_len_concat(s.take(k), seq![s[k]]);
    assert(seq![s[k]].drop_first() =~= Seq::<char>::empty());
    assert(utf8_len(Seq::<char>::empty()) == 0);
    assert(utf8_len(seq![s[k]]) == char_width(s[k]) + utf8_len(seq![s[k]].drop_first()));
}

/// Byte offsets grow strictly with char indices.
pub proof fn lemma_byte_offset_monotonic(s: Seq<char>, j: int, k: int)
    requires
        0 <= j <= k <= s.len(),
    ensures
        byte_offset(s, j) <= byte_offset(s, k),
        j < k ==> byte_offset(s, j) < byte_offset(s, k),
    decreases k - j,
{
    if j < k {
        lemma_byte_offset_monotonic(s, j, k - 1);
        lemma_byte_offset_step(s, k - 1);
    }
}

pub proof fn lemma_byte_offset_full(s: Seq<char>)
    ensures
        byte_offset(s, s.len() as int) == utf8_len(s),
{
    assert(s.take(s.len() as int) =~= s);
}

pub fn char_width_exec(c: char) -> (w: usize)
    ensures
        w == char_width(c),
{
    let u = c as u32;
    if u <= 0x7F {
        1
    } else if u <= 0x7FF {
        2
    } else if u <= 0xFFFF {
        3
    } else {
        4
    }
}

/// The chars of `s`, with the fact that its UTF-8 length fits in a `usize`.
pub fn str_chars(s: &str) -> (v: Vec<char>)
    ensures
        v@ == s@,
        utf8_len(s@) <= usize::MAX,
{
    broadcast use vstd::string::group_string_axioms;
    let bytes = s.as_bytes();
    let _byte_count = bytes.len();
    assert(bytes@.len() <= usize::MAX) by {
        broadcast use vstd::slice::group_slice_axioms;
    }
    proof {
        lemma_utf8_len_is_encoding_len(s@);
    }
    let mut v: Vec<char> = Vec::new();
    for c in it: s.chars()
        invariant
            v@ == it.seq().take(it.index() as int),
            it.seq() == s@,
    {
        v.push(c);
    }
    v
}

/// The `String` made of the chars of `v` (`FromIterator<char>` of std).
#[verifier::external_body]
pub(crate) fn chars_to_string(v: &[char]) -> (s: String)
    ensures
        s@ == v@,
{
    v.iter().collect()
}

/// The `String` made of chars `from..to` of `v`.
pub fn substring(v: &Vec<char>, from: usize, to: usize) -> (s: String)
    requires
        from <= to <= v.len(),
    ensures
        s@ == v@.subrange(from as int, to as int),
{
    let slice = vstd::slice::slice_subrange(v.as_slice(), from, to);
    chars_to_string(slice)
}

/// The char index at which byte offset `b` falls, when `b` is the start of a char or the
/// end of `v`.
pub fn char_index_of_byte(v: &Vec<char>, b: usize) -> (r: Option<usize>)
    ensures
        match r {
            Some(k) => k <= v.len() && byte_offset(v@, k as int) == b,
            None => forall|k: int| 0 <= k <= v.len() ==> byte_offset(v@, k) != b,
        },
{
    let mut k: usize = 0;
    let mut off: usize = 0;
    proof {
        assert(v@.take(0) =~= Seq::<char>::empty());
    }
    while k < v.len()
        invariant
            0 <= k <= v.len(),
            off == byte_offset(v@, k as int),
            off <= b,
            forall|j: int| 0 <= j < k ==> byte_offset(v@, j) < b,
        decreases v.len() - k,
    {
        if off == b {
            return Some(k);
        }
        let w = char_width_exec(v[k]);
        proof {
            lemma_byte_offset_step(v@, k as int);
        }
        if w > b - off {
            proof {
                assert forall|j: int| 0 <= j <= v.len() implies byte_offset(v@, j) != b by {
                    if j > k {
                        lemma_byte_offset_monotonic(v@, k as int + 1, j);
                    }
                }
            }
            return None;
        }
        off = off + w;
        k = k + 1;
    }
    if off == b {
        Some(k)
    } else {
        None
    }
}

/// The byte offset at which char `k` of `v` starts.
pub fn byte_of_char_index(v: &Vec<char>, k: usize) -> (b: usize)
    requires
        k <= v.len(),
        utf8_len(v@) <= usize::MAX,
    ensures
        b == byte_offset(v@, k as int),
{
    let mut i: usize = 0;
    let mut off: usize = 0;
    proof {
        assert(v@.take(0) =~= Seq::<char>::empty());
        lemma_byte_offset_full(v@);
    }
    while i < k
        invariant
            0 <= i <= k <= v.len(),
            off == byte_offset(v@, i as int),
            utf8_len(v@) <= usize::MAX,
            byte_offset(v@, v.len() as int) == utf8_len(v@),
        decreases k - i,
    {
        proof {
            lemma_byte_offset_step(v@, i as int);
            lemma_byte_offset_monotonic(v@, i as int + 1, v.len() as int);
        }
        off = off + char_width_exec(v[i]);
        i = i + 1;
    }
    off
}


/// Whether `pat` occurs in `s` at index `k`.
pub open spec fn matches_at(s: Seq<char>, pat: Seq<char>, k: int) -> bool {
    0 <= k && k + pat.len() <= s.len() && s.subrange(k, k + pat.len()) == pat
}

/// The first index at or after `k` where `pat` occurs in `s`.
pub open spec fn find_from(s: Seq<char>, pat: Seq<char>, k: int) -> Option<int>
    decreases s.len() - k,
{
    if k < 0 || k + pat.len() > s.len() {
        None
    } else if matches_at(s, pat, k) {
        Some(k)
    } else if k >= s.len() {
        None
    } else {
        find_from(s, pat, k + 1)
    }
}

pub proof fn lemma_find_from_bounds(s: Seq<char>, pat: Seq<char>, k: int)
    requires
        0 <= k,
    ensures
        find_from(s, pat, k) matches Some(j) ==> k <= j && j + pat.len() <= s.len() && matches_at(
            s,
            pat,
            j,
        ),
        find_from(s, pat, k) is None ==> forall|j: int| k <= j ==> !matches_at(s, pat, j),
    decreases s.len() - k,
{
    if k < 0 || k + pat.len() > s.len() {
    } else if matches_at(s, pat, k) {
    } else if k >= s.len() {
        if pat.len() == 0 {
            assert(s.subrange(k, k) =~= pat);
        }
    } else {
        lemma_find_from_bounds(s, pat, k + 1);
        if find_from(s, pat, k) is None {
            assert forall|j: int| k <= j implies !matches_at(s, pat, j) by {
                if j > k {
                }
            }
        }
    }
}

/// The pieces of `s` between the occurrences of `sep`, as `str::split` gives them.
pub open spec fn split_by(s: Seq<char>, sep: Seq<char>) -> Seq<Seq<char>>
    decreases s.len(),
{
    if sep.len() == 0 {
        seq![s]
    } else {
        match find_from(s, sep, 0) {
            Some(k) => {
                proof {
                    lemma_find_from_bounds(s, sep, 0);
                }
                if k + sep.len() <= s.len() {
                    seq![s.take(k)] + split_by(s.skip(k + sep.len()), sep)
                } else {
                    seq![s]
                }
            },
            None => seq![s],
        }
    }
}

/// Whether `c` has the Unicode `White_Space` property, as `char::is_whitespace` decides:
/// tab, line feed, vertical tab, form feed, carriage return, space, next line, no-break
/// space, ogham space mark, the spaces from en quad to hair space, line separator,
/// paragraph separator, narrow no-break space, medium mathematical space and ideographic
/// space.
pub open spec fn is_whitespace_char(c: char) -> bool {
    ||| '\t' <= c <= '\r'
    ||| c == ' '
    ||| c == '\u{85}'
    ||| c == '\u{a0}'
    ||| c == '\u{1680}'
    ||| '\u{2000}' <= c <= '\u{200a}'
    ||| c == '\u{2028}'
    ||| c == '\u{2029}'
    ||| c == '\u{202f}'
    ||| c == '\u{205f}'
    ||| c == '\u{3000}'
}

/// Whether `c` is whitespace, as `char::is_whitespace` decides.
pub fn char_is_whitespace(c: char) -> (r: bool)
    ensures
        r == is_whitespace_char(c),
{
    ('\t' <= c && c <= '\r') || c == ' ' || c == '\u{85}' || c == '\u{a0}' || c == '\u{1680}' || ('\u{2000}' <= c
        && c <= '\u{200a}') || c == '\u{2028}' || c == '\u{2029}' || c == '\u{202f}' || c == '\u{205f}' || c
        == '\u{3000}'
}

/// `s` without its leading whitespace.
pub open spec fn trim_start(s: Seq<char>) -> Seq<char>
    decreases s.len(),
{
    if s.len() > 0 && is_whitespace_char(s[0]) {
        trim_start(s.drop_first())
    } else {
        s
    }
}

/// `s` without its trailing whitespace.
pub open spec fn trim_end(s: Seq<char>) -> Seq<char>
    decreases s.len(),
{
    if s.len() > 0 && is_whitespace_char(s.last()) {
        trim_end(s.drop_last())
    } else {
        s
    }
}

/// `s` without leading and trailing whitespace (`str::trim`).
pub open spec fn trim(s: Seq<char>) -> Seq<char> {
    trim_end(trim_start(s))
}

/// The first index `j` in `lo..=hi - pat.len()` at or after `from` where `pat` occurs in `v`.
pub fn find_in(v: &Vec<char>, lo: usize, hi: usize, pat: &Vec<char>, from: usize) -> (r: Option<usize>)
    requires
        lo <= from <= hi <= v.len(),
    ensures
        match r {
            Some(j) => find_from(v@.subrange(lo as int, hi as int), pat@, from - lo) == Some(j - lo),
            None => find_from(v@.subrange(lo as int, hi as int), pat@, from - lo) is None,
        },
{
    let ghost sub = v@.subrange(lo as int, hi as int);
    let mut j = from;
    while j <= hi && pat.len() <= hi - j
        invariant
            lo <= from <= j,
            hi <= v.len(),
            sub == v@.subrange(lo as int, hi as int),
            find_from(sub, pat@, from - lo) == find_from(sub, pat@, j - lo),
        decreases hi - j + 1,
    {
        let mut t: usize = 0;
        let mut ok = true;
        while t < pat.len()
            invariant
                lo <= j,
                j + pat.len() <= hi <= v.len(),
                0 <= t <= pat.len(),
                ok ==> forall|u: int| 0 <= u < t ==> v@[j + u] == pat@[u],
                !ok ==> !matches_at(sub, pat@, j - lo) && pat.len() > 0,
                sub == v@.subrange(lo as int, hi as int),
            ensures
                ok ==> t == pat.len() && forall|u: int| 0 <= u < t ==> v@[j + u] == pat@[u],
                !ok ==> !matches_at(sub, pat@, j - lo) && pat.len() > 0,
            decreases pat.len() - t,
        {
            if v[j + t] != pat[t] {
                ok = false;
                proof {
                    assert(sub.subrange(j - lo, j - lo + pat@.len())[t as int] != pat@[t as int]);
                }
                break;
            }
            t += 1;
        }
        if ok {
            proof {
                assert forall|u: int| 0 <= u < pat@.len() implies sub.subrange(j - lo, j - lo + pat@.len())[u] == pat@[u] by {
                    assert(sub[j - lo + u] == v@[j + u]);
                }
                assert(sub.subrange(j - lo, j - lo + pat@.len()) =~= pat@);
            }
            return Some(j);
        }
        j += 1;
    }
    None
}

/// The char ranges in `v` of the pieces of chars `lo..hi` between occurrences of `sep`.
pub fn split_ranges(v: &Vec<char>, lo: usize, hi: usize, sep: &Vec<char>) -> (r: Vec<(usize, usize)>)
    requires
        lo <= hi <= v.len(),
        sep.len() > 0,
    ensures
        r.len() == split_by(v@.subrange(lo as int, hi as int), sep@).len(),
        forall|i: int|
            0 <= i < r.len() ==> lo <= (#[trigger] r@[i]).0 <= r@[i].1 <= hi && v@.subrange(
                r@[i].0 as int,
                r@[i].1 as int,
            ) == split_by(v@.subrange(lo as int, hi as int), sep@)[i],
{
    let ghost whole = split_by(v@.subrange(lo as int, hi as int), sep@);
    let mut r: Vec<(usize, usize)> = Vec::new();
    let mut pos = lo;
    let ghost mut done: Seq<Seq<char>> = Seq::empty();
    proof {
        assert(done + split_by(v@.subrange(pos as int, hi as int), sep@) =~= whole);
    }
    loop
        invariant
            lo <= pos <= hi <= v.len(),
            sep.len() > 0,
            r.len() == done.len(),
            forall|i: int|
                0 <= i < r.len() ==> lo <= (#[trigger] r@[i]).0 <= r@[i].1 <= hi && v@.subrange(
                    r@[i].0 as int,
                    r@[i].1 as int,
                ) == done[i],
            done + split_by(v@.subrange(pos as int, hi as int), sep@) == whole,
            whole == split_by(v@.subrange(lo as int, hi as int), sep@),
        decreases hi - pos,
    {
        let ghost rest = v@.subrange(pos as int, hi as int);
        let found = find_in(v, pos, hi, sep, pos);
        proof {
            lemma_find_from_bounds(rest, sep@, 0);
        }
        match found {
            Some(k) => {
                proof {
                    assert(rest.take(k - pos) =~= v@.subrange(pos as int, k as int));
                    assert(rest.skip(k - pos + sep@.len()) =~= v@.subrange(k + sep@.len(), hi as int));
                    assert(split_by(rest, sep@) == seq![rest.take(k - pos)] + split_by(rest.skip(k - pos + sep@.len()), sep@));
                    assert(done.push(rest.take(k - pos)) + split_by(rest.skip(k - pos + sep@.len()), sep@) =~= done + split_by(rest, sep@));
                    done = done.push(rest.take(k - pos));
                }
                r.push((pos, k));
                pos = k + sep.len();
            },
            None => {
                proof {
                    assert(split_by(rest, sep@) == seq![rest]);
                    assert(done.push(rest) =~= done + split_by(rest, sep@));
                    done = done.push(rest);
                }
                r.push((pos, hi));
                proof {
                    assert(done == whole);
                    assert(forall|i: int| 0 <= i < r.len() ==> v@.subrange((#[trigger] r@[i]).0 as int, r@[i].1 as int) == done[i]);
                }
                return r;
            },
        }
    }
}

/// The char range in `v` of chars `lo..hi` with surrounding whitespace removed.
pub fn trim_range(v: &Vec<char>, lo: usize, hi: usize) -> (r: (usize, usize))
    requires
        lo <= hi <= v.len(),
    ensures
        lo <= r.0 <= r.1 <= hi,
        v@.subrange(r.0 as int, r.1 as int) == trim(v@.subrange(lo as int, hi as int)),
{
    let mut a = lo;
    while a < hi && char_is_whitespace(v[a])
        invariant
            lo <= a <= hi <= v.len(),
            trim_start(v@.subrange(lo as int, hi as int)) == trim_start(v@.subrange(a as int, hi as int)),
        decreases hi - a,
    {
        proof {
            assert(v@.subrange(a as int, hi as int).drop_first() =~= v@.subrange(a + 1, hi as int));
        }
        a += 1;
    }
    let mut b = hi;
    while b > a && char_is_whitespace(v[b - 1])
        invariant
            lo <= a <= b <= hi <= v.len(),
            trim_end(v@.subrange(a as int, hi as int)) == trim_end(v@.subrange(a as int, b as int)),
        decreases b - a,
    {
        proof {
            assert(v@.subrange(a as int, b as int).drop_last() =~= v@.subrange(a as int, b - 1));
        }
        b -= 1;
    }
    (a, b)
}

/// Whether chars `lo..hi` of `v` are exactly `s`.
pub fn range_equals(v: &Vec<char>, lo: usize, hi: usize, s: &Vec<char>) -> (r: bool)
    requires
        lo <= hi <= v.len(),
    ensures
        r == (v@.subrange(lo as int, hi as int) == s@),
{
    if hi - lo != s.len() {
        return false;
    }
    let mut i: usize = 0;
    while i < s.len()
        invariant
            lo <= hi <= v.len(),
            hi - lo == s.len(),
            0 <= i <= s.len(),
            forall|u: int| 0 <= u < i ==> v@[lo + u] == s@[u],
        decreases s.len() - i,
    {
        if v[lo + i] != s[i] {
            proof {
                assert(v@.subrange(lo as int, hi as int)[i as int] != s@[i as int]);
            }
            return false;
        }
        i += 1;
    }
    proof {
        assert(v@.subrange(lo as int, hi as int) =~= s@);
    }
    true
}

/// Whether the char sequences `a` and `b` are equal.
pub fn chars_equal(a: &Vec<char>, b: &Vec<char>) -> (r: bool)
    ensures
        r == (a@ == b@),
{
    let r = range_equals(a, 0, a.len(), b);
    proof {
        assert(a@.subrange(0, a@.len() as int) =~= a@);
    }
    r
}

/// The parts joined by `sep`.
pub open spec fn join(parts: Seq<Seq<char>>, sep: Seq<char>) -> Seq<char>
    decreases parts.len(),
{
    if parts.len() == 0 {
        Seq::empty()
    } else if parts.len() == 1 {
        parts[0]
    } else {
        join(parts.drop_last(), sep) + sep + parts.last()
    }
}

/// The parts joined by `sep`.
pub fn join_parts(parts: Vec<Vec<char>>, sep: &Vec<char>) -> (r: Vec<char>)
    ensures
        r@ == join(parts@.map_values(|p: Vec<char>| p@), sep@),
{
    let ghost pv = parts@.map_values(|p: Vec<char>| p@);
    let mut out: Vec<char> = Vec::new();
    let mut parts = parts;
    let ghost all = parts@;
    let mut i: usize = 0;
    let n = parts.len();
    proof {
        assert(pv.take(0) =~= Seq::<Seq<char>>::empty());
    }
    while i < n
        invariant
            0 <= i <= n,
            n == parts.len(),
            all.len() == n,
            pv == all.map_values(|p: Vec<char>| p@),
            forall|j: int| i <= j < n ==> (#[trigger] parts@[j])@ == all[j]@,
            out@ == join(pv.take(i as int), sep@),
        decreases n - i,
    {
        if i > 0 {
            let mut s = sep.clone();
            proof {
                assert(s@ == sep@);
            }
            out.append(&mut s);
        }
        let mut p: Vec<char> = Vec::new();
        std::mem::swap(&mut p, &mut parts[i]);
        proof {
            assert(p@ == all[i as int]@);
        }
        out.append(&mut p);
        proof {
            assert(pv.take(i + 1).drop_last() =~= pv.take(i as int));
            assert(pv.take(i + 1).last() == pv[i as int]);
            if i == 0 {
                assert(pv.take(1) =~= seq![pv[0]]);
            }
        }
        i += 1;
    }
    proof {
        assert(pv.take(n as int) =~= pv);
    }
    out
}

/// The char index at which byte offset `b` of `s` falls.
pub open spec fn char_index_at_byte(s: Seq<char>, b: int) -> int {
    choose|k: int| 0 <= k <= s.len() && byte_offset(s, k) == b
}

/// The text of `s` between the byte offsets `a` and `b`.
pub open spec fn text_between(s: Seq<char>, a: int, b: int) -> Seq<char> {
    s.subrange(char_index_at_byte(s, a), char_index_at_byte(s, b))
}

/// A byte offset at which a char starts names that char's index.
pub proof fn lemma_char_index_at_byte(s: Seq<char>, k: int)
    requires
        0 <= k <= s.len(),
    ensures
        char_index_at_byte(s, byte_offset(s, k) as int) == k,
{
    let b = byte_offset(s, k) as int;
    let j = char_index_at_byte(s, b);
    assert(0 <= j <= s.len() && byte_offset(s, j) == b);
    if j < k {
        lemma_byte_offset_monotonic(s, j, k);
    } else if k < j {
        lemma_byte_offset_monotonic(s, k, j);
    }
}

/// The text of `v` between the byte offsets `a` and `b`, which are char starts.
pub fn text_at(v: &Vec<char>, a: usize, b: usize) -> (r: String)
    requires
        a <= b,
        exists|k: int| 0 <= k <= v@.len() && byte_offset(v@, k) == a,
        exists|k: int| 0 <= k <= v@.len() && byte_offset(v@, k) == b,
    ensures
        r@ == text_between(v@, a as int, b as int),
{
    let ka = char_index_of_byte(v, a);
    let kb = char_index_of_byte(v, b);
    match (ka, kb) {
        (Some(ka), Some(kb)) => {
            proof {
                lemma_char_index_at_byte(v@, ka as int);
                lemma_char_index_at_byte(v@, kb as int);
                if kb < ka {
                    lemma_byte_offset_monotonic(v@, kb as int, ka as int);
                }
            }
            substring(v, ka, kb)
        },
        _ => {
            proof {
                assert(false);
            }
            String::new()
        },
    }
}

/// `s` with each match of `pat` replaced by `rep`, as `str::replace` does for a pattern
/// that is not empty: matches are taken from the left and do not overlap.
pub open spec fn replaced(s: Seq<char>, pat: Seq<char>, rep: Seq<char>) -> Seq<char>
    decreases s.len(),
{
    if pat.len() == 0 || s.len() < pat.len() {
        s
    } else if pat.is_prefix_of(s) {
        rep + replaced(s.skip(pat.len() as int), pat, rep)
    } else {
        seq![s[0]] + replaced(s.drop_first(), pat, rep)
    }
}

/// `s` with each match of `pat` replaced by `rep`, matches taken from the left.
pub fn replace_all(s: &str, pat: &str, rep: &str) -> (r: String)
    requires
        pat@.len() > 0,
    ensures
        r@ == replaced(s@, pat@, rep@),
{
    let v = str_chars(s);
    let p = str_chars(pat);
    let mut out: Vec<char> = Vec::new();
    let mut i: usize = 0;
    proof {
        assert(v@.skip(0) =~= s@);
        assert(out@ + replaced(s@, pat@, rep@) =~= replaced(s@, pat@, rep@));
    }
    while i < v.len()
        invariant
            0 <= i <= v.len(),
            v@ == s@,
            p@ == pat@,
            p.len() > 0,
            replaced(s@, pat@, rep@) == out@ + replaced(v@.skip(i as int), pat@, rep@),
        decreases v.len() - i,
    {
        let ghost rest = v@.skip(i as int);
        if p.len() <= v.len() - i && range_equals(&v, i, i + p.len(), &p) {
            proof {
                assert(rest.take(p.len() as int) =~= v@.subrange(i as int, i + p.len()));
                assert(rest.skip(p.len() as int) =~= v@.skip(i + p.len()));
            }
            crate::clozes::parse::push_str(&mut out, rep);
            i += p.len();
        } else {
            proof {
                if p.len() <= v.len() - i && pat@.is_prefix_of(rest) {
                    assert(rest.take(p.len() as int) =~= v@.subrange(i as int, i + p.len()));
                }
                assert(rest.drop_first() =~= v@.skip(i + 1));
            }
            out.push(v[i]);
            i += 1;
        }

    }
    proof {
        assert(v@.skip(i as int) =~= Seq::<char>::empty());
    }
    chars_to_string(out.as_slice())
}

} // verus!
