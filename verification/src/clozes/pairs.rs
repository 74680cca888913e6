//! Settings strings: `key: value` pairs separated by a delimiter, such as `g:1;o:2`.

use crate::text::{
    byte_offset, char_index_of_byte, find_from, find_in, lemma_byte_offset_monotonic,
    lemma_find_from_bounds, split_by, split_ranges, str_chars, substring, trim, trim_range,
};
use std::ops::Range;
use vstd::prelude::*;

verus! {

/// The pieces of `ps` that are not empty, in order.
pub open spec fn nonempty_pieces(ps: Seq<Seq<char>>) -> Seq<Seq<char>>
    decreases ps.len(),
{
    if ps.len() == 0 {
        Seq::empty()
    } else {
        let rest = nonempty_pieces(ps.drop_last());
        if ps.last().len() > 0 {
            rest.push(ps.last())
        } else {
            rest
        }
    }
}

/// A settings piece read as a `key` and `value` pair, each trimmed; `None` when the
/// piece holds no key-value delimiter.
pub open spec fn pair_of(piece: Seq<char>, kv: Seq<char>) -> Option<(Seq<char>, Seq<char>)> {
    match find_from(piece, kv, 0) {
        Some(k) => Some((trim(piece.take(k)), trim(piece.skip(k + kv.len())))),
        None => None,
    }
}

/// The pairs of a settings string, in order; `None` for each piece that is not a pair.
pub open spec fn settings_pairs(s: Seq<char>, delim: Seq<char>, kv: Seq<char>) -> Seq<
    Option<(Seq<char>, Seq<char>)>,
> {
    nonempty_pieces(split_by(s, delim)).map_values(|p: Seq<char>| pair_of(p, kv))
}

/// The message given for a settings piece that is not a key-value pair.
pub open spec fn not_a_pair_message() -> Seq<char> {
    "Found 1 parts when processing settings. Expected 2 parts."@
}

/// A key-value pair found in chars of a note: the char ranges of the trimmed key and value.
#[derive(Clone, Copy)]
pub struct PairRanges {
    pub key: (usize, usize),
    pub value: (usize, usize),
}

/// The pairs of the settings string in chars `lo..hi` of `v`, as char ranges in `v`.
pub fn settings_pair_ranges(v: &Vec<char>, lo: usize, hi: usize, delim: &Vec<char>, kv: &Vec<char>) -> (r: Vec<Option<PairRanges>>)
    requires
        lo <= hi <= v.len(),
        delim.len() > 0,
    ensures
        r.len() == settings_pairs(v@.subrange(lo as int, hi as int), delim@, kv@).len(),
        forall|i: int| 0 <= i < r.len() ==> {
            let spec_pair = settings_pairs(v@.subrange(lo as int, hi as int), delim@, kv@)[i];
            match #[trigger] r@[i] {
                Some(p) => spec_pair matches Some(sp) && lo <= p.key.0 <= p.key.1 <= hi && lo <= p.value.0 <= p.value.1 <= hi
                    && v@.subrange(p.key.0 as int, p.key.1 as int) == sp.0
                    && v@.subrange(p.value.0 as int, p.value.1 as int) == sp.1,
                None => spec_pair is None,
            }
        },
{
    let pieces = split_ranges(v, lo, hi, delim);
    let ghost all = split_by(v@.subrange(lo as int, hi as int), delim@);
    let ghost target = settings_pairs(v@.subrange(lo as int, hi as int), delim@, kv@);
    let mut r: Vec<Option<PairRanges>> = Vec::new();
    let mut i: usize = 0;
    proof {
        assert(all.take(0) =~= Seq::<Seq<char>>::empty());
    }
    while i < pieces.len()
        invariant
            0 <= i <= pieces.len(),
            lo <= hi <= v.len(),
            pieces.len() == all.len(),
            all == split_by(v@.subrange(lo as int, hi as int), delim@),
            forall|j: int| 0 <= j < pieces.len() ==> lo <= (#[trigger] pieces@[j]).0 <= pieces@[j].1 <= hi && v@.subrange(
                pieces@[j].0 as int,
                pieces@[j].1 as int,
            ) == all[j],
            r.len() == nonempty_pieces(all.take(i as int)).len(),
            forall|j: int| 0 <= j < r.len() ==> {
                let spec_pair = pair_of(nonempty_pieces(all.take(i as int))[j], kv@);
                match #[trigger] r@[j] {
                    Some(p) => spec_pair matches Some(sp) && lo <= p.key.0 <= p.key.1 <= hi && lo <= p.value.0 <= p.value.1 <= hi
                        && v@.subrange(p.key.0 as int, p.key.1 as int) == sp.0
                        && v@.subrange(p.value.0 as int, p.value.1 as int) == sp.1,
                    None => spec_pair is None,
                }
            },
        decreases pieces.len() - i,
    {
        let (a, b) = pieces[i];
        proof {
            assert(all.take(i + 1).drop_last() =~= all.take(i as int));
            assert(all.take(i + 1).last() == all[i as int]);
        }
        if a < b {
            let ghost piece = v@.subrange(a as int, b as int);
            let found = find_in(v, a, b, kv, a);
            proof {
                lemma_find_from_bounds(piece, kv@, 0);
            }
            match found {
                Some(k) => {
                    let (k0, k1) = trim_range(v, a, k);
                    let (v0, v1) = trim_range(v, k + kv.len(), b);
                    proof {
                        assert(piece.take(k - a) =~= v@.subrange(a as int, k as int));
                        assert(piece.skip(k - a + kv@.len()) =~= v@.subrange(k + kv@.len(), b as int));
                    }
                    r.push(Some(PairRanges { key: (k0, k1), value: (v0, v1) }));
                },
                None => {
                    r.push(None);
                },
            }
        }
        i += 1;
    }
    proof {
        assert(all.take(all.len() as int) =~= all);
    }
    r
}

/// Whether byte offset `b` of the text `s` is the start of a char or the end of `s`.
pub open spec fn is_char_start(s: Seq<char>, b: int) -> bool {
    exists|k: int| 0 <= k <= s.len() && byte_offset(s, k) == b
}

/// The `key: value` pairs of the settings string at byte range `settings_indices` of
/// `data`, in order, each trimmed. A non-empty piece without `settings_key_value_delim`
/// gives an error with the whole range.
pub fn get_settings_pairs(
    data: &str,
    settings_indices: &Range<usize>,
    settings_delim: &str,
    settings_key_value_delim: &str,
) -> (r: Vec<Result<(String, String), (String, Range<usize>)>>)
    requires
        settings_indices.start <= settings_indices.end,
        is_char_start(data@, settings_indices.start as int),
        is_char_start(data@, settings_indices.end as int),
        settings_delim@.len() > 0,
    ensures
        exists|lo: int, hi: int|
            0 <= lo <= hi <= data@.len() && byte_offset(data@, lo) == settings_indices.start
                && byte_offset(data@, hi) == settings_indices.end && {
                let pairs = settings_pairs(data@.subrange(lo, hi), settings_delim@, settings_key_value_delim@);
                &&& r.len() == pairs.len()
                &&& forall|i: int| 0 <= i < r.len() ==> match #[trigger] r@[i] {
                    Ok((k, v)) => pairs[i] == Some((k@, v@)),
                    Err((msg, at)) => pairs[i] is None && msg@ == not_a_pair_message() && at
                        == *settings_indices,
                }
            },
{
    let v = str_chars(data);
    let delim = str_chars(settings_delim);
    let kv = str_chars(settings_key_value_delim);
    let lo = char_index_of_byte(&v, settings_indices.start);
    let hi = char_index_of_byte(&v, settings_indices.end);
    let (lo, hi) = match (lo, hi) {
        (Some(lo), Some(hi)) => (lo, hi),
        _ => {
            proof {
                assert(false);
            }
            (0, 0)
        },
    };
    proof {
        if lo > hi {
            lemma_byte_offset_monotonic(v@, hi as int, lo as int);
        }
    }
    let ranges = settings_pair_ranges(&v, lo, hi, &delim, &kv);
    let mut r: Vec<Result<(String, String), (String, Range<usize>)>> = Vec::new();
    let mut i: usize = 0;
    while i < ranges.len()
        invariant
            0 <= i <= ranges.len(),
            lo <= hi <= v.len(),
            byte_offset(data@, lo as int) == settings_indices.start,
            byte_offset(data@, hi as int) == settings_indices.end,
            v@ == data@,
            ranges.len() == settings_pairs(v@.subrange(lo as int, hi as int), delim@, kv@).len(),
            forall|j: int| 0 <= j < ranges.len() ==> {
                let spec_pair = settings_pairs(v@.subrange(lo as int, hi as int), delim@, kv@)[j];
                match #[trigger] ranges@[j] {
                    Some(p) => spec_pair matches Some(sp) && lo <= p.key.0 <= p.key.1 <= hi && lo <= p.value.0 <= p.value.1 <= hi
                        && v@.subrange(p.key.0 as int, p.key.1 as int) == sp.0
                        && v@.subrange(p.value.0 as int, p.value.1 as int) == sp.1,
                    None => spec_pair is None,
                }
            },
            r.len() == i,
            forall|j: int| 0 <= j < i ==> match #[trigger] r@[j] {
                Ok((k, val)) => settings_pairs(v@.subrange(lo as int, hi as int), delim@, kv@)[j] == Some((k@, val@)),
                Err((msg, at)) => settings_pairs(v@.subrange(lo as int, hi as int), delim@, kv@)[j] is None && msg@ == not_a_pair_message() && at
                    == *settings_indices,
            },
        decreases ranges.len() - i,
    {
        match &ranges[i] {
            Some(p) => {
                let key = substring(&v, p.key.0, p.key.1);
                let value = substring(&v, p.value.0, p.value.1);
                r.push(Ok((key, value)));
            },
            None => {
                let msg = String::from_str("Found 1 parts when processing settings. Expected 2 parts.");
                proof {
                    reveal_strlit("Found 1 parts when processing settings. Expected 2 parts.");
                }
                r.push(Err((msg, settings_indices.start..settings_indices.end)));
            },
        }
        i += 1;
    }
    r
}

/// A one-char delimiter found in `s` at or after `k` is found at the first place where it
/// stands, `at`.
proof fn lemma_find_char(s: Seq<char>, d: char, k: int, at: int)
    requires
        0 <= k <= at < s.len(),
        s[at] == d,
        forall|i: int| k <= i < at ==> s[i] != d,
    ensures
        crate::text::find_from(s, seq![d], k) == Some(at),
    decreases at - k,
{
    if k < at {
        assert(!crate::text::matches_at(s, seq![d], k)) by {
            assert(s.subrange(k, k + 1)[0] == s[k]);
        }
        lemma_find_char(s, d, k + 1, at);
    } else {
        assert(s.subrange(k, k + 1) =~= seq![d]);
    }
}

/// A one-char delimiter that `s` does not hold is not found in it.
proof fn lemma_find_char_none(s: Seq<char>, d: char, k: int)
    requires
        0 <= k <= s.len(),
        !s.contains(d),
    ensures
        crate::text::find_from(s, seq![d], k) is None,
    decreases s.len() - k,
{
    if k < s.len() {
        assert(!crate::text::matches_at(s, seq![d], k)) by {
            assert(s.subrange(k, k + 1)[0] == s[k]);
        }
        lemma_find_char_none(s, d, k + 1);
    }
}

/// The pieces joined by `sep`, taken from the front.
proof fn lemma_join_front(xs: Seq<Seq<char>>, sep: Seq<char>)
    requires
        xs.len() >= 2,
    ensures
        crate::text::join(xs, sep) == xs[0] + sep + crate::text::join(xs.drop_first(), sep),
    decreases xs.len(),
{
    let j = |ys: Seq<Seq<char>>| crate::text::join(ys, sep);
    if xs.len() > 2 {
        lemma_join_front(xs.drop_last(), sep);
        assert(xs.drop_last().drop_first() =~= xs.drop_first().drop_last());
        assert(xs.drop_last()[0] == xs[0]);
        assert(xs.drop_first().last() == xs.last());
        assert(j(xs) == j(xs.drop_last()) + sep + xs.last());
        assert(j(xs.drop_first()) == j(xs.drop_first().drop_last()) + sep + xs.drop_first().last());
        assert(j(xs) =~= xs[0] + sep + j(xs.drop_first()));
    } else {
        assert(xs.drop_first() =~= seq![xs[1]]);
        assert(xs.drop_last() =~= seq![xs[0]]);
        assert(j(xs.drop_last()) == xs[0]);
        assert(j(xs.drop_first()) == xs[1]);
        assert(j(xs) == j(xs.drop_last()) + sep + xs.last());
    }
}

/// Pieces that do not hold a one-char delimiter are split back out of their join.
pub(crate) proof fn lemma_split_join(xs: Seq<Seq<char>>, d: char)
    requires
        xs.len() >= 1,
        forall|i: int| 0 <= i < xs.len() ==> !(#[trigger] xs[i]).contains(d),
    ensures
        split_by(crate::text::join(xs, seq![d]), seq![d]) == xs,
    decreases xs.len(),
{
    if xs.len() == 1 {
        lemma_find_char_none(xs[0], d, 0);
        assert(split_by(xs[0], seq![d]) =~= seq![xs[0]]);
        assert(xs =~= seq![xs[0]]);
    } else {
        lemma_join_front(xs, seq![d]);
        let rest = crate::text::join(xs.drop_first(), seq![d]);
        let s = xs[0] + seq![d] + rest;
        assert forall|i: int| 0 <= i < xs[0].len() implies s[i] != d by {
            assert(s[i] == xs[0][i]);
        }
        lemma_find_char(s, d, 0, xs[0].len() as int);
        assert(s.take(xs[0].len() as int) =~= xs[0]);
        assert(s.skip(xs[0].len() as int + 1) =~= rest);
        lemma_split_join(xs.drop_first(), d);
        assert(xs =~= seq![xs[0]] + xs.drop_first());
    }
}

proof fn lemma_nonempty_pieces_keep(xs: Seq<Seq<char>>)
    requires
        forall|i: int| 0 <= i < xs.len() ==> (#[trigger] xs[i]).len() > 0,
    ensures
        nonempty_pieces(xs) == xs,
    decreases xs.len(),
{
    if xs.len() > 0 {
        lemma_nonempty_pieces_keep(xs.drop_last());
        assert(xs.drop_last().push(xs.last()) =~= xs);
    }
}

/// A key-value pair as it is written: the key, the delimiter and the value.
pub open spec fn written_pair(p: (Seq<char>, Seq<char>), c: char) -> Seq<char> {
    p.0 + seq![c] + p.1
}

/// Settings written as `key`, `c`, `value` pieces joined by a one-char delimiter `d` are
/// read back as those pairs, when `d` and `c` differ, no key or value holds `d`, no key
/// holds `c`, and no key or value has surrounding whitespace.
pub proof fn lemma_pairs_read_back(pairs: Seq<(Seq<char>, Seq<char>)>, d: char, c: char)
    requires
        d != c,
        forall|i: int|
            0 <= i < pairs.len() ==> {
                let p = #[trigger] pairs[i];
                &&& !p.0.contains(d)
                &&& !p.1.contains(d)
                &&& !p.0.contains(c)
                &&& crate::text::trim(p.0) == p.0
                &&& crate::text::trim(p.1) == p.1
            },
    ensures
        settings_pairs(
            crate::text::join(pairs.map_values(|p: (Seq<char>, Seq<char>)| written_pair(p, c)), seq![d]),
            seq![d],
            seq![c],
        ) == pairs.map_values(|p: (Seq<char>, Seq<char>)| Some(p)),
{
    let xs = pairs.map_values(|p: (Seq<char>, Seq<char>)| written_pair(p, c));
    if pairs.len() == 0 {
        lemma_find_char_none(Seq::<char>::empty(), d, 0);
        assert(crate::text::join(xs, seq![d]) =~= Seq::<char>::empty());
        assert(split_by(Seq::<char>::empty(), seq![d]) =~= seq![Seq::<char>::empty()]);
        assert(seq![Seq::<char>::empty()].drop_last() =~= Seq::<Seq<char>>::empty());
        assert(nonempty_pieces(Seq::<Seq<char>>::empty()) =~= Seq::<Seq<char>>::empty());
        assert(nonempty_pieces(seq![Seq::<char>::empty()]) =~= Seq::<Seq<char>>::empty());
        assert(settings_pairs(crate::text::join(xs, seq![d]), seq![d], seq![c]) =~= Seq::<
            Option<(Seq<char>, Seq<char>)>,
        >::empty());
    } else {
        assert forall|i: int| 0 <= i < xs.len() implies !(#[trigger] xs[i]).contains(d) && xs[i].len() > 0 by {
            let p = pairs[i];
            assert(xs[i] == p.0 + seq![c] + p.1);
            if xs[i].contains(d) {
                let j = choose|j: int| 0 <= j < xs[i].len() && xs[i][j] == d;
                if j < p.0.len() {
                    assert(p.0[j] == d);
                } else if j == p.0.len() {
                } else {
                    assert(p.1[j - p.0.len() - 1] == d);
                }
            }
        }
        lemma_split_join(xs, d);
        lemma_nonempty_pieces_keep(xs);
        assert forall|i: int| 0 <= i < xs.len() implies pair_of(#[trigger] xs[i], seq![c]) == Some(pairs[i]) by {
            let p = pairs[i];
            let w = xs[i];
            assert(w == p.0 + seq![c] + p.1);
            assert forall|j: int| 0 <= j < p.0.len() implies w[j] != c by {
                assert(w[j] == p.0[j]);
            }
            lemma_find_char(w, c, 0, p.0.len() as int);
            assert(w.take(p.0.len() as int) =~= p.0);
            assert(w.skip(p.0.len() as int + 1) =~= p.1);
        }
        assert(settings_pairs(crate::text::join(xs, seq![d]), seq![d], seq![c]) =~= pairs.map_values(
            |p: (Seq<char>, Seq<char>)| Some(p),
        ));
    }
}

} // verus!
