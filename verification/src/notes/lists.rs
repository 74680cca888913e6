//! List settings of a note, such as `tags: a, b, -c`, and sorting them.

use crate::text::{range_equals, split_by, split_ranges, str_chars, substring, trim, trim_range};
use vstd::prelude::*;

verus! {

/// The items of a list setting: the comma-separated pieces, each trimmed.
pub open spec fn parse_list(value: Seq<char>) -> Seq<Seq<char>> {
    split_by(value, seq![',']).map_values(|p: Seq<char>| trim(p))
}

/// The index of the first item equal to `x`.
pub open spec fn first_index(items: Seq<Seq<char>>, x: Seq<char>, n: int) -> Option<int>
    decreases n,
{
    if n <= 0 {
        None
    } else {
        match first_index(items, x, n - 1) {
            Some(i) => Some(i),
            None => if items[n - 1] == x {
                Some(n - 1)
            } else {
                None
            },
        }
    }
}

/// One item of a list setting applied to the list: `-*` empties it, `-item` removes the
/// first equal item (or names `item` as missing), and any other non-empty item is added.
pub open spec fn list_step(existing: Seq<Seq<char>>, item: Seq<char>) -> (Seq<Seq<char>>, Option<Seq<char>>) {
    if item.len() > 0 && item[0] == '-' {
        let stripped = item.skip(1);
        if stripped == seq!['*'] {
            (Seq::empty(), None)
        } else {
            match first_index(existing, stripped, existing.len() as int) {
                Some(i) => (existing.remove(i), None),
                None => (existing, Some(stripped)),
            }
        }
    } else if item.len() > 0 {
        (existing.push(item), None)
    } else {
        (existing, None)
    }
}

/// The list after the first `n` items, and the items that could not be removed.
pub open spec fn list_fold(existing: Seq<Seq<char>>, items: Seq<Seq<char>>, n: int) -> (Seq<Seq<char>>, Seq<Seq<char>>)
    decreases n,
{
    if n <= 0 {
        (existing, Seq::empty())
    } else {
        let (l, missing) = list_fold(existing, items, n - 1);
        let (l2, m) = list_step(l, items[n - 1]);
        (l2, match m {
            Some(x) => missing.push(x),
            None => missing,
        })
    }
}

/// Lexicographic order on strings, char by char (the order of `str`).
pub open spec fn lex_le(a: Seq<char>, b: Seq<char>) -> bool
    decreases a.len(),
{
    if a.len() == 0 {
        true
    } else if b.len() == 0 {
        false
    } else if (a[0] as u32) != (b[0] as u32) {
        (a[0] as u32) < (b[0] as u32)
    } else {
        lex_le(a.drop_first(), b.drop_first())
    }
}

pub proof fn lemma_lex_total(a: Seq<char>, b: Seq<char>)
    ensures
        lex_le(a, b) || lex_le(b, a),
    decreases a.len(),
{
    if a.len() > 0 && b.len() > 0 && (a[0] as u32) == (b[0] as u32) {
        lemma_lex_total(a.drop_first(), b.drop_first());
    }
}

/// Each string is at most the next one.
pub open spec fn lex_sorted(s: Seq<Seq<char>>) -> bool {
    forall|i: int| 0 <= i < s.len() - 1 ==> lex_le(#[trigger] s[i], s[i + 1])
}

pub open spec fn strings_view(v: Seq<String>) -> Seq<Seq<char>> {
    v.map_values(|s: String| s@)
}

fn lex_le_exec(a: &Vec<char>, b: &Vec<char>) -> (r: bool)
    ensures
        r == lex_le(a@, b@),
{
    let mut i: usize = 0;
    proof {
        assert(a@.skip(0) =~= a@);
        assert(b@.skip(0) =~= b@);
    }
    while i < a.len() && i < b.len() && (a[i] as u32) == (b[i] as u32)
        invariant
            0 <= i <= a.len(),
            i <= b.len(),
            lex_le(a@, b@) == lex_le(a@.skip(i as int), b@.skip(i as int)),
        decreases a.len() - i,
    {
        proof {
            assert(a@.skip(i as int).drop_first() =~= a@.skip(i + 1));
            assert(b@.skip(i as int).drop_first() =~= b@.skip(i + 1));
        }
        i += 1;
    }
    if i == a.len() {
        true
    } else if i == b.len() {
        false
    } else {
        (a[i] as u32) < (b[i] as u32)
    }
}

/// The strings sorted lexicographically.
pub fn sort_strings(v: &mut Vec<String>)
    ensures
        lex_sorted(strings_view(final(v)@)),
        strings_view(final(v)@).to_multiset() == strings_view(old(v)@).to_multiset(),
{
    broadcast use vstd::seq_lib::group_to_multiset_ensures;
    let mut input: Vec<String> = Vec::new();
    std::mem::swap(&mut input, v);
    let ghost orig = strings_view(input@);
    let mut done: Vec<String> = Vec::new();
    let mut keys: Vec<Vec<char>> = Vec::new();
    let mut i: usize = 0;
    let n = input.len();
    while input.len() > 0
        invariant
            n == orig.len(),
            i + input.len() == n,
            strings_view(input@) == orig.skip(i as int),
            done.len() == keys.len(),
            forall|j: int| 0 <= j < keys.len() ==> (#[trigger] keys@[j])@ == done@[j]@,
            lex_sorted(strings_view(done@)),
            strings_view(done@).to_multiset() == orig.take(i as int).to_multiset(),
        decreases input.len(),
    {
        let ghost old_input = input@;
        let x = input.remove(0);
        let xk = str_chars(x.as_str());
        proof {
            assert(strings_view(old_input)[0] == old_input[0]@);
            assert(orig.skip(i as int)[0] == orig[i as int]);
            assert(x@ == orig[i as int]);
            assert(input@ =~= old_input.skip(1));
            assert(strings_view(input@) =~= strings_view(old_input).skip(1));
            assert(strings_view(input@) =~= orig.skip(i + 1));
        }
        let mut pos = done.len();
        while pos > 0 && !lex_le_exec(&keys[pos - 1], &xk)
            invariant
                0 <= pos <= done.len(),
                done.len() == keys.len(),
                forall|j: int| 0 <= j < keys.len() ==> (#[trigger] keys@[j])@ == done@[j]@,
                pos < done.len() ==> lex_le(x@, done@[pos as int]@),
                xk@ == x@,
            decreases pos,
        {
            proof {
                lemma_lex_total(done@[pos - 1]@, x@);
            }
            pos -= 1;
        }
        let ghost before = strings_view(done@);
        done.insert(pos, x);
        keys.insert(pos, xk);
        proof {
            let after = strings_view(done@);
            assert(after =~= before.insert(pos as int, x@));
            assert forall|j: int| 0 <= j < after.len() - 1 implies lex_le(#[trigger] after[j], after[j + 1]) by {
                if j < pos - 1 {
                    assert(after[j] == before[j] && after[j + 1] == before[j + 1]);
                } else if j == pos - 1 {
                } else if j == pos {
                } else {
                    assert(after[j] == before[j - 1] && after[j + 1] == before[j]);
                }
            }
            assert(orig.take(i + 1) =~= orig.take(i as int).push(x@));
            vstd::seq_lib::to_multiset_insert(before, pos as int, x@);
            assert(after.to_multiset() == before.to_multiset().insert(x@));
            vstd::seq_lib::to_multiset_build(orig.take(i as int), x@);
            assert(orig.take(i + 1).to_multiset() == orig.take(i as int).to_multiset().insert(x@));
        }
        i += 1;
    }
    proof {
        assert(orig.take(n as int) =~= orig);
    }
    *v = done;
}

fn find_string(existing: &Vec<String>, v: &Vec<char>, lo: usize, hi: usize) -> (r: Option<usize>)
    requires
        lo <= hi <= v.len(),
    ensures
        match (r, first_index(strings_view(existing@), v@.subrange(lo as int, hi as int), existing.len() as int)) {
            (Some(i), Some(j)) => i == j,
            (None, None) => true,
            _ => false,
        },
{
    let ghost x = v@.subrange(lo as int, hi as int);
    let ghost sv = strings_view(existing@);
    let mut j: usize = 0;
    while j < existing.len()
        invariant
            0 <= j <= existing.len(),
            sv == strings_view(existing@),
            x == v@.subrange(lo as int, hi as int),
            lo <= hi <= v.len(),
            first_index(sv, x, j as int) is None,
        decreases existing.len() - j,
    {
        let e = str_chars(existing[j].as_str());
        if range_equals(v, lo, hi, &e) {
            proof {
                assert(sv[j as int] == x);
                lemma_first_index_stable(sv, x, j as int, existing.len() as int);
            }
            return Some(j);
        }
        j += 1;
    }
    None
}

proof fn lemma_first_index_stable(items: Seq<Seq<char>>, x: Seq<char>, j: int, n: int)
    requires
        0 <= j < n,
        first_index(items, x, j) is None,
        items[j] == x,
    ensures
        first_index(items, x, n) == Some(j),
    decreases n - j,
{
    if n > j + 1 {
        lemma_first_index_stable(items, x, j, n - 1);
    }
}

proof fn lemma_first_index_bound(items: Seq<Seq<char>>, x: Seq<char>, n: int)
    ensures
        first_index(items, x, n) matches Some(i) ==> 0 <= i < n && items[i] == x,
    decreases n,
{
    if n > 0 {
        lemma_first_index_bound(items, x, n - 1);
    }
}

/// Applies the items of a list setting (`value`, comma-separated) to `existing`: `-*`
/// empties the list, `-item` removes the first equal item, and any other non-empty item is
/// added. Sorts the list when `sort`. The items that could not be removed are the error.
pub fn parse_settings_list(value: &str, existing: &mut Vec<String>, sort: bool) -> (r: Result<(), Vec<String>>)
    ensures
        ({
            let items = parse_list(value@);
            let (l, missing) = list_fold(strings_view(old(existing)@), items, items.len() as int);
            &&& if sort {
                &&& lex_sorted(strings_view(final(existing)@))
                &&& strings_view(final(existing)@).to_multiset() == l.to_multiset()
            } else {
                strings_view(final(existing)@) == l
            }
            &&& match r {
                Ok(()) => missing.len() == 0,
                Err(m) => missing.len() > 0 && strings_view(m@) == missing,
            }
        }),
{
    let v = str_chars(value);
    let comma = vec![','];
    proof {
        assert(comma@ =~= seq![',']);
        assert(v@.subrange(0, v@.len() as int) =~= v@);
    }
    let pieces = split_ranges(&v, 0, v.len(), &comma);
    let ghost items = parse_list(value@);
    let ghost start = strings_view(existing@);
    let mut missing: Vec<String> = Vec::new();
    let mut i: usize = 0;
    proof {
        assert(strings_view(missing@) =~= Seq::<Seq<char>>::empty());
    }
    while i < pieces.len()
        invariant
            0 <= i <= pieces.len(),
            items == parse_list(value@),
            v@ == value@,
            pieces.len() == items.len(),
            forall|j: int|
                0 <= j < pieces.len() ==> (#[trigger] pieces@[j]).0 <= pieces@[j].1 <= v.len() && trim(
                    v@.subrange(pieces@[j].0 as int, pieces@[j].1 as int),
                ) == items[j],
            (strings_view(existing@), strings_view(missing@)) == list_fold(start, items, i as int),
        decreases pieces.len() - i,
    {
        let (a, b) = trim_range(&v, pieces[i].0, pieces[i].1);
        let ghost item = items[i as int];
        proof {
            assert(v@.subrange(a as int, b as int) == item);
        }
        let ghost before = strings_view(existing@);
        let ghost before_missing = strings_view(missing@);
        if a < b && v[a] == '-' {
            proof {
                assert(item[0] == '-');
                assert(item.skip(1) =~= v@.subrange(a + 1, b as int));
            }
            let star = vec!['*'];
            proof {
                assert(star@ =~= seq!['*']);
            }
            if range_equals(&v, a + 1, b, &star) {
                existing.clear();
                proof {
                    assert(strings_view(existing@) =~= Seq::<Seq<char>>::empty());
                }
            } else {
                proof {
                    lemma_first_index_bound(before, item.skip(1), before.len() as int);
                }
                match find_string(existing, &v, a + 1, b) {
                    Some(k) => {
                        let ghost ex = existing@;
                        existing.remove(k);
                        proof {
                            assert(strings_view(existing@) =~= before.remove(k as int));
                        }
                    },
                    None => {
                        let ghost ms = missing@;
                        missing.push(substring(&v, a + 1, b));
                        proof {
                            assert(strings_view(missing@) =~= before_missing.push(item.skip(1)));
                        }
                    },
                }
            }
        } else if a < b {
            let ghost ex = existing@;
            existing.push(substring(&v, a, b));
            proof {
                assert(strings_view(existing@) =~= before.push(item));
            }
        }
        i += 1;
    }
    proof {
        assert(items.len() == pieces.len());
    }
    if sort {
        sort_strings(existing);
    }
    if missing.len() > 0 {
        Err(missing)
    } else {
        Ok(())
    }
}

} // verus!
