//! Reading the settings string of a cloze, such as `g:1;o:2;r:`.

use crate::clozes::keys::{ClozeSettingsKeys, NoteSettingsKeys};
use crate::clozes::pairs::{
    is_char_start, not_a_pair_message, settings_pair_ranges, settings_pairs, PairRanges,
};
use crate::clozes::{
    default_settings_of, BackReveal, ClozeGrouping, ClozeGroupingSettings, ClozeSettings,
    FrontConceal, ModifyDefaultsFn,
};
use crate::error::{CardErrorKind, LibraryError};
use std::ops::Range;
use crate::text::{
    byte_offset, char_index_of_byte, lemma_byte_offset_monotonic, chars_to_string, find_from, lemma_find_from_bounds, range_equals, split_by, split_ranges,
    str_chars, substring, trim, trim_range,
};
use crate::text_num::{ParseIntErrorKind, parse_usize_range, parse_usize_spec};
use vstd::prelude::*;

verus! {

/// A grouping as a value: its name is the chars of the string.
pub enum GroupingView {
    All,
    Auto(u32),
    Custom(Seq<char>),
}

impl View for ClozeGrouping {
    type V = GroupingView;

    open spec fn view(&self) -> GroupingView {
        match self {
            ClozeGrouping::All => GroupingView::All,
            ClozeGrouping::Auto(n) => GroupingView::Auto(*n),
            ClozeGrouping::Custom(s) => GroupingView::Custom(s@),
        }
    }
}

/// Whether two groupings are the same.
pub fn grouping_eq(a: &ClozeGrouping, b: &ClozeGrouping) -> (r: bool)
    ensures
        r == (a@ == b@),
{
    match (a, b) {
        (ClozeGrouping::All, ClozeGrouping::All) => true,
        (ClozeGrouping::Auto(x), ClozeGrouping::Auto(y)) => *x == *y,
        (ClozeGrouping::Custom(x), ClozeGrouping::Custom(y)) => crate::clozes::keys::str_eq(x.as_str(), y.as_str()),
        _ => false,
    }
}

/// A copy of a grouping.
pub fn copy_grouping(g: &ClozeGrouping) -> (r: ClozeGrouping)
    ensures
        r@ == g@,
{
    match g {
        ClozeGrouping::All => ClozeGrouping::All,
        ClozeGrouping::Auto(n) => ClozeGrouping::Auto(*n),
        ClozeGrouping::Custom(s) => ClozeGrouping::Custom(s.clone()),
    }
}

/// The groupings named by a grouping value: `*` among the comma-separated names means
/// all groupings; otherwise each name is a named grouping.
pub open spec fn spec_parse_grouping(value: Seq<char>) -> Seq<GroupingView> {
    let names = split_by(value, seq![',']);
    if names.contains(seq!['*']) {
        seq![GroupingView::All]
    } else {
        names.map_values(|name: Seq<char>| GroupingView::Custom(name))
    }
}

/// The groupings named by the grouping value `input`. A value always names at least one
/// grouping, so no automatic grouping number is taken.
pub fn parse_grouping(input: &str, current_grouping_number: &mut u32) -> (r: Vec<ClozeGrouping>)
    ensures
        r@.map_values(|g: ClozeGrouping| g@) == spec_parse_grouping(input@),
        *final(current_grouping_number) == *old(current_grouping_number),
{
    let v = str_chars(input);
    let r = parse_grouping_range(&v, 0, v.len());
    proof {
        assert(v@.subrange(0, v.len() as int) =~= v@);
    }
    r
}

/// The groupings named by the value in chars `lo..hi` of `v`.
pub fn parse_grouping_range(v: &Vec<char>, lo: usize, hi: usize) -> (r: Vec<ClozeGrouping>)
    requires
        lo <= hi <= v.len(),
    ensures
        r@.map_values(|g: ClozeGrouping| g@) == spec_parse_grouping(v@.subrange(lo as int, hi as int)),
{
    let comma = vec![','];
    let star = vec!['*'];
    let names = split_ranges(v, lo, hi, &comma);
    let ghost parts = split_by(v@.subrange(lo as int, hi as int), seq![',']);
    proof {
        assert(comma@ =~= seq![',']);
        assert(star@ =~= seq!['*']);
    }
    let mut i: usize = 0;
    while i < names.len()
        invariant
            0 <= i <= names.len(),
            names.len() == parts.len(),
            parts == split_by(v@.subrange(lo as int, hi as int), seq![',']),
            star@ == seq!['*'],
            lo <= hi <= v.len(),
            forall|j: int| 0 <= j < names.len() ==> lo <= (#[trigger] names@[j]).0 <= names@[j].1 <= hi && v@.subrange(
                names@[j].0 as int,
                names@[j].1 as int,
            ) == parts[j],
            forall|j: int| 0 <= j < i ==> parts[j] != seq!['*'],
        decreases names.len() - i,
    {
        if range_equals(v, names[i].0, names[i].1, &star) {
            let mut r = Vec::new();
            r.push(ClozeGrouping::All);
            proof {
                assert(parts[i as int] == seq!['*']);
                assert(parts.contains(seq!['*']));
                assert(r@.map_values(|g: ClozeGrouping| g@) =~= seq![GroupingView::All]);
            }
            return r;
        }
        i += 1;
    }
    let mut r: Vec<ClozeGrouping> = Vec::new();
    let mut i: usize = 0;
    while i < names.len()
        invariant
            0 <= i <= names.len(),
            names.len() == parts.len(),
            parts == split_by(v@.subrange(lo as int, hi as int), seq![',']),
            forall|j: int| 0 <= j < names.len() ==> parts[j] != seq!['*'],
            lo <= hi <= v.len(),
            forall|j: int| 0 <= j < names.len() ==> lo <= (#[trigger] names@[j]).0 <= names@[j].1 <= hi && v@.subrange(
                names@[j].0 as int,
                names@[j].1 as int,
            ) == parts[j],
            r.len() == i,
            forall|j: int| 0 <= j < i ==> (#[trigger] r@[j])@ == GroupingView::Custom(parts[j]),
        decreases names.len() - i,
    {
        let name = substring(v, names[i].0, names[i].1);
        r.push(ClozeGrouping::Custom(name));
        i += 1;
    }
    proof {
        assert(!parts.contains(seq!['*']));
        assert(r@.map_values(|g: ClozeGrouping| g@) =~= parts.map_values(|name: Seq<char>| GroupingView::Custom(name)));
    }
    r
}

/// The front conceal written as `value`: `` for the grouping only, `all` for all.
pub open spec fn spec_parse_front_conceal(value: Seq<char>) -> Option<FrontConceal> {
    if value == Seq::<char>::empty() {
        Some(FrontConceal::OnlyGrouping)
    } else if value == seq!['a', 'l', 'l'] {
        Some(FrontConceal::AllGroupings)
    } else {
        None
    }
}

/// The back reveal written as `value`: `n` for the full note, `a` or `answered` for the
/// answered clozes only.
pub open spec fn spec_parse_back_reveal(value: Seq<char>) -> Option<BackReveal> {
    if value == seq!['n'] {
        Some(BackReveal::FullNote)
    } else if value == seq!['a'] || value == seq!['a', 'n', 's', 'w', 'e', 'r', 'e', 'd'] {
        Some(BackReveal::OnlyAnswered)
    } else {
        None
    }
}

pub fn parse_front_conceal_range(v: &Vec<char>, lo: usize, hi: usize) -> (r: Option<FrontConceal>)
    requires
        lo <= hi <= v.len(),
    ensures
        r == spec_parse_front_conceal(v@.subrange(lo as int, hi as int)),
{
    let all = vec!['a', 'l', 'l'];
    proof {
        assert(all@ =~= seq!['a', 'l', 'l']);
    }
    if lo == hi {
        proof {
            assert(v@.subrange(lo as int, hi as int) =~= Seq::<char>::empty());
        }
        Some(FrontConceal::OnlyGrouping)
    } else if range_equals(v, lo, hi, &all) {
        proof {
            assert(v@.subrange(lo as int, hi as int).len() > 0);
            assert(v@.subrange(lo as int, hi as int) != Seq::<char>::empty());
        }
        Some(FrontConceal::AllGroupings)
    } else {
        proof {
            assert(v@.subrange(lo as int, hi as int).len() > 0);
            assert(v@.subrange(lo as int, hi as int) != Seq::<char>::empty());
        }
        None
    }
}

pub fn parse_back_reveal_range(v: &Vec<char>, lo: usize, hi: usize) -> (r: Option<BackReveal>)
    requires
        lo <= hi <= v.len(),
    ensures
        r == spec_parse_back_reveal(v@.subrange(lo as int, hi as int)),
{
    let n = vec!['n'];
    let a = vec!['a'];
    let answered = vec!['a', 'n', 's', 'w', 'e', 'r', 'e', 'd'];
    proof {
        assert(n@ =~= seq!['n']);
        assert(a@ =~= seq!['a']);
        assert(answered@ =~= seq!['a', 'n', 's', 'w', 'e', 'r', 'e', 'd']);
    }
    if range_equals(v, lo, hi, &n) {
        Some(BackReveal::FullNote)
    } else if range_equals(v, lo, hi, &a) || range_equals(v, lo, hi, &answered) {
        Some(BackReveal::OnlyAnswered)
    } else {
        None
    }
}

impl FrontConceal {
    /// How the setting is written.
    pub fn as_setting_str(&self) -> (r: &'static str)
        ensures
            r@ == match self {
                FrontConceal::OnlyGrouping => Seq::<char>::empty(),
                FrontConceal::AllGroupings => seq!['a', 'l', 'l'],
            },
    {
        match self {
            FrontConceal::OnlyGrouping => {
                proof {
                    reveal_strlit("");
                }
                ""
            },
            FrontConceal::AllGroupings => {
                proof {
                    reveal_strlit("all");
                }
                "all"
            },
        }
    }

    /// The front conceal written as `value`, if any.
    pub fn parse_setting(value: &str) -> (r: Option<FrontConceal>)
        ensures
            r == spec_parse_front_conceal(value@),
    {
        let v = str_chars(value);
        let r = parse_front_conceal_range(&v, 0, v.len());
        proof {
            assert(v@.subrange(0, v@.len() as int) =~= value@);
        }
        r
    }
}

impl BackReveal {
    /// How the setting is written.
    pub fn as_setting_str(&self) -> (r: &'static str)
        ensures
            r@ == match self {
                BackReveal::FullNote => seq!['n'],
                BackReveal::OnlyAnswered => seq!['a'],
            },
    {
        match self {
            BackReveal::FullNote => {
                proof {
                    reveal_strlit("n");
                }
                "n"
            },
            BackReveal::OnlyAnswered => {
                proof {
                    reveal_strlit("a");
                }
                "a"
            },
        }
    }

    /// The back reveal written as `value`, if any.
    pub fn parse_setting(value: &str) -> (r: Option<BackReveal>)
        ensures
            r == spec_parse_back_reveal(value@),
    {
        let v = str_chars(value);
        let r = parse_back_reveal_range(&v, 0, v.len());
        proof {
            assert(v@.subrange(0, v@.len() as int) =~= value@);
        }
        r
    }
}

} // verus!

verus! {

/// The cloze settings keys, as char sequences.
pub struct KeyChars {
    pub orders: Vec<char>,
    pub grouping: Vec<char>,
    pub include_reverse: Vec<char>,
    pub reverse_only: Vec<char>,
    pub is_suspended: Vec<char>,
    pub hint: Vec<char>,
    pub hidden_no_answer: Vec<char>,
    pub front_conceal: Vec<char>,
    pub back_reveal: Vec<char>,
    pub overlapper: Vec<char>,
}

pub open spec fn key_chars_of(kc: KeyChars, k: ClozeSettingsKeys) -> bool {
    &&& kc.orders@ == k.orders@
    &&& kc.grouping@ == k.grouping@
    &&& kc.include_reverse@ == k.include_reverse@
    &&& kc.reverse_only@ == k.reverse_only@
    &&& kc.is_suspended@ == k.is_suspended@
    &&& kc.hint@ == k.hint@
    &&& kc.hidden_no_answer@ == k.hidden_no_answer@
    &&& kc.front_conceal@ == k.front_conceal@
    &&& kc.back_reveal@ == k.back_reveal@
    &&& kc.overlapper@ == k.overlapper@
}

pub fn key_chars(k: &ClozeSettingsKeys) -> (r: KeyChars)
    ensures
        key_chars_of(r, *k),
{
    KeyChars {
        orders: str_chars(k.orders),
        grouping: str_chars(k.grouping),
        include_reverse: str_chars(k.include_reverse),
        reverse_only: str_chars(k.reverse_only),
        is_suspended: str_chars(k.is_suspended),
        hint: str_chars(k.hint),
        hidden_no_answer: str_chars(k.hidden_no_answer),
        front_conceal: str_chars(k.front_conceal),
        back_reveal: str_chars(k.back_reveal),
        overlapper: str_chars(k.overlapper),
    }
}

/// The orders written as `value`: comma-separated numbers, each read after trimming.
/// The error names the first piece that is not a number.
pub open spec fn orders_of_pieces(pieces: Seq<Seq<char>>) -> Result<Seq<usize>, (Seq<char>, ParseIntErrorKind)>
    decreases pieces.len(),
{
    if pieces.len() == 0 {
        Ok(Seq::empty())
    } else {
        match orders_of_pieces(pieces.drop_last()) {
            Err(e) => Err(e),
            Ok(o) => match parse_usize_spec(trim(pieces.last())) {
                Ok(n) => Ok(o.push(n as usize)),
                Err(k) => Err((pieces.last(), k)),
            },
        }
    }
}

pub open spec fn spec_parse_orders(value: Seq<char>) -> Result<Seq<usize>, (Seq<char>, ParseIntErrorKind)> {
    orders_of_pieces(split_by(value, seq![',']))
}

/// What the settings of one grouping have set so far.
pub struct GroupingState {
    pub include_reverse: bool,
    pub reverse_only: bool,
    pub is_suspended: Option<bool>,
    pub hidden_no_answer: bool,
    pub front_conceal: FrontConceal,
    pub back_reveal: BackReveal,
    pub orders: Option<Seq<usize>>,
    pub hint: Option<Seq<char>>,
    pub is_overlapper: bool,
}

/// Why the settings of a grouping were refused.
pub enum GroupingSettingsError {
    FrontConceal(Seq<char>),
    BackReveal(Seq<char>),
    Order(Seq<char>, ParseIntErrorKind),
    UnsupportedKey(Seq<char>),
    ReverseAndReverseOnly,
}

/// The effect of one `key: value` pair on the settings of a grouping.
pub open spec fn grouping_step(st: GroupingState, key: Seq<char>, value: Seq<char>, k: ClozeSettingsKeys) -> Result<
    GroupingState,
    GroupingSettingsError,
> {
    if key == k.include_reverse@ {
        Ok(GroupingState { include_reverse: true, ..st })
    } else if key == k.reverse_only@ {
        Ok(GroupingState { reverse_only: true, ..st })
    } else if key == k.is_suspended@ {
        Ok(GroupingState { is_suspended: Some(value != seq!['n']), ..st })
    } else if key == k.hint@ {
        Ok(GroupingState { hint: Some(value), ..st })
    } else if key == k.hidden_no_answer@ {
        Ok(GroupingState { hidden_no_answer: true, ..st })
    } else if key == k.front_conceal@ {
        match spec_parse_front_conceal(value) {
            Some(f) => Ok(GroupingState { front_conceal: f, ..st }),
            None => Err(GroupingSettingsError::FrontConceal(value)),
        }
    } else if key == k.back_reveal@ {
        match spec_parse_back_reveal(value) {
            Some(b) => Ok(GroupingState { back_reveal: b, ..st }),
            None => Err(GroupingSettingsError::BackReveal(value)),
        }
    } else if key == k.orders@ {
        match spec_parse_orders(value) {
            Ok(o) => Ok(GroupingState { orders: Some(o), ..st }),
            Err((piece, kind)) => Err(GroupingSettingsError::Order(piece, kind)),
        }
    } else if key == k.overlapper@ {
        Ok(GroupingState { is_overlapper: true, ..st })
    } else {
        Err(GroupingSettingsError::UnsupportedKey(key))
    }
}

/// The settings of a grouping after its pairs, in order; the first refused pair stops.
pub open spec fn grouping_fold(pairs: Seq<(Seq<char>, Seq<char>)>, k: ClozeSettingsKeys, st: GroupingState) -> Result<
    GroupingState,
    GroupingSettingsError,
>
    decreases pairs.len(),
{
    if pairs.len() == 0 {
        Ok(st)
    } else {
        match grouping_fold(pairs.drop_last(), k, st) {
            Err(e) => Err(e),
            Ok(s) => grouping_step(s, pairs.last().0, pairs.last().1, k),
        }
    }
}

/// The settings of a grouping from its pairs, with the check that `include reverse`
/// and `reverse only` are not both given.
pub open spec fn grouping_result(pairs: Seq<(Seq<char>, Seq<char>)>, k: ClozeSettingsKeys, st: GroupingState) -> Result<
    GroupingState,
    GroupingSettingsError,
> {
    match grouping_fold(pairs, k, st) {
        Ok(s) => if s.include_reverse && s.reverse_only {
            Err(GroupingSettingsError::ReverseAndReverseOnly)
        } else {
            Ok(s)
        },
        Err(e) => Err(e),
    }
}

/// The message of a refusal.
pub open spec fn grouping_error_message(e: GroupingSettingsError) -> Seq<char> {
    match e {
        GroupingSettingsError::FrontConceal(v) => "The card back `"@ + v + "` is invalid. Error: Matching variant not found"@,
        GroupingSettingsError::BackReveal(v) => "The card back `"@ + v + "` is invalid. Error: Matching variant not found"@,
        GroupingSettingsError::Order(piece, kind) => "The card order `"@ + piece + "` is invalid. Error: "@
            + crate::text_num::parse_int_error_message(kind),
        GroupingSettingsError::UnsupportedKey(key) => "The key `"@ + key + "` is not supported."@,
        GroupingSettingsError::ReverseAndReverseOnly => "`include reverse` and `reverse only` are mutually exclusive settings."@,
    }
}

/// The pairs found at `ranges` in `v`, as chars.
pub open spec fn pairs_view(v: Seq<char>, ranges: Seq<PairRanges>) -> Seq<(Seq<char>, Seq<char>)> {
    ranges.map_values(|p: PairRanges| (v.subrange(p.key.0 as int, p.key.1 as int), v.subrange(p.value.0 as int, p.value.1 as int)))
}

pub open spec fn ranges_in(v: Seq<char>, ranges: Seq<PairRanges>) -> bool {
    forall|i: int| 0 <= i < ranges.len() ==> (#[trigger] ranges[i]).key.0 <= ranges[i].key.1 <= v.len()
        && ranges[i].value.0 <= ranges[i].value.1 <= v.len()
}

/// Appends `s` to `out`.
pub fn push_str(out: &mut Vec<char>, s: &str)
    ensures
        final(out)@ == old(out)@ + s@,
{
    let c = str_chars(s);
    push_range(out, &c, 0, c.len());
    proof {
        assert(c@.subrange(0, c@.len() as int) =~= c@);
    }
}

/// Appends chars `lo..hi` of `v` to `out`.
pub fn push_range(out: &mut Vec<char>, v: &Vec<char>, lo: usize, hi: usize)
    requires
        lo <= hi <= v.len(),
    ensures
        final(out)@ == old(out)@ + v@.subrange(lo as int, hi as int),
{
    let mut i = lo;
    while i < hi
        invariant
            lo <= i <= hi <= v.len(),
            out@ == old(out)@ + v@.subrange(lo as int, i as int),
        decreases hi - i,
    {
        out.push(v[i]);
        proof {
            assert(v@.subrange(lo as int, i + 1) =~= v@.subrange(lo as int, i as int).push(v@[i as int]));
        }
        i += 1;
    }
}

} // verus!

verus! {

/// The orders written in chars `lo..hi` of `v`; the error gives the char range of the
/// first piece that is not a number, and why.
pub fn parse_orders_range(v: &Vec<char>, lo: usize, hi: usize) -> (r: Result<Vec<usize>, (usize, usize, ParseIntErrorKind)>)
    requires
        lo <= hi <= v.len(),
    ensures
        match (r, spec_parse_orders(v@.subrange(lo as int, hi as int))) {
            (Ok(o), Ok(so)) => o@ == so,
            (Err((a, b, k)), Err((piece, sk))) => a <= b <= v.len() && v@.subrange(a as int, b as int) == piece && k == sk,
            _ => false,
        },
{
    let comma = vec![','];
    proof {
        assert(comma@ =~= seq![',']);
    }
    let pieces = split_ranges(v, lo, hi, &comma);
    let ghost parts = split_by(v@.subrange(lo as int, hi as int), seq![',']);
    let mut out: Vec<usize> = Vec::new();
    let mut i: usize = 0;
    proof {
        assert(parts.take(0) =~= Seq::<Seq<char>>::empty());
    }
    while i < pieces.len()
        invariant
            0 <= i <= pieces.len(),
            pieces.len() == parts.len(),
            parts == split_by(v@.subrange(lo as int, hi as int), seq![',']),
            lo <= hi <= v.len(),
            forall|j: int| 0 <= j < pieces.len() ==> lo <= (#[trigger] pieces@[j]).0 <= pieces@[j].1 <= hi && v@.subrange(
                pieces@[j].0 as int,
                pieces@[j].1 as int,
            ) == parts[j],
            orders_of_pieces(parts.take(i as int)) == Ok::<Seq<usize>, (Seq<char>, ParseIntErrorKind)>(out@),
        decreases pieces.len() - i,
    {
        let (a, b) = pieces[i];
        let (ta, tb) = trim_range(v, a, b);
        proof {
            assert(parts.take(i + 1).drop_last() =~= parts.take(i as int));
            assert(parts.take(i + 1).last() == parts[i as int]);
        }
        match parse_usize_range(v, ta, tb) {
            Ok(n) => {
                out.push(n);
            },
            Err(k) => {
                proof {
                    assert(parts.take(pieces.len() as int) =~= parts);
                    lemma_orders_error_persists(parts, i as int + 1);
                }
                return Err((a, b, k));
            },
        }
        i += 1;
    }
    proof {
        assert(parts.take(pieces.len() as int) =~= parts);
    }
    Ok(out)
}

/// Once the orders of a prefix of the pieces are refused, those of every longer prefix are,
/// with the same error.
proof fn lemma_orders_error_persists(pieces: Seq<Seq<char>>, n: int)
    requires
        0 <= n <= pieces.len(),
        orders_of_pieces(pieces.take(n)) is Err,
    ensures
        orders_of_pieces(pieces) == orders_of_pieces(pieces.take(n)),
    decreases pieces.len() - n,
{
    if n < pieces.len() {
        assert(pieces.take(n + 1).drop_last() =~= pieces.take(n));
        lemma_orders_error_persists(pieces, n + 1);
    } else {
        assert(pieces.take(n) =~= pieces);
    }
}

} // verus!

verus! {

pub open spec fn opt_string_view(o: Option<String>) -> Option<Seq<char>> {
    match o {
        Some(s) => Some(s@),
        None => None,
    }
}

/// The state of a grouping before any of its pairs: defaults, and the settings the
/// cloze already has.
pub open spec fn initial_state(settings: ClozeSettings, modify: ModifyDefaultsFn) -> GroupingState {
    let d = default_settings_of(ClozeGrouping::Auto(0), modify);
    GroupingState {
        include_reverse: false,
        reverse_only: false,
        is_suspended: None,
        hidden_no_answer: false,
        front_conceal: d.front_conceal,
        back_reveal: d.back_reveal,
        orders: None,
        hint: opt_string_view(settings.hint),
        is_overlapper: settings.is_overlapper,
    }
}

/// The grouping settings `r` are those the state `st` describes, for `grouping`.
pub open spec fn settings_of_state(r: ClozeGroupingSettings, st: GroupingState, grouping: GroupingView, modify: ModifyDefaultsFn) -> bool {
    &&& r.grouping@ == grouping
    &&& r.inherit is None
    &&& match r.orders {
        Some(o) => st.orders == Some(o@),
        None => st.orders is None,
    }
    &&& r.include_forward_card == (st.include_reverse || !st.reverse_only)
    &&& r.include_backward_card == (st.include_reverse || st.reverse_only)
    &&& r.is_suspended == st.is_suspended
    &&& r.hidden_no_answer == st.hidden_no_answer
    &&& r.front_conceal == st.front_conceal
    &&& r.back_reveal == st.back_reveal
    &&& r.back_emphasis == default_settings_of(ClozeGrouping::Auto(0), modify).back_emphasis
    &&& !r.skip_serialization
}

/// The error of a refused settings string.
pub open spec fn invalid_settings(e: LibraryError, message: Seq<char>, data: Seq<char>, at: Range<usize>) -> bool {
    e matches LibraryError::Card(CardErrorKind::InvalidSettings { description, src, at: at2 })
        && description@ == message && src@ == data && at2 == at
}

/// The settings of one grouping of a cloze, from its `key: value` pairs. The hint and the
/// overlapper mark are shared by all groupings of the cloze, so they go to `settings`.
pub fn parse_grouping_settings(
    v: &Vec<char>,
    pairs: &Vec<PairRanges>,
    settings: &mut ClozeSettings,
    current_grouping_number: u32,
    data: &str,
    card_settings_indices: &Range<usize>,
    kc: &KeyChars,
    keys: &ClozeSettingsKeys,
    modify_defaults_fn: ModifyDefaultsFn,
) -> (r: Result<ClozeGroupingSettings, LibraryError>)
    requires
        ranges_in(v@, pairs@),
        key_chars_of(*kc, *keys),
    ensures
        final(settings).all_groupings == old(settings).all_groupings,
        match (r, grouping_result(pairs_view(v@, pairs@), *keys, initial_state(*old(settings), modify_defaults_fn))) {
            (Ok(g), Ok(st)) => settings_of_state(g, st, GroupingView::Auto(current_grouping_number), modify_defaults_fn)
                && opt_string_view(final(settings).hint) == st.hint
                && final(settings).is_overlapper == st.is_overlapper
                && final(settings).all_groupings == old(settings).all_groupings,
            (Err(e), Err(se)) => invalid_settings(e, grouping_error_message(se), data@, *card_settings_indices),
            _ => false,
        },
{
    let ghost pv = pairs_view(v@, pairs@);
    let ghost st0 = initial_state(*settings, modify_defaults_fn);
    let defaults = ClozeGroupingSettings::default_from_grouping(ClozeGrouping::Auto(current_grouping_number), modify_defaults_fn);
    let mut include_reverse = false;
    let mut reverse_only = false;
    let mut is_suspended: Option<bool> = None;
    let mut hidden_no_answer = false;
    let mut front_conceal = defaults.front_conceal;
    let mut back_reveal = defaults.back_reveal;
    let mut orders: Option<Vec<usize>> = None;
    let n_char = vec!['n'];
    proof {
        assert(n_char@ =~= seq!['n']);
        assert(pv.take(0) =~= Seq::<(Seq<char>, Seq<char>)>::empty());
    }
    let mut i: usize = 0;
    while i < pairs.len()
        invariant
            0 <= i <= pairs.len(),
            ranges_in(v@, pairs@),
            key_chars_of(*kc, *keys),
            n_char@ == seq!['n'],
            pv == pairs_view(v@, pairs@),
            st0 == initial_state(*old(settings), modify_defaults_fn),
            settings.all_groupings == old(settings).all_groupings,
            grouping_fold(pv.take(i as int), *keys, st0) == Ok::<GroupingState, GroupingSettingsError>(GroupingState {
                include_reverse,
                reverse_only,
                is_suspended,
                hidden_no_answer,
                front_conceal,
                back_reveal,
                orders: match orders { Some(o) => Some(o@), None => None },
                hint: opt_string_view(settings.hint),
                is_overlapper: settings.is_overlapper,
            }),
        decreases pairs.len() - i,
    {
        let p = pairs[i];
        let (k0, k1) = p.key;
        let (v0, v1) = p.value;
        proof {
            assert(pv.take(i + 1).drop_last() =~= pv.take(i as int));
            assert(pv.take(i + 1).last() == pv[i as int]);
            assert(pv[i as int] == (v@.subrange(k0 as int, k1 as int), v@.subrange(v0 as int, v1 as int)));
        }
        let ghost before = pv.take(i as int);
        if range_equals(v, k0, k1, &kc.include_reverse) {
            include_reverse = true;
        } else if range_equals(v, k0, k1, &kc.reverse_only) {
            reverse_only = true;
        } else if range_equals(v, k0, k1, &kc.is_suspended) {
            is_suspended = Some(!range_equals(v, v0, v1, &n_char));
        } else if range_equals(v, k0, k1, &kc.hint) {
            settings.hint = Some(substring(v, v0, v1));
        } else if range_equals(v, k0, k1, &kc.hidden_no_answer) {
            hidden_no_answer = true;
        } else if range_equals(v, k0, k1, &kc.front_conceal) {
            match parse_front_conceal_range(v, v0, v1) {
                Some(f) => { front_conceal = f; },
                None => {
                    let mut msg: Vec<char> = Vec::new();
                    push_str(&mut msg, "The card back `");
                    push_range(&mut msg, v, v0, v1);
                    push_str(&mut msg, "` is invalid. Error: Matching variant not found");
                    proof {
                        reveal_strlit("The card back `");
                        reveal_strlit("` is invalid. Error: Matching variant not found");
                        lemma_grouping_error_persists(pv, *keys, st0, i as int + 1);
                    }
                    return Err(LibraryError::Card(CardErrorKind::InvalidSettings {
                        description: chars_to_string(msg.as_slice()),
                        src: data.to_string(),
                        at: card_settings_indices.start..card_settings_indices.end,
                    }));
                },
            }
        } else if range_equals(v, k0, k1, &kc.back_reveal) {
            match parse_back_reveal_range(v, v0, v1) {
                Some(b) => { back_reveal = b; },
                None => {
                    let mut msg: Vec<char> = Vec::new();
                    push_str(&mut msg, "The card back `");
                    push_range(&mut msg, v, v0, v1);
                    push_str(&mut msg, "` is invalid. Error: Matching variant not found");
                    proof {
                        reveal_strlit("The card back `");
                        reveal_strlit("` is invalid. Error: Matching variant not found");
                        lemma_grouping_error_persists(pv, *keys, st0, i as int + 1);
                    }
                    return Err(LibraryError::Card(CardErrorKind::InvalidSettings {
                        description: chars_to_string(msg.as_slice()),
                        src: data.to_string(),
                        at: card_settings_indices.start..card_settings_indices.end,
                    }));
                },
            }
        } else if range_equals(v, k0, k1, &kc.orders) {
            match parse_orders_range(v, v0, v1) {
                Ok(o) => { orders = Some(o); },
                Err((a, b, kind)) => {
                    let mut msg: Vec<char> = Vec::new();
                    push_str(&mut msg, "The card order `");
                    push_range(&mut msg, v, a, b);
                    push_str(&mut msg, "` is invalid. Error: ");
                    push_str(&mut msg, crate::text_num::parse_int_error_message_exec(kind));
                    proof {
                        reveal_strlit("The card order `");
                        reveal_strlit("` is invalid. Error: ");
                        lemma_grouping_error_persists(pv, *keys, st0, i as int + 1);
                    }
                    return Err(LibraryError::Card(CardErrorKind::InvalidSettings {
                        description: chars_to_string(msg.as_slice()),
                        src: data.to_string(),
                        at: card_settings_indices.start..card_settings_indices.end,
                    }));
                },
            }
        } else if range_equals(v, k0, k1, &kc.overlapper) {
            settings.is_overlapper = true;
        } else {
            let mut msg: Vec<char> = Vec::new();
            push_str(&mut msg, "The key `");
            push_range(&mut msg, v, k0, k1);
            push_str(&mut msg, "` is not supported.");
            proof {
                reveal_strlit("The key `");
                reveal_strlit("` is not supported.");
                lemma_grouping_error_persists(pv, *keys, st0, i as int + 1);
            }
            return Err(LibraryError::Card(CardErrorKind::InvalidSettings {
                description: chars_to_string(msg.as_slice()),
                src: data.to_string(),
                at: card_settings_indices.start..card_settings_indices.end,
            }));
        }
        i += 1;
    }
    proof {
        assert(pv.take(pairs.len() as int) =~= pv);
    }
    if include_reverse && reverse_only {
        let msg = String::from_str("`include reverse` and `reverse only` are mutually exclusive settings.");
        proof {
            reveal_strlit("`include reverse` and `reverse only` are mutually exclusive settings.");
        }
        return Err(LibraryError::Card(CardErrorKind::InvalidSettings {
            description: msg,
            src: data.to_string(),
            at: card_settings_indices.start..card_settings_indices.end,
        }));
    }
    let mut result = defaults;
    result.orders = orders;
    result.is_suspended = is_suspended;
    result.hidden_no_answer = hidden_no_answer;
    result.front_conceal = front_conceal;
    result.back_reveal = back_reveal;
    if include_reverse {
        result.include_backward_card = true;
    } else if reverse_only {
        result.include_forward_card = false;
        result.include_backward_card = true;
    }
    Ok(result)
}

/// Once the settings of a prefix of the pairs are refused, those of the whole are, with the
/// same error.
proof fn lemma_grouping_error_persists(pairs: Seq<(Seq<char>, Seq<char>)>, k: ClozeSettingsKeys, st: GroupingState, n: int)
    requires
        0 <= n <= pairs.len(),
        grouping_fold(pairs.take(n), k, st) is Err,
    ensures
        grouping_fold(pairs, k, st) == grouping_fold(pairs.take(n), k, st),
        grouping_result(pairs, k, st) == grouping_fold(pairs.take(n), k, st),
    decreases pairs.len() - n,
{
    if n < pairs.len() {
        assert(pairs.take(n + 1).drop_last() =~= pairs.take(n));
        lemma_grouping_error_persists(pairs, k, st, n + 1);
    } else {
        assert(pairs.take(n) =~= pairs);
    }
}

} // verus!

verus! {

pub type PairView = (Seq<char>, Seq<char>);

/// The index of the entry of `g` in an insertion-ordered association list.
pub open spec fn key_index(grouped: Seq<(GroupingView, Seq<PairView>)>, g: GroupingView, n: int) -> Option<int>
    decreases n,
{
    if n <= 0 {
        None
    } else {
        match key_index(grouped, g, n - 1) {
            Some(j) => Some(j),
            None => if grouped[n - 1].0 == g {
                Some(n - 1)
            } else {
                None
            },
        }
    }
}

/// Appends `ps` to the entry of `g`, adding the entry at the end when there is none.
pub open spec fn assoc_append(grouped: Seq<(GroupingView, Seq<PairView>)>, g: GroupingView, ps: Seq<PairView>) -> Seq<
    (GroupingView, Seq<PairView>),
> {
    match key_index(grouped, g, grouped.len() as int) {
        Some(j) => grouped.update(j, (g, grouped[j].1 + ps)),
        None => grouped.push((g, ps)),
    }
}

/// Appends `ps` to the entries of each of `gs`, in order.
pub open spec fn assoc_append_all(grouped: Seq<(GroupingView, Seq<PairView>)>, gs: Seq<GroupingView>, ps: Seq<PairView>) -> Seq<
    (GroupingView, Seq<PairView>),
>
    decreases gs.len(),
{
    if gs.len() == 0 {
        grouped
    } else {
        assoc_append(assoc_append_all(grouped, gs.drop_last(), ps), gs.last(), ps)
    }
}

/// What reading the pairs of a settings string has gathered so far: the pairs before
/// any grouping key, whether a grouping key was seen, the groupings of the last one, the
/// settings of each grouping in order of first mention, and all groupings mentioned.
pub struct ScanState {
    pub local: Seq<PairView>,
    pub seen_grouping: bool,
    pub current: Seq<GroupingView>,
    pub grouped: Seq<(GroupingView, Seq<PairView>)>,
    pub local_groups: Seq<GroupingView>,
}

pub open spec fn scan_step(st: ScanState, p: PairView, grouping_key: Seq<char>) -> ScanState {
    if p.0 == grouping_key {
        let gs = spec_parse_grouping(p.1);
        ScanState {
            local: st.local,
            seen_grouping: true,
            current: gs,
            grouped: assoc_append_all(st.grouped, gs, Seq::empty()),
            local_groups: st.local_groups + gs,
        }
    } else if !st.seen_grouping {
        ScanState { local: st.local.push(p), ..st }
    } else {
        ScanState { grouped: assoc_append_all(st.grouped, st.current, seq![p]), ..st }
    }
}

pub open spec fn scan_pairs(pairs: Seq<PairView>, grouping_key: Seq<char>) -> ScanState
    decreases pairs.len(),
{
    if pairs.len() == 0 {
        ScanState {
            local: Seq::empty(),
            seen_grouping: false,
            current: Seq::empty(),
            grouped: Seq::empty(),
            local_groups: Seq::empty(),
        }
    } else {
        scan_step(scan_pairs(pairs.drop_last(), grouping_key), pairs.last(), grouping_key)
    }
}

/// The groupings of a cloze and the pairs of each, with the pairs written before any
/// grouping key added to every grouping mentioned (or to a new automatic grouping when
/// none is), and the next automatic grouping number.
pub open spec fn final_groups(pairs: Seq<PairView>, grouping_key: Seq<char>, cur: u32) -> (Seq<(GroupingView, Seq<PairView>)>, Seq<GroupingView>, u32) {
    let st = scan_pairs(pairs, grouping_key);
    if st.local.len() > 0 {
        let (lg, next) = if st.local_groups.len() == 0 {
            (seq![GroupingView::Auto(cur)], (cur + 1) as u32)
        } else {
            (st.local_groups, cur)
        };
        (assoc_append_all(st.grouped, lg, st.local), lg, next)
    } else {
        (st.grouped, st.local_groups, cur)
    }
}

/// The settings of each grouping, in order, with the hint and overlapper mark carried
/// from one grouping to the next; the first refusal stops.
pub open spec fn groups_fold(
    groups: Seq<(GroupingView, Seq<PairView>)>,
    k: ClozeSettingsKeys,
    hint: Option<Seq<char>>,
    is_overlapper: bool,
    modify: ModifyDefaultsFn,
) -> Result<Seq<(GroupingView, GroupingState)>, GroupingSettingsError>
    decreases groups.len(),
{
    if groups.len() == 0 {
        Ok(Seq::empty())
    } else {
        match groups_fold(groups.drop_last(), k, hint, is_overlapper, modify) {
            Err(e) => Err(e),
            Ok(done) => {
                let (h, o) = if done.len() == 0 {
                    (hint, is_overlapper)
                } else {
                    (done.last().1.hint, done.last().1.is_overlapper)
                };
                let st0 = GroupingState {
                    hint: h,
                    is_overlapper: o,
                    ..initial_state(ClozeSettings { hint: None, all_groupings: false, is_overlapper: false }, modify)
                };
                match grouping_result(groups.last().1, k, st0) {
                    Err(e) => Err(e),
                    Ok(s) => Ok(done.push((groups.last().0, s))),
                }
            },
        }
    }
}

} // verus!

verus! {

pub open spec fn entries_view(v: Seq<char>, grouped: Seq<(ClozeGrouping, Vec<PairRanges>)>) -> Seq<(GroupingView, Seq<PairView>)> {
    grouped.map_values(|e: (ClozeGrouping, Vec<PairRanges>)| (e.0@, pairs_view(v, e.1@)))
}

pub open spec fn entries_in(v: Seq<char>, grouped: Seq<(ClozeGrouping, Vec<PairRanges>)>) -> bool {
    forall|j: int| 0 <= j < grouped.len() ==> ranges_in(v, (#[trigger] grouped[j]).1@)
}

proof fn lemma_key_index_stable(grouped: Seq<(GroupingView, Seq<PairView>)>, g: GroupingView, j: int, n: int)
    requires
        0 <= j < n,
        key_index(grouped, g, j + 1) == Some(j),
    ensures
        key_index(grouped, g, n) == Some(j),
    decreases n - j,
{
    if n > j + 1 {
        lemma_key_index_stable(grouped, g, j, n - 1);
    }
}

proof fn lemma_key_index_bound(grouped: Seq<(GroupingView, Seq<PairView>)>, g: GroupingView, n: int)
    ensures
        key_index(grouped, g, n) matches Some(j) ==> 0 <= j < n && grouped[j].0 == g,
    decreases n,
{
    if n > 0 {
        lemma_key_index_bound(grouped, g, n - 1);
    }
}

fn find_group(v: &Vec<char>, grouped: &Vec<(ClozeGrouping, Vec<PairRanges>)>, g: &ClozeGrouping) -> (r: Option<usize>)
    ensures
        r matches Some(j) ==> j < grouped.len(),
        r == match key_index(entries_view(v@, grouped@), g@, grouped.len() as int) {
            Some(j) => Some(j as usize),
            None => None::<usize>,
        },
{
    let ghost ev = entries_view(v@, grouped@);
    let mut j: usize = 0;
    while j < grouped.len()
        invariant
            0 <= j <= grouped.len(),
            ev == entries_view(v@, grouped@),
            key_index(ev, g@, j as int) is None,
        decreases grouped.len() - j,
    {
        if grouping_eq(&grouped[j].0, g) {
            proof {
                assert(ev[j as int].0 == g@);
                lemma_key_index_stable(ev, g@, j as int, grouped.len() as int);
            }
            return Some(j);
        }
        j += 1;
    }
    None
}

fn copy_pairs(ps: &Vec<PairRanges>) -> (r: Vec<PairRanges>)
    ensures
        r@ == ps@,
{
    let mut r: Vec<PairRanges> = Vec::new();
    let mut i: usize = 0;
    while i < ps.len()
        invariant
            0 <= i <= ps.len(),
            r@ == ps@.take(i as int),
        decreases ps.len() - i,
    {
        r.push(ps[i]);
        proof {
            assert(ps@.take(i + 1) =~= ps@.take(i as int).push(ps@[i as int]));
        }
        i += 1;
    }
    proof {
        assert(ps@.take(ps.len() as int) =~= ps@);
    }
    r
}

fn append_group(v: &Vec<char>, grouped: &mut Vec<(ClozeGrouping, Vec<PairRanges>)>, g: &ClozeGrouping, ps: &Vec<PairRanges>)
    requires
        entries_in(v@, old(grouped)@),
        ranges_in(v@, ps@),
    ensures
        entries_in(v@, final(grouped)@),
        entries_view(v@, final(grouped)@) == assoc_append(entries_view(v@, old(grouped)@), g@, pairs_view(v@, ps@)),
{
    let ghost ev = entries_view(v@, grouped@);
    proof {
        lemma_key_index_bound(ev, g@, grouped.len() as int);
    }
    match find_group(v, grouped, g) {
        Some(j) => {
            let mut merged = copy_pairs(&grouped[j].1);
            let mut i: usize = 0;
            while i < ps.len()
                invariant
                    0 <= i <= ps.len(),
                    j < grouped.len(),
                    merged@ == grouped@[j as int].1@ + ps@.take(i as int),
                decreases ps.len() - i,
            {
                merged.push(ps[i]);
                proof {
                    assert(grouped@[j as int].1@ + ps@.take(i + 1) =~= (grouped@[j as int].1@ + ps@.take(i as int)).push(ps@[i as int]));
                }
                i += 1;
            }
            proof {
                assert(ps@.take(ps.len() as int) =~= ps@);
                assert(pairs_view(v@, merged@) =~= pairs_view(v@, grouped@[j as int].1@) + pairs_view(v@, ps@));
            }
            let entry = (copy_grouping(g), merged);
            grouped.set(j, entry);
            proof {
                assert(entries_view(v@, grouped@) =~= ev.update(j as int, (g@, ev[j as int].1 + pairs_view(v@, ps@))));
            }
        },
        None => {
            let entry = (copy_grouping(g), copy_pairs(ps));
            grouped.push(entry);
            proof {
                assert(entries_view(v@, grouped@) =~= ev.push((g@, pairs_view(v@, ps@))));
            }
        },
    }
}

fn append_all(v: &Vec<char>, grouped: &mut Vec<(ClozeGrouping, Vec<PairRanges>)>, gs: &Vec<ClozeGrouping>, ps: &Vec<PairRanges>)
    requires
        entries_in(v@, old(grouped)@),
        ranges_in(v@, ps@),
    ensures
        entries_in(v@, final(grouped)@),
        entries_view(v@, final(grouped)@) == assoc_append_all(
            entries_view(v@, old(grouped)@),
            gs@.map_values(|g: ClozeGrouping| g@),
            pairs_view(v@, ps@),
        ),
{
    let ghost gv = gs@.map_values(|g: ClozeGrouping| g@);
    let ghost start = entries_view(v@, grouped@);
    let mut i: usize = 0;
    proof {
        assert(gv.take(0) =~= Seq::<GroupingView>::empty());
    }
    while i < gs.len()
        invariant
            0 <= i <= gs.len(),
            gv == gs@.map_values(|g: ClozeGrouping| g@),
            entries_in(v@, grouped@),
            ranges_in(v@, ps@),
            entries_view(v@, grouped@) == assoc_append_all(start, gv.take(i as int), pairs_view(v@, ps@)),
        decreases gs.len() - i,
    {
        append_group(v, grouped, &gs[i], ps);
        proof {
            assert(gv.take(i + 1).drop_last() =~= gv.take(i as int));
            assert(gv.take(i + 1).last() == gs@[i as int]@);
        }
        i += 1;
    }
    proof {
        assert(gv.take(gs.len() as int) =~= gv);
    }
}

} // verus!

verus! {

/// Every piece of the settings string is a `key: value` pair.
pub open spec fn all_pairs(ps: Seq<Option<PairView>>) -> bool {
    forall|i: int| 0 <= i < ps.len() ==> (#[trigger] ps[i]) is Some
}

pub open spec fn unwrap_pairs(ps: Seq<Option<PairView>>) -> Seq<PairView> {
    ps.map_values(|o: Option<PairView>| o.unwrap())
}

/// The cloze settings and grouping settings that the reading of the pairs `pv` gives,
/// starting from the automatic grouping number `cur`: `Some` with the settings and the
/// next automatic grouping number, or the refusal.
pub open spec fn spec_card_settings_ok(
    r: (ClozeSettings, Vec<ClozeGroupingSettings>),
    next_cur: u32,
    pv: Seq<PairView>,
    cur: u32,
    k: ClozeSettingsKeys,
    modify: ModifyDefaultsFn,
) -> bool {
    let (groups, lg, next) = final_groups(pv, k.grouping@, cur);
    match groups_fold(groups, k, None, false, modify) {
        Err(_) => false,
        Ok(list) => {
            &&& r.0.all_groupings == lg.contains(GroupingView::All)
            &&& if list.len() == 0 {
                &&& r.1.len() == 1
                &&& r.1@[0] == default_settings_of(ClozeGrouping::Auto(next), modify)
                &&& next_cur == next + 1
                &&& r.0.hint is None
                &&& !r.0.is_overlapper
            } else {
                &&& r.1.len() == list.len()
                &&& forall|i: int| 0 <= i < list.len() ==> settings_of_state(#[trigger] r.1@[i], list[i].1, list[i].0, modify)
                &&& next_cur == next
                &&& opt_string_view(r.0.hint) == list.last().1.hint
                &&& r.0.is_overlapper == list.last().1.is_overlapper
            }
        },
    }
}

/// The refusal, if any, of the settings string with pairs `pv`.
pub open spec fn spec_card_settings_error(pv: Seq<PairView>, cur: u32, k: ClozeSettingsKeys, modify: ModifyDefaultsFn) -> Option<GroupingSettingsError> {
    let (groups, lg, next) = final_groups(pv, k.grouping@, cur);
    match groups_fold(groups, k, None, false, modify) {
        Err(e) => Some(e),
        Ok(_) => None,
    }
}

} // verus!

verus! {

proof fn lemma_groups_error_persists(
    groups: Seq<(GroupingView, Seq<PairView>)>,
    k: ClozeSettingsKeys,
    hint: Option<Seq<char>>,
    o: bool,
    modify: ModifyDefaultsFn,
    n: int,
)
    requires
        0 <= n <= groups.len(),
        groups_fold(groups.take(n), k, hint, o, modify) is Err,
    ensures
        groups_fold(groups, k, hint, o, modify) == groups_fold(groups.take(n), k, hint, o, modify),
    decreases groups.len() - n,
{
    if n < groups.len() {
        assert(groups.take(n + 1).drop_last() =~= groups.take(n));
        lemma_groups_error_persists(groups, k, hint, o, modify, n + 1);
    } else {
        assert(groups.take(n) =~= groups);
    }
}

fn copy_groupings_into(out: &mut Vec<ClozeGrouping>, gs: &Vec<ClozeGrouping>)
    ensures
        final(out)@.map_values(|g: ClozeGrouping| g@) == old(out)@.map_values(|g: ClozeGrouping| g@) + gs@.map_values(
            |g: ClozeGrouping| g@,
        ),
{
    let ghost start = out@.map_values(|g: ClozeGrouping| g@);
    let ghost gv = gs@.map_values(|g: ClozeGrouping| g@);
    let mut i: usize = 0;
    while i < gs.len()
        invariant
            0 <= i <= gs.len(),
            gv == gs@.map_values(|g: ClozeGrouping| g@),
            out@.map_values(|g: ClozeGrouping| g@) == start + gv.take(i as int),
        decreases gs.len() - i,
    {
        let ghost before = out@;
        out.push(copy_grouping(&gs[i]));
        proof {
            assert(before.push(out@.last()) =~= out@);
            assert(out@.map_values(|g: ClozeGrouping| g@) =~= before.map_values(|g: ClozeGrouping| g@).push(gs@[i as int]@));
            assert(gv.take(i + 1) =~= gv.take(i as int).push(gs@[i as int]@));
            assert(out@.map_values(|g: ClozeGrouping| g@) =~= start + gv.take(i + 1));
        }
        i += 1;
    }
    proof {
        assert(gv.take(gs.len() as int) =~= gv);
    }
}

} // verus!

verus! {

/// The pairs at the given ranges, when every piece is a pair.
fn collect_pairs(v: &Vec<char>, ranges: &Vec<Option<PairRanges>>, ghost_ps: Ghost<Seq<Option<PairView>>>) -> (r: Option<Vec<PairRanges>>)
    requires
        ranges.len() == ghost_ps@.len(),
        forall|j: int| 0 <= j < ranges.len() ==> {
            let spec_pair = ghost_ps@[j];
            match #[trigger] ranges@[j] {
                Some(p) => spec_pair matches Some(sp) && p.key.0 <= p.key.1 <= v.len() && p.value.0 <= p.value.1 <= v.len()
                    && v@.subrange(p.key.0 as int, p.key.1 as int) == sp.0
                    && v@.subrange(p.value.0 as int, p.value.1 as int) == sp.1,
                None => spec_pair is None,
            }
        },
    ensures
        r is Some <==> all_pairs(ghost_ps@),
        r matches Some(pairs) ==> ranges_in(v@, pairs@) && pairs_view(v@, pairs@) == unwrap_pairs(ghost_ps@),
{
    let ghost ps = ghost_ps@;
    let mut pairs: Vec<PairRanges> = Vec::new();
    let mut i: usize = 0;
    proof {
        assert(pairs_view(v@, pairs@) =~= unwrap_pairs(ps.take(0)));
    }
    while i < ranges.len()
        invariant
            0 <= i <= ranges.len(),
            ps == ghost_ps@,
            ranges.len() == ps.len(),
            forall|j: int| 0 <= j < ranges.len() ==> {
                let spec_pair = ps[j];
                match #[trigger] ranges@[j] {
                    Some(p) => spec_pair matches Some(sp) && p.key.0 <= p.key.1 <= v.len() && p.value.0 <= p.value.1 <= v.len()
                        && v@.subrange(p.key.0 as int, p.key.1 as int) == sp.0
                        && v@.subrange(p.value.0 as int, p.value.1 as int) == sp.1,
                    None => spec_pair is None,
                }
            },
            ranges_in(v@, pairs@),
            pairs_view(v@, pairs@) == unwrap_pairs(ps.take(i as int)),
            forall|j: int| 0 <= j < i ==> (#[trigger] ps[j]) is Some,
        decreases ranges.len() - i,
    {
        match ranges[i] {
            Some(p) => {
                let ghost before = pairs@;
                pairs.push(p);
                proof {
                    assert(pairs@ =~= before.push(p));
                    assert(pairs_view(v@, pairs@) =~= pairs_view(v@, before).push((v@.subrange(p.key.0 as int, p.key.1 as int), v@.subrange(p.value.0 as int, p.value.1 as int))));
                    assert(ps.take(i + 1) =~= ps.take(i as int).push(ps[i as int]));
                    assert(unwrap_pairs(ps.take(i + 1)) =~= unwrap_pairs(ps.take(i as int)).push(ps[i as int].unwrap()));
                }
            },
            None => {
                proof {
                    assert(!all_pairs(ps));
                }
                return None;
            },
        }
        i += 1;
    }
    proof {
        assert(ps.take(ps.len() as int) =~= ps);
    }
    Some(pairs)
}

/// The groupings of a cloze and their pairs, and the groupings its local pairs go to.
fn gather_groups(
    v: &Vec<char>,
    pairs: &Vec<PairRanges>,
    kc: &KeyChars,
    keys: &ClozeSettingsKeys,
    current_grouping_number: &mut u32,
) -> (r: (Vec<(ClozeGrouping, Vec<PairRanges>)>, Vec<ClozeGrouping>))
    requires
        ranges_in(v@, pairs@),
        key_chars_of(*kc, *keys),
        *old(current_grouping_number) < u32::MAX,
    ensures
        entries_in(v@, r.0@),
        entries_view(v@, r.0@) == final_groups(pairs_view(v@, pairs@), keys.grouping@, *old(current_grouping_number)).0,
        r.1@.map_values(|g: ClozeGrouping| g@) == final_groups(pairs_view(v@, pairs@), keys.grouping@, *old(current_grouping_number)).1,
        *final(current_grouping_number) == final_groups(pairs_view(v@, pairs@), keys.grouping@, *old(current_grouping_number)).2,
        r.0.len() == 0 ==> *final(current_grouping_number) == *old(current_grouping_number),
{
    let ghost pv = pairs_view(v@, pairs@);
    let ghost gkey = keys.grouping@;
    let mut local: Vec<PairRanges> = Vec::new();
    let mut seen_grouping = false;
    let mut current: Vec<ClozeGrouping> = Vec::new();
    let mut grouped: Vec<(ClozeGrouping, Vec<PairRanges>)> = Vec::new();
    let mut local_groups: Vec<ClozeGrouping> = Vec::new();
    let empty: Vec<PairRanges> = Vec::new();
    proof {
        assert(pv.take(0) =~= Seq::<PairView>::empty());
        assert(entries_view(v@, grouped@) =~= Seq::<(GroupingView, Seq<PairView>)>::empty());
        assert(pairs_view(v@, local@) =~= Seq::<PairView>::empty());
        assert(current@.map_values(|g: ClozeGrouping| g@) =~= Seq::<GroupingView>::empty());
        assert(local_groups@.map_values(|g: ClozeGrouping| g@) =~= Seq::<GroupingView>::empty());
    }
    let mut i: usize = 0;
    while i < pairs.len()
        invariant
            0 <= i <= pairs.len(),
            ranges_in(v@, pairs@),
            pv == pairs_view(v@, pairs@),
            key_chars_of(*kc, *keys),
            gkey == keys.grouping@,
            empty@.len() == 0,
            ranges_in(v@, local@),
            entries_in(v@, grouped@),
            (ScanState {
                local: pairs_view(v@, local@),
                seen_grouping,
                current: current@.map_values(|g: ClozeGrouping| g@),
                grouped: entries_view(v@, grouped@),
                local_groups: local_groups@.map_values(|g: ClozeGrouping| g@),
            }) == scan_pairs(pv.take(i as int), gkey),
        decreases pairs.len() - i,
    {
        let p = pairs[i];
        proof {
            assert(pv.take(i + 1).drop_last() =~= pv.take(i as int));
            assert(pv.take(i + 1).last() == pv[i as int]);
            assert(pv[i as int] == (v@.subrange(p.key.0 as int, p.key.1 as int), v@.subrange(p.value.0 as int, p.value.1 as int)));
        }
        if range_equals(v, p.key.0, p.key.1, &kc.grouping) {
            let gs = parse_grouping_range(v, p.value.0, p.value.1);
            copy_groupings_into(&mut local_groups, &gs);
            append_all(v, &mut grouped, &gs, &empty);
            proof {
                assert(pairs_view(v@, empty@) =~= Seq::<PairView>::empty());
            }
            current = gs;
            seen_grouping = true;
        } else if !seen_grouping {
            let ghost before = local@;
            local.push(p);
            proof {
                assert(pairs_view(v@, local@) =~= pairs_view(v@, before).push(pv[i as int]));
            }
        } else {
            let mut single: Vec<PairRanges> = Vec::new();
            single.push(p);
            append_all(v, &mut grouped, &current, &single);
            proof {
                assert(pairs_view(v@, single@) =~= seq![pv[i as int]]);
            }
        }
        i += 1;
    }
    proof {
        assert(pv.take(pairs.len() as int) =~= pv);
    }
    let ghost cur0 = *current_grouping_number;
    if local.len() > 0 {
        let lg = if local_groups.len() == 0 {
            let mut lg = Vec::new();
            lg.push(ClozeGrouping::Auto(*current_grouping_number));
            *current_grouping_number = *current_grouping_number + 1;
            proof {
                assert(lg@.map_values(|g: ClozeGrouping| g@) =~= seq![GroupingView::Auto(cur0)]);
            }
            lg
        } else {
            local_groups
        };
        let ghost before_g = grouped@;
        append_all(v, &mut grouped, &lg, &local);
        proof {
            lemma_append_all_nonempty(entries_view(v@, before_g), lg@.map_values(|g: ClozeGrouping| g@), pairs_view(v@, local@));
        }
        (grouped, lg)
    } else {
        (grouped, local_groups)
    }
}

/// Appending to at least one grouping leaves at least one entry.
proof fn lemma_append_all_nonempty(grouped: Seq<(GroupingView, Seq<PairView>)>, gs: Seq<GroupingView>, ps: Seq<PairView>)
    requires
        gs.len() > 0,
    ensures
        assoc_append_all(grouped, gs, ps).len() > 0,
{
    let prev = assoc_append_all(grouped, gs.drop_last(), ps);
    match key_index(prev, gs.last(), prev.len() as int) {
        Some(j) => {
            lemma_key_index_bound(prev, gs.last(), prev.len() as int);
        },
        None => {},
    }
}

} // verus!

verus! {

/// The settings of each grouping in `grouped`, in order, sharing the hint and overlapper
/// mark through `settings`; the first refusal stops.
fn process_groups(
    v: &Vec<char>,
    grouped: &Vec<(ClozeGrouping, Vec<PairRanges>)>,
    settings: &mut ClozeSettings,
    current_grouping_number: u32,
    data: &str,
    card_settings_indices: &Range<usize>,
    kc: &KeyChars,
    keys: &ClozeSettingsKeys,
    modify_defaults_fn: ModifyDefaultsFn,
) -> (r: Result<Vec<ClozeGroupingSettings>, LibraryError>)
    requires
        entries_in(v@, grouped@),
        key_chars_of(*kc, *keys),
        old(settings).hint is None,
        !old(settings).is_overlapper,
    ensures
        final(settings).all_groupings == old(settings).all_groupings,
        match (r, groups_fold(entries_view(v@, grouped@), *keys, None, false, modify_defaults_fn)) {
            (Ok(out), Ok(list)) => {
                &&& out.len() == list.len()
                &&& forall|i: int| 0 <= i < list.len() ==> settings_of_state(#[trigger] out@[i], list[i].1, list[i].0, modify_defaults_fn)
                &&& list.len() > 0 ==> opt_string_view(final(settings).hint) == list.last().1.hint
                    && final(settings).is_overlapper == list.last().1.is_overlapper
                &&& list.len() == 0 ==> final(settings).hint is None && !final(settings).is_overlapper
            },
            (Err(e), Err(se)) => invalid_settings(e, grouping_error_message(se), data@, *card_settings_indices),
            _ => false,
        },
{
    let ghost ev = entries_view(v@, grouped@);
    let ghost all0 = settings.all_groupings;
    let ghost mut done: Seq<(GroupingView, GroupingState)> = Seq::empty();
    let mut out: Vec<ClozeGroupingSettings> = Vec::new();
    proof {
        assert(ev.take(0) =~= Seq::<(GroupingView, Seq<PairView>)>::empty());
    }
    let mut failure: Option<LibraryError> = None;
    let mut i: usize = 0;
    while i < grouped.len() && failure.is_none()
        invariant
            0 <= i <= grouped.len(),
            ev == entries_view(v@, grouped@),
            entries_in(v@, grouped@),
            key_chars_of(*kc, *keys),
            settings.all_groupings == all0,
            failure matches Some(e) ==> groups_fold(ev, *keys, None, false, modify_defaults_fn) matches Err(se)
                && invalid_settings(e, grouping_error_message(se), data@, *card_settings_indices),
            failure is None ==> {
                &&& groups_fold(ev.take(i as int), *keys, None, false, modify_defaults_fn) == Ok::<Seq<(GroupingView, GroupingState)>, GroupingSettingsError>(done)
                &&& done.len() == i
                &&& out.len() == i
                &&& forall|j: int| 0 <= j < i ==> settings_of_state(#[trigger] out@[j], done[j].1, done[j].0, modify_defaults_fn)
                &&& i > 0 ==> opt_string_view(settings.hint) == done.last().1.hint && settings.is_overlapper == done.last().1.is_overlapper
                &&& i == 0 ==> settings.hint is None && !settings.is_overlapper
            },
        decreases grouped.len() - i,
    {
        let ghost pv_i = pairs_view(v@, grouped@[i as int].1@);
        let ghost st0 = initial_state(*settings, modify_defaults_fn);
        proof {
            assert(ev.take(i + 1).drop_last() =~= ev.take(i as int));
            assert(ev.take(i + 1).last() == (grouped@[i as int].0@, pv_i));
            assert(st0 == GroupingState {
                hint: if done.len() == 0 { None } else { done.last().1.hint },
                is_overlapper: if done.len() == 0 { false } else { done.last().1.is_overlapper },
                ..initial_state(ClozeSettings { hint: None, all_groupings: false, is_overlapper: false }, modify_defaults_fn)
            });
        }
        let res = parse_grouping_settings(
            v,
            &grouped[i].1,
            settings,
            current_grouping_number,
            data,
            card_settings_indices,
            kc,
            keys,
            modify_defaults_fn,
        );
        match res {
            Ok(g) => {
                let mut g = g;
                g.grouping = copy_grouping(&grouped[i].0);
                let ghost st = grouping_result(pv_i, *keys, st0)->Ok_0;
                out.push(g);
                proof {
                    done = done.push((grouped@[i as int].0@, st));
                }
            },
            Err(e) => {
                proof {
                    lemma_groups_error_persists(ev, *keys, None, false, modify_defaults_fn, i + 1);
                    assert(ev.take(grouped.len() as int) =~= ev);
                }
                failure = Some(e);
            },
        }
        i += 1;
    }
    match failure {
        Some(e) => Err(e),
        None => {
            proof {
                assert(ev.take(grouped.len() as int) =~= ev);
            }
            Ok(out)
        },
    }
}

/// What reading the settings string at byte range `at` of `data` gives, starting from the
/// automatic grouping number `cur` and leaving it at `next`: a settings string that is not
/// made of `key: value` pairs is refused, as is a grouping refused by its settings;
/// otherwise the cloze settings and the settings of each grouping.
pub open spec fn card_settings_outcome(
    data: Seq<char>,
    at: Range<usize>,
    cur: u32,
    next: u32,
    nk: NoteSettingsKeys,
    ck: ClozeSettingsKeys,
    modify: ModifyDefaultsFn,
    r: Result<(ClozeSettings, Vec<ClozeGroupingSettings>), LibraryError>,
) -> bool {
    exists|lo: int, hi: int|
        0 <= lo <= hi <= data.len() && byte_offset(data, lo) == at.start
            && byte_offset(data, hi) == at.end && {
            let ps = settings_pairs(data.subrange(lo, hi), nk.settings_delim@, nk.settings_key_value_delim@);
            if !all_pairs(ps) {
                &&& r is Err
                &&& invalid_settings(r->Err_0, not_a_pair_message(), data, at)
                &&& next == cur
            } else {
                let pv = unwrap_pairs(ps);
                match spec_card_settings_error(pv, cur, ck, modify) {
                    Some(e) => {
                        &&& r is Err
                        &&& invalid_settings(r->Err_0, grouping_error_message(e), data, at)
                        &&& next == final_groups(pv, ck.grouping@, cur).2
                    },
                    None => r matches Ok(res) && spec_card_settings_ok(res, next, pv, cur, ck, modify),
                }
            }
        }
}

proof fn lemma_groups_fold_len(
    groups: Seq<(GroupingView, Seq<PairView>)>,
    k: ClozeSettingsKeys,
    hint: Option<Seq<char>>,
    is_overlapper: bool,
    modify: ModifyDefaultsFn,
)
    ensures
        groups_fold(groups, k, hint, is_overlapper, modify) matches Ok(list) ==> list.len() == groups.len(),
    decreases groups.len(),
{
    if groups.len() > 0 {
        lemma_groups_fold_len(groups.drop_last(), k, hint, is_overlapper, modify);
    }
}

/// Reading the settings of one cloze moves the automatic grouping number on by at most one.
pub proof fn lemma_outcome_next(
    data: Seq<char>,
    at: Range<usize>,
    cur: u32,
    next: u32,
    nk: NoteSettingsKeys,
    ck: ClozeSettingsKeys,
    modify: ModifyDefaultsFn,
    r: Result<(ClozeSettings, Vec<ClozeGroupingSettings>), LibraryError>,
)
    requires
        cur < u32::MAX,
        card_settings_outcome(data, at, cur, next, nk, ck, modify, r),
        r is Ok,
    ensures
        cur <= next <= cur + 1,
{
    let (lo, hi) = choose|lo: int, hi: int|
        0 <= lo <= hi <= data.len() && byte_offset(data, lo) == at.start && byte_offset(data, hi) == at.end
            && {
            let ps = settings_pairs(data.subrange(lo, hi), nk.settings_delim@, nk.settings_key_value_delim@);
            if !all_pairs(ps) {
                &&& r is Err
                &&& invalid_settings(r->Err_0, not_a_pair_message(), data, at)
                &&& next == cur
            } else {
                let pv = unwrap_pairs(ps);
                match spec_card_settings_error(pv, cur, ck, modify) {
                    Some(e) => {
                        &&& r is Err
                        &&& invalid_settings(r->Err_0, grouping_error_message(e), data, at)
                        &&& next == final_groups(pv, ck.grouping@, cur).2
                    },
                    None => r matches Ok(res) && spec_card_settings_ok(res, next, pv, cur, ck, modify),
                }
            }
        };
    let ps = settings_pairs(data.subrange(lo, hi), nk.settings_delim@, nk.settings_key_value_delim@);
    let pv = unwrap_pairs(ps);
    let st = scan_pairs(pv, ck.grouping@);
    let (groups, lg, fnext) = final_groups(pv, ck.grouping@, cur);
    lemma_groups_fold_len(groups, ck, None, false, modify);
    if st.local.len() > 0 {
        let lg2 = if st.local_groups.len() == 0 {
            seq![GroupingView::Auto(cur)]
        } else {
            st.local_groups
        };
        lemma_append_all_nonempty(st.grouped, lg2, st.local);
    }
}

/// The cloze settings and the settings of each grouping of a cloze, from its settings
/// string at byte range `card_settings_indices` of `data`.
///
/// The pairs before the first grouping key go to every grouping the cloze names, or to a
/// new automatic grouping when it names none; each pair after a grouping key goes to the
/// groupings of that key. Groupings come in order of first mention. A cloze without any
/// grouping gets the default settings of a new automatic grouping.
pub fn parse_card_settings(
    data: &str,
    card_settings_indices: &Range<usize>,
    current_grouping_number: &mut u32,
    note_settings_keys: &NoteSettingsKeys,
    cloze_settings_keys: &ClozeSettingsKeys,
    modify_defaults_fn: ModifyDefaultsFn,
) -> (r: Result<(ClozeSettings, Vec<ClozeGroupingSettings>), LibraryError>)
    requires
        card_settings_indices.start <= card_settings_indices.end,
        is_char_start(data@, card_settings_indices.start as int),
        is_char_start(data@, card_settings_indices.end as int),
        note_settings_keys.settings_delim@.len() > 0,
        *old(current_grouping_number) < u32::MAX,
    ensures
        card_settings_outcome(
            data@,
            *card_settings_indices,
            *old(current_grouping_number),
            *final(current_grouping_number),
            *note_settings_keys,
            *cloze_settings_keys,
            modify_defaults_fn,
            r,
        ),
{
    let v = str_chars(data);
    let delim = str_chars(note_settings_keys.settings_delim);
    let kv = str_chars(note_settings_keys.settings_key_value_delim);
    let lo = char_index_of_byte(&v, card_settings_indices.start);
    let hi = char_index_of_byte(&v, card_settings_indices.end);
    let (lo, hi) = match (lo, hi) {
        (Some(lo), Some(hi)) => (lo, hi),
        _ => {
            proof {
                assert(false);
            }
            (0, 0)
        },
    };
    proof {
        if lo > hi {
            lemma_byte_offset_monotonic(v@, hi as int, lo as int);
        }
    }
    let ghost ps = settings_pairs(v@.subrange(lo as int, hi as int), delim@, kv@);
    let ranges = settings_pair_ranges(&v, lo, hi, &delim, &kv);
    let pairs = match collect_pairs(&v, &ranges, Ghost(ps)) {
        Some(pairs) => pairs,
        None => {
            let e = LibraryError::Card(
                CardErrorKind::InvalidSettings {
                    description: String::from_str("Found 1 parts when processing settings. Expected 2 parts."),
                    src: String::from_str(data),
                    at: card_settings_indices.start..card_settings_indices.end,
                },
            );
            proof {
                reveal_strlit("Found 1 parts when processing settings. Expected 2 parts.");
            }
            return Err(e);
        },
    };
    let ghost pv = pairs_view(v@, pairs@);
    let ghost cur0 = *current_grouping_number;
    let kc = key_chars(cloze_settings_keys);
    let (grouped, lg) = gather_groups(&v, &pairs, &kc, cloze_settings_keys, current_grouping_number);
    let mut settings = ClozeSettings { hint: None, all_groupings: false, is_overlapper: false };
    let mut k: usize = 0;
    while k < lg.len()
        invariant
            0 <= k <= lg.len(),
            settings.hint is None,
            !settings.is_overlapper,
            settings.all_groupings == lg@.map_values(|g: ClozeGrouping| g@).take(k as int).contains(GroupingView::All),
        decreases lg.len() - k,
    {
        let ghost lgv = lg@.map_values(|g: ClozeGrouping| g@);
        proof {
            assert(lgv.take(k + 1) =~= lgv.take(k as int).push(lgv[k as int]));
        }
        if grouping_eq(&lg[k], &ClozeGrouping::All) {
            settings.all_groupings = true;
            proof {
                assert(lgv.take(k + 1)[k as int] == GroupingView::All);
            }
        }
        k += 1;
    }
    proof {
        let lgv = lg@.map_values(|g: ClozeGrouping| g@);
        assert(lgv.take(lg.len() as int) =~= lgv);
    }
    let mut list = match process_groups(
        &v,
        &grouped,
        &mut settings,
        *current_grouping_number,
        data,
        card_settings_indices,
        &kc,
        cloze_settings_keys,
        modify_defaults_fn,
    ) {
        Ok(list) => list,
        Err(e) => {
            return Err(e);
        },
    };
    if list.len() == 0 {
        list.push(ClozeGroupingSettings::default(current_grouping_number, modify_defaults_fn));
    }
    Ok((settings, list))
}

proof fn lemma_orders_of_decimals(o: Seq<usize>)
    ensures
        orders_of_pieces(o.map_values(|n: usize| crate::text_num::decimal(n as nat))) == Ok::<
            Seq<usize>,
            (Seq<char>, ParseIntErrorKind),
        >(o),
    decreases o.len(),
{
    let xs = o.map_values(|n: usize| crate::text_num::decimal(n as nat));
    if o.len() > 0 {
        lemma_orders_of_decimals(o.drop_last());
        assert(xs.drop_last() =~= o.drop_last().map_values(|n: usize| crate::text_num::decimal(n as nat)));
        let n = o.last();
        let d = crate::text_num::decimal(n as nat);
        assert(xs.last() == d);
        crate::text_num::lemma_decimal_digits(n as nat);
        crate::text_num::lemma_decimal_read_back(n as nat);
        assert(trim(d) == d) by {
            assert(!crate::text::is_whitespace_char(d[0]));
            assert(crate::text::trim_start(d) == d);
            assert(!crate::text::is_whitespace_char(d.last()));
        }
        assert(o.drop_last().push(n) =~= o);
        assert(orders_of_pieces(xs.drop_last()) == Ok::<Seq<usize>, (Seq<char>, ParseIntErrorKind)>(o.drop_last()));
        assert(parse_usize_spec(trim(xs.last())) == Ok::<nat, ParseIntErrorKind>(n as nat));
    } else {
        assert(xs =~= Seq::<Seq<char>>::empty());
        assert(o =~= Seq::<usize>::empty());
    }
}

/// Orders written back are read back: the orders of a card, written as numbers separated by
/// commas, are read back as the same orders, when there is at least one.
pub proof fn lemma_orders_read_back(o: Seq<usize>)
    requires
        o.len() > 0,
    ensures
        spec_parse_orders(crate::clozes::construct::orders_text(o)) == Ok::<
            Seq<usize>,
            (Seq<char>, ParseIntErrorKind),
        >(o),
{
    let xs = o.map_values(|n: usize| crate::text_num::decimal(n as nat));
    assert forall|i: int| 0 <= i < xs.len() implies !(#[trigger] xs[i]).contains(',') by {
        crate::text_num::lemma_decimal_digits(o[i] as nat);
        if xs[i].contains(',') {
            let j = choose|j: int| 0 <= j < xs[i].len() && xs[i][j] == ',';
            assert(crate::text_num::is_digit(xs[i][j]));
        }
    }
    crate::clozes::pairs::lemma_split_join(xs, ',');
    lemma_orders_of_decimals(o);
}

} // verus!
