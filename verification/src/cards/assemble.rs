//! Turning the clozes of a note, grouped into cards, into the cards themselves: the text
//! of each card split into parts, for each of its directions.

use crate::cards::data::{CardData, ClozeHiddenReplacement, NotePart};
use crate::clozes::pairs::is_char_start;
use crate::clozes::parse::{copy_grouping, GroupingView};
use crate::clozes::{
    spec_back_type, BackReveal, BackType, ClozeData, ClozeGroupingSettings, FrontConceal,
    ReadableCardIdentifier,
};
use crate::error::{CardErrorKind, LibraryError};
use crate::image_occlusion::{ImageOcclusionClozeIndex, ImageOcclusionData};
use crate::text::{
    byte_offset, char_index_at_byte, lemma_byte_offset_full, lemma_byte_offset_monotonic,
    lemma_char_index_at_byte, str_chars, text_at, text_between, utf8_len,
};
use vstd::prelude::*;

verus! {

/// Which way a card asks: the clozes hidden (forward), or everything but the clozes
/// hidden (backward).
#[derive(Clone, Copy, Debug, PartialEq, Eq)]
pub enum Direction {
    Forward,
    Backward,
}

/// How a hidden cloze is shown, as a value.
pub enum ReplView {
    ToAnswer(Option<Seq<char>>),
    NotToAnswer,
}

pub open spec fn opt_view(o: Option<String>) -> Option<Seq<char>> {
    match o {
        Some(s) => Some(s@),
        None => None,
    }
}

pub open spec fn repl_view(r: ClozeHiddenReplacement) -> ReplView {
    match r {
        ClozeHiddenReplacement::ToAnswer { hint } => ReplView::ToAnswer(opt_view(hint)),
        ClozeHiddenReplacement::NotToAnswer => ReplView::NotToAnswer,
    }
}

pub open spec fn indices_view(ix: Seq<(usize, ClozeHiddenReplacement)>) -> Seq<(usize, ReplView)> {
    ix.map_values(|p: (usize, ClozeHiddenReplacement)| (p.0, repl_view(p.1)))
}

/// A part of a card, as a value.
pub enum PartView {
    Surrounding(Seq<char>),
    Cloze(Seq<char>, ReplView),
    Start(Seq<char>),
    End(Seq<char>),
    Image(Seq<(usize, ReplView)>, ImageOcclusionData),
}

pub open spec fn part_view(p: NotePart) -> PartView {
    match p {
        NotePart::SurroundingData(s) => PartView::Surrounding(s@),
        NotePart::ClozeData(s, r) => PartView::Cloze(s@, repl_view(r)),
        NotePart::ClozeStart(s) => PartView::Start(s@),
        NotePart::ClozeEnd(s) => PartView::End(s@),
        NotePart::ImageOcclusion { cloze_indices, data } => PartView::Image(indices_view(cloze_indices@), data),
    }
}

pub open spec fn parts_view(ps: Seq<NotePart>) -> Seq<PartView> {
    ps.map_values(|p: NotePart| part_view(p))
}

/// How a cloze hidden on a card is shown: with the hint when it is to be answered.
pub open spec fn hidden_as(hidden: bool, hint: Option<Seq<char>>) -> ReplView {
    if hidden {
        ReplView::NotToAnswer
    } else {
        ReplView::ToAnswer(hint)
    }
}

/// Text outside the clozes: shown on a forward card, hidden on a backward one.
pub open spec fn outer_part(dir: Direction, text: Seq<char>, hidden: bool, hint: Option<Seq<char>>) -> PartView {
    match dir {
        Direction::Forward => PartView::Surrounding(text),
        Direction::Backward => PartView::Cloze(text, hidden_as(hidden, hint)),
    }
}

/// Text inside a cloze: hidden on a forward card, shown on a backward one.
pub open spec fn inner_part(dir: Direction, text: Seq<char>, hidden: bool, hint: Option<Seq<char>>) -> PartView {
    match dir {
        Direction::Forward => PartView::Cloze(text, hidden_as(hidden, hint)),
        Direction::Backward => PartView::Surrounding(text),
    }
}

/// A cloze of a card with the settings of the card's grouping.
pub type ClozeItem = (ClozeData, ClozeGroupingSettings);

/// The text before the first cloze, if any.
pub open spec fn before_piece(d: Seq<char>, clozes: Seq<ClozeItem>, i: int, dir: Direction, hint: Option<Seq<char>>) -> Seq<
    PartView,
> {
    let c = clozes[i].0;
    if i == 0 && c.start_delim.start > 0 {
        seq![outer_part(dir, text_between(d, 0, c.start_delim.start as int), clozes[i].1.hidden_no_answer, hint)]
    } else {
        Seq::empty()
    }
}

/// The cloze itself: its image, or its delimiters around its text.
pub open spec fn middle_piece(d: Seq<char>, clozes: Seq<ClozeItem>, i: int, dir: Direction, hint: Option<Seq<char>>) -> Seq<
    PartView,
> {
    let c = clozes[i].0;
    match c.image_occlusion {
        Some(io) => match io.index {
            ImageOcclusionClozeIndex::MultipleIndices(ix) => seq![PartView::Image(indices_view(ix@), io.data)],
            ImageOcclusionClozeIndex::OriginalIndex(_) => Seq::empty(),
        },
        None => seq![
            PartView::Start(text_between(d, c.start_delim.start as int, c.start_delim.end as int)),
            inner_part(
                dir,
                text_between(d, c.start_delim.end as int, c.end_delim.start as int),
                clozes[i].1.hidden_no_answer,
                hint,
            ),
            PartView::End(text_between(d, c.end_delim.start as int, c.end_delim.end as int)),
        ],
    }
}

/// Where the text after cloze `i` ends: at the next cloze, or at the end of the note.
pub open spec fn clozes_end(d: Seq<char>, clozes: Seq<ClozeItem>, i: int) -> int {
    if i == clozes.len() - 1 {
        utf8_len(d) as int
    } else {
        clozes[i + 1].0.start_delim.start as int
    }
}

/// The text after the cloze, up to the next cloze or the end, if any.
pub open spec fn after_piece(d: Seq<char>, clozes: Seq<ClozeItem>, i: int, dir: Direction, hint: Option<Seq<char>>) -> Seq<
    PartView,
> {
    let c = clozes[i].0;
    let e = clozes_end(d, clozes, i);
    if (c.end_delim.end as int) < e {
        seq![outer_part(dir, text_between(d, c.end_delim.end as int, e), clozes[i].1.hidden_no_answer, hint)]
    } else {
        Seq::empty()
    }
}

/// The parts that cloze `i` of a card adds: the text before the first cloze, the cloze
/// (its delimiters and text, or its image), and the text up to the next cloze or the end.
pub open spec fn cloze_parts(d: Seq<char>, clozes: Seq<ClozeItem>, i: int, dir: Direction, hint: Option<Seq<char>>) -> Seq<
    PartView,
> {
    before_piece(d, clozes, i, dir, hint) + middle_piece(d, clozes, i, dir, hint) + after_piece(d, clozes, i, dir, hint)
}

/// The parts of the first `n` clozes of a card.
pub open spec fn parts_upto(d: Seq<char>, clozes: Seq<ClozeItem>, n: int, dir: Direction, hint: Option<Seq<char>>) -> Seq<
    PartView,
>
    decreases n,
{
    if n <= 0 {
        Seq::empty()
    } else {
        parts_upto(d, clozes, n - 1, dir, hint) + cloze_parts(d, clozes, n - 1, dir, hint)
    }
}

/// The delimiters of a cloze lie in order at char starts of the note text `d`.
pub open spec fn well_placed(d: Seq<char>, c: ClozeData) -> bool {
    &&& c.start_delim.start <= c.start_delim.end <= c.end_delim.start <= c.end_delim.end
    &&& is_char_start(d, c.start_delim.start as int)
    &&& is_char_start(d, c.start_delim.end as int)
    &&& is_char_start(d, c.end_delim.start as int)
    &&& is_char_start(d, c.end_delim.end as int)
    &&& c.image_occlusion matches Some(io) ==> io.index is MultipleIndices
}

pub(crate) fn copy_hint(h: &Option<String>) -> (r: Option<String>)
    ensures
        r == *h,
{
    match h {
        Some(s) => Some(s.clone()),
        None => None,
    }
}

pub(crate) fn copy_replacement(r: &ClozeHiddenReplacement) -> (c: ClozeHiddenReplacement)
    ensures
        c == *r,
{
    match r {
        ClozeHiddenReplacement::ToAnswer { hint } => ClozeHiddenReplacement::ToAnswer { hint: copy_hint(hint) },
        ClozeHiddenReplacement::NotToAnswer => ClozeHiddenReplacement::NotToAnswer,
    }
}

fn copy_indices(ix: &Vec<(usize, ClozeHiddenReplacement)>) -> (r: Vec<(usize, ClozeHiddenReplacement)>)
    ensures
        r@ == ix@,
{
    let mut r: Vec<(usize, ClozeHiddenReplacement)> = Vec::new();
    let mut i: usize = 0;
    while i < ix.len()
        invariant
            0 <= i <= ix.len(),
            r@ == ix@.take(i as int),
        decreases ix.len() - i,
    {
        let e = (ix[i].0, copy_replacement(&ix[i].1));
        r.push(e);
        proof {
            assert(ix@.take(i + 1) =~= ix@.take(i as int).push(ix@[i as int]));
        }
        i += 1;
    }
    proof {
        assert(ix@.take(ix.len() as int) =~= ix@);
    }
    r
}

pub(crate) fn copy_image_data(d: &ImageOcclusionData) -> (r: ImageOcclusionData)
    ensures
        r == *d,
{
    ImageOcclusionData {
        original_image_filepath: d.original_image_filepath.clone(),
        clozes_filepath: d.clozes_filepath.clone(),
        front_conceal: d.front_conceal,
        back_reveal: d.back_reveal,
    }
}

fn hidden_as_exec(hidden: bool, hint: &Option<String>) -> (r: ClozeHiddenReplacement)
    ensures
        repl_view(r) == hidden_as(hidden, opt_view(*hint)),
{
    if hidden {
        ClozeHiddenReplacement::NotToAnswer
    } else {
        ClozeHiddenReplacement::ToAnswer { hint: copy_hint(hint) }
    }
}

fn outer_exec(dir: Direction, text: String, hidden: bool, hint: &Option<String>) -> (r: NotePart)
    ensures
        part_view(r) == outer_part(dir, text@, hidden, opt_view(*hint)),
{
    match dir {
        Direction::Forward => NotePart::SurroundingData(text),
        Direction::Backward => NotePart::ClozeData(text, hidden_as_exec(hidden, hint)),
    }
}

fn inner_exec(dir: Direction, text: String, hidden: bool, hint: &Option<String>) -> (r: NotePart)
    ensures
        part_view(r) == inner_part(dir, text@, hidden, opt_view(*hint)),
{
    match dir {
        Direction::Forward => NotePart::ClozeData(text, hidden_as_exec(hidden, hint)),
        Direction::Backward => NotePart::SurroundingData(text),
    }
}

fn push_view(parts: &mut Vec<NotePart>, p: NotePart)
    ensures
        parts_view(final(parts)@) == parts_view(old(parts)@).push(part_view(p)),
{
    let ghost before = parts@;
    parts.push(p);
    proof {
        assert(parts@ =~= before.push(p));
        assert(parts_view(parts@) =~= parts_view(before).push(part_view(p)));
    }
}

fn push_before(
    v: &Vec<char>,
    clozes: &Vec<ClozeItem>,
    i: usize,
    dir: Direction,
    hint: &Option<String>,
    parts: &mut Vec<NotePart>,
)
    requires
        i < clozes.len(),
        well_placed(v@, clozes@[i as int].0),
    ensures
        parts_view(final(parts)@) == parts_view(old(parts)@) + before_piece(v@, clozes@, i as int, dir, opt_view(*hint)),
{
    let c = &clozes[i].0;
    if i == 0 && c.start_delim.start > 0 {
        proof {
            lemma_zero_is_char_start(v@);
        }
        let text = text_at(v, 0, c.start_delim.start);
        push_view(parts, outer_exec(dir, text, clozes[i].1.hidden_no_answer, hint));
    } else {
        proof {
            assert(parts_view(old(parts)@) + Seq::<PartView>::empty() =~= parts_view(old(parts)@));
        }
    }
}

fn push_middle(
    v: &Vec<char>,
    clozes: &Vec<ClozeItem>,
    i: usize,
    dir: Direction,
    hint: &Option<String>,
    parts: &mut Vec<NotePart>,
)
    requires
        i < clozes.len(),
        well_placed(v@, clozes@[i as int].0),
    ensures
        parts_view(final(parts)@) == parts_view(old(parts)@) + middle_piece(v@, clozes@, i as int, dir, opt_view(*hint)),
{
    let c = &clozes[i].0;
    let ghost p0 = parts_view(parts@);
    match &c.image_occlusion {
        Some(io) => match &io.index {
            ImageOcclusionClozeIndex::MultipleIndices(ix) => {
                let p = NotePart::ImageOcclusion { cloze_indices: copy_indices(ix), data: copy_image_data(&io.data) };
                push_view(parts, p);
            },
            ImageOcclusionClozeIndex::OriginalIndex(_) => {
                proof {
                    assert(p0 + Seq::<PartView>::empty() =~= p0);
                }
            },
        },
        None => {
            let t1 = text_at(v, c.start_delim.start, c.start_delim.end);
            push_view(parts, NotePart::ClozeStart(t1));
            let t2 = text_at(v, c.start_delim.end, c.end_delim.start);
            push_view(parts, inner_exec(dir, t2, clozes[i].1.hidden_no_answer, hint));
            let t3 = text_at(v, c.end_delim.start, c.end_delim.end);
            push_view(parts, NotePart::ClozeEnd(t3));
            proof {
                assert(parts_view(parts@) =~= p0 + middle_piece(v@, clozes@, i as int, dir, opt_view(*hint)));
            }
        },
    }
}

fn push_after(
    v: &Vec<char>,
    clozes: &Vec<ClozeItem>,
    i: usize,
    dir: Direction,
    hint: &Option<String>,
    total: usize,
    parts: &mut Vec<NotePart>,
)
    requires
        i < clozes.len(),
        total == utf8_len(v@),
        well_placed(v@, clozes@[i as int].0),
        i + 1 < clozes.len() ==> well_placed(v@, clozes@[i + 1].0),
    ensures
        parts_view(final(parts)@) == parts_view(old(parts)@) + after_piece(v@, clozes@, i as int, dir, opt_view(*hint)),
{
    let c = &clozes[i].0;
    let e = if i == clozes.len() - 1 {
        total
    } else {
        clozes[i + 1].0.start_delim.start
    };
    proof {
        if i == clozes.len() - 1 {
            lemma_end_is_char_start(v@);
        }
    }
    if c.end_delim.end < e {
        let text = text_at(v, c.end_delim.end, e);
        push_view(parts, outer_exec(dir, text, clozes[i].1.hidden_no_answer, hint));
    } else {
        proof {
            assert(parts_view(old(parts)@) + Seq::<PartView>::empty() =~= parts_view(old(parts)@));
        }
    }
}

/// The parts of one card in direction `dir`.
fn card_parts(
    v: &Vec<char>,
    clozes: &Vec<ClozeItem>,
    dir: Direction,
    hint: &Option<String>,
) -> (r: Vec<NotePart>)
    requires
        utf8_len(v@) <= usize::MAX,
        forall|i: int| 0 <= i < clozes.len() ==> well_placed(v@, (#[trigger] clozes@[i]).0),
    ensures
        parts_view(r@) == parts_upto(v@, clozes@, clozes@.len() as int, dir, opt_view(*hint)),
{
    let ghost hv = opt_view(*hint);
    let total = text_len(v);
    let mut parts: Vec<NotePart> = Vec::new();
    proof {
        assert(parts_view(parts@) =~= Seq::<PartView>::empty());
    }
    let n = clozes.len();
    let mut i: usize = 0;
    while i < n
        invariant
            0 <= i <= n,
            n == clozes.len(),
            total == utf8_len(v@),
            hv == opt_view(*hint),
            forall|j: int| 0 <= j < clozes.len() ==> well_placed(v@, (#[trigger] clozes@[j]).0),
            parts_view(parts@) == parts_upto(v@, clozes@, i as int, dir, hv),
        decreases n - i,
    {
        let ghost start_view = parts_view(parts@);
        proof {
            assert(well_placed(v@, clozes@[i as int].0));
            if i + 1 < n {
                assert(well_placed(v@, clozes@[i + 1].0));
            }
        }
        push_before(v, clozes, i, dir, hint, &mut parts);
        push_middle(v, clozes, i, dir, hint, &mut parts);
        push_after(v, clozes, i, dir, hint, total, &mut parts);
        proof {
            assert(parts_view(parts@) =~= start_view + cloze_parts(v@, clozes@, i as int, dir, hv));
        }
        i += 1;
    }
    parts
}

/// The length in bytes of the text with chars `v`.
fn text_len(v: &Vec<char>) -> (r: usize)
    requires
        utf8_len(v@) <= usize::MAX,
    ensures
        r == utf8_len(v@),
{
    proof {
        crate::text::lemma_byte_offset_full(v@);
    }
    crate::text::byte_of_char_index(v, v.len())
}

proof fn lemma_zero_is_char_start(s: Seq<char>)
    ensures
        is_char_start(s, 0),
{
    assert(s.take(0) =~= Seq::<char>::empty());
    assert(crate::text::byte_offset(s, 0) == 0);
}

proof fn lemma_end_is_char_start(s: Seq<char>)
    ensures
        is_char_start(s, utf8_len(s) as int),
{
    crate::text::lemma_byte_offset_full(s);
}

/// A card as a value.
pub struct CardView {
    pub order: Option<usize>,
    pub previous_order: Option<usize>,
    pub grouping: GroupingView,
    pub is_suspended: Option<bool>,
    pub front_conceal: FrontConceal,
    pub back_reveal: BackReveal,
    pub back_emphasis: bool,
    pub back_type: BackType,
    pub inherit: Option<ReadableCardIdentifier>,
    pub parts: Seq<PartView>,
}

pub open spec fn card_view(c: CardData) -> CardView {
    CardView {
        order: c.order,
        previous_order: c.previous_order,
        grouping: c.grouping@,
        is_suspended: c.is_suspended,
        front_conceal: c.front_conceal,
        back_reveal: c.back_reveal,
        back_emphasis: c.back_emphasis,
        back_type: c.back_type,
        inherit: c.inherit,
        parts: parts_view(c.data@),
    }
}

/// Why a card was refused.
pub enum CardsError {
    /// Every cloze of the card is hidden without an answer.
    AllHidden(GroupingView),
    /// Only the grouping is concealed on the front but only the answered clozes are
    /// revealed on the back, while the note has several groupings.
    ConcealRevealConflict,
}

/// The index of the first cloze at or after `i` whose settings are written back.
pub open spec fn first_written(clozes: Seq<ClozeItem>, i: int) -> int
    decreases clozes.len() - i,
{
    if i >= clozes.len() {
        clozes.len() as int
    } else if !clozes[i].1.skip_serialization {
        i
    } else {
        first_written(clozes, i + 1)
    }
}

/// The settings of a card: those of its first cloze whose settings are written back.
pub open spec fn card_settings(clozes: Seq<ClozeItem>) -> ClozeGroupingSettings {
    clozes[first_written(clozes, 0)].1
}

/// The directions of a card: forward first.
pub open spec fn directions(s: ClozeGroupingSettings) -> Seq<Direction> {
    (if s.include_forward_card {
        seq![Direction::Forward]
    } else {
        Seq::empty()
    }) + (if s.include_backward_card {
        seq![Direction::Backward]
    } else {
        Seq::empty()
    })
}

pub open spec fn has_cloze(parts: Seq<PartView>) -> bool {
    exists|i: int| 0 <= i < parts.len() && (#[trigger] parts[i]) is Cloze
}

pub open spec fn nothing_to_answer(parts: Seq<PartView>) -> bool {
    forall|i: int|
        0 <= i < parts.len() ==> match #[trigger] parts[i] {
            PartView::Cloze(_, r) => r is NotToAnswer,
            PartView::Image(ix, _) => forall|j: int| 0 <= j < ix.len() ==> (#[trigger] ix[j]).1 is NotToAnswer,
            _ => true,
        }
}

/// The refusal, if any, of a card with the given parts and settings.
pub open spec fn card_error(parts: Seq<PartView>, s: ClozeGroupingSettings, groupings_count: int) -> Option<CardsError> {
    if has_cloze(parts) && nothing_to_answer(parts) {
        Some(CardsError::AllHidden(s.grouping@))
    } else if s.front_conceal == FrontConceal::OnlyGrouping && s.back_reveal == BackReveal::OnlyAnswered
        && groupings_count > 1 {
        Some(CardsError::ConcealRevealConflict)
    } else {
        None
    }
}

pub open spec fn nth_order(o: Option<Seq<usize>>, k: int) -> Option<usize> {
    match o {
        Some(v) => if k < v.len() {
            Some(v[k])
        } else {
            None
        },
        None => None,
    }
}

pub open spec fn orders_view(o: Option<Vec<usize>>) -> Option<Seq<usize>> {
    match o {
        Some(v) => Some(v@),
        None => None,
    }
}

/// The `k`-th card made from `clozes`, in direction `dir`; `old` are the orders its
/// grouping had before the note was edited.
pub open spec fn card_in_direction(
    d: Seq<char>,
    clozes: Seq<ClozeItem>,
    k: int,
    dir: Direction,
    old: Option<Seq<usize>>,
    groupings_count: int,
) -> Result<CardView, CardsError> {
    let s = card_settings(clozes);
    let parts = parts_upto(d, clozes, clozes.len() as int, dir, opt_view(clozes[0].0.settings.hint));
    match card_error(parts, s, groupings_count) {
        Some(e) => Err(e),
        None => Ok(
            CardView {
                order: nth_order(orders_view(s.orders), k),
                previous_order: nth_order(old, k),
                grouping: s.grouping@,
                is_suspended: s.is_suspended,
                front_conceal: s.front_conceal,
                back_reveal: s.back_reveal,
                back_emphasis: s.back_emphasis,
                back_type: spec_back_type(s.back_reveal, groupings_count, s.back_emphasis),
                inherit: if k == 0 {
                    s.inherit
                } else {
                    None
                },
                parts,
            },
        ),
    }
}

/// The cards of one grouping, one per direction.
pub open spec fn grouping_cards(d: Seq<char>, clozes: Seq<ClozeItem>, old: Option<Seq<usize>>, groupings_count: int) -> Result<
    Seq<CardView>,
    CardsError,
> {
    let ds = directions(card_settings(clozes));
    if ds.len() == 0 {
        Ok(Seq::empty())
    } else {
        match card_in_direction(d, clozes, 0, ds[0], old, groupings_count) {
            Err(e) => Err(e),
            Ok(c0) => if ds.len() == 1 {
                Ok(seq![c0])
            } else {
                match card_in_direction(d, clozes, 1, ds[1], old, groupings_count) {
                    Err(e) => Err(e),
                    Ok(c1) => Ok(seq![c0, c1]),
                }
            },
        }
    }
}

pub open spec fn old_orders_of(old_orders: Seq<Option<Vec<usize>>>, i: int) -> Option<Seq<usize>> {
    if i < old_orders.len() {
        orders_view(old_orders[i])
    } else {
        None
    }
}

/// The cards of the first `n` groupings, in order; the first refusal stops.
pub open spec fn cards_upto(
    d: Seq<char>,
    groups: Seq<Vec<ClozeItem>>,
    n: int,
    old_orders: Seq<Option<Vec<usize>>>,
    groupings_count: int,
) -> Result<Seq<CardView>, CardsError>
    decreases n,
{
    if n <= 0 {
        Ok(Seq::empty())
    } else {
        match cards_upto(d, groups, n - 1, old_orders, groupings_count) {
            Err(e) => Err(e),
            Ok(done) => match grouping_cards(d, groups[n - 1]@, old_orders_of(old_orders, n - 1), groupings_count) {
                Err(e) => Err(e),
                Ok(cs) => Ok(done + cs),
            },
        }
    }
}

pub open spec fn parser_string(g: GroupingView, groupings_all: Seq<char>) -> Seq<char> {
    match g {
        GroupingView::All => groupings_all,
        GroupingView::Auto(_) => Seq::empty(),
        GroupingView::Custom(s) => s,
    }
}

pub open spec fn cards_error_message(e: CardsError, groupings_all: Seq<char>) -> Seq<char> {
    match e {
        CardsError::AllHidden(g) => "All clozes cannot be hidden. See grouping `"@ + parser_string(g, groupings_all) + "`."@,
        CardsError::ConcealRevealConflict => "If there is more than 1 grouping, then `FrontConceal::OnlyGrouping` and `BackReveal::OnlyAnswered` cannot both be set. This would mean the other groupings are visible on the front, but hidden on the back, even though they are not tested. Either change `front_conceal`, change `back_reveal`, or remove a grouping."@,
    }
}

/// A grouping of clozes that cards can be made of: it has clozes, one of them is written
/// back, its settings ask for at least one direction, and every cloze lies in the text.
pub open spec fn valid_grouping(d: Seq<char>, clozes: Seq<ClozeItem>) -> bool {
    &&& clozes.len() > 0
    &&& first_written(clozes, 0) < clozes.len()
    &&& (card_settings(clozes).include_forward_card || card_settings(clozes).include_backward_card)
    &&& forall|i: int| 0 <= i < clozes.len() ==> well_placed(d, (#[trigger] clozes[i]).0)
}

proof fn lemma_first_written_bounds(clozes: Seq<ClozeItem>, i: int)
    requires
        0 <= i,
    ensures
        i <= first_written(clozes, i) || i > clozes.len(),
        first_written(clozes, i) <= clozes.len() || i > clozes.len(),
        first_written(clozes, i) < clozes.len() ==> !clozes[first_written(clozes, i)].1.skip_serialization,
        forall|j: int| i <= j < first_written(clozes, i) ==> clozes[j].1.skip_serialization,
    decreases clozes.len() - i,
{
    if i < clozes.len() && clozes[i].1.skip_serialization {
        lemma_first_written_bounds(clozes, i + 1);
    }
}

fn find_written(clozes: &Vec<ClozeItem>) -> (r: usize)
    ensures
        r == first_written(clozes@, 0),
{
    proof {
        lemma_first_written_bounds(clozes@, 0);
    }
    let mut i: usize = 0;
    while i < clozes.len()
        invariant
            0 <= i <= clozes.len(),
            first_written(clozes@, i as int) == first_written(clozes@, 0),
        decreases clozes.len() - i,
    {
        if !clozes[i].1.skip_serialization {
            return i;
        }
        i += 1;
    }
    i
}

fn has_cloze_exec(parts: &Vec<NotePart>) -> (r: bool)
    ensures
        r == has_cloze(parts_view(parts@)),
{
    let mut i: usize = 0;
    while i < parts.len()
        invariant
            0 <= i <= parts.len(),
            forall|j: int| 0 <= j < i ==> !(#[trigger] parts_view(parts@)[j] is Cloze),
        decreases parts.len() - i,
    {
        if let NotePart::ClozeData(_, _) = &parts[i] {
            proof {
                assert(parts_view(parts@)[i as int] is Cloze);
            }
            return true;
        }
        i += 1;
    }
    false
}

fn nothing_to_answer_exec(parts: &Vec<NotePart>) -> (r: bool)
    ensures
        r == nothing_to_answer(parts_view(parts@)),
{
    let ghost pv = parts_view(parts@);
    let mut i: usize = 0;
    while i < parts.len()
        invariant
            0 <= i <= parts.len(),
            pv == parts_view(parts@),
            forall|j: int|
                0 <= j < i ==> match #[trigger] pv[j] {
                    PartView::Cloze(_, r) => r is NotToAnswer,
                    PartView::Image(ix, _) => forall|t: int| 0 <= t < ix.len() ==> (#[trigger] ix[t]).1 is NotToAnswer,
                    _ => true,
                },
        decreases parts.len() - i,
    {
        match &parts[i] {
            NotePart::ClozeData(_, ClozeHiddenReplacement::ToAnswer { .. }) => {
                proof {
                    assert(pv[i as int] == part_view(parts@[i as int]));
                    match pv[i as int] {
                        PartView::Cloze(_, r) => assert(r is ToAnswer),
                        _ => assert(false),
                    }
                }
                return false;
            },
            NotePart::ImageOcclusion { cloze_indices, .. } => {
                let ghost ixv = indices_view(cloze_indices@);
                proof {
                    assert(pv[i as int] == part_view(parts@[i as int]));
                }
                let mut t: usize = 0;
                while t < cloze_indices.len()
                    invariant
                        0 <= t <= cloze_indices.len(),
                        ixv == indices_view(cloze_indices@),
                        pv == parts_view(parts@),
                        0 <= i < parts.len(),
                        pv[i as int] matches PartView::Image(ix2, _) && ix2 == ixv,
                        forall|u: int| 0 <= u < t ==> (#[trigger] cloze_indices@[u]).1 is NotToAnswer,
                    decreases cloze_indices.len() - t,
                {
                    if let ClozeHiddenReplacement::ToAnswer { .. } = &cloze_indices[t].1 {
                        proof {
                            assert(ixv[t as int].1 is ToAnswer);
                        }
                        return false;
                    }
                    t += 1;
                }
                proof {
                    let ix = indices_view(cloze_indices@);
                    assert forall|u: int| 0 <= u < ix.len() implies (#[trigger] ix[u]).1 is NotToAnswer by {
                        assert(cloze_indices@[u].1 is NotToAnswer);
                    }
                }
            },
            _ => {},
        }
        i += 1;
    }
    true
}

fn nth_exec(o: &Option<Vec<usize>>, k: usize) -> (r: Option<usize>)
    ensures
        r == nth_order(orders_view(*o), k as int),
{
    match o {
        Some(v) => if k < v.len() {
            Some(v[k])
        } else {
            None
        },
        None => None,
    }
}

fn all_hidden_error(g: &crate::clozes::ClozeGrouping, groupings_all: &str) -> (r: LibraryError)
    ensures
        r matches LibraryError::Card(CardErrorKind::InvalidInput(m)) && m@ == cards_error_message(
            CardsError::AllHidden(g@),
            groupings_all@,
        ),
{
    let mut msg: Vec<char> = Vec::new();
    crate::clozes::parse::push_str(&mut msg, "All clozes cannot be hidden. See grouping `");
    let name = g.to_parser_string(groupings_all);
    crate::clozes::parse::push_str(&mut msg, name.as_str());
    crate::clozes::parse::push_str(&mut msg, "`.");
    LibraryError::Card(CardErrorKind::InvalidInput(crate::text::chars_to_string(msg.as_slice())))
}

fn conflict_error() -> (r: LibraryError)
    ensures
        r matches LibraryError::Card(CardErrorKind::InvalidInput(m)) && m@ == cards_error_message(
            CardsError::ConcealRevealConflict,
            Seq::empty(),
        ),
{
    LibraryError::Card(
        CardErrorKind::InvalidInput(
            String::from_str(
                "If there is more than 1 grouping, then `FrontConceal::OnlyGrouping` and `BackReveal::OnlyAnswered` cannot both be set. This would mean the other groupings are visible on the front, but hidden on the back, even though they are not tested. Either change `front_conceal`, change `back_reveal`, or remove a grouping.",
            ),
        ),
    )
}

/// The error of a refused card.
pub open spec fn cards_error(e: LibraryError, ce: CardsError, groupings_all: Seq<char>) -> bool {
    e matches LibraryError::Card(CardErrorKind::InvalidInput(m)) && m@ == cards_error_message(ce, groupings_all)
}

fn card_in_direction_exec(
    v: &Vec<char>,
    clozes: &Vec<ClozeItem>,
    k: usize,
    dir: Direction,
    old: &Option<Vec<usize>>,
    groupings_count: usize,
    groupings_all: &str,
) -> (r: Result<CardData, LibraryError>)
    requires
        valid_grouping(v@, clozes@),
        utf8_len(v@) <= usize::MAX,
    ensures
        match (r, card_in_direction(v@, clozes@, k as int, dir, orders_view(*old), groupings_count as int)) {
            (Ok(c), Ok(cv)) => card_view(c) == cv,
            (Err(e), Err(ce)) => cards_error(e, ce, groupings_all@),
            _ => false,
        },
{
    proof {
        lemma_first_written_bounds(clozes@, 0);
    }
    let w = find_written(clozes);
    let s = &clozes[w].1;
    let hint = &clozes[0].0.settings.hint;
    let parts = card_parts(v, clozes, dir, hint);
    if has_cloze_exec(&parts) && nothing_to_answer_exec(&parts) {
        return Err(all_hidden_error(&s.grouping, groupings_all));
    }
    let only_grouping = match s.front_conceal {
        FrontConceal::OnlyGrouping => true,
        FrontConceal::AllGroupings => false,
    };
    let only_answered = match s.back_reveal {
        BackReveal::OnlyAnswered => true,
        BackReveal::FullNote => false,
    };
    if only_grouping && only_answered && groupings_count > 1 {
        return Err(conflict_error());
    }
    let back_type = BackType::from_back_reveal(&s.back_reveal, groupings_count, s.back_emphasis);
    Ok(
        CardData {
            order: nth_exec(&s.orders, k),
            previous_order: nth_exec(old, k),
            grouping: copy_grouping(&s.grouping),
            is_suspended: s.is_suspended,
            front_conceal: s.front_conceal,
            back_reveal: s.back_reveal,
            back_emphasis: s.back_emphasis,
            back_type,
            inherit: if k == 0 {
                s.inherit
            } else {
                None
            },
            data: parts,
        },
    )
}

fn copy_orders(o: &Option<Vec<usize>>) -> (r: Option<Vec<usize>>)
    ensures
        orders_view(r) == orders_view(*o),
{
    match o {
        Some(v) => Some(v.clone()),
        None => None,
    }
}

fn grouping_cards_exec(
    v: &Vec<char>,
    clozes: &Vec<ClozeItem>,
    old: &Option<Vec<usize>>,
    groupings_count: usize,
    groupings_all: &str,
) -> (r: Result<Vec<CardData>, LibraryError>)
    requires
        valid_grouping(v@, clozes@),
        utf8_len(v@) <= usize::MAX,
    ensures
        match (r, grouping_cards(v@, clozes@, orders_view(*old), groupings_count as int)) {
            (Ok(cs), Ok(vs)) => cs@.map_values(|c: CardData| card_view(c)) == vs,
            (Err(e), Err(ce)) => cards_error(e, ce, groupings_all@),
            _ => false,
        },
{
    proof {
        lemma_first_written_bounds(clozes@, 0);
    }
    let w = find_written(clozes);
    let fwd = clozes[w].1.include_forward_card;
    let bwd = clozes[w].1.include_backward_card;
    let ghost ds = directions(card_settings(clozes@));
    proof {
        if fwd && bwd {
            assert(ds =~= seq![Direction::Forward, Direction::Backward]);
        } else if fwd {
            assert(ds =~= seq![Direction::Forward]);
        } else {
            assert(ds =~= seq![Direction::Backward]);
        }
    }
    let first_dir = if fwd {
        Direction::Forward
    } else {
        Direction::Backward
    };
    let mut cards: Vec<CardData> = Vec::new();
    let c0 = card_in_direction_exec(v, clozes, 0, first_dir, old, groupings_count, groupings_all);
    match c0 {
        Err(e) => {
            return Err(e);
        },
        Ok(c0) => {
            cards.push(c0);
        },
    }
    if fwd && bwd {
        let c1 = card_in_direction_exec(v, clozes, 1, Direction::Backward, old, groupings_count, groupings_all);
        match c1 {
            Err(e) => {
                return Err(e);
            },
            Ok(c1) => {
                cards.push(c1);
            },
        }
    }
    proof {
        assert(cards@.map_values(|c: CardData| card_view(c)) =~= grouping_cards(
            v@,
            clozes@,
            orders_view(*old),
            groupings_count as int,
        )->Ok_0);
    }
    Ok(cards)
}

fn append_cards(cards: &mut Vec<CardData>, more: Vec<CardData>)
    ensures
        final(cards)@.map_values(|c: CardData| card_view(c)) == old(cards)@.map_values(|c: CardData| card_view(c))
            + more@.map_values(|c: CardData| card_view(c)),
{
    let mut more = more;
    let ghost a = cards@;
    let ghost b = more@;
    cards.append(&mut more);
    proof {
        assert(cards@ == a + b);
        assert((a + b).map_values(|c: CardData| card_view(c)) =~= a.map_values(|c: CardData| card_view(c)) + b.map_values(
            |c: CardData| card_view(c),
        ));
    }
}

/// The orders a grouping had before the note was edited: those of its first cloze whose
/// settings are written back, if it has one.
pub open spec fn previous_orders_of(clozes: Seq<ClozeItem>) -> Option<Seq<usize>> {
    let k = first_written(clozes, 0);
    if k < clozes.len() {
        orders_view(clozes[k].1.orders)
    } else {
        None
    }
}

/// The orders each grouping had before the note was edited, read before the settings of
/// the groupings are changed.
pub fn previous_orders(groups: &Vec<Vec<ClozeItem>>) -> (r: Vec<Option<Vec<usize>>>)
    ensures
        r.len() == groups.len(),
        forall|i: int| 0 <= i < groups.len() ==> orders_view(#[trigger] r@[i]) == previous_orders_of(groups@[i]@),
{
    let mut out: Vec<Option<Vec<usize>>> = Vec::new();
    let mut i: usize = 0;
    while i < groups.len()
        invariant
            0 <= i <= groups.len(),
            out.len() == i,
            forall|j: int| 0 <= j < i ==> orders_view(#[trigger] out@[j]) == previous_orders_of(groups@[j]@),
        decreases groups.len() - i,
    {
        let clozes = &groups[i];
        let k = find_written(clozes);
        proof {
            lemma_first_written_bounds(clozes@, 0);
        }
        if k < clozes.len() {
            out.push(copy_orders(&clozes[k].1.orders));
        } else {
            out.push(None);
        }
        i += 1;
    }
    out
}

/// The cards made of groupings of clozes, in order, one per direction of each grouping
/// (forward first). `data` is the text of the note, `groupings_count` the number of
/// groupings of the note, `old_orders` the orders each grouping had before the note was
/// edited, and `groupings_all` how the grouping of all cards is written.
///
/// A card whose clozes are all hidden without an answer is refused, and so is a card that
/// conceals only its grouping on the front and reveals only the answered clozes on the
/// back while the note has more than one grouping; the first refused card gives the error.
pub fn cards_from_groups(
    data: &str,
    groups: &Vec<Vec<ClozeItem>>,
    groupings_count: usize,
    old_orders: &Vec<Option<Vec<usize>>>,
    groupings_all: &str,
) -> (r: Result<Vec<CardData>, LibraryError>)
    requires
        forall|i: int| 0 <= i < groups.len() ==> valid_grouping(data@, (#[trigger] groups@[i])@),
    ensures
        match (r, cards_upto(data@, groups@, groups@.len() as int, old_orders@, groupings_count as int)) {
            (Ok(cs), Ok(vs)) => cs@.map_values(|c: CardData| card_view(c)) == vs,
            (Err(e), Err(ce)) => cards_error(e, ce, groupings_all@),
            _ => false,
        },
{
    let v = str_chars(data);
    let mut cards: Vec<CardData> = Vec::new();
    let mut i: usize = 0;
    proof {
        assert(cards@.map_values(|c: CardData| card_view(c)) =~= Seq::<CardView>::empty());
    }
    while i < groups.len()
        invariant
            0 <= i <= groups.len(),
            v@ == data@,
            utf8_len(v@) <= usize::MAX,
            forall|j: int| 0 <= j < groups.len() ==> valid_grouping(data@, (#[trigger] groups@[j])@),
            cards_upto(data@, groups@, i as int, old_orders@, groupings_count as int) == Ok::<Seq<CardView>, CardsError>(
                cards@.map_values(|c: CardData| card_view(c)),
            ),
        decreases groups.len() - i,
    {
        proof {
            assert(valid_grouping(data@, groups@[i as int]@));
        }
        let old = if i < old_orders.len() {
            copy_orders(&old_orders[i])
        } else {
            None
        };
        match grouping_cards_exec(&v, &groups[i], &old, groupings_count, groupings_all) {
            Err(e) => {
                proof {
                    lemma_cards_error_persists(data@, groups@, old_orders@, groupings_count as int, i as int + 1);
                }
                return Err(e);
            },
            Ok(more) => {
                append_cards(&mut cards, more);
            },
        }
        i += 1;
    }
    Ok(cards)
}

proof fn lemma_cards_error_persists(
    d: Seq<char>,
    groups: Seq<Vec<ClozeItem>>,
    old_orders: Seq<Option<Vec<usize>>>,
    gc: int,
    n: int,
)
    requires
        0 <= n <= groups.len(),
        cards_upto(d, groups, n, old_orders, gc) is Err,
    ensures
        cards_upto(d, groups, groups.len() as int, old_orders, gc) == cards_upto(d, groups, n, old_orders, gc),
    decreases groups.len() - n,
{
    if n < groups.len() {
        lemma_cards_error_persists(d, groups, old_orders, gc, n + 1);
    }
}

/// The text a part shows or hides; an image has none.
pub open spec fn part_text(p: PartView) -> Seq<char> {
    match p {
        PartView::Surrounding(t) => t,
        PartView::Cloze(t, _) => t,
        PartView::Start(t) => t,
        PartView::End(t) => t,
        PartView::Image(..) => Seq::empty(),
    }
}

/// The texts of the parts, put together in order.
pub open spec fn parts_text(ps: Seq<PartView>) -> Seq<char>
    decreases ps.len(),
{
    if ps.len() == 0 {
        Seq::empty()
    } else {
        parts_text(ps.drop_last()) + part_text(ps.last())
    }
}

proof fn lemma_parts_text_concat(a: Seq<PartView>, b: Seq<PartView>)
    ensures
        parts_text(a + b) == parts_text(a) + parts_text(b),
    decreases b.len(),
{
    if b.len() == 0 {
        assert(a + b =~= a);
        assert(parts_text(a) + Seq::<char>::empty() =~= parts_text(a));
    } else {
        lemma_parts_text_concat(a, b.drop_last());
        assert((a + b).drop_last() =~= a + b.drop_last());
        assert((a + b).last() == b.last());
        assert(parts_text(a) + parts_text(b.drop_last()) + part_text(b.last()) =~= parts_text(a) + (parts_text(
            b.drop_last(),
        ) + part_text(b.last())));
    }
}

proof fn lemma_char_start_index(d: Seq<char>, a: int)
    requires
        is_char_start(d, a),
    ensures
        0 <= char_index_at_byte(d, a) <= d.len(),
        byte_offset(d, char_index_at_byte(d, a)) == a,
{
}

/// Texts between adjacent char starts put together give the text they span.
proof fn lemma_text_between_join(d: Seq<char>, a: int, b: int, c: int)
    requires
        is_char_start(d, a),
        is_char_start(d, b),
        is_char_start(d, c),
        a <= b <= c,
    ensures
        text_between(d, a, b) + text_between(d, b, c) == text_between(d, a, c),
{
    lemma_char_start_index(d, a);
    lemma_char_start_index(d, b);
    lemma_char_start_index(d, c);
    let (ka, kb, kc) = (char_index_at_byte(d, a), char_index_at_byte(d, b), char_index_at_byte(d, c));
    if ka > kb {
        lemma_byte_offset_monotonic(d, kb, ka);
    }
    if kb > kc {
        lemma_byte_offset_monotonic(d, kc, kb);
    }
    assert(d.subrange(ka, kb) + d.subrange(kb, kc) =~= d.subrange(ka, kc));
}

/// The clozes of a card follow one another in the text: each ends before the next begins.
pub open spec fn in_text_order(clozes: Seq<ClozeItem>) -> bool {
    forall|i: int| 0 <= i < clozes.len() - 1 ==> (#[trigger] clozes[i]).0.end_delim.end <= clozes[i + 1].0.start_delim.start
}

/// The clozes of a card are text clozes, placed in the text in order.
pub open spec fn text_clozes_in_order(d: Seq<char>, clozes: Seq<ClozeItem>) -> bool {
    &&& in_text_order(clozes)
    &&& forall|i: int|
        0 <= i < clozes.len() ==> well_placed(d, (#[trigger] clozes[i]).0) && clozes[i].0.image_occlusion is None
}

proof fn lemma_cloze_end_is_char_start(d: Seq<char>, clozes: Seq<ClozeItem>, i: int)
    requires
        0 <= i < clozes.len(),
        text_clozes_in_order(d, clozes),
    ensures
        is_char_start(d, clozes_end(d, clozes, i)),
        clozes[i].0.end_delim.end <= clozes_end(d, clozes, i),
{
    if i == clozes.len() - 1 {
        lemma_byte_offset_full(d);
        assert(is_char_start(d, utf8_len(d) as int));
        assert(well_placed(d, clozes[i].0));
        let k = choose|k: int| 0 <= k <= d.len() && byte_offset(d, k) == clozes[i].0.end_delim.end;
        lemma_byte_offset_monotonic(d, k, d.len() as int);
    } else {
        assert(clozes[i].0.end_delim.end <= clozes[i + 1].0.start_delim.start);
        assert(well_placed(d, clozes[i + 1].0));
    }
}

proof fn lemma_one_part_text(p: PartView)
    ensures
        parts_text(seq![p]) == part_text(p),
{
    assert(seq![p].drop_last() =~= Seq::<PartView>::empty());
    assert(parts_text(Seq::<PartView>::empty()) == Seq::<char>::empty());
    assert(parts_text(seq![p]) == parts_text(seq![p].drop_last()) + part_text(seq![p].last()));
    assert(Seq::<char>::empty() + part_text(p) =~= part_text(p));
}

proof fn lemma_three_parts_text(p: PartView, q: PartView, r: PartView)
    ensures
        parts_text(seq![p, q, r]) == part_text(p) + part_text(q) + part_text(r),
{
    lemma_one_part_text(p);
    assert(seq![p, q, r].drop_last() =~= seq![p, q]);
    assert(seq![p, q].drop_last() =~= seq![p]);
    assert(parts_text(seq![p, q]) == parts_text(seq![p]) + part_text(q));
    assert(parts_text(seq![p, q, r]) == parts_text(seq![p, q]) + part_text(r));
}

proof fn lemma_before_piece_text(d: Seq<char>, clozes: Seq<ClozeItem>, i: int, dir: Direction, hint: Option<Seq<char>>)
    requires
        0 <= i < clozes.len(),
        text_clozes_in_order(d, clozes),
    ensures
        parts_text(before_piece(d, clozes, i, dir, hint)) == text_between(
            d,
            if i == 0 {
                0
            } else {
                clozes[i].0.start_delim.start as int
            },
            clozes[i].0.start_delim.start as int,
        ),
{
    let c = clozes[i].0;
    if i == 0 && c.start_delim.start > 0 {
        lemma_one_part_text(
            outer_part(dir, text_between(d, 0, c.start_delim.start as int), clozes[i].1.hidden_no_answer, hint),
        );
    } else {
        assert(well_placed(d, c));
        lemma_char_start_index(d, c.start_delim.start as int);
        assert(text_between(d, c.start_delim.start as int, c.start_delim.start as int) =~= Seq::<char>::empty());
    }
}

proof fn lemma_middle_piece_text(d: Seq<char>, clozes: Seq<ClozeItem>, i: int, dir: Direction, hint: Option<Seq<char>>)
    requires
        0 <= i < clozes.len(),
        text_clozes_in_order(d, clozes),
    ensures
        parts_text(middle_piece(d, clozes, i, dir, hint)) == text_between(
            d,
            clozes[i].0.start_delim.start as int,
            clozes[i].0.end_delim.end as int,
        ),
{
    let c = clozes[i].0;
    assert(well_placed(d, c));
    let (s0, s1, e0, e1) = (
        c.start_delim.start as int,
        c.start_delim.end as int,
        c.end_delim.start as int,
        c.end_delim.end as int,
    );
    lemma_three_parts_text(
        PartView::Start(text_between(d, s0, s1)),
        inner_part(dir, text_between(d, s1, e0), clozes[i].1.hidden_no_answer, hint),
        PartView::End(text_between(d, e0, e1)),
    );
    lemma_text_between_join(d, s0, s1, e0);
    lemma_text_between_join(d, s0, e0, e1);
}

proof fn lemma_after_piece_text(d: Seq<char>, clozes: Seq<ClozeItem>, i: int, dir: Direction, hint: Option<Seq<char>>)
    requires
        0 <= i < clozes.len(),
        text_clozes_in_order(d, clozes),
    ensures
        parts_text(after_piece(d, clozes, i, dir, hint)) == text_between(
            d,
            clozes[i].0.end_delim.end as int,
            clozes_end(d, clozes, i),
        ),
{
    let c = clozes[i].0;
    lemma_cloze_end_is_char_start(d, clozes, i);
    let e = clozes_end(d, clozes, i);
    if (c.end_delim.end as int) < e {
        lemma_one_part_text(
            outer_part(dir, text_between(d, c.end_delim.end as int, e), clozes[i].1.hidden_no_answer, hint),
        );
    } else {
        lemma_char_start_index(d, e);
        assert(text_between(d, e, e) =~= Seq::<char>::empty());
    }
}

proof fn lemma_cloze_parts_text(d: Seq<char>, clozes: Seq<ClozeItem>, i: int, dir: Direction, hint: Option<Seq<char>>)
    requires
        0 <= i < clozes.len(),
        text_clozes_in_order(d, clozes),
    ensures
        parts_text(cloze_parts(d, clozes, i, dir, hint)) == text_between(
            d,
            if i == 0 {
                0
            } else {
                clozes[i].0.start_delim.start as int
            },
            clozes_end(d, clozes, i),
        ),
{
    let c = clozes[i].0;
    assert(well_placed(d, c));
    lemma_cloze_end_is_char_start(d, clozes, i);
    let e = clozes_end(d, clozes, i);
    let from = if i == 0 {
        0
    } else {
        c.start_delim.start as int
    };
    assert(byte_offset(d, 0) == 0) by {
        assert(d.take(0) =~= Seq::<char>::empty());
    }
    assert(is_char_start(d, 0));
    let before = before_piece(d, clozes, i, dir, hint);
    let middle = middle_piece(d, clozes, i, dir, hint);
    let after = after_piece(d, clozes, i, dir, hint);
    lemma_parts_text_concat(before, middle);
    lemma_parts_text_concat(before + middle, after);
    lemma_before_piece_text(d, clozes, i, dir, hint);
    lemma_middle_piece_text(d, clozes, i, dir, hint);
    lemma_after_piece_text(d, clozes, i, dir, hint);
    lemma_text_between_join(d, from, c.start_delim.start as int, c.end_delim.end as int);
    lemma_text_between_join(d, from, c.end_delim.end as int, e);
}

proof fn lemma_parts_upto_text(d: Seq<char>, clozes: Seq<ClozeItem>, n: int, dir: Direction, hint: Option<Seq<char>>)
    requires
        1 <= n <= clozes.len(),
        text_clozes_in_order(d, clozes),
    ensures
        parts_text(parts_upto(d, clozes, n, dir, hint)) == text_between(d, 0, clozes_end(d, clozes, n - 1)),
    decreases n,
{
    lemma_cloze_parts_text(d, clozes, n - 1, dir, hint);
    lemma_parts_text_concat(parts_upto(d, clozes, n - 1, dir, hint), cloze_parts(d, clozes, n - 1, dir, hint));
    if n == 1 {
        assert(parts_upto(d, clozes, 0, dir, hint) =~= Seq::<PartView>::empty());
        assert(Seq::<char>::empty() + parts_text(cloze_parts(d, clozes, 0, dir, hint)) =~= parts_text(
            cloze_parts(d, clozes, 0, dir, hint),
        ));
    } else {
        lemma_parts_upto_text(d, clozes, n - 1, dir, hint);
        let c = clozes[n - 1].0;
        assert(clozes_end(d, clozes, n - 2) == c.start_delim.start);
        assert(byte_offset(d, 0) == 0) by {
            assert(d.take(0) =~= Seq::<char>::empty());
        }
        assert(is_char_start(d, 0));
        assert(well_placed(d, c));
        lemma_cloze_end_is_char_start(d, clozes, n - 1);
        lemma_text_between_join(d, 0, c.start_delim.start as int, clozes_end(d, clozes, n - 1));
    }
}

/// A card made from text clozes that follow one another in the note gives back the whole
/// note when the text of its parts is put together: the card only hides or shows parts of
/// the note, in order, whatever its direction.
pub proof fn lemma_card_gives_back_the_note(
    d: Seq<char>,
    clozes: Seq<ClozeItem>,
    k: int,
    dir: Direction,
    old: Option<Seq<usize>>,
    groupings_count: int,
)
    requires
        clozes.len() > 0,
        text_clozes_in_order(d, clozes),
    ensures
        card_in_direction(d, clozes, k, dir, old, groupings_count) matches Ok(card) ==> parts_text(card.parts) == d,
{
    let hint = opt_view(clozes[0].0.settings.hint);
    lemma_parts_upto_text(d, clozes, clozes.len() as int, dir, hint);
    lemma_byte_offset_full(d);
    lemma_char_index_at_byte(d, d.len() as int);
    lemma_char_index_at_byte(d, 0);
    assert(byte_offset(d, 0) == 0) by {
        assert(d.take(0) =~= Seq::<char>::empty());
    }
    assert(d.subrange(0, d.len() as int) =~= d);
}

/// A card refused nothing: it has something to answer wherever it has a cloze.
pub open spec fn asks_something(c: CardView) -> bool {
    !(has_cloze(c.parts) && nothing_to_answer(c.parts))
}

proof fn lemma_grouping_cards_ask(d: Seq<char>, clozes: Seq<ClozeItem>, old: Option<Seq<usize>>, gc: int)
    ensures
        grouping_cards(d, clozes, old, gc) matches Ok(cs) ==> forall|i: int| 0 <= i < cs.len() ==> asks_something(#[trigger] cs[i]),
{
}

/// Cards are made only where they ask for something: every card of the groupings of a note,
/// when none is refused, has something to answer wherever it has a cloze.
pub proof fn lemma_every_card_asks_something(
    d: Seq<char>,
    groups: Seq<Vec<ClozeItem>>,
    n: int,
    old_orders: Seq<Option<Vec<usize>>>,
    groupings_count: int,
)
    requires
        0 <= n <= groups.len(),
    ensures
        cards_upto(d, groups, n, old_orders, groupings_count) matches Ok(vs) ==> forall|i: int|
            0 <= i < vs.len() ==> asks_something(#[trigger] vs[i]),
    decreases n,
{
    if n > 0 {
        lemma_every_card_asks_something(d, groups, n - 1, old_orders, groupings_count);
        lemma_grouping_cards_ask(d, groups[n - 1]@, old_orders_of(old_orders, n - 1), groupings_count);
        if let Ok(vs) = cards_upto(d, groups, n, old_orders, groupings_count) {
            let done = cards_upto(d, groups, n - 1, old_orders, groupings_count)->Ok_0;
            let cs = grouping_cards(d, groups[n - 1]@, old_orders_of(old_orders, n - 1), groupings_count)->Ok_0;
            assert(vs == done + cs);
            assert forall|i: int| 0 <= i < vs.len() implies asks_something(#[trigger] vs[i]) by {
                if i < done.len() {
                    assert(vs[i] == done[i]);
                } else {
                    assert(vs[i] == cs[i - done.len()]);
                }
            }
        }
    }
}

proof fn lemma_grouping_cards_give_back(d: Seq<char>, clozes: Seq<ClozeItem>, old: Option<Seq<usize>>, gc: int)
    requires
        clozes.len() > 0,
        text_clozes_in_order(d, clozes),
    ensures
        grouping_cards(d, clozes, old, gc) matches Ok(cs) ==> forall|i: int| 0 <= i < cs.len() ==> parts_text(#[trigger] cs[i].parts) == d,
{
    let ds = directions(card_settings(clozes));
    if ds.len() > 0 {
        lemma_card_gives_back_the_note(d, clozes, 0, ds[0], old, gc);
        if ds.len() > 1 {
            lemma_card_gives_back_the_note(d, clozes, 1, ds[1], old, gc);
        }
    }
}

/// Every card re-renders the same note: where each grouping holds text clozes that follow
/// one another in the note, the parts of every card made, put together, give the note back.
pub proof fn lemma_every_card_gives_back_the_note(
    d: Seq<char>,
    groups: Seq<Vec<ClozeItem>>,
    n: int,
    old_orders: Seq<Option<Vec<usize>>>,
    groupings_count: int,
)
    requires
        0 <= n <= groups.len(),
        forall|j: int| 0 <= j < groups.len() ==> (#[trigger] groups[j])@.len() > 0 && text_clozes_in_order(d, groups[j]@),
    ensures
        cards_upto(d, groups, n, old_orders, groupings_count) matches Ok(vs) ==> forall|i: int|
            0 <= i < vs.len() ==> parts_text(#[trigger] vs[i].parts) == d,
    decreases n,
{
    if n > 0 {
        lemma_every_card_gives_back_the_note(d, groups, n - 1, old_orders, groupings_count);
        assert(groups[n - 1]@.len() > 0 && text_clozes_in_order(d, groups[n - 1]@));
        lemma_grouping_cards_give_back(d, groups[n - 1]@, old_orders_of(old_orders, n - 1), groupings_count);
        if let Ok(vs) = cards_upto(d, groups, n, old_orders, groupings_count) {
            let done = cards_upto(d, groups, n - 1, old_orders, groupings_count)->Ok_0;
            let cs = grouping_cards(d, groups[n - 1]@, old_orders_of(old_orders, n - 1), groupings_count)->Ok_0;
            assert(vs == done + cs);
            assert forall|i: int| 0 <= i < vs.len() implies parts_text(#[trigger] vs[i].parts) == d by {
                if i < done.len() {
                    assert(vs[i] == done[i]);
                } else {
                    assert(vs[i] == cs[i - done.len()]);
                }
            }
        }
    }
}

} // verus!
