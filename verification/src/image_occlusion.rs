//! Image occlusion: clozes drawn as shapes over an image. Consecutive image occlusion
//! clozes of one image are rendered together, so they are combined into one.

use crate::cards::assemble::{copy_hint, copy_image_data};
use crate::cards::data::ClozeHiddenReplacement;
use crate::clozes::{BackReveal, ClozeData, ClozeGroupingSettings, ClozeSettings, FrontConceal};
use std::ops::Range;
use vstd::prelude::*;

verus! {

/// An image with clozes drawn over it: the image, the file with the cloze shapes, and how
/// its clozes are concealed and revealed.
#[derive(Clone, Debug, PartialEq)]
pub struct ImageOcclusionData {
    pub original_image_filepath: String,
    pub clozes_filepath: String,
    pub front_conceal: FrontConceal,
    pub back_reveal: BackReveal,
}

/// Which shapes of an image a cloze stands for.
#[derive(Clone, Debug, PartialEq)]
pub enum ImageOcclusionClozeIndex {
    /// The 0-based position of the shape in the image.
    OriginalIndex(usize),
    /// All shapes rendered in the card, each with how it is hidden.
    MultipleIndices(Vec<(usize, ClozeHiddenReplacement)>),
}

/// The image occlusion part of a cloze.
#[derive(Clone, Debug, PartialEq)]
pub struct ImageOcclusionCloze {
    pub index: ImageOcclusionClozeIndex,
    pub data: ImageOcclusionData,
}

/// A cloze with its grouping settings, as the clozes of one card are held.
pub type GroupedCloze = (ClozeData, ClozeGroupingSettings);

pub open spec fn is_image_item(x: GroupedCloze) -> bool {
    x.0.image_occlusion is Some
}

/// An image occlusion cloze that still stands for one shape.
pub open spec fn has_original_index(x: GroupedCloze) -> bool {
    x.0.image_occlusion matches Some(io) ==> io.index is OriginalIndex
}

pub open spec fn original_index(x: GroupedCloze) -> usize {
    x.0.image_occlusion->Some_0.index->OriginalIndex_0
}

/// How the shape of a cloze is hidden on the card.
pub open spec fn replacement_of(x: GroupedCloze) -> ClozeHiddenReplacement {
    if x.1.hidden_no_answer {
        ClozeHiddenReplacement::NotToAnswer
    } else {
        ClozeHiddenReplacement::ToAnswer { hint: x.0.settings.hint }
    }
}

/// The shapes of a run of image occlusion clozes, in order, each with how it is hidden.
pub open spec fn run_indices(run: Seq<GroupedCloze>) -> Seq<(usize, ClozeHiddenReplacement)> {
    run.map_values(|x: GroupedCloze| (original_index(x), replacement_of(x)))
}

/// `r` is the run of image occlusion clozes `run` combined into one: the first cloze of
/// the run, which now stands for the shapes of all of them.
pub open spec fn is_combination(r: GroupedCloze, run: Seq<GroupedCloze>) -> bool {
    let first = run[0];
    &&& r.1 == first.1
    &&& r.0.index == first.0.index
    &&& r.0.start_delim == first.0.start_delim
    &&& r.0.end_delim == first.0.end_delim
    &&& r.0.settings == first.0.settings
    &&& r.0.image_occlusion is Some
    &&& r.0.image_occlusion->Some_0.data == first.0.image_occlusion->Some_0.data
    &&& r.0.image_occlusion->Some_0.index is MultipleIndices
    &&& r.0.image_occlusion->Some_0.index->MultipleIndices_0@ == run_indices(run)
}

/// A run waiting to be combined is closed off.
pub open spec fn flush(done: Seq<Seq<GroupedCloze>>, buf: Seq<GroupedCloze>) -> Seq<Seq<GroupedCloze>> {
    if buf.len() > 0 {
        done.push(buf)
    } else {
        done
    }
}

/// One cloze read: an image occlusion cloze of the same image as the run before it
/// (the same start delimiter) joins that run, another one starts a run, and any other
/// cloze stands alone.
pub open spec fn run_step(st: (Seq<Seq<GroupedCloze>>, Seq<GroupedCloze>), x: GroupedCloze) -> (
    Seq<Seq<GroupedCloze>>,
    Seq<GroupedCloze>,
) {
    let (done, buf) = st;
    if is_image_item(x) {
        if buf.len() > 0 && buf.last().0.start_delim == x.0.start_delim {
            (done, buf.push(x))
        } else {
            (flush(done, buf), seq![x])
        }
    } else {
        (flush(done, buf).push(seq![x]), seq![])
    }
}

pub open spec fn runs_upto(s: Seq<GroupedCloze>, k: int) -> (Seq<Seq<GroupedCloze>>, Seq<GroupedCloze>)
    decreases k,
{
    if k <= 0 {
        (seq![], seq![])
    } else {
        run_step(runs_upto(s, k - 1), s[k - 1])
    }
}

/// The clozes `s` cut into the pieces that become one cloze each: the maximal runs of
/// consecutive image occlusion clozes of one image, and every other cloze alone.
pub open spec fn image_runs(s: Seq<GroupedCloze>) -> Seq<Seq<GroupedCloze>> {
    let st = runs_upto(s, s.len() as int);
    flush(st.0, st.1)
}

/// What one piece becomes: a run is combined, a lone text cloze is kept as it is.
pub open spec fn piece_result(r: GroupedCloze, piece: Seq<GroupedCloze>) -> bool {
    if is_image_item(piece[0]) {
        is_combination(r, piece)
    } else {
        r == piece[0]
    }
}

fn same_range(a: &Range<usize>, b: &Range<usize>) -> (r: bool)
    ensures
        r == (*a == *b),
{
    a.start == b.start && a.end == b.end
}

fn index_entry(x: &GroupedCloze) -> (r: (usize, ClozeHiddenReplacement))
    requires
        is_image_item(*x),
        has_original_index(*x),
    ensures
        r == (original_index(*x), replacement_of(*x)),
{
    let n: usize = match &x.0.image_occlusion {
        Some(io) => match &io.index {
            ImageOcclusionClozeIndex::OriginalIndex(n) => *n,
            ImageOcclusionClozeIndex::MultipleIndices(_) => 0,
        },
        None => 0,
    };
    let rep = if x.1.hidden_no_answer {
        ClozeHiddenReplacement::NotToAnswer
    } else {
        ClozeHiddenReplacement::ToAnswer { hint: copy_hint(&x.0.settings.hint) }
    };
    (n, rep)
}

/// Combines a run of image occlusion clozes of one image, which are rendered as one
/// image: the first cloze of the run now stands for the shapes of all of them.
pub fn combine_image_occlusions(image_occlusions: Vec<GroupedCloze>) -> (r: GroupedCloze)
    requires
        image_occlusions.len() > 0,
        forall|i: int|
            0 <= i < image_occlusions.len() ==> is_image_item(#[trigger] image_occlusions@[i])
                && has_original_index(image_occlusions@[i]),
    ensures
        is_combination(r, image_occlusions@),
{
    let ghost run = image_occlusions@;
    let mut indices: Vec<(usize, ClozeHiddenReplacement)> = Vec::new();
    let mut i: usize = 0;
    while i < image_occlusions.len()
        invariant
            0 <= i <= image_occlusions.len(),
            image_occlusions@ == run,
            forall|j: int|
                0 <= j < image_occlusions.len() ==> is_image_item(#[trigger] image_occlusions@[j])
                    && has_original_index(image_occlusions@[j]),
            indices@ == run_indices(run.take(i as int)),
        decreases image_occlusions.len() - i,
    {
        let e = index_entry(&image_occlusions[i]);
        indices.push(e);
        proof {
            assert(run_indices(run.take(i + 1)) =~= run_indices(run.take(i as int)).push(e));
        }
        i += 1;
    }
    proof {
        assert(run.take(run.len() as int) =~= run);
    }
    let mut rest = image_occlusions;
    let (first, grouping_settings) = rest.remove(0);
    let ClozeData { index, start_delim, end_delim, settings, image_occlusion } = first;
    let image_occlusion = match image_occlusion {
        Some(io) => Some(
            ImageOcclusionCloze { index: ImageOcclusionClozeIndex::MultipleIndices(indices), data: io.data },
        ),
        None => None,
    };
    (ClozeData { index, start_delim, end_delim, settings, image_occlusion }, grouping_settings)
}

/// Combines the consecutive image occlusion clozes of each image into one, since they are
/// rendered as a part of the same image; the other clozes stay as they are, in order.
pub fn combine_image_occlusion_clozes(input: &mut Vec<GroupedCloze>)
    requires
        forall|i: int| 0 <= i < old(input).len() ==> has_original_index(#[trigger] old(input)@[i]),
    ensures
        final(input).len() == image_runs(old(input)@).len(),
        forall|i: int|
            0 <= i < final(input).len() ==> piece_result(
                #[trigger] final(input)@[i],
                image_runs(old(input)@)[i],
            ),
        forall|i: int|
            0 <= i < final(input).len() && (#[trigger] final(input)@[i]).0.image_occlusion is Some
                ==> final(input)@[i].0.image_occlusion->Some_0.index is MultipleIndices,
{
    let ghost s = input@;
    let mut out: Vec<GroupedCloze> = Vec::new();
    let mut buffer: Vec<GroupedCloze> = Vec::new();
    let ghost mut k: int = 0;
    while input.len() > 0
        invariant
            0 <= k <= s.len(),
            input@ == s.skip(k),
            forall|i: int| 0 <= i < s.len() ==> has_original_index(#[trigger] s[i]),
            buffer@ == runs_upto(s, k).1,
            forall|j: int|
                0 <= j < buffer.len() ==> is_image_item(#[trigger] buffer@[j]) && has_original_index(
                    buffer@[j],
                ),
            out.len() == runs_upto(s, k).0.len(),
            forall|i: int| 0 <= i < out.len() ==> piece_result(#[trigger] out@[i], runs_upto(s, k).0[i]),
        decreases input.len(),
    {
        let item = input.remove(0);
        proof {
            assert(item == s[k]);
            assert(s.skip(k + 1) =~= s.skip(k).remove(0));
        }
        let is_image = item.0.image_occlusion.is_some();
        if is_image {
            let same = buffer.len() > 0 && same_range(&buffer[buffer.len() - 1].0.start_delim, &item.0.start_delim);
            if same {
                buffer.push(item);
            } else {
                if buffer.len() > 0 {
                    let run = buffer;
                    buffer = Vec::new();
                    let c = combine_image_occlusions(run);
                    out.push(c);
                }
                buffer.push(item);
            }
        } else {
            if buffer.len() > 0 {
                let run = buffer;
                buffer = Vec::new();
                let c = combine_image_occlusions(run);
                out.push(c);
            }
            out.push(item);
        }
        proof {
            k = k + 1;
        }
    }
    proof {
        assert(s.skip(k).len() == 0);
        assert(k == s.len());
    }
    if buffer.len() > 0 {
        let run = buffer;
        let c = combine_image_occlusions(run);
        out.push(c);
    }
    *input = out;
}

proof fn lemma_runs_cover(s: Seq<GroupedCloze>, k: int)
    requires
        0 <= k <= s.len(),
    ensures
        runs_upto(s, k).0.flatten() + runs_upto(s, k).1 == s.take(k),
        forall|i: int| 0 <= i < runs_upto(s, k).0.len() ==> (#[trigger] runs_upto(s, k).0[i]).len() > 0,
    decreases k,
{
    broadcast use Seq::lemma_flatten_push;

    if k > 0 {
        lemma_runs_cover(s, k - 1);
        let st = runs_upto(s, k - 1);
        let x = s[k - 1];
        assert(s.take(k) =~= s.take(k - 1).push(x));
        if st.1.len() > 0 {
            assert(flush(st.0, st.1).flatten() =~= st.0.flatten() + st.1);
        } else {
            assert(st.1 =~= Seq::<GroupedCloze>::empty());
            assert(st.0.flatten() + st.1 =~= st.0.flatten());
        }
        assert(flush(st.0, st.1).push(seq![x]).flatten() =~= flush(st.0, st.1).flatten() + seq![x]);
        assert((st.0.flatten() + st.1).push(x) =~= st.0.flatten() + st.1.push(x));
    } else {
        assert(s.take(0) =~= Seq::<GroupedCloze>::empty());
        assert(Seq::<Seq<GroupedCloze>>::empty().flatten() =~= Seq::<GroupedCloze>::empty());
    }
}

/// Combining loses no cloze and moves none: the pieces that the clozes are cut into are
/// never empty, and put back together they are the clozes, in their order.
pub proof fn lemma_image_runs_partition(s: Seq<GroupedCloze>)
    ensures
        image_runs(s).flatten() == s,
        forall|i: int| 0 <= i < image_runs(s).len() ==> (#[trigger] image_runs(s)[i]).len() > 0,
{
    broadcast use Seq::lemma_flatten_push;

    lemma_runs_cover(s, s.len() as int);
    let st = runs_upto(s, s.len() as int);
    assert(s.take(s.len() as int) =~= s);
    if st.1.len() > 0 {
        assert(flush(st.0, st.1).flatten() =~= st.0.flatten() + st.1);
    } else {
        assert(st.1 =~= Seq::<GroupedCloze>::empty());
        assert(st.0.flatten() + st.1 =~= st.0.flatten());
    }
}

/// How image occlusion clozes are drawn on a card.
#[derive(Clone, Debug)]
pub struct ImageOcclusionConfig {
    pub cloze_to_answer_color: String,
    pub cloze_not_to_answer_color: String,
    pub cloze_hint_font_size: u32,
}

impl Default for ImageOcclusionConfig {
    fn default() -> (r: Self)
        ensures
            r.cloze_to_answer_color@ == "#FF7E7E"@,
            r.cloze_not_to_answer_color@ == "#FFEBA2"@,
            r.cloze_hint_font_size == 16,
    {
        ImageOcclusionConfig {
            cloze_to_answer_color: String::from_str("#FF7E7E"),
            cloze_not_to_answer_color: String::from_str("#FFEBA2"),
            cloze_hint_font_size: 16,
        }
    }
}

/// One cloze of an image, as read from its cloze shapes: its settings and the settings
/// of each of its groupings.
#[derive(Clone, Debug)]
pub struct ParsedImageOcclusionCloze {
    pub settings: ClozeSettings,
    pub grouping_settings: Vec<ClozeGroupingSettings>,
}

/// An image occlusion of a note: the image, where its delimiters stand in the note, and
/// its clozes in the order in which they occur.
#[derive(Clone, Debug)]
pub struct ParsedImageOcclusionData {
    pub image_occlusion: ImageOcclusionData,
    pub start_delim: Range<usize>,
    pub end_delim: Range<usize>,
    pub clozes: Vec<ParsedImageOcclusionCloze>,
}

/// A cloze with the settings of each of its groupings, as the clozes of a note are read.
pub type ReadCloze = (ClozeData, Vec<ClozeGroupingSettings>);

/// The `i`-th cloze of the image occlusion `p`: it stands for the `i`-th shape and spans
/// the delimiters of the image occlusion. Its place among the note's clozes is set later.
pub open spec fn parsed_item(p: ParsedImageOcclusionData, i: int) -> ReadCloze {
    (
        ClozeData {
            index: 0,
            start_delim: p.start_delim,
            end_delim: p.end_delim,
            settings: p.clozes@[i].settings,
            image_occlusion: Some(
                ImageOcclusionCloze {
                    index: ImageOcclusionClozeIndex::OriginalIndex(i as usize),
                    data: p.image_occlusion,
                },
            ),
        },
        p.clozes@[i].grouping_settings,
    )
}

pub open spec fn parsed_items(p: ParsedImageOcclusionData) -> Seq<ReadCloze> {
    Seq::new(p.clozes@.len(), |i: int| parsed_item(p, i))
}

/// The clozes of all image occlusions, image after image.
pub open spec fn all_parsed_items(ps: Seq<ParsedImageOcclusionData>) -> Seq<ReadCloze> {
    ps.map_values(|p: ParsedImageOcclusionData| parsed_items(p)).flatten()
}

/// The clozes of the image occlusions of a note, image after image, each cloze of an
/// image standing for its shape.
pub fn image_occlusion_clozes(parsed: Vec<ParsedImageOcclusionData>) -> (r: Vec<ReadCloze>)
    ensures
        r@ == all_parsed_items(parsed@),
{
    broadcast use Seq::lemma_flatten_push;

    let ghost ps = parsed@;
    let mut parsed = parsed;
    let mut out: Vec<ReadCloze> = Vec::new();
    let ghost mut k: int = 0;
    while parsed.len() > 0
        invariant
            0 <= k <= ps.len(),
            parsed@ == ps.skip(k),
            out@ == all_parsed_items(ps.take(k)),
        decreases parsed.len(),
    {
        let p = parsed.remove(0);
        proof {
            assert(p == ps[k]);
            assert(ps.skip(k + 1) =~= ps.skip(k).remove(0));
        }
        let ghost pk = p;
        let ParsedImageOcclusionData { image_occlusion, start_delim, end_delim, clozes } = p;
        let mut clozes = clozes;
        let ghost base = out@;
        let mut i: usize = 0;
        while clozes.len() > 0
            invariant
                0 <= i <= pk.clozes@.len(),
                pk.clozes@.len() == pk.clozes.len(),
                clozes@ == pk.clozes@.skip(i as int),
                image_occlusion == pk.image_occlusion,
                start_delim == pk.start_delim,
                end_delim == pk.end_delim,
                out@ == base + parsed_items(pk).take(i as int),
            decreases clozes.len(),
        {
            let c = clozes.remove(0);
            proof {
                assert(c == pk.clozes@[i as int]);
                assert(pk.clozes@.skip(i + 1) =~= pk.clozes@.skip(i as int).remove(0));
            }
            let ParsedImageOcclusionCloze { settings, grouping_settings } = c;
            let item: ReadCloze = (
                ClozeData {
                    index: 0,
                    start_delim: Range { start: start_delim.start, end: start_delim.end },
                    end_delim: Range { start: end_delim.start, end: end_delim.end },
                    settings,
                    image_occlusion: Some(
                        ImageOcclusionCloze {
                            index: ImageOcclusionClozeIndex::OriginalIndex(i),
                            data: copy_image_data(&image_occlusion),
                        },
                    ),
                },
                grouping_settings,
            );
            out.push(item);
            proof {
                assert(item == parsed_item(pk, i as int));
                assert(parsed_items(pk).take(i + 1) =~= parsed_items(pk).take(i as int).push(item));
            }
            i += 1;
        }
        proof {
            assert(pk.clozes@.skip(i as int).len() == 0);
            assert(parsed_items(pk).take(i as int) =~= parsed_items(pk));
            let m = |q: ParsedImageOcclusionData| parsed_items(q);
            assert(ps.take(k + 1).map_values(m) =~= ps.take(k).map_values(m).push(parsed_items(pk)));
            ps.take(k).map_values(m).lemma_flatten_push(parsed_items(pk));
            assert(all_parsed_items(ps.take(k + 1)) == all_parsed_items(ps.take(k)) + parsed_items(pk));
            k = k + 1;
        }
    }
    proof {
        assert(ps.skip(k).len() == 0);
        assert(ps.take(k) =~= ps);
    }
    out
}

} // verus!
