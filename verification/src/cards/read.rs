//! Reading the text clozes of a note: the settings of each cloze, in the order in which
//! the clozes occur, each cloze taking the next automatic grouping number it needs.

use crate::clozes::keys::{ClozeSettingsKeys, NoteSettingsKeys};
use crate::clozes::pairs::{is_char_start, not_a_pair_message, settings_pairs};
use crate::cards::overlapper::{
    apply_overlapper_groupings, card_count, lemma_card_count_monotonic, lemma_ov_rank_at_most, ov_rank, overlapper_applied,
    OverlapperConfig,
};
use crate::clozes::parse::{
    all_pairs, card_settings_outcome, final_groups, grouping_error_message, invalid_settings, lemma_outcome_next,
    parse_card_settings, spec_card_settings_error, spec_card_settings_ok, unwrap_pairs,
};
use crate::text::byte_offset;
use crate::clozes::{default_settings_of, ClozeData, ClozeGrouping, ClozeGroupingSettings, ClozeMatch, ClozeSettings, ModifyDefaultsFn};
use crate::error::{CardErrorKind, LibraryError};
use crate::image_occlusion::{all_parsed_items, image_occlusion_clozes, ParsedImageOcclusionData, ReadCloze};
use std::ops::Range;
use vstd::prelude::*;

verus! {

/// The cloze found at `m`, with its settings: where it stands in the note is known, its
/// place among the note's clozes is set later.
pub open spec fn text_cloze_item(m: ClozeMatch, settings: ClozeSettings, gs: Vec<ClozeGroupingSettings>) -> ReadCloze {
    (
        ClozeData {
            index: 0,
            start_delim: m.start_match,
            end_delim: m.end_match,
            settings,
            image_occlusion: None,
        },
        gs,
    )
}

/// The refusal of a cloze with nothing between its delimiters.
pub open spec fn empty_cloze_error(e: LibraryError, data: Seq<char>, m: ClozeMatch) -> bool {
    e matches LibraryError::Card(CardErrorKind::EmptyCloze { src, at }) && src@ == data && at == (
    m.start_match.start..m.end_match.end)
}

/// The cloze at `m` is read as `item`, the automatic grouping number going from `cur` to
/// `next`: its settings are read and it holds some text.
pub open spec fn text_cloze_read(
    data: Seq<char>,
    m: ClozeMatch,
    cur: u32,
    next: u32,
    nk: NoteSettingsKeys,
    ck: ClozeSettingsKeys,
    modify: ModifyDefaultsFn,
    item: ReadCloze,
) -> bool {
    &&& card_settings_outcome(data, m.settings_match, cur, next, nk, ck, modify, Ok((item.0.settings, item.1)))
    &&& m.start_match.end < m.end_match.start
    &&& item == text_cloze_item(m, item.0.settings, item.1)
}

/// Reading the cloze at `m`, from the automatic grouping number `cur`, is refused with `e`,
/// the number going to `next`: its settings are refused, or it holds no text.
pub open spec fn text_cloze_fails(
    data: Seq<char>,
    m: ClozeMatch,
    cur: u32,
    next: u32,
    nk: NoteSettingsKeys,
    ck: ClozeSettingsKeys,
    modify: ModifyDefaultsFn,
    e: LibraryError,
) -> bool {
    ||| card_settings_outcome(data, m.settings_match, cur, next, nk, ck, modify, Err(e))
    ||| {
        &&& exists|res: (ClozeSettings, Vec<ClozeGroupingSettings>)|
            card_settings_outcome(data, m.settings_match, cur, next, nk, ck, modify, Ok(res))
        &&& m.start_match.end >= m.end_match.start
        &&& empty_cloze_error(e, data, m)
    }
}

/// The first `items.len()` clozes of `ms` are read as `items`, the automatic grouping
/// number going through `curs`, from `start`.
pub open spec fn clozes_read(
    data: Seq<char>,
    ms: Seq<ClozeMatch>,
    items: Seq<ReadCloze>,
    curs: Seq<u32>,
    start: u32,
    nk: NoteSettingsKeys,
    ck: ClozeSettingsKeys,
    modify: ModifyDefaultsFn,
) -> bool {
    &&& items.len() <= ms.len()
    &&& curs.len() == items.len() + 1
    &&& curs[0] == start
    &&& forall|i: int|
        0 <= i < items.len() ==> text_cloze_read(data, ms[i], curs[i], curs[i + 1], nk, ck, modify, #[trigger] items[i])
}

/// The text clozes of a note, found at `cloze_matches`, with their settings, in order.
/// Each cloze without a grouping takes the next automatic grouping number. The first cloze
/// whose settings are refused, or which holds no text, stops the reading with that refusal.
pub fn text_clozes(
    data: &str,
    cloze_matches: &Vec<ClozeMatch>,
    current_grouping_number: &mut u32,
    note_settings_keys: &NoteSettingsKeys,
    cloze_settings_keys: &ClozeSettingsKeys,
    defaults: ModifyDefaultsFn,
) -> (r: Result<Vec<ReadCloze>, LibraryError>)
    requires
        forall|i: int|
            0 <= i < cloze_matches.len() ==> {
                let sm = (#[trigger] cloze_matches@[i]).settings_match;
                &&& sm.start <= sm.end
                &&& is_char_start(data@, sm.start as int)
                &&& is_char_start(data@, sm.end as int)
            },
        note_settings_keys.settings_delim@.len() > 0,
        *old(current_grouping_number) + cloze_matches.len() < u32::MAX,
    ensures
        match r {
            Ok(items) => {
                &&& items.len() == cloze_matches.len()
                &&& exists|curs: Seq<u32>|
                    #[trigger] clozes_read(
                        data@,
                        cloze_matches@,
                        items@,
                        curs,
                        *old(current_grouping_number),
                        *note_settings_keys,
                        *cloze_settings_keys,
                        defaults,
                    ) && curs.last() == *final(current_grouping_number)
            },
            Err(e) => exists|items: Seq<ReadCloze>, curs: Seq<u32>|
                #[trigger] clozes_read(
                    data@,
                    cloze_matches@,
                    items,
                    curs,
                    *old(current_grouping_number),
                    *note_settings_keys,
                    *cloze_settings_keys,
                    defaults,
                ) && items.len() < cloze_matches.len() && text_cloze_fails(
                    data@,
                    cloze_matches@[items.len() as int],
                    curs.last(),
                    *final(current_grouping_number),
                    *note_settings_keys,
                    *cloze_settings_keys,
                    defaults,
                    e,
                ),
        },
{
    let ghost start = *current_grouping_number;
    let ghost ms = cloze_matches@;
    let ghost nk = *note_settings_keys;
    let ghost ck = *cloze_settings_keys;
    let mut out: Vec<ReadCloze> = Vec::new();
    let ghost mut curs: Seq<u32> = seq![start];
    let mut i: usize = 0;
    while i < cloze_matches.len()
        invariant
            0 <= i <= cloze_matches.len(),
            ms == cloze_matches@,
            start == *old(current_grouping_number),
            nk == *note_settings_keys,
            ck == *cloze_settings_keys,
            forall|j: int|
                0 <= j < cloze_matches.len() ==> {
                    let sm = (#[trigger] cloze_matches@[j]).settings_match;
                    &&& sm.start <= sm.end
                    &&& is_char_start(data@, sm.start as int)
                    &&& is_char_start(data@, sm.end as int)
                },
            note_settings_keys.settings_delim@.len() > 0,
            start + cloze_matches.len() < u32::MAX,
            out.len() == i,
            clozes_read(data@, ms, out@, curs, start, nk, ck, defaults),
            curs.last() == *current_grouping_number,
            *current_grouping_number <= start + i,
        decreases cloze_matches.len() - i,
    {
        let m = &cloze_matches[i];
        let ghost c0 = *current_grouping_number;
        let res = parse_card_settings(
            data,
            &m.settings_match,
            current_grouping_number,
            note_settings_keys,
            cloze_settings_keys,
            defaults,
        );
        match res {
            Err(e) => {
                proof {
                    assert(card_settings_outcome(data@, m.settings_match, c0, *current_grouping_number, nk, ck, defaults, Err(e)));
                    assert(clozes_read(data@, cloze_matches@, out@, curs, start, nk, ck, defaults));
                    assert(text_cloze_fails(data@, cloze_matches@[out@.len() as int], curs.last(), *current_grouping_number, nk, ck, defaults, e));
                }
                return Err(e);
            },
            Ok((settings, gs)) => {
                let ghost res_v = (settings, gs);
                proof {
                    lemma_outcome_next(data@, m.settings_match, c0, *current_grouping_number, nk, ck, defaults, Ok(res_v));
                }
                if m.start_match.end >= m.end_match.start {
                    let e = LibraryError::Card(
                        CardErrorKind::EmptyCloze {
                            src: data.to_string(),
                            at: Range { start: m.start_match.start, end: m.end_match.end },
                        },
                    );
                    proof {
                        assert(card_settings_outcome(data@, m.settings_match, c0, *current_grouping_number, nk, ck, defaults, Ok(res_v)));
                        assert(clozes_read(data@, cloze_matches@, out@, curs, start, nk, ck, defaults));
                        assert(text_cloze_fails(data@, cloze_matches@[out@.len() as int], curs.last(), *current_grouping_number, nk, ck, defaults, e));
                    }
                    return Err(e);
                }
                let item: ReadCloze = (
                    ClozeData {
                        index: 0,
                        start_delim: Range { start: m.start_match.start, end: m.start_match.end },
                        end_delim: Range { start: m.end_match.start, end: m.end_match.end },
                        settings,
                        image_occlusion: None,
                    },
                    gs,
                );
                let ghost old_out = out@;
                let ghost old_curs = curs;
                out.push(item);
                proof {
                    curs = curs.push(*current_grouping_number);
                    assert(text_cloze_read(data@, ms[i as int], c0, *current_grouping_number, nk, ck, defaults, item));
                    assert forall|j: int| 0 <= j < out@.len() implies text_cloze_read(
                        data@,
                        ms[j],
                        curs[j],
                        curs[j + 1],
                        nk,
                        ck,
                        defaults,
                        #[trigger] out@[j],
                    ) by {
                        if j < i {
                            assert(out@[j] == old_out[j]);
                            assert(curs[j] == old_curs[j] && curs[j + 1] == old_curs[j + 1]);
                        }
                    }
                }
            },
        }
        i += 1;
    }
    proof {
        assert(clozes_read(data@, cloze_matches@, out@, curs, start, nk, ck, defaults));
        assert(curs.last() == *current_grouping_number);
        assert(exists|c: Seq<u32>|
            #[trigger] clozes_read(data@, cloze_matches@, out@, c, start, nk, ck, defaults) && c.last()
                == *current_grouping_number);
    }
    Ok(out)
}

/// A cloze with an empty settings string takes the next automatic grouping, with the
/// default settings, and moves the number on by one.
proof fn lemma_empty_settings(
    data: Seq<char>,
    m: ClozeMatch,
    cur: u32,
    next: u32,
    nk: NoteSettingsKeys,
    ck: ClozeSettingsKeys,
    modify: ModifyDefaultsFn,
    item: ReadCloze,
)
    requires
        text_cloze_read(data, m, cur, next, nk, ck, modify, item),
        m.settings_match.start == m.settings_match.end,
    ensures
        next == cur + 1,
        item.1@ == seq![default_settings_of(ClozeGrouping::Auto(cur), modify)],
{
    let r: Result<(ClozeSettings, Vec<ClozeGroupingSettings>), LibraryError> = Ok((item.0.settings, item.1));
    let (lo, hi) = choose|lo: int, hi: int|
        0 <= lo <= hi <= data.len() && crate::text::byte_offset(data, lo) == m.settings_match.start
            && crate::text::byte_offset(data, hi) == m.settings_match.end && {
            let ps = crate::clozes::pairs::settings_pairs(
                data.subrange(lo, hi),
                nk.settings_delim@,
                nk.settings_key_value_delim@,
            );
            if !crate::clozes::parse::all_pairs(ps) {
                &&& r is Err
                &&& crate::clozes::parse::invalid_settings(
                    r->Err_0,
                    crate::clozes::pairs::not_a_pair_message(),
                    data,
                    m.settings_match,
                )
                &&& next == cur
            } else {
                let pv = crate::clozes::parse::unwrap_pairs(ps);
                match crate::clozes::parse::spec_card_settings_error(pv, cur, ck, modify) {
                    Some(e) => {
                        &&& r is Err
                        &&& crate::clozes::parse::invalid_settings(
                            r->Err_0,
                            crate::clozes::parse::grouping_error_message(e),
                            data,
                            m.settings_match,
                        )
                        &&& next == crate::clozes::parse::final_groups(pv, ck.grouping@, cur).2
                    },
                    None => r matches Ok(res) && crate::clozes::parse::spec_card_settings_ok(
                        res,
                        next,
                        pv,
                        cur,
                        ck,
                        modify,
                    ),
                }
            }
        };
    if lo < hi {
        crate::text::lemma_byte_offset_monotonic(data, lo, hi);
    }
    let empty = data.subrange(lo, hi);
    assert(empty =~= Seq::<char>::empty());
    let pieces = crate::text::split_by(empty, nk.settings_delim@);
    if nk.settings_delim@.len() > 0 {
        assert(crate::text::find_from(empty, nk.settings_delim@, 0) is None);
    }
    assert(pieces =~= seq![empty]);
    assert(pieces.drop_last() =~= Seq::<Seq<char>>::empty());
    assert(crate::clozes::pairs::nonempty_pieces(Seq::<Seq<char>>::empty()) =~= Seq::<Seq<char>>::empty());
    assert(pieces.last().len() == 0);
    assert(crate::clozes::pairs::nonempty_pieces(pieces) =~= Seq::<Seq<char>>::empty());
    let ps = crate::clozes::pairs::settings_pairs(empty, nk.settings_delim@, nk.settings_key_value_delim@);
    assert(ps =~= Seq::<Option<(Seq<char>, Seq<char>)>>::empty());
    let pv = crate::clozes::parse::unwrap_pairs(ps);
    assert(pv =~= Seq::<crate::clozes::parse::PairView>::empty());
}

/// Automatic cloze numbering: clozes with empty settings strings each take the next
/// automatic grouping, in the order in which they occur, from `start` on.
pub proof fn lemma_automatic_numbering(
    data: Seq<char>,
    ms: Seq<ClozeMatch>,
    items: Seq<ReadCloze>,
    curs: Seq<u32>,
    start: u32,
    nk: NoteSettingsKeys,
    ck: ClozeSettingsKeys,
    modify: ModifyDefaultsFn,
)
    requires
        clozes_read(data, ms, items, curs, start, nk, ck, modify),
        forall|i: int| 0 <= i < items.len() ==> (#[trigger] ms[i]).settings_match.start == ms[i].settings_match.end,
    ensures
        forall|i: int|
            0 <= i < items.len() ==> (#[trigger] items[i]).1@ == seq![
                default_settings_of(ClozeGrouping::Auto((start + i) as u32), modify),
            ],
        curs.last() == start + items.len(),
    decreases items.len(),
{
    if items.len() > 0 {
        let n = items.len() - 1;
        assert(clozes_read(data, ms, items.drop_last(), curs.drop_last(), start, nk, ck, modify)) by {
            assert forall|i: int| 0 <= i < items.drop_last().len() implies text_cloze_read(
                data,
                ms[i],
                curs.drop_last()[i],
                curs.drop_last()[i + 1],
                nk,
                ck,
                modify,
                #[trigger] items.drop_last()[i],
            ) by {
                assert(items.drop_last()[i] == items[i]);
                assert(text_cloze_read(data, ms[i], curs[i], curs[i + 1], nk, ck, modify, items[i]));
            }
        }
        lemma_automatic_numbering(data, ms, items.drop_last(), curs.drop_last(), start, nk, ck, modify);
        assert(text_cloze_read(data, ms[n], curs[n], curs[n + 1], nk, ck, modify, items[n]));
        lemma_empty_settings(data, ms[n], curs[n], curs[n + 1], nk, ck, modify, items[n]);
        assert forall|i: int| 0 <= i < items.len() implies (#[trigger] items[i]).1@ == seq![
            default_settings_of(ClozeGrouping::Auto((start + i) as u32), modify),
        ] by {
            if i < n {
                assert(items[i] == items.drop_last()[i]);
            }
        }
    }
}

/// Where a cloze is placed among the clozes of a note: by the end of its start delimiter.
pub open spec fn start_key(x: ReadCloze) -> usize {
    x.0.start_delim.end
}

/// The clozes of `a` and of `b` merged by where they start, each list keeping its order, a
/// cloze of `a` first where two start at the same place.
pub open spec fn merged_by_start(a: Seq<ReadCloze>, b: Seq<ReadCloze>) -> Seq<ReadCloze>
    decreases a.len() + b.len(),
{
    if a.len() == 0 {
        b
    } else if b.len() == 0 {
        a
    } else if start_key(b[0]) < start_key(a[0]) {
        seq![b[0]] + merged_by_start(a, b.drop_first())
    } else {
        seq![a[0]] + merged_by_start(a.drop_first(), b)
    }
}

proof fn lemma_merged_len(a: Seq<ReadCloze>, b: Seq<ReadCloze>)
    ensures
        merged_by_start(a, b).len() == a.len() + b.len(),
    decreases a.len() + b.len(),
{
    if a.len() > 0 && b.len() > 0 {
        if start_key(b[0]) < start_key(a[0]) {
            lemma_merged_len(a, b.drop_first());
        } else {
            lemma_merged_len(a.drop_first(), b);
        }
    }
}

/// The cloze `x` numbered `i`: its place among the note's clozes.
pub open spec fn renumbered(x: ReadCloze, i: int) -> ReadCloze {
    (ClozeData { index: i as usize, ..x.0 }, x.1)
}

/// The text clozes and the image occlusion clozes of a note interleaved by where they
/// start, each kind keeping its order, and numbered by their place.
pub fn interleave_clozes(text: Vec<ReadCloze>, images: Vec<ReadCloze>) -> (r: Vec<ReadCloze>)
    ensures
        r.len() == merged_by_start(text@, images@).len(),
        forall|i: int| 0 <= i < r.len() ==> #[trigger] r@[i] == renumbered(merged_by_start(text@, images@)[i], i),
{
    let ghost whole = merged_by_start(text@, images@);
    let mut a = text;
    let mut b = images;
    let mut out: Vec<ReadCloze> = Vec::new();
    let ghost mut taken: Seq<ReadCloze> = Seq::empty();
    proof {
        assert(whole =~= taken + merged_by_start(a@, b@));
    }
    while a.len() > 0 || b.len() > 0
        invariant
            whole == taken + merged_by_start(a@, b@),
            out.len() == taken.len(),
            forall|i: int| 0 <= i < out.len() ==> #[trigger] out@[i] == renumbered(taken[i], i),
        decreases a.len() + b.len(),
    {
        let ghost rest = merged_by_start(a@, b@);
        let x = if a.len() == 0 || (b.len() > 0 && b[0].0.start_delim.end < a[0].0.start_delim.end) {
            let ghost bv = b@;
            let x = b.remove(0);
            proof {
                assert(b@ =~= bv.drop_first());
                if a.len() == 0 {
                    assert(rest == bv);
                    assert(bv =~= seq![x] + b@);
                }
                assert(rest =~= seq![x] + merged_by_start(a@, b@));
            }
            x
        } else {
            let ghost av = a@;
            let x = a.remove(0);
            proof {
                assert(a@ =~= av.drop_first());
                if b.len() == 0 {
                    assert(rest == av);
                    assert(av =~= seq![x] + a@);
                }
                assert(rest =~= seq![x] + merged_by_start(a@, b@));
            }
            x
        };
        let (cd, gs) = x;
        let ClozeData { index: _, start_delim, end_delim, settings, image_occlusion } = cd;
        let n = out.len();
        out.push((ClozeData { index: n, start_delim, end_delim, settings, image_occlusion }, gs));
        proof {
            taken = taken.push(x);
            assert(whole =~= taken + merged_by_start(a@, b@));
        }
    }
    proof {
        assert(merged_by_start(a@, b@) =~= Seq::<ReadCloze>::empty());
        assert(whole =~= taken);
    }
    out
}

/// The clozes of a note, interleaved and numbered as `read_note_clozes` places them.
pub open spec fn placed_clozes(items: Seq<ReadCloze>, ios: Seq<ReadCloze>) -> Seq<ReadCloze> {
    Seq::new(merged_by_start(items, ios).len(), |i: int| renumbered(merged_by_start(items, ios)[i], i))
}

/// Reading a cloze moves the automatic grouping number on by at most two.
proof fn lemma_read_step_bound(
    data: Seq<char>,
    m: ClozeMatch,
    cur: u32,
    next: u32,
    nk: NoteSettingsKeys,
    ck: ClozeSettingsKeys,
    modify: ModifyDefaultsFn,
    item: ReadCloze,
)
    requires
        text_cloze_read(data, m, cur, next, nk, ck, modify, item),
    ensures
        next <= cur + 2,
{
    let r = Ok::<(ClozeSettings, Vec<ClozeGroupingSettings>), LibraryError>((item.0.settings, item.1));
    assert(card_settings_outcome(data, m.settings_match, cur, next, nk, ck, modify, r));
    let (lo, hi) = choose|lo: int, hi: int|
        0 <= lo <= hi <= data.len() && byte_offset(data, lo) == m.settings_match.start
            && byte_offset(data, hi) == m.settings_match.end && {
            let ps = settings_pairs(data.subrange(lo, hi), nk.settings_delim@, nk.settings_key_value_delim@);
            if !all_pairs(ps) {
                &&& r is Err
                &&& invalid_settings(r->Err_0, not_a_pair_message(), data, m.settings_match)
                &&& next == cur
            } else {
                let pv = unwrap_pairs(ps);
                match spec_card_settings_error(pv, cur, ck, modify) {
                    Some(e) => {
                        &&& r is Err
                        &&& invalid_settings(r->Err_0, grouping_error_message(e), data, m.settings_match)
                        &&& next == final_groups(pv, ck.grouping@, cur).2
                    },
                    None => r matches Ok(res) && spec_card_settings_ok(res, next, pv, cur, ck, modify),
                }
            }
        };
    let ps = settings_pairs(data.subrange(lo, hi), nk.settings_delim@, nk.settings_key_value_delim@);
    let pv = unwrap_pairs(ps);
    let g = final_groups(pv, ck.grouping@, cur);
    assert(g.2 <= cur + 1);
}

/// Reading `n` clozes moves the automatic grouping number on by at most twice `n`.
proof fn lemma_read_bound(
    data: Seq<char>,
    ms: Seq<ClozeMatch>,
    items: Seq<ReadCloze>,
    curs: Seq<u32>,
    start: u32,
    nk: NoteSettingsKeys,
    ck: ClozeSettingsKeys,
    modify: ModifyDefaultsFn,
    n: int,
)
    requires
        clozes_read(data, ms, items, curs, start, nk, ck, modify),
        0 <= n <= items.len(),
    ensures
        curs[n] <= start + 2 * n,
    decreases n,
{
    if n > 0 {
        lemma_read_bound(data, ms, items, curs, start, nk, ck, modify, n - 1);
        lemma_read_step_bound(data, ms[n - 1], curs[n - 1], curs[n], nk, ck, modify, items[n - 1]);
    }
}

/// The clozes of a note, read and placed: its text clozes, found at `cloze_matches`, read
/// with their settings as `text_clozes` reads them, interleaved with the clozes of its image
/// occlusions, whose settings were read after the text clozes', by where they start, and
/// numbered by their place. The first text cloze refused stops the reading with its error.
/// With an `overlapper`, the clozes marked as its items are then regrouped into its cards,
/// numbered from where the reading left the automatic grouping number, as
/// `apply_overlapper_groupings` does.
pub fn read_note_clozes(
    data: &str,
    cloze_matches: &Vec<ClozeMatch>,
    image_occlusions: Vec<ParsedImageOcclusionData>,
    current_grouping_number: &mut u32,
    note_settings_keys: &NoteSettingsKeys,
    cloze_settings_keys: &ClozeSettingsKeys,
    defaults: ModifyDefaultsFn,
    overlapper: Option<&OverlapperConfig>,
) -> (r: Result<Vec<ReadCloze>, LibraryError>)
    requires
        forall|i: int|
            0 <= i < cloze_matches.len() ==> {
                let m = #[trigger] cloze_matches@[i];
                &&& m.settings_match.start <= m.settings_match.end
                &&& is_char_start(data@, m.settings_match.start as int)
                &&& is_char_start(data@, m.settings_match.end as int)
                &&& m.start_match.start <= m.start_match.end
                &&& m.end_match.start <= m.end_match.end
            },
        forall|i: int|
            0 <= i < image_occlusions.len() ==> {
                let p = #[trigger] image_occlusions@[i];
                p.clozes.len() > 0 ==> p.start_delim.start <= p.start_delim.end <= p.end_delim.start
                    <= p.end_delim.end
            },
        note_settings_keys.settings_delim@.len() > 0,
        *old(current_grouping_number) + cloze_matches.len() < u32::MAX,
        overlapper matches Some(c) ==> *old(current_grouping_number) + 2 * cloze_matches.len() + card_count(
            cloze_matches.len() + all_parsed_items(image_occlusions@).len(),
            *c,
        ) <= u32::MAX,
    ensures
        match r {
            Ok(v) => exists|items: Seq<ReadCloze>, curs: Seq<u32>|
                #[trigger] clozes_read(
                    data@,
                    cloze_matches@,
                    items,
                    curs,
                    *old(current_grouping_number),
                    *note_settings_keys,
                    *cloze_settings_keys,
                    defaults,
                ) && items.len() == cloze_matches.len() && match overlapper {
                    None => v@ == placed_clozes(items, all_parsed_items(image_occlusions@))
                        && curs.last() == *final(current_grouping_number),
                    Some(c) => overlapper_applied(
                        placed_clozes(items, all_parsed_items(image_occlusions@)),
                        v@,
                        *c,
                        curs.last(),
                        *final(current_grouping_number),
                    ),
                },
            Err(e) => exists|items: Seq<ReadCloze>, curs: Seq<u32>|
                #[trigger] clozes_read(
                    data@,
                    cloze_matches@,
                    items,
                    curs,
                    *old(current_grouping_number),
                    *note_settings_keys,
                    *cloze_settings_keys,
                    defaults,
                ) && items.len() < cloze_matches.len() && text_cloze_fails(
                    data@,
                    cloze_matches@[items.len() as int],
                    curs.last(),
                    *final(current_grouping_number),
                    *note_settings_keys,
                    *cloze_settings_keys,
                    defaults,
                    e,
                ),
        },
{
    let ghost start = *current_grouping_number;
    let text = match text_clozes(
        data,
        cloze_matches,
        current_grouping_number,
        note_settings_keys,
        cloze_settings_keys,
        defaults,
    ) {
        Ok(t) => t,
        Err(e) => {
            return Err(e);
        },
    };
    let ghost items = text@;
    let ghost ios = all_parsed_items(image_occlusions@);
    let images = image_occlusion_clozes(image_occlusions);
    let mut r = interleave_clozes(text, images);
    proof {
        assert(r@ =~= placed_clozes(items, ios));
    }
    match overlapper {
        None => Ok(r),
        Some(c) => {
            proof {
                let curs = choose|curs: Seq<u32>|
                    #[trigger] clozes_read(data@, cloze_matches@, items, curs, start, *note_settings_keys, *cloze_settings_keys, defaults)
                        && curs.last() == *current_grouping_number;
                lemma_read_bound(data@, cloze_matches@, items, curs, start, *note_settings_keys, *cloze_settings_keys, defaults, items.len() as int);
                lemma_merged_len(items, ios);
                lemma_ov_rank_at_most(r@, r@.len() as int);
                lemma_card_count_monotonic(ov_rank(r@, r@.len() as int) as int, r@.len() as int, *c);
            }
            let ghost before = r@;
            let ghost mid = *current_grouping_number;
            let _ = apply_overlapper_groupings(&mut r, c, current_grouping_number);
            proof {
                assert(overlapper_applied(before, r@, *c, mid, *current_grouping_number));
            }
            Ok(r)
        },
    }
}

} // verus!
