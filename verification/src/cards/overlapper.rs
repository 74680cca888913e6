//! Overlapping cloze sequences: a list of items is learnt as a sliding window of
//! prompts, with a few neighbouring items shown as context and the rest hidden.

use crate::clozes::{default_settings_of, ClozeData, ClozeGrouping, ClozeGroupingSettings};
use std::ops::Range;
use vstd::prelude::*;

verus! {

/// How an overlapper sequence is turned into cards.
#[derive(Clone, Copy, Debug, PartialEq)]
pub struct OverlapperConfig {
    pub context_before_item: u32,
    /// The number of clozes that require an answer at once
    pub prompts: u32,
    pub context_after_item: u32,
    /// Useful when you need to know the exact starting point of a sequence
    pub no_cues_for_first_item: bool,
    /// Useful when you need to know the exact ending point of a sequence
    pub no_cues_for_last_item: bool,
    /// Grow the prompt window from 1 to `prompts` at the start, and shrink it back at the end.
    pub start_and_end_gradually: bool,
}

impl Default for OverlapperConfig {
    fn default() -> (r: Self)
        ensures
            r.context_before_item == 1,
            r.prompts == 1,
            r.context_after_item == 0,
            !r.no_cues_for_first_item,
            !r.no_cues_for_last_item,
            !r.start_and_end_gradually,
    {
        Self {
            context_before_item: 1,
            prompts: 1,
            context_after_item: 0,
            no_cues_for_first_item: false,
            no_cues_for_last_item: false,
            start_and_end_gradually: false,
        }
    }
}

/// The role of one item in one card.
#[derive(Clone, Copy, Debug, PartialEq)]
pub struct OverlapperGroupAssignment {
    /// Which card group (Auto grouping number) this assignment belongs to.
    pub card_group: u32,
    /// True only for the first prompt cloze in the card window.
    pub is_first_prompt: bool,
    /// Whether this cloze is hidden (not required to answer) in this card.
    pub is_hidden: bool,
}

/// One card of the sequence: the prompts are the items `start..=end`; up to
/// `context_before` items before and `context_after` items after are shown as context.
pub struct Window {
    pub start: int,
    pub end: int,
    pub context_before: int,
    pub context_after: int,
}

pub open spec fn min_int(a: int, b: int) -> int {
    if a <= b { a } else { b }
}

/// Number of windows that grow (and, symmetrically, shrink) gradually.
pub open spec fn gradual_count(n: int, c: OverlapperConfig) -> int {
    if c.start_and_end_gradually && c.prompts >= 1 && n >= c.prompts {
        c.prompts - 1
    } else {
        0
    }
}

/// Number of full-width windows.
pub open spec fn regular_count(n: int, c: OverlapperConfig) -> int {
    if c.prompts >= 1 && n >= c.prompts {
        n - c.prompts + 1
    } else {
        0
    }
}

/// Total number of cards of a sequence of `n` items.
pub open spec fn card_count(n: int, c: OverlapperConfig) -> int {
    2 * gradual_count(n, c) + regular_count(n, c)
}

/// The `w`-th card of a sequence of `n` items, for `0 <= w < card_count(n, c)`.
pub open spec fn window(n: int, c: OverlapperConfig, w: int) -> Window {
    let p = c.prompts as int;
    let g = gradual_count(n, c);
    let r = regular_count(n, c);
    if w < g {
        Window { start: 0, end: w, context_before: 0, context_after: 0 }
    } else if w < g + r {
        let k = w - g;
        Window {
            start: k,
            end: k + p - 1,
            context_before: if k == 0 && c.no_cues_for_first_item {
                0
            } else {
                min_int(c.context_before_item as int, k)
            },
            context_after: if k == r - 1 && c.no_cues_for_last_item {
                0
            } else {
                min_int(c.context_after_item as int, n - k - p)
            },
        }
    } else {
        let extra = p - 1 - (w - g - r);
        Window { start: n - extra, end: n - 1, context_before: 0, context_after: 0 }
    }
}

/// Whether item `i` is shown as context in window `win`.
pub open spec fn in_context(win: Window, i: int) -> bool {
    (win.context_before > 0 && i < win.start && i + win.context_before >= win.start) || (
    win.context_after > 0 && i > win.end && i <= win.end + win.context_after)
}

/// The role of item `i` in card `w`: a prompt, hidden, or nothing (shown as context).
pub open spec fn role(n: int, c: OverlapperConfig, start_group: int, w: int, i: int) -> Option<
    OverlapperGroupAssignment,
> {
    let win = window(n, c, w);
    if win.start <= i <= win.end {
        Some(
            OverlapperGroupAssignment {
                card_group: (start_group + w) as u32,
                is_first_prompt: i == win.start,
                is_hidden: false,
            },
        )
    } else if in_context(win, i) {
        None
    } else {
        Some(
            OverlapperGroupAssignment {
                card_group: (start_group + w) as u32,
                is_first_prompt: false,
                is_hidden: true,
            },
        )
    }
}

/// The roles of item `i` in the cards `0..w`, in card order.
pub open spec fn roles_upto(n: int, c: OverlapperConfig, start_group: int, i: int, w: int) -> Seq<
    OverlapperGroupAssignment,
>
    decreases w,
{
    if w <= 0 {
        Seq::empty()
    } else {
        let prev = roles_upto(n, c, start_group, i, w - 1);
        match role(n, c, start_group, w - 1, i) {
            Some(a) => prev.push(a),
            None => prev,
        }
    }
}

/// The roles of item `i` in every card of the sequence.
pub open spec fn item_roles(n: int, c: OverlapperConfig, start_group: int, i: int) -> Seq<
    OverlapperGroupAssignment,
> {
    roles_upto(n, c, start_group, i, card_count(n, c))
}

/// Every card is a window of consecutive items inside the sequence, with at least one
/// and at most `prompts` prompts.
pub proof fn lemma_window_bounds(n: int, c: OverlapperConfig, w: int)
    requires
        0 <= w < card_count(n, c),
    ensures
        0 <= window(n, c, w).start <= window(n, c, w).end < n,
        window(n, c, w).end - window(n, c, w).start + 1 <= c.prompts,
        window(n, c, w).context_before >= 0,
        window(n, c, w).context_after >= 0,
{
}

/// Item `i` takes role `a` in one of the first `w` cards exactly when some card before `w`
/// gives it that role.
proof fn lemma_roles_upto_contains(
    n: int,
    c: OverlapperConfig,
    start_group: int,
    i: int,
    w: int,
    a: OverlapperGroupAssignment,
)
    requires
        0 <= w,
    ensures
        roles_upto(n, c, start_group, i, w).contains(a) <==> exists|v: int|
            0 <= v < w && #[trigger] role(n, c, start_group, v, i) == Some(a),
    decreases w,
{
    if w > 0 {
        lemma_roles_upto_contains(n, c, start_group, i, w - 1, a);
        let prev = roles_upto(n, c, start_group, i, w - 1);
        match role(n, c, start_group, w - 1, i) {
            Some(b) => {
                assert(prev.push(b).contains(a) <==> (prev.contains(a) || a == b)) by {
                    if a == b {
                        assert(prev.push(b)[prev.len() as int] == b);
                    }
                    if prev.push(b).contains(a) && a != b {
                        let k = choose|k: int| 0 <= k < prev.push(b).len() && prev.push(b)[k] == a;
                        assert(prev[k] == a);
                    }
                    if prev.contains(a) {
                        let k = choose|k: int| 0 <= k < prev.len() && prev[k] == a;
                        assert(prev.push(b)[k] == a);
                    }
                }
            },
            None => {},
        }
    }
}

/// Item `i` has a role with group `start_group + w` exactly when card `w` gives it a role,
/// and that role is the card's.
pub proof fn lemma_item_role_in_card(
    n: int,
    c: OverlapperConfig,
    start_group: int,
    i: int,
    w: int,
    a: OverlapperGroupAssignment,
)
    requires
        0 <= start_group,
        start_group + card_count(n, c) <= u32::MAX + 1,
        0 <= w < card_count(n, c),
        a.card_group == start_group + w,
    ensures
        item_roles(n, c, start_group, i).contains(a) <==> role(n, c, start_group, w, i) == Some(a),
{
    lemma_roles_upto_contains(n, c, start_group, i, card_count(n, c), a);
    if item_roles(n, c, start_group, i).contains(a) {
        let v = choose|v: int|
            0 <= v < card_count(n, c) && #[trigger] role(n, c, start_group, v, i) == Some(a);
        assert(role(n, c, start_group, v, i).unwrap().card_group == (start_group + v) as u32);
        assert(v == w);
    }
}

/// Each card of an overlapper sequence has exactly one first prompt: the first item of
/// its window, which is required to answer.
pub proof fn lemma_one_first_prompt_per_card(
    n: int,
    c: OverlapperConfig,
    start_group: int,
    w: int,
    i: int,
)
    requires
        0 <= start_group,
        start_group + card_count(n, c) <= u32::MAX + 1,
        0 <= w < card_count(n, c),
        0 <= i < n,
    ensures
        0 <= window(n, c, w).start < n,
        item_roles(n, c, start_group, i).contains(
            OverlapperGroupAssignment {
                card_group: (start_group + w) as u32,
                is_first_prompt: true,
                is_hidden: false,
            },
        ) <==> i == window(n, c, w).start,
        !item_roles(n, c, start_group, i).contains(
            OverlapperGroupAssignment {
                card_group: (start_group + w) as u32,
                is_first_prompt: true,
                is_hidden: true,
            },
        ),
{
    lemma_window_bounds(n, c, w);
    lemma_item_role_in_card(
        n,
        c,
        start_group,
        i,
        w,
        OverlapperGroupAssignment {
            card_group: (start_group + w) as u32,
            is_first_prompt: true,
            is_hidden: false,
        },
    );
    lemma_item_role_in_card(
        n,
        c,
        start_group,
        i,
        w,
        OverlapperGroupAssignment {
            card_group: (start_group + w) as u32,
            is_first_prompt: true,
            is_hidden: true,
        },
    );
}

/// In each card, the items that must be answered are exactly the items of its window;
/// every other item is either hidden or shown as context, never both.
pub proof fn lemma_prompts_are_the_window(
    n: int,
    c: OverlapperConfig,
    start_group: int,
    w: int,
    i: int,
)
    requires
        0 <= start_group,
        start_group + card_count(n, c) <= u32::MAX + 1,
        0 <= w < card_count(n, c),
        0 <= i < n,
    ensures
        (item_roles(n, c, start_group, i).contains(
            OverlapperGroupAssignment {
                card_group: (start_group + w) as u32,
                is_first_prompt: true,
                is_hidden: false,
            },
        ) || item_roles(n, c, start_group, i).contains(
            OverlapperGroupAssignment {
                card_group: (start_group + w) as u32,
                is_first_prompt: false,
                is_hidden: false,
            },
        )) <==> window(n, c, w).start <= i <= window(n, c, w).end,
        item_roles(n, c, start_group, i).contains(
            OverlapperGroupAssignment {
                card_group: (start_group + w) as u32,
                is_first_prompt: false,
                is_hidden: true,
            },
        ) <==> !(window(n, c, w).start <= i <= window(n, c, w).end) && !in_context(
            window(n, c, w),
            i,
        ),
{
    let g = (start_group + w) as u32;
    let t = OverlapperGroupAssignment { card_group: g, is_first_prompt: true, is_hidden: false };
    let f = OverlapperGroupAssignment { card_group: g, is_first_prompt: false, is_hidden: false };
    let h = OverlapperGroupAssignment { card_group: g, is_first_prompt: false, is_hidden: true };
    lemma_item_role_in_card(n, c, start_group, i, w, t);
    lemma_item_role_in_card(n, c, start_group, i, w, f);
    lemma_item_role_in_card(n, c, start_group, i, w, h);
    let win = window(n, c, w);
    if win.start <= i <= win.end {
        if i == win.start {
            assert(item_roles(n, c, start_group, i).contains(t));
        } else {
            assert(item_roles(n, c, start_group, i).contains(f));
        }
    }
}

/// With no prompts, or fewer items than prompts, no card is formed and no item has a role.
pub proof fn lemma_too_few_items_give_no_cards(n: int, c: OverlapperConfig, start_group: int, i: int)
    requires
        c.prompts == 0 || n < c.prompts,
    ensures
        card_count(n, c) == 0,
        item_roles(n, c, start_group, i).len() == 0,
{
}

/// The assignment `a` with its card group moved up by `s`.
pub open spec fn shifted(a: OverlapperGroupAssignment, s: int) -> OverlapperGroupAssignment {
    OverlapperGroupAssignment { card_group: (a.card_group + s) as u32, ..a }
}

proof fn lemma_roles_upto_shift(n: int, c: OverlapperConfig, s: int, i: int, w: int)
    requires
        0 <= s,
        0 <= w <= card_count(n, c),
        s + card_count(n, c) <= u32::MAX + 1,
    ensures
        roles_upto(n, c, s, i, w) == roles_upto(n, c, 0, i, w).map_values(|a: OverlapperGroupAssignment| shifted(a, s)),
    decreases w,
{
    if w > 0 {
        lemma_roles_upto_shift(n, c, s, i, w - 1);
        let prev0 = roles_upto(n, c, 0, i, w - 1);
        match role(n, c, 0, w - 1, i) {
            Some(a) => {
                assert(role(n, c, s, w - 1, i) == Some(shifted(a, s)));
                assert(prev0.push(a).map_values(|a: OverlapperGroupAssignment| shifted(a, s)) =~= prev0.map_values(
                    |a: OverlapperGroupAssignment| shifted(a, s),
                ).push(shifted(a, s)));
            },
            None => {},
        }
    } else {
        assert(roles_upto(n, c, 0, i, 0).map_values(|a: OverlapperGroupAssignment| shifted(a, s)) =~= Seq::<
            OverlapperGroupAssignment,
        >::empty());
    }
}

/// Starting the card groups at `start_group` moves every card group up by `start_group`
/// and changes nothing else: which items are prompts, first prompts or hidden stays.
pub proof fn lemma_start_group_shifts(n: int, c: OverlapperConfig, start_group: int, i: int)
    requires
        0 <= start_group,
        start_group + card_count(n, c) <= u32::MAX + 1,
    ensures
        item_roles(n, c, start_group, i) == item_roles(n, c, 0, i).map_values(
            |a: OverlapperGroupAssignment| shifted(a, start_group),
        ),
{
    lemma_roles_upto_shift(n, c, start_group, i, card_count(n, c));
}

/// The card groups of a sequence of `n` items are exactly `start_group` up to
/// `start_group + card_count(n, c)`, one per card: each is used by some item.
pub proof fn lemma_groups_used(n: int, c: OverlapperConfig, start_group: int, g: int)
    requires
        0 <= start_group,
        start_group + card_count(n, c) <= u32::MAX + 1,
    ensures
        (exists|i: int, a: OverlapperGroupAssignment|
            0 <= i < n && #[trigger] item_roles(n, c, start_group, i).contains(a) && a.card_group == g) <==> (
        start_group <= g < start_group + card_count(n, c)),
{
    if start_group <= g < start_group + card_count(n, c) {
        let w = g - start_group;
        lemma_window_bounds(n, c, w);
        let i = window(n, c, w).start;
        lemma_one_first_prompt_per_card(n, c, start_group, w, i);
        let a = OverlapperGroupAssignment { card_group: (start_group + w) as u32, is_first_prompt: true, is_hidden: false };
        assert(item_roles(n, c, start_group, i).contains(a) && a.card_group == g);
    }
    if exists|i: int, a: OverlapperGroupAssignment|
        0 <= i < n && #[trigger] item_roles(n, c, start_group, i).contains(a) && a.card_group == g {
        let (i, a) = choose|i: int, a: OverlapperGroupAssignment|
            0 <= i < n && #[trigger] item_roles(n, c, start_group, i).contains(a) && a.card_group == g;
        lemma_roles_upto_contains(n, c, start_group, i, card_count(n, c), a);
        let v = choose|v: int| 0 <= v < card_count(n, c) && #[trigger] role(n, c, start_group, v, i) == Some(a);
        assert(a.card_group == (start_group + v) as u32);
    }
}

/// The cards of a sequence of `n` items with `prompts` between 1 and `n` go through it in
/// order: with `start_and_end_gradually`, the first cards start at the first item with one,
/// two, ... prompts; then each full window of `prompts` items starts one item later than the
/// one before; and the last cards all end at the last item, with one prompt fewer each, down
/// to the last card, whose only prompt is the last item. Only full windows show context:
/// as many items before and after as asked for, or as there are, and none before the first
/// (after the last) full window where the first (last) item gets no cues.
pub proof fn lemma_windows_go_through_the_sequence(n: int, c: OverlapperConfig, w: int)
    requires
        1 <= c.prompts <= n,
        0 <= w < card_count(n, c),
    ensures
        ({
            let p = c.prompts as int;
            let k = card_count(n, c);
            let g = if c.start_and_end_gradually { p - 1 } else { 0 };
            let win = window(n, c, w);
            &&& k == n - p + 1 + 2 * g
            &&& w < g ==> win.start == 0 && win.end == w
            &&& g <= w < k - g ==> win.start == w - g && win.end == w - g + p - 1
            &&& k - g <= w ==> win.end == n - 1 && win.end - win.start + 1 == k - w
            &&& (w < g || k - g <= w) ==> win.context_before == 0 && win.context_after == 0
            &&& 0 <= win.context_before <= c.context_before_item
            &&& 0 <= win.context_after <= c.context_after_item
            &&& win.start - win.context_before >= 0
            &&& win.end + win.context_after <= n - 1
            &&& g <= w < k - g ==> {
                &&& (w == g && c.no_cues_for_first_item) || win.context_before == c.context_before_item
                    || win.context_before == win.start
                &&& (w == k - g - 1 && c.no_cues_for_last_item) || win.context_after == c.context_after_item
                    || win.context_after == n - 1 - win.end
                &&& w == g && c.no_cues_for_first_item ==> win.context_before == 0
                &&& w == k - g - 1 && c.no_cues_for_last_item ==> win.context_after == 0
            }
        }),
{
}

/// Consecutive cards never move back: each card's window starts and ends no earlier than
/// the one before.
pub proof fn lemma_windows_move_forward(n: int, c: OverlapperConfig, w: int)
    requires
        0 <= w,
        w + 1 < card_count(n, c),
    ensures
        window(n, c, w).start <= window(n, c, w + 1).start,
        window(n, c, w).end <= window(n, c, w + 1).end,
{
}

/// The first card of a sequence starts at its first item and the last card ends at its last
/// item. Where the window grows and shrinks gradually (or holds one prompt), the first card
/// asks for the first item alone and the last card for the last item alone: among the roles
/// of the items, the last card's only prompt is the last item, as its first prompt.
pub proof fn lemma_sequence_ends_on_its_items(n: int, c: OverlapperConfig, start_group: int, i: int)
    requires
        1 <= c.prompts <= n,
        0 <= start_group,
        start_group + card_count(n, c) <= u32::MAX + 1,
        0 <= i < n,
    ensures
        window(n, c, 0).start == 0,
        window(n, c, card_count(n, c) - 1).end == n - 1,
        c.start_and_end_gradually || c.prompts == 1 ==> {
            let last = (start_group + card_count(n, c) - 1) as u32;
            &&& window(n, c, 0).end == 0
            &&& item_roles(n, c, start_group, i).contains(
                OverlapperGroupAssignment { card_group: last, is_first_prompt: true, is_hidden: false },
            ) <==> i == n - 1
            &&& !item_roles(n, c, start_group, i).contains(
                OverlapperGroupAssignment { card_group: last, is_first_prompt: false, is_hidden: false },
            )
        },
{
    let k = card_count(n, c);
    lemma_windows_go_through_the_sequence(n, c, 0);
    lemma_windows_go_through_the_sequence(n, c, k - 1);
    lemma_prompts_are_the_window(n, c, start_group, k - 1, i);
    lemma_one_first_prompt_per_card(n, c, start_group, k - 1, i);
    if c.start_and_end_gradually || c.prompts == 1 {
        assert(window(n, c, 0).end == 0);
        assert(window(n, c, k - 1).start == n - 1);
        assert(window(n, c, k - 1).end == n - 1);
        lemma_item_role_in_card(
            n,
            c,
            start_group,
            i,
            k - 1,
            OverlapperGroupAssignment { card_group: (start_group + k - 1) as u32, is_first_prompt: false, is_hidden: false },
        );
    }
}

/// Returns the total number of cards (windows) generated for `n` items with `config`.
pub fn overlapper_card_count(n: usize, config: &OverlapperConfig) -> (r: usize)
    requires
        card_count(n as int, *config) <= usize::MAX,
    ensures
        r == card_count(n as int, *config),
{
    let p = config.prompts as usize;
    if p == 0 || n < p {
        return 0;
    }
    let num_regular = n - p + 1;
    let num_extra = if config.start_and_end_gradually && p > 1 {
        2 * (p - 1)
    } else {
        0
    };
    num_regular + num_extra
}

fn exec_window(n: usize, config: &OverlapperConfig, w: usize) -> (r: (usize, usize, usize, usize))
    requires
        w < card_count(n as int, *config),
    ensures
        r.0 == window(n as int, *config, w as int).start,
        r.1 == window(n as int, *config, w as int).end,
        r.2 == window(n as int, *config, w as int).context_before,
        r.3 == window(n as int, *config, w as int).context_after,
{
    let p = config.prompts as usize;
    let g: usize = if config.start_and_end_gradually { p - 1 } else { 0 };
    let r: usize = n - p + 1;
    if w < g {
        (0, w, 0, 0)
    } else if w < g + r {
        let k = w - g;
        let cb = config.context_before_item as usize;
        let ca = config.context_after_item as usize;
        let before = if k == 0 && config.no_cues_for_first_item {
            0
        } else if cb <= k {
            cb
        } else {
            k
        };
        let room = n - k - p;
        let after = if k == r - 1 && config.no_cues_for_last_item {
            0
        } else if ca <= room {
            ca
        } else {
            room
        };
        (k, k + p - 1, before, after)
    } else {
        let extra = p - 1 - (w - g - r);
        (n - extra, n - 1, 0, 0)
    }
}

/// Computes the group assignments for each of the `n` overlapper items.
///
/// Returns a `Vec` of length `n`. Element `i` lists, in card order, the cards item `i`
/// takes part in and its role there: a prompt (required to answer) or hidden. Items that
/// are shown as context in a card have no assignment for it. Card `w` gets the group
/// number `start_group + w`.
pub fn generate_overlapper_groups(n: usize, config: &OverlapperConfig, start_group: u32) -> (res:
    Vec<Vec<OverlapperGroupAssignment>>)
    requires
        start_group + card_count(n as int, *config) <= u32::MAX + 1,
        card_count(n as int, *config) <= usize::MAX,
    ensures
        res.len() == n,
        forall|i: int|
            0 <= i < n ==> (#[trigger] res@[i])@ == item_roles(n as int, *config, start_group as int, i),
{
    let count = overlapper_card_count(n, config);
    let mut result: Vec<Vec<OverlapperGroupAssignment>> = Vec::new();
    let mut i: usize = 0;
    while i < n
        invariant
            0 <= i <= n,
            count == card_count(n as int, *config),
            start_group + count <= u32::MAX + 1,
            result.len() == i,
            forall|j: int|
                0 <= j < i ==> (#[trigger] result@[j])@ == item_roles(n as int, *config, start_group as int, j),
        decreases n - i,
    {
        let mut entry: Vec<OverlapperGroupAssignment> = Vec::new();
        let mut w: usize = 0;
        while w < count
            invariant
                0 <= i < n,
                0 <= w <= count,
                count == card_count(n as int, *config),
                start_group + count <= u32::MAX + 1,
                entry@ == roles_upto(n as int, *config, start_group as int, i as int, w as int),
            decreases count - w,
        {
            let (start, end, before, after) = exec_window(n, config, w);
            let card_group = start_group + w as u32;
            if i >= start && i <= end {
                entry.push(OverlapperGroupAssignment { card_group, is_first_prompt: i == start, is_hidden: false });
            } else {
                let in_context_before = before > 0 && i < start && start - i <= before;
                let in_context_after = after > 0 && i > end && i <= end + after;
                if !in_context_before && !in_context_after {
                    entry.push(OverlapperGroupAssignment { card_group, is_first_prompt: false, is_hidden: true });
                }
            }
            w += 1;
        }
        result.push(entry);
        i += 1;
    }
    result
}

/// The number of overlapper clozes among the first `j` clozes.
pub open spec fn ov_rank(items: Seq<(ClozeData, Vec<ClozeGroupingSettings>)>, j: int) -> nat
    decreases j,
{
    if j <= 0 {
        0
    } else {
        ov_rank(items, j - 1) + if items[j - 1].0.settings.is_overlapper {
            1nat
        } else {
            0nat
        }
    }
}

/// `after` is `before` with the overlapper items regrouped into the cards of `c`, numbered
/// from `start`, the automatic grouping number going to `end`; unchanged, `end` being
/// `start`, when there are fewer items than prompts per card (or no prompts).
pub open spec fn overlapper_applied(
    before: Seq<(ClozeData, Vec<ClozeGroupingSettings>)>,
    after: Seq<(ClozeData, Vec<ClozeGroupingSettings>)>,
    c: OverlapperConfig,
    start: u32,
    end: u32,
) -> bool {
    let n = ov_rank(before, before.len() as int) as int;
    if c.prompts == 0 || n < c.prompts {
        &&& after == before
        &&& end == start
    } else {
        &&& end == start + card_count(n, c)
        &&& after.len() == before.len()
        &&& forall|j: int|
            0 <= j < before.len() ==> {
                &&& (#[trigger] after[j]).0 == before[j].0
                &&& if before[j].0.settings.is_overlapper {
                    settings_of_roles(after[j].1@, item_roles(n, c, start as int, ov_rank(before, j) as int))
                } else {
                    after[j].1 == before[j].1
                }
            }
    }
}

/// No more items are marked than there are.
pub proof fn lemma_ov_rank_at_most(items: Seq<(ClozeData, Vec<ClozeGroupingSettings>)>, j: int)
    requires
        0 <= j <= items.len(),
    ensures
        ov_rank(items, j) <= j,
    decreases j,
{
    if j > 0 {
        lemma_ov_rank_at_most(items, j - 1);
    }
}

/// More items never give fewer cards.
pub proof fn lemma_card_count_monotonic(n: int, m: int, c: OverlapperConfig)
    requires
        0 <= n <= m,
    ensures
        card_count(n, c) <= card_count(m, c),
{
}

/// The grouping settings of an overlapper cloze for one of its cards: the defaults for the
/// card's automatic grouping, hidden without an answer where the item is hidden, and written
/// back into the note only for the card's first prompt.
pub open spec fn assignment_settings(a: OverlapperGroupAssignment) -> ClozeGroupingSettings {
    ClozeGroupingSettings {
        hidden_no_answer: a.is_hidden,
        skip_serialization: !a.is_first_prompt,
        ..default_settings_of(ClozeGrouping::Auto(a.card_group), None)
    }
}

/// The grouping settings `gs` are those of the assignments `roles`, in order.
pub open spec fn settings_of_roles(gs: Seq<ClozeGroupingSettings>, roles: Seq<OverlapperGroupAssignment>) -> bool {
    &&& gs.len() == roles.len()
    &&& forall|t: int| 0 <= t < roles.len() ==> #[trigger] gs[t] == assignment_settings(roles[t])
}

fn settings_for_assignments(assignments: &Vec<OverlapperGroupAssignment>) -> (r: Vec<ClozeGroupingSettings>)
    ensures
        settings_of_roles(r@, assignments@),
{
    let mut r: Vec<ClozeGroupingSettings> = Vec::new();
    let mut t: usize = 0;
    while t < assignments.len()
        invariant
            0 <= t <= assignments.len(),
            r.len() == t,
            forall|u: int| 0 <= u < t ==> #[trigger] r@[u] == assignment_settings(assignments@[u]),
        decreases assignments.len() - t,
    {
        let a = assignments[t];
        let mut settings = ClozeGroupingSettings::default_from_grouping(ClozeGrouping::Auto(a.card_group), None);
        settings.hidden_no_answer = a.is_hidden;
        settings.skip_serialization = !a.is_first_prompt;
        r.push(settings);
        t += 1;
    }
    r
}

/// Gives each overlapper cloze (one whose settings are marked as overlapper) the grouping
/// settings of the cards of the sequence they make up, in document order, with card groups
/// numbered from `current_grouping_number`, which moves past them. Returns the group
/// numbers used; `None`, changing nothing, when the sequence has fewer items than prompts
/// per card (or no prompts).
pub fn apply_overlapper_groupings(
    all_clozes: &mut Vec<(ClozeData, Vec<ClozeGroupingSettings>)>,
    config: &OverlapperConfig,
    current_grouping_number: &mut u32,
) -> (r: Option<Range<u32>>)
    requires
        *old(current_grouping_number) + card_count(ov_rank(old(all_clozes)@, old(all_clozes)@.len() as int) as int, *config)
            <= u32::MAX,
    ensures
        ({
            let items = old(all_clozes)@;
            let n = ov_rank(items, items.len() as int) as int;
            let start = *old(current_grouping_number);
            let count = card_count(n, *config);
            if config.prompts == 0 || n < config.prompts {
                &&& r is None
                &&& *final(all_clozes) == *old(all_clozes)
                &&& *final(current_grouping_number) == start
            } else {
                &&& r == Some(Range { start, end: (start + count) as u32 })
                &&& *final(current_grouping_number) == start + count
                &&& final(all_clozes)@.len() == items.len()
                &&& forall|j: int|
                    0 <= j < items.len() ==> {
                        &&& (#[trigger] final(all_clozes)@[j]).0 == items[j].0
                        &&& if items[j].0.settings.is_overlapper {
                            settings_of_roles(
                                final(all_clozes)@[j].1@,
                                item_roles(n, *config, start as int, ov_rank(items, j) as int),
                            )
                        } else {
                            final(all_clozes)@[j].1 == items[j].1
                        }
                    }
            }
        }),
{
    let ghost items = all_clozes@;
    let mut n: usize = 0;
    let mut j: usize = 0;
    while j < all_clozes.len()
        invariant
            0 <= j <= all_clozes.len(),
            items == all_clozes@,
            n == ov_rank(items, j as int),
            n <= j,
        decreases all_clozes.len() - j,
    {
        if all_clozes[j].0.settings.is_overlapper {
            n += 1;
        }
        j += 1;
    }
    let p = config.prompts as usize;
    if p == 0 || n < p {
        return None;
    }
    let start_group = *current_grouping_number;
    let total_cards = overlapper_card_count(n, config);
    *current_grouping_number = *current_grouping_number + total_cards as u32;
    let assignments = generate_overlapper_groups(n, config, start_group);
    let mut rest: Vec<(ClozeData, Vec<ClozeGroupingSettings>)> = Vec::new();
    std::mem::swap(&mut rest, all_clozes);
    let ghost total = items.len();
    assert(total <= usize::MAX);
    let mut k: usize = 0;
    let mut j: usize = 0;
    while rest.len() > 0
        invariant
            total == items.len(),
            total <= usize::MAX,
            rest@ == items.subrange(j as int, total as int),
            all_clozes.len() == j,
            0 <= j <= total,
            k == ov_rank(items, j as int),
            n == ov_rank(items, total as int),
            assignments.len() == n,
            forall|i: int|
                0 <= i < n ==> (#[trigger] assignments@[i])@ == item_roles(n as int, *config, start_group as int, i),
            forall|i: int|
                0 <= i < j ==> {
                    &&& (#[trigger] all_clozes@[i]).0 == items[i].0
                    &&& if items[i].0.settings.is_overlapper {
                        settings_of_roles(
                            all_clozes@[i].1@,
                            item_roles(n as int, *config, start_group as int, ov_rank(items, i) as int),
                        )
                    } else {
                        all_clozes@[i].1 == items[i].1
                    }
                },
        decreases rest.len(),
    {
        let item = rest.remove(0);
        proof {
            assert(item == items[j as int]);
            assert(rest@ =~= items.subrange(j + 1, total as int));
        }
        let (cd, gs) = item;
        if cd.settings.is_overlapper {
            proof {
                lemma_ov_rank_bound(items, j as int + 1, total as int);
            }
            let new_settings = settings_for_assignments(&assignments[k]);
            all_clozes.push((cd, new_settings));
            k += 1;
        } else {
            all_clozes.push((cd, gs));
        }
        j += 1;
    }
    proof {
        assert(all_clozes@.len() == items.len());
    }
    Some(Range { start: start_group, end: start_group + total_cards as u32 })
}

proof fn lemma_ov_rank_bound(items: Seq<(ClozeData, Vec<ClozeGroupingSettings>)>, a: int, b: int)
    requires
        0 <= a <= b,
    ensures
        ov_rank(items, a) <= ov_rank(items, b),
    decreases b - a,
{
    if a < b {
        lemma_ov_rank_bound(items, a, b - 1);
    }
}

} // verus!
