//! Writing the settings of a cloze back as its settings string, such as `h:Hint;o:1`.

use crate::clozes::keys::ClozeSettingsKeys;
use crate::clozes::parse::GroupingView;
use crate::clozes::{
    default_settings_of, BackReveal, ClozeGrouping, ClozeGroupingSettings, ClozeSettings,
    FrontConceal, ModifyDefaultsFn,
};
use crate::text::{chars_to_string, join, join_parts, str_chars};
use crate::text_num::{decimal, usize_to_decimal};
use vstd::prelude::*;

verus! {

/// `key`, the key-value delimiter, then `value`.
pub open spec fn kv(key: Seq<char>, kvd: Seq<char>, value: Seq<char>) -> Seq<char> {
    key + kvd + value
}

/// The orders as written in a settings string: the numbers joined by commas.
pub open spec fn orders_text(orders: Seq<usize>) -> Seq<char> {
    join(orders.map_values(|n: usize| decimal(n as nat)), seq![','])
}

/// A grouping as written in a settings string.
pub open spec fn grouping_name(g: GroupingView) -> Seq<char> {
    match g {
        GroupingView::All => seq!['*'],
        GroupingView::Auto(_) => Seq::empty(),
        GroupingView::Custom(s) => s,
    }
}

pub open spec fn front_conceal_text(f: FrontConceal) -> Seq<char> {
    match f {
        FrontConceal::OnlyGrouping => Seq::empty(),
        FrontConceal::AllGroupings => seq!['a', 'l', 'l'],
    }
}

pub open spec fn back_reveal_text(b: BackReveal) -> Seq<char> {
    match b {
        BackReveal::FullNote => seq!['n'],
        BackReveal::OnlyAnswered => seq!['a'],
    }
}

/// The pairs written for one grouping's settings: its grouping unless automatic, its
/// orders, the reverse settings, and each setting that differs from `default`.
/// Whether a card is suspended is never written.
pub open spec fn own_parts(g: ClozeGroupingSettings, k: ClozeSettingsKeys, kvd: Seq<char>, default: ClozeGroupingSettings) -> Seq<
    Seq<char>,
> {
    let p0 = if g.grouping is Auto {
        Seq::empty()
    } else {
        seq![kv(k.grouping@, kvd, grouping_name(g.grouping@))]
    };
    let p1 = match g.orders {
        Some(o) => p0.push(kv(k.orders@, kvd, orders_text(o@))),
        None => p0,
    };
    let p2 = if g.include_forward_card && g.include_backward_card {
        p1.push(kv(k.include_reverse@, kvd, Seq::empty()))
    } else {
        p1
    };
    let p3 = if !g.include_forward_card && g.include_backward_card {
        p2.push(kv(k.reverse_only@, kvd, Seq::empty()))
    } else {
        p2
    };
    let p4 = if g.hidden_no_answer != default.hidden_no_answer {
        p3.push(kv(k.hidden_no_answer@, kvd, Seq::empty()))
    } else {
        p3
    };
    let p5 = if g.front_conceal != default.front_conceal {
        p4.push(kv(k.front_conceal@, kvd, front_conceal_text(g.front_conceal)))
    } else {
        p4
    };
    if g.back_reveal != default.back_reveal {
        p5.push(kv(k.back_reveal@, kvd, back_reveal_text(g.back_reveal)))
    } else {
        p5
    }
}

/// One grouping's settings added to the parts written so far (`st.0`) and to the named
/// groupings that have no other setting and wait to be written together (`st.1`).
/// Such waiting groupings are written as one grouping pair before the next grouping with
/// settings of its own, or at the last grouping that is written (`is_last`); groupings
/// left out of the string play no part.
pub open spec fn construct_step(
    st: (Seq<Seq<char>>, Seq<Seq<char>>),
    g: ClozeGroupingSettings,
    is_last: bool,
    all_groupings: bool,
    k: ClozeSettingsKeys,
    delim: Seq<char>,
    kvd: Seq<char>,
    default: ClozeGroupingSettings,
) -> (Seq<Seq<char>>, Seq<Seq<char>>) {
    if g.skip_serialization {
        st
    } else {
        let own = own_parts(g, k, kvd, default);
        let named = !(g.grouping is Auto);
        let (only, own2) = if named && own.len() == 1 {
            (if !all_groupings { st.1.push(grouping_name(g.grouping@)) } else { st.1 }, Seq::<Seq<char>>::empty())
        } else {
            (st.1, own)
        };
        let (all1, only2) = if ((named && own2.len() > 1) || is_last) && only.len() > 0 {
            (st.0.push(kv(k.grouping@, kvd, join(only, seq![',']))), Seq::<Seq<char>>::empty())
        } else {
            (st.0, only)
        };
        let all2 = if own2.len() > 0 {
            all1.push(join(own2, delim))
        } else {
            all1
        };
        (all2, only2)
    }
}

/// The index of the last of the first `n` grouping settings that is written into the
/// string, or -1 when none is.
pub open spec fn last_written(gs: Seq<ClozeGroupingSettings>, n: int) -> int
    decreases n,
{
    if n <= 0 {
        -1
    } else if !gs[n - 1].skip_serialization {
        n - 1
    } else {
        last_written(gs, n - 1)
    }
}

/// The state after the first `i` grouping settings of `gs`.
pub open spec fn construct_fold(
    gs: Seq<ClozeGroupingSettings>,
    i: int,
    all_groupings: bool,
    k: ClozeSettingsKeys,
    delim: Seq<char>,
    kvd: Seq<char>,
    default: ClozeGroupingSettings,
) -> (Seq<Seq<char>>, Seq<Seq<char>>)
    decreases i,
{
    if i <= 0 {
        (
            if all_groupings {
                seq![kv(k.grouping@, kvd, seq!['*'])]
            } else {
                Seq::empty()
            },
            Seq::empty(),
        )
    } else {
        construct_step(
            construct_fold(gs, i - 1, all_groupings, k, delim, kvd, default),
            gs[i - 1],
            i - 1 == last_written(gs, gs.len() as int),
            all_groupings,
            k,
            delim,
            kvd,
            default,
        )
    }
}

/// The settings string of a cloze: the hint, the overlapper mark, then the parts of all
/// groupings joined by the delimiter and a space; these joined by the delimiter.
pub open spec fn cloze_string(
    global: ClozeSettings,
    gs: Seq<ClozeGroupingSettings>,
    k: ClozeSettingsKeys,
    delim: Seq<char>,
    kvd: Seq<char>,
    modify: ModifyDefaultsFn,
) -> Seq<char> {
    let head0 = match global.hint {
        Some(h) => seq![kv(k.hint@, kvd, h@)],
        None => Seq::<Seq<char>>::empty(),
    };
    let head = if global.is_overlapper {
        head0.push(kv(k.overlapper@, kvd, Seq::empty()))
    } else {
        head0
    };
    let default = default_settings_of(ClozeGrouping::Auto(0), modify);
    let all_parts = construct_fold(gs, gs.len() as int, global.all_groupings, k, delim, kvd, default).0;
    let parts = if all_parts.len() > 0 {
        head.push(join(all_parts, delim + seq![' ']))
    } else {
        head
    };
    join(parts, delim)
}

fn front_conceal_eq(a: FrontConceal, b: FrontConceal) -> (r: bool)
    ensures
        r == (a == b),
{
    match (a, b) {
        (FrontConceal::OnlyGrouping, FrontConceal::OnlyGrouping) => true,
        (FrontConceal::AllGroupings, FrontConceal::AllGroupings) => true,
        _ => false,
    }
}

fn back_reveal_eq(a: BackReveal, b: BackReveal) -> (r: bool)
    ensures
        r == (a == b),
{
    match (a, b) {
        (BackReveal::FullNote, BackReveal::FullNote) => true,
        (BackReveal::OnlyAnswered, BackReveal::OnlyAnswered) => true,
        _ => false,
    }
}

/// The index of the last grouping settings written into the string, if any is.
fn find_last_written(gs: &[ClozeGroupingSettings]) -> (r: Option<usize>)
    ensures
        match r {
            Some(k) => k == last_written(gs@, gs@.len() as int),
            None => last_written(gs@, gs@.len() as int) == -1,
        },
{
    let mut n = gs.len();
    while n > 0
        invariant
            n <= gs.len(),
            last_written(gs@, gs@.len() as int) == last_written(gs@, n as int),
        decreases n,
    {
        if !gs[n - 1].skip_serialization {
            return Some(n - 1);
        }
        n -= 1;
    }
    None
}

/// `key`, the key-value delimiter, then `value`.
fn kv_chars(key: &str, kvd: &str, value: &Vec<char>) -> (r: Vec<char>)
    ensures
        r@ == kv(key@, kvd@, value@),
{
    let mut out = str_chars(key);
    let mut d = str_chars(kvd);
    out.append(&mut d);
    let mut v = value.clone();
    proof {
        assert(v@ == value@);
    }
    out.append(&mut v);
    out
}

fn orders_chars(orders: &Vec<usize>) -> (r: Vec<char>)
    ensures
        r@ == orders_text(orders@),
{
    let mut parts: Vec<Vec<char>> = Vec::new();
    let mut i: usize = 0;
    while i < orders.len()
        invariant
            0 <= i <= orders.len(),
            parts@.map_values(|p: Vec<char>| p@) == orders@.take(i as int).map_values(|n: usize| decimal(n as nat)),
        decreases orders.len() - i,
    {
        let ghost before = parts@;
        parts.push(usize_to_decimal(orders[i]));
        proof {
            assert(orders@.take(i + 1) =~= orders@.take(i as int).push(orders@[i as int]));
            assert(parts@ =~= before.push(parts@.last()));
            assert(parts@.map_values(|p: Vec<char>| p@) =~= before.map_values(|p: Vec<char>| p@).push(decimal(orders@[i as int] as nat)));
            assert(orders@.take(i + 1).map_values(|n: usize| decimal(n as nat)) =~= orders@.take(i as int).map_values(
                |n: usize| decimal(n as nat),
            ).push(decimal(orders@[i as int] as nat)));
        }
        i += 1;
    }
    proof {
        assert(orders@.take(orders.len() as int) =~= orders@);
    }
    let comma = vec![','];
    proof {
        assert(comma@ =~= seq![',']);
    }
    join_parts(parts, &comma)
}

fn grouping_chars(g: &ClozeGrouping) -> (r: Vec<char>)
    ensures
        r@ == grouping_name(g@),
{
    match g {
        ClozeGrouping::All => {
            let r = vec!['*'];
            proof {
                assert(r@ =~= seq!['*']);
            }
            r
        },
        ClozeGrouping::Auto(_) => Vec::new(),
        ClozeGrouping::Custom(s) => str_chars(s.as_str()),
    }
}

fn front_conceal_chars(f: FrontConceal) -> (r: Vec<char>)
    ensures
        r@ == front_conceal_text(f),
{
    match f {
        FrontConceal::OnlyGrouping => Vec::new(),
        FrontConceal::AllGroupings => {
            let r = vec!['a', 'l', 'l'];
            proof {
                assert(r@ =~= seq!['a', 'l', 'l']);
            }
            r
        },
    }
}

fn back_reveal_chars(b: BackReveal) -> (r: Vec<char>)
    ensures
        r@ == back_reveal_text(b),
{
    match b {
        BackReveal::FullNote => {
            let r = vec!['n'];
            proof {
                assert(r@ =~= seq!['n']);
            }
            r
        },
        BackReveal::OnlyAnswered => {
            let r = vec!['a'];
            proof {
                assert(r@ =~= seq!['a']);
            }
            r
        },
    }
}

fn push_part(parts: &mut Vec<Vec<char>>, p: Vec<char>)
    ensures
        final(parts)@.map_values(|q: Vec<char>| q@) == old(parts)@.map_values(|q: Vec<char>| q@).push(p@),
{
    let ghost before = parts@;
    parts.push(p);
    proof {
        assert(parts@ =~= before.push(p));
        assert(parts@.map_values(|q: Vec<char>| q@) =~= before.map_values(|q: Vec<char>| q@).push(p@));
    }
}

fn own_parts_exec(
    g: &ClozeGroupingSettings,
    k: &ClozeSettingsKeys,
    kvd: &str,
    default: &ClozeGroupingSettings,
) -> (r: Vec<Vec<char>>)
    ensures
        r@.map_values(|q: Vec<char>| q@) == own_parts(*g, *k, kvd@, *default),
{
    let empty: Vec<char> = Vec::new();
    let mut parts: Vec<Vec<char>> = Vec::new();
    proof {
        assert(parts@.map_values(|q: Vec<char>| q@) =~= Seq::<Seq<char>>::empty());
    }
    match &g.grouping {
        ClozeGrouping::Auto(_) => {},
        _ => {
            let name = grouping_chars(&g.grouping);
            push_part(&mut parts, kv_chars(k.grouping, kvd, &name));
        },
    }
    match &g.orders {
        Some(o) => {
            let text = orders_chars(o);
            push_part(&mut parts, kv_chars(k.orders, kvd, &text));
        },
        None => {},
    }
    if g.include_forward_card && g.include_backward_card {
        push_part(&mut parts, kv_chars(k.include_reverse, kvd, &empty));
    }
    if !g.include_forward_card && g.include_backward_card {
        push_part(&mut parts, kv_chars(k.reverse_only, kvd, &empty));
    }
    if g.hidden_no_answer != default.hidden_no_answer {
        push_part(&mut parts, kv_chars(k.hidden_no_answer, kvd, &empty));
    }
    if !front_conceal_eq(g.front_conceal, default.front_conceal) {
        let text = front_conceal_chars(g.front_conceal);
        push_part(&mut parts, kv_chars(k.front_conceal, kvd, &text));
    }
    if !back_reveal_eq(g.back_reveal, default.back_reveal) {
        let text = back_reveal_chars(g.back_reveal);
        push_part(&mut parts, kv_chars(k.back_reveal, kvd, &text));
    }
    parts
}

/// The settings string of a cloze with the given settings, as it is written back into a
/// note: see `cloze_string`.
pub fn construct_cloze_string(
    global_settings: &ClozeSettings,
    grouping_settings: &[ClozeGroupingSettings],
    cloze_settings_keys: &ClozeSettingsKeys,
    settings_delim: &str,
    settings_key_value_delim: &str,
    modify_defaults_fn: ModifyDefaultsFn,
) -> (r: String)
    ensures
        r@ == cloze_string(
            *global_settings,
            grouping_settings@,
            *cloze_settings_keys,
            settings_delim@,
            settings_key_value_delim@,
            modify_defaults_fn,
        ),
{
    let k = cloze_settings_keys;
    let kvd = settings_key_value_delim;
    let all_groupings = global_settings.all_groupings;
    let default = ClozeGroupingSettings::default_from_grouping(ClozeGrouping::Auto(0), modify_defaults_fn);
    let ghost gs = grouping_settings@;
    let ghost dv = settings_delim@;
    let delim = str_chars(settings_delim);
    let comma = vec![','];
    let star = vec!['*'];
    proof {
        assert(comma@ =~= seq![',']);
        assert(star@ =~= seq!['*']);
    }
    let mut all_parts: Vec<Vec<char>> = Vec::new();
    let mut only: Vec<Vec<char>> = Vec::new();
    proof {
        assert(all_parts@.map_values(|q: Vec<char>| q@) =~= Seq::<Seq<char>>::empty());
        assert(only@.map_values(|q: Vec<char>| q@) =~= Seq::<Seq<char>>::empty());
    }
    if all_groupings {
        push_part(&mut all_parts, kv_chars(k.grouping, kvd, &star));
    }
    let n = grouping_settings.len();
    let last = find_last_written(grouping_settings);
    let mut i: usize = 0;
    while i < n
        invariant
            0 <= i <= n,
            n == gs.len(),
            gs == grouping_settings@,
            dv == delim@,
            comma@ == seq![','],
            all_groupings == global_settings.all_groupings,
            match last {
                Some(k) => k == last_written(gs, gs.len() as int),
                None => last_written(gs, gs.len() as int) == -1,
            },
            default == default_settings_of(ClozeGrouping::Auto(0), modify_defaults_fn),
            (all_parts@.map_values(|q: Vec<char>| q@), only@.map_values(|q: Vec<char>| q@)) == construct_fold(
                gs,
                i as int,
                all_groupings,
                *k,
                dv,
                kvd@,
                default,
            ),
        decreases n - i,
    {
        let g = &grouping_settings[i];
        if !g.skip_serialization {
            let mut own = own_parts_exec(g, k, kvd, &default);
            let named = match &g.grouping {
                ClozeGrouping::Auto(_) => false,
                _ => true,
            };
            if named && own.len() == 1 {
                if !all_groupings {
                    push_part(&mut only, grouping_chars(&g.grouping));
                }
                own = Vec::new();
                proof {
                    assert(own@.map_values(|q: Vec<char>| q@) =~= Seq::<Seq<char>>::empty());
                }
            }
            let is_last = match last {
                Some(k) => i == k,
                None => false,
            };
            if ((named && own.len() > 1) || is_last) && only.len() > 0 {
                let mut taken: Vec<Vec<char>> = Vec::new();
                std::mem::swap(&mut taken, &mut only);
                proof {
                    assert(only@.map_values(|q: Vec<char>| q@) =~= Seq::<Seq<char>>::empty());
                }
                let joined = join_parts(taken, &comma);
                push_part(&mut all_parts, kv_chars(k.grouping, kvd, &joined));
            }
            if own.len() > 0 {
                let joined = join_parts(own, &delim);
                push_part(&mut all_parts, joined);
            }
        }
        i += 1;
    }
    let mut parts: Vec<Vec<char>> = Vec::new();
    proof {
        assert(parts@.map_values(|q: Vec<char>| q@) =~= Seq::<Seq<char>>::empty());
    }
    match &global_settings.hint {
        Some(h) => {
            let hv = str_chars(h.as_str());
            push_part(&mut parts, kv_chars(k.hint, kvd, &hv));
        },
        None => {},
    }
    if global_settings.is_overlapper {
        let empty: Vec<char> = Vec::new();
        push_part(&mut parts, kv_chars(k.overlapper, kvd, &empty));
    }
    if all_parts.len() > 0 {
        let mut sep = str_chars(settings_delim);
        sep.push(' ');
        proof {
            assert(sep@ =~= settings_delim@ + seq![' ']);
        }
        let joined = join_parts(all_parts, &sep);
        push_part(&mut parts, joined);
    }
    let out = join_parts(parts, &delim);
    proof {
        assert(out@ == cloze_string(
            *global_settings,
            grouping_settings@,
            *cloze_settings_keys,
            settings_delim@,
            settings_key_value_delim@,
            modify_defaults_fn,
        ));
    }
    chars_to_string(out.as_slice())
}

/// The groupings among the first `n` whose settings are written into the string.
pub open spec fn written_of(gs: Seq<ClozeGroupingSettings>, n: int) -> Seq<ClozeGroupingSettings>
    decreases n,
{
    if n <= 0 {
        Seq::empty()
    } else if !gs[n - 1].skip_serialization {
        written_of(gs, n - 1).push(gs[n - 1])
    } else {
        written_of(gs, n - 1)
    }
}

proof fn lemma_written_of_filter(gs: Seq<ClozeGroupingSettings>, n: int)
    requires
        0 <= n <= gs.len(),
    ensures
        gs.take(n).filter(|g: ClozeGroupingSettings| !g.skip_serialization) == written_of(gs, n),
    decreases n,
{
    reveal(Seq::filter);
    if n > 0 {
        lemma_written_of_filter(gs, n - 1);
        assert(gs.take(n).drop_last() =~= gs.take(n - 1));
        assert(gs.take(n).last() == gs[n - 1]);
    } else {
        assert(gs.take(0) =~= Seq::<ClozeGroupingSettings>::empty());
    }
}

proof fn lemma_written_of_all_written(gs: Seq<ClozeGroupingSettings>, m: int)
    requires
        0 <= m <= gs.len(),
    ensures
        forall|i: int| 0 <= i < written_of(gs, m).len() ==> !(#[trigger] written_of(gs, m)[i]).skip_serialization,
    decreases m,
{
    if m > 0 {
        lemma_written_of_all_written(gs, m - 1);
    }
}

proof fn lemma_written_of_facts(gs: Seq<ClozeGroupingSettings>, k: int, m: int)
    requires
        0 <= k <= m <= gs.len(),
    ensures
        written_of(gs, k).len() <= written_of(gs, m).len(),
        written_of(gs, m).take(written_of(gs, k).len() as int) == written_of(gs, k),
        written_of(gs, k).len() == written_of(gs, m).len() <==> forall|j: int|
            k <= j < m ==> (#[trigger] gs[j]).skip_serialization,
    decreases m,
{
    if m > k {
        lemma_written_of_facts(gs, k, m - 1);
        let w = written_of(gs, m - 1);
        if !gs[m - 1].skip_serialization {
            assert(w.push(gs[m - 1]).take(written_of(gs, k).len() as int) =~= w.take(written_of(gs, k).len() as int));
            assert(!(forall|j: int| k <= j < m ==> (#[trigger] gs[j]).skip_serialization)) by {
                assert(!gs[m - 1].skip_serialization);
            }
        } else {
            if forall|j: int| k <= j < m - 1 ==> (#[trigger] gs[j]).skip_serialization {
                assert forall|j: int| k <= j < m implies (#[trigger] gs[j]).skip_serialization by {
                    if j == m - 1 {
                    }
                }
            }
            if forall|j: int| k <= j < m ==> (#[trigger] gs[j]).skip_serialization {
                assert forall|j: int| k <= j < m - 1 implies (#[trigger] gs[j]).skip_serialization by {}
            }
        }
    } else {
        assert(written_of(gs, m).take(written_of(gs, m).len() as int) =~= written_of(gs, m));
    }
}

proof fn lemma_last_written(gs: Seq<ClozeGroupingSettings>, n: int)
    requires
        0 <= n <= gs.len(),
    ensures
        -1 <= last_written(gs, n) < n,
        last_written(gs, n) >= 0 ==> !gs[last_written(gs, n)].skip_serialization,
        forall|j: int| last_written(gs, n) < j < n ==> (#[trigger] gs[j]).skip_serialization,
    decreases n,
{
    if n > 0 && gs[n - 1].skip_serialization {
        lemma_last_written(gs, n - 1);
    }
}

proof fn lemma_fold_written(
    gs: Seq<ClozeGroupingSettings>,
    k: int,
    all_groupings: bool,
    keys: ClozeSettingsKeys,
    delim: Seq<char>,
    kvd: Seq<char>,
    default: ClozeGroupingSettings,
)
    requires
        0 <= k <= gs.len(),
    ensures
        construct_fold(gs, k, all_groupings, keys, delim, kvd, default) == construct_fold(
            written_of(gs, gs.len() as int),
            written_of(gs, k).len() as int,
            all_groupings,
            keys,
            delim,
            kvd,
            default,
        ),
    decreases k,
{
    let n = gs.len() as int;
    let f = written_of(gs, n);
    if k > 0 {
        lemma_fold_written(gs, k - 1, all_groupings, keys, delim, kvd, default);
        if !gs[k - 1].skip_serialization {
            let c = written_of(gs, k - 1).len() as int;
            lemma_written_of_facts(gs, k, n);
            lemma_written_of_facts(gs, k - 1, k);
            assert(f.take(c + 1) == written_of(gs, k));
            assert(f[c] == f.take(c + 1)[c]);
            assert(f[c] == gs[k - 1]);
            lemma_last_written(gs, n);
            lemma_written_of_all_written(gs, n);
            if f.len() > 0 {
                assert(!f[f.len() - 1].skip_serialization);
            }
            assert(last_written(f, f.len() as int) == f.len() - 1);
            if k - 1 == last_written(gs, n) {
                assert forall|j: int| k <= j < n implies (#[trigger] gs[j]).skip_serialization by {}
                assert(written_of(gs, k).len() == f.len());
            } else {
                if written_of(gs, k).len() == f.len() {
                    assert(forall|j: int| k <= j < n ==> (#[trigger] gs[j]).skip_serialization);
                    assert(last_written(gs, n) >= k - 1) by {
                        if last_written(gs, n) < k - 1 {
                            assert(gs[k - 1].skip_serialization);
                        }
                    }
                    if last_written(gs, n) > k - 1 {
                        assert(gs[last_written(gs, n)].skip_serialization);
                    }
                }
            }
        }
    }
}

/// Groupings left out of the settings string (`skip_serialization`) change nothing in it:
/// the string is the one written for the other groupings alone.
pub proof fn lemma_skipped_groupings_left_out(
    global: ClozeSettings,
    gs: Seq<ClozeGroupingSettings>,
    k: ClozeSettingsKeys,
    delim: Seq<char>,
    kvd: Seq<char>,
    modify: ModifyDefaultsFn,
)
    ensures
        cloze_string(global, gs, k, delim, kvd, modify) == cloze_string(
            global,
            gs.filter(|g: ClozeGroupingSettings| !g.skip_serialization),
            k,
            delim,
            kvd,
            modify,
        ),
{
    let n = gs.len() as int;
    let default = default_settings_of(ClozeGrouping::Auto(0), modify);
    lemma_written_of_filter(gs, n);
    assert(gs.take(n) =~= gs);
    let f = written_of(gs, n);
    lemma_fold_written(gs, n, global.all_groupings, k, delim, kvd, default);
}

} // verus!
