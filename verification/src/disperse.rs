//! Dispersing sibling cards: each card may be due anywhere in an interval of time, and the
//! due times are chosen so that siblings are as far apart as possible.
//!
//! Times and durations are counted in nanoseconds.

use vstd::prelude::*;

verus! {

/// The bound on the times and durations handled here, far beyond any calendar date.
pub open spec fn time_bound() -> int {
    0x10000000000000000000000000
}

pub open spec fn in_bounds(x: int) -> bool {
    -time_bound() <= x <= time_bound()
}

/// Every interval lies within the bounds.
pub open spec fn intervals_in_bounds(points: Seq<(i128, i128)>) -> bool {
    forall|i: int| 0 <= i < points.len() ==> in_bounds((#[trigger] points[i]).0 as int) && in_bounds(points[i].1 as int)
}

/// Sorting by right endpoint, keeping equal endpoints in their order: `x` goes after
/// every element whose right endpoint is not greater.
pub open spec fn insert_by_end<T>(sorted: Seq<(T, (i128, i128))>, x: (T, (i128, i128))) -> Seq<(T, (i128, i128))> {
    let pos = end_position(sorted, x.1.1, sorted.len() as int);
    sorted.take(pos).push(x) + sorted.skip(pos)
}

/// The number of leading elements of `sorted[..n]` whose right endpoint is at most `key`.
pub open spec fn end_position<T>(sorted: Seq<(T, (i128, i128))>, key: i128, n: int) -> int
    decreases n,
{
    if n <= 0 {
        0
    } else if sorted[n - 1].1.1 <= key {
        n
    } else {
        end_position(sorted, key, n - 1)
    }
}

/// `s` stably sorted by right endpoint.
pub open spec fn sort_by_end<T>(s: Seq<(T, (i128, i128))>) -> Seq<(T, (i128, i128))>
    decreases s.len(),
{
    if s.len() == 0 {
        Seq::empty()
    } else {
        insert_by_end(sort_by_end(s.drop_last()), s.last())
    }
}

pub open spec fn sorted_by_end<T>(s: Seq<(T, (i128, i128))>) -> bool {
    forall|i: int, j: int| 0 <= i <= j < s.len() ==> s[i].1.1 <= s[j].1.1
}

proof fn lemma_end_position<T>(sorted: Seq<(T, (i128, i128))>, key: i128, n: int)
    requires
        0 <= n <= sorted.len(),
        sorted_by_end(sorted),
    ensures
        0 <= end_position(sorted, key, n) <= n,
        forall|i: int| 0 <= i < end_position(sorted, key, n) ==> sorted[i].1.1 <= key,
        forall|i: int| end_position(sorted, key, n) <= i < n ==> sorted[i].1.1 > key,
    decreases n,
{
    if n > 0 && sorted[n - 1].1.1 > key {
        lemma_end_position(sorted, key, n - 1);
    }
}

/// Stable sorting by right endpoint sorts and keeps every element.
pub proof fn lemma_sort_by_end<T>(s: Seq<(T, (i128, i128))>)
    ensures
        sorted_by_end(sort_by_end(s)),
        sort_by_end(s).to_multiset() == s.to_multiset(),
        sort_by_end(s).len() == s.len(),
    decreases s.len(),
{
    broadcast use vstd::seq_lib::group_to_multiset_ensures;
    if s.len() > 0 {
        let rest = sort_by_end(s.drop_last());
        lemma_sort_by_end(s.drop_last());
        let x = s.last();
        let pos = end_position(rest, x.1.1, rest.len() as int);
        lemma_end_position(rest, x.1.1, rest.len() as int);
        let out = rest.take(pos).push(x) + rest.skip(pos);
        assert forall|i: int, j: int| 0 <= i <= j < out.len() implies out[i].1.1 <= out[j].1.1 by {
            if i < pos && j < pos {
            } else if i < pos && j == pos {
            } else if i < pos {
                assert(out[j] == rest[j - 1]);
            } else if i == pos && j > pos {
                assert(out[j] == rest[j - 1]);
            } else if i > pos {
                assert(out[i] == rest[i - 1]);
                assert(out[j] == rest[j - 1]);
            }
        }
        assert(rest =~= rest.take(pos) + rest.skip(pos));
        assert(out.to_multiset() =~= rest.take(pos).to_multiset().insert(x).add(rest.skip(pos).to_multiset())) by {
            vstd::seq_lib::lemma_multiset_commutative(rest.take(pos).push(x), rest.skip(pos));
        }
        vstd::seq_lib::lemma_multiset_commutative(rest.take(pos), rest.skip(pos));
        assert(s =~= s.drop_last().push(x));
    }
}

/// `data` stably sorted by right endpoint.
pub fn sort_by_end_exec<T: Copy>(data: &Vec<(T, (i128, i128))>) -> (r: Vec<(T, (i128, i128))>)
    ensures
        r@ == sort_by_end(data@),
{
    let mut out: Vec<(T, (i128, i128))> = Vec::new();
    let mut i: usize = 0;
    proof {
        assert(data@.take(0) =~= Seq::<(T, (i128, i128))>::empty());
    }
    while i < data.len()
        invariant
            0 <= i <= data.len(),
            out@ == sort_by_end(data@.take(i as int)),
        decreases data.len() - i,
    {
        let x = data[i];
        let key = x.1.1;
        let mut pos = out.len();
        while pos > 0 && out[pos - 1].1.1 > key
            invariant
                0 <= pos <= out.len(),
                end_position(out@, key, out.len() as int) == end_position(out@, key, pos as int),
            decreases pos,
        {
            pos -= 1;
        }
        let ghost before = out@;
        out.insert(pos, x);
        proof {
            assert(data@.take(i + 1).drop_last() =~= data@.take(i as int));
            assert(data@.take(i + 1).last() == x);
            assert(out@ =~= before.take(pos as int).push(x) + before.skip(pos as int));
        }
        i += 1;
    }
    proof {
        assert(data@.take(data.len() as int) =~= data@);
    }
    out
}

/// The greedy placement of the first `n` points with at least `gap` between neighbours:
/// the first point at the start of its interval, each next one as early as the gap allows
/// but not before its interval; `None` when a point cannot be placed before the end of
/// its interval.
pub open spec fn greedy_upto(points: Seq<(i128, i128)>, gap: int, n: int) -> Option<Seq<i128>>
    decreases n,
{
    if n <= 0 {
        Some(Seq::empty())
    } else if n == 1 {
        Some(seq![points[0].0])
    } else {
        match greedy_upto(points, gap, n - 1) {
            None => None,
            Some(arr) => {
                let next = arr.last() + gap;
                if next > points[n - 1].1 {
                    None
                } else {
                    Some(arr.push(if next >= points[n - 1].0 { next as i128 } else { points[n - 1].0 }))
                }
            },
        }
    }
}

pub open spec fn greedy(points: Seq<(i128, i128)>, gap: int) -> Option<Seq<i128>> {
    greedy_upto(points, gap, points.len() as int)
}

/// Every interval starts no later than it ends.
pub open spec fn valid_intervals(points: Seq<(i128, i128)>) -> bool {
    forall|i: int| 0 <= i < points.len() ==> (#[trigger] points[i]).0 <= points[i].1
}

/// An arrangement of the points: one position per point, the first at the start of its
/// interval, every other inside its interval and at least `gap` after the previous one.
pub open spec fn spaced_arrangement(points: Seq<(i128, i128)>, gap: int, arr: Seq<i128>) -> bool {
    &&& arr.len() == points.len()
    &&& points.len() > 0 ==> arr[0] == points[0].0
    &&& forall|i: int| 1 <= i < arr.len() ==> points[i].0 <= #[trigger] arr[i] <= points[i].1
    &&& forall|i: int| 1 <= i < arr.len() ==> #[trigger] arr[i] - arr[i - 1] >= gap
}

/// The greedy placement, when it succeeds, keeps each point in its interval and
/// neighbours at least the gap apart.
pub proof fn lemma_greedy_spaced(points: Seq<(i128, i128)>, gap: int, n: int)
    requires
        0 <= n <= points.len(),
        valid_intervals(points),
    ensures
        greedy_upto(points, gap, n) matches Some(arr) ==> spaced_arrangement(points.take(n), gap, arr),
    decreases n,
{
    if n > 1 {
        lemma_greedy_spaced(points, gap, n - 1);
        if let Some(arr) = greedy_upto(points, gap, n) {
            let prev = greedy_upto(points, gap, n - 1)->Some_0;
            assert(arr.drop_last() =~= prev);
            assert forall|i: int| 1 <= i < arr.len() implies points.take(n)[i].0 <= #[trigger] arr[i] <= points.take(n)[i].1 by {
                if i < n - 1 {
                    assert(arr[i] == prev[i]);
                    assert(points.take(n - 1)[i] == points.take(n)[i]);
                } else {
                    assert(points.take(n)[i] == points[n - 1]);
                    assert(points[n - 1].0 <= points[n - 1].1);
                }
            }
            assert forall|i: int| 1 <= i < arr.len() implies #[trigger] arr[i] - arr[i - 1] >= gap by {
                if i < n - 1 {
                    assert(arr[i] == prev[i]);
                    assert(arr[i - 1] == prev[i - 1]);
                }
            }
        }
    }
}

/// Any placement of the points, in the order given, inside their intervals with at least
/// `gap` between neighbours.
pub open spec fn fits_with_gap(points: Seq<(i128, i128)>, gap: int, a: Seq<int>) -> bool {
    &&& a.len() == points.len()
    &&& forall|i: int| 0 <= i < a.len() ==> points[i].0 <= #[trigger] a[i] <= points[i].1
    &&& forall|i: int| 1 <= i < a.len() ==> #[trigger] a[i] - a[i - 1] >= gap
}

/// The greedy placement puts each point no later than any placement that fits does, and
/// so succeeds wherever one fits.
proof fn lemma_greedy_earliest(points: Seq<(i128, i128)>, gap: int, a: Seq<int>, n: int)
    requires
        fits_with_gap(points, gap, a),
        1 <= n <= points.len(),
    ensures
        greedy_upto(points, gap, n) matches Some(arr) && arr.len() == n && forall|i: int|
            0 <= i < n ==> #[trigger] arr[i] <= a[i],
    decreases n,
{
    if n > 1 {
        lemma_greedy_earliest(points, gap, a, n - 1);
        let prev = greedy_upto(points, gap, n - 1)->Some_0;
        assert(a[n - 1] - a[n - 2] >= gap);
        assert(prev[n - 2] <= a[n - 2]);
        let arr = greedy_upto(points, gap, n)->Some_0;
        assert forall|i: int| 0 <= i < n implies #[trigger] arr[i] <= a[i] by {
            if i < n - 1 {
                assert(arr[i] == prev[i]);
            }
        }
    } else {
        assert(points[0].0 <= a[0]);
    }
}

/// Neighbours at least a positive gap apart put the last point at least that gap after
/// the first.
proof fn lemma_fits_spread(points: Seq<(i128, i128)>, gap: int, a: Seq<int>, k: int)
    requires
        fits_with_gap(points, gap, a),
        gap > 0,
        1 <= k < a.len(),
    ensures
        a[k] - a[0] >= gap,
    decreases k,
{
    assert(a[k] - a[k - 1] >= gap);
    if k > 1 {
        lemma_fits_spread(points, gap, a, k - 1);
    }
}

/// Whether all points fit with at least `min_gap` between neighbours, by the greedy
/// placement; the arrangement when they do. The points are taken in the order given.
pub fn can_place_points_with_arrangement(points: &[(i128, i128)], min_gap: i128) -> (r: Option<Vec<i128>>)
    requires
        intervals_in_bounds(points@),
        in_bounds(min_gap as int) || -2 * time_bound() <= min_gap <= 2 * time_bound(),
    ensures
        match (r, greedy(points@, min_gap as int)) {
            (Some(a), Some(g)) => a@ == g,
            (None, None) => true,
            _ => false,
        },
        r matches Some(a) ==> a@.len() == points@.len() && forall|j: int| 0 <= j < a@.len() ==> in_bounds(#[trigger] a@[j] as int),
{
    if points.len() == 0 {
        return Some(Vec::new());
    }
    let mut last = points[0].0;
    let mut arrangement: Vec<i128> = Vec::new();
    arrangement.push(last);
    let mut i: usize = 1;
    while i < points.len()
        invariant
            1 <= i <= points.len(),
            intervals_in_bounds(points@),
            -2 * time_bound() <= min_gap <= 2 * time_bound(),
            greedy_upto(points@, min_gap as int, i as int) == Some(arrangement@),
            arrangement.len() == i,
            last == arrangement@.last(),
            in_bounds(last as int),
            forall|j: int| 0 <= j < arrangement@.len() ==> in_bounds(#[trigger] arrangement@[j] as int),
        decreases points.len() - i,
    {
        let (start, end) = points[i];
        let next = last + min_gap;
        if next > end {
            proof {
                lemma_greedy_none_persists(points@, min_gap as int, i as int + 1);
            }
            return None;
        }
        last = if next >= start {
            next
        } else {
            start
        };
        arrangement.push(last);
        i += 1;
    }
    Some(arrangement)
}

proof fn lemma_greedy_none_persists(points: Seq<(i128, i128)>, gap: int, n: int)
    requires
        1 <= n <= points.len(),
        greedy_upto(points, gap, n) is None,
    ensures
        greedy(points, gap) is None,
    decreases points.len() - n,
{
    if n < points.len() {
        lemma_greedy_none_persists(points, gap, n + 1);
    }
}

pub open spec fn gap_span(lo: int, hi: int) -> nat {
    if lo <= hi {
        (hi - lo + 1) as nat
    } else {
        0
    }
}

/// The binary search for the largest gap the greedy placement achieves, between `lo` and
/// `hi`, in steps of `delta`: the middle gap is tried; when it fits, larger gaps are
/// searched and it becomes the best so far, otherwise smaller ones are.
pub open spec fn gap_search(
    points: Seq<(i128, i128)>,
    lo: int,
    hi: int,
    delta: int,
    best: Option<(int, Seq<i128>)>,
) -> Option<(int, Seq<i128>)>
    decreases gap_span(lo, hi),
{
    if delta <= 0 || lo > hi {
        best
    } else {
        let mid = (lo + hi) / 2;
        match greedy(points, mid) {
            Some(arr) => gap_search(points, mid + delta, hi, delta, Some((mid, arr))),
            None => gap_search(points, lo, mid - delta, delta, best),
        }
    }
}

/// The best gap found is one the greedy placement achieves, with its arrangement.
pub proof fn lemma_gap_search_feasible(
    points: Seq<(i128, i128)>,
    lo: int,
    hi: int,
    delta: int,
    best: Option<(int, Seq<i128>)>,
)
    requires
        best matches Some((g, a)) ==> greedy(points, g) == Some(a) && g >= lo - delta,
    ensures
        gap_search(points, lo, hi, delta, best) matches Some((g, a)) ==> greedy(points, g) == Some(a) && (g >= lo
            || best == Some((g, a))),
    decreases gap_span(lo, hi),
{
    if delta > 0 && lo <= hi {
        let mid = (lo + hi) / 2;
        match greedy(points, mid) {
            Some(arr) => lemma_gap_search_feasible(points, mid + delta, hi, delta, Some((mid, arr))),
            None => lemma_gap_search_feasible(points, lo, mid - delta, delta, best),
        }
    }
}

pub open spec fn with_unit(points: Seq<(i128, i128)>) -> Seq<((), (i128, i128))> {
    points.map_values(|p: (i128, i128)| ((), p))
}

pub open spec fn intervals_of<T>(s: Seq<(T, (i128, i128))>) -> Seq<(i128, i128)> {
    s.map_values(|x: (T, (i128, i128))| x.1)
}

/// The points sorted by right endpoint, keeping equal endpoints in order.
pub open spec fn sorted_points(points: Seq<(i128, i128)>) -> Seq<(i128, i128)> {
    intervals_of(sort_by_end(with_unit(points)))
}

/// The result of the search for the largest gap between the points, from `initial_gap` up
/// to the span of the points, in steps of `delta`.
pub open spec fn max_min_gap(points: Seq<(i128, i128)>, delta: int, initial_gap: int) -> Option<(int, Seq<i128>)> {
    let sorted = sorted_points(points);
    gap_search(sorted, initial_gap, sorted.last().1 - sorted[0].0, delta, None)
}

fn half_floor(x: i128) -> (r: i128)
    requires
        -8 * time_bound() <= x <= 8 * time_bound(),
    ensures
        r == x / 2,
{
    if x >= 0 {
        x / 2
    } else {
        let y: i128 = 1 - x;
        let h: i128 = y / 2;
        proof {
            assert(y == 2 * h || y == 2 * h + 1);
            assert(x == 1 - y);
        }
        -h
    }
}

proof fn lemma_sort_preserves_bounds<T>(s: Seq<(T, (i128, i128))>)
    requires
        intervals_in_bounds(intervals_of(s)),
    ensures
        intervals_in_bounds(intervals_of(sort_by_end(s))),
        sort_by_end(s).len() == s.len(),
{
    broadcast use vstd::seq_lib::group_to_multiset_ensures;
    lemma_sort_by_end(s);
    let t = sort_by_end(s);
    assert forall|i: int| 0 <= i < t.len() implies in_bounds((#[trigger] intervals_of(t)[i]).0 as int) && in_bounds(
        intervals_of(t)[i].1 as int,
    ) by {
        assert(t.to_multiset().count(t[i]) > 0);
        assert(s.to_multiset().count(t[i]) > 0);
        assert(s.contains(t[i]));
        let j = choose|j: int| 0 <= j < s.len() && s[j] == t[i];
        assert(intervals_of(s)[j] == s[j].1);
    }
}

/// The largest gap the greedy placement of the points (sorted by right endpoint) achieves,
/// searched from `initial_gap` in steps of `delta`, with its arrangement; `None` when no
/// tried gap fits.
pub fn find_max_min_gap_and_arrangement(points: Vec<(i128, i128)>, delta: i128, initial_gap: i128) -> (r: Option<
    (i128, Vec<i128>),
>)
    requires
        points.len() > 0,
        0 < delta <= time_bound(),
        in_bounds(initial_gap as int),
        intervals_in_bounds(points@),
    ensures
        match (r, max_min_gap(points@, delta as int, initial_gap as int)) {
            (Some((g, a)), Some((g2, a2))) => g == g2 && a@ == a2,
            (None, None) => true,
            _ => false,
        },
        r matches Some((g, a)) ==> initial_gap <= g <= 2 * time_bound() && a@.len() == points@.len() && forall|j: int|
            0 <= j < a@.len() ==> in_bounds(#[trigger] a@[j] as int),
{
    let mut tagged: Vec<((), (i128, i128))> = Vec::new();
    let mut i: usize = 0;
    while i < points.len()
        invariant
            0 <= i <= points.len(),
            tagged@ == with_unit(points@.take(i as int)),
        decreases points.len() - i,
    {
        tagged.push(((), points[i]));
        proof {
            assert(with_unit(points@.take(i + 1)) =~= with_unit(points@.take(i as int)).push(((), points@[i as int])));
        }
        i += 1;
    }
    proof {
        assert(points@.take(points.len() as int) =~= points@);
        assert(intervals_of(with_unit(points@)) =~= points@);
        lemma_sort_preserves_bounds(with_unit(points@));
    }
    let sorted_tagged = sort_by_end_exec(&tagged);
    let mut sorted: Vec<(i128, i128)> = Vec::new();
    let mut i: usize = 0;
    while i < sorted_tagged.len()
        invariant
            0 <= i <= sorted_tagged.len(),
            sorted@ == intervals_of(sorted_tagged@.take(i as int)),
        decreases sorted_tagged.len() - i,
    {
        sorted.push(sorted_tagged[i].1);
        proof {
            assert(intervals_of(sorted_tagged@.take(i + 1)) =~= intervals_of(sorted_tagged@.take(i as int)).push(
                sorted_tagged@[i as int].1,
            ));
        }
        i += 1;
    }
    proof {
        assert(sorted_tagged@.take(sorted_tagged.len() as int) =~= sorted_tagged@);
    }
    let ghost sp = sorted@;
    let n = sorted.len();
    let mut min_gap = initial_gap;
    let mut max_gap = sorted[n - 1].1 - sorted[0].0;
    let mut best_gap = min_gap;
    let mut arrangement: Option<Vec<i128>> = None;
    let ghost target = gap_search(sp, min_gap as int, max_gap as int, delta as int, None);
    while min_gap <= max_gap
        invariant
            sp == sorted@,
            intervals_in_bounds(sp),
            0 < delta <= time_bound(),
            -time_bound() <= min_gap <= 3 * time_bound(),
            -3 * time_bound() <= max_gap <= 2 * time_bound(),
            target == gap_search(
                sp,
                min_gap as int,
                max_gap as int,
                delta as int,
                match arrangement {
                    Some(a) => Some((best_gap as int, a@)),
                    None => None,
                },
            ),
            initial_gap <= min_gap,
            arrangement matches Some(a) ==> initial_gap <= best_gap <= 2 * time_bound() && a@.len() == sp.len() && forall|j: int|
                0 <= j < a@.len() ==> in_bounds(#[trigger] a@[j] as int),
            n == sp.len(),
            n == points.len(),
        decreases gap_span(min_gap as int, max_gap as int),
    {
        let mid = half_floor(min_gap + max_gap);
        match can_place_points_with_arrangement(sorted.as_slice(), mid) {
            Some(a) => {
                best_gap = mid;
                arrangement = Some(a);
                min_gap = mid + delta;
            },
            None => {
                max_gap = mid - delta;
            },
        }
    }
    match arrangement {
        Some(a) => Some((best_gap, a)),
        None => None,
    }
}

/// A sequence already sorted by right endpoint is left as it is.
proof fn lemma_sort_sorted<T>(s: Seq<(T, (i128, i128))>)
    requires
        sorted_by_end(s),
    ensures
        sort_by_end(s) == s,
    decreases s.len(),
{
    if s.len() > 0 {
        let init = s.drop_last();
        assert(sorted_by_end(init));
        lemma_sort_sorted(init);
        let key = s.last().1.1;
        if init.len() > 0 {
            assert(init[init.len() - 1].1.1 <= key);
        }
        assert(end_position(init, key, init.len() as int) == init.len());
        assert(init.take(init.len() as int).push(s.last()) + init.skip(init.len() as int) =~= s);
    }
}

/// The due time chosen for sibling `i` (in order of right endpoint): as late as its
/// interval allows while staying at least `gap` before the next sibling's place in the
/// arrangement; the last sibling at the end of its interval.
pub open spec fn dispersed_position<T>(sorted: Seq<(T, (i128, i128))>, arr: Seq<i128>, gap: int, i: int) -> int {
    if i < sorted.len() - 1 {
        let limit = arr[i + 1] - gap;
        if sorted[i].1.1 <= limit {
            sorted[i].1.1 as int
        } else {
            limit
        }
    } else {
        sorted[i].1.1 as int
    }
}

/// Chooses a due time for each sibling inside its interval `(earliest, latest)` so that the
/// smallest distance between consecutive siblings is as large as the search finds, and the
/// siblings are then pushed as late as that allows. The siblings come back sorted by the
/// end of their interval, each with its due time, together with the smallest distance;
/// `None` when no tried distance fits.
pub fn maximize_siblings_due_gap<T: Copy>(data: Vec<(T, (i128, i128))>, delta: i128, initial_gap: i128) -> (r: Option<
    (Vec<(T, i128)>, i128),
>)
    requires
        data.len() > 0,
        0 < delta <= time_bound(),
        in_bounds(initial_gap as int),
        intervals_in_bounds(intervals_of(data@)),
    ensures
        ({
            let sorted = sort_by_end(data@);
            match (r, max_min_gap(intervals_of(sorted), delta as int, initial_gap as int)) {
                (Some((out, g)), Some((g2, arr))) => {
                    &&& g == g2
                    &&& out.len() == sorted.len()
                    &&& forall|i: int|
                        0 <= i < out.len() ==> (#[trigger] out@[i]).0 == sorted[i].0 && out@[i].1 == dispersed_position(
                            sorted,
                            arr,
                            g as int,
                            i,
                        )
                    &&& out@.last().1 == sorted.last().1.1
                    &&& forall|i: int|
                        0 <= i < out.len() - 1 ==> {
                            &&& (#[trigger] out@[i]).1 <= sorted[i].1.1
                            &&& out@[i].1 <= arr[i + 1] - g
                            &&& out@[i].1 == sorted[i].1.1 || out@[i].1 == arr[i + 1] - g
                        }
                },
                (None, None) => true,
                _ => false,
            }
        }),
{
    let sorted = sort_by_end_exec(&data);
    proof {
        lemma_sort_preserves_bounds(data@);
        lemma_sort_by_end(data@);
    }
    let mut intervals: Vec<(i128, i128)> = Vec::new();
    let mut i: usize = 0;
    while i < sorted.len()
        invariant
            0 <= i <= sorted.len(),
            intervals@ == intervals_of(sorted@.take(i as int)),
        decreases sorted.len() - i,
    {
        intervals.push(sorted[i].1);
        proof {
            assert(intervals_of(sorted@.take(i + 1)) =~= intervals_of(sorted@.take(i as int)).push(sorted@[i as int].1));
        }
        i += 1;
    }
    proof {
        assert(sorted@.take(sorted.len() as int) =~= sorted@);
        let w = with_unit(intervals@);
        assert(sorted_by_end(w)) by {
            assert forall|a: int, b: int| 0 <= a <= b < w.len() implies w[a].1.1 <= w[b].1.1 by {
                assert(w[a].1 == sorted@[a].1);
                assert(w[b].1 == sorted@[b].1);
            }
        }
        lemma_sort_sorted(w);
        assert(intervals_of(w) =~= intervals@);
    }
    let solution = find_max_min_gap_and_arrangement(intervals, delta, initial_gap);
    match solution {
        None => None,
        Some((g, arr)) => {
            let n = sorted.len();
            let mut out: Vec<(T, i128)> = Vec::new();
            let mut i: usize = 0;
            while i < n
                invariant
                    0 <= i <= n,
                    n == sorted.len(),
                    arr.len() == n,
                    initial_gap <= g <= 2 * time_bound(),
                    -time_bound() <= initial_gap,
                    forall|j: int| 0 <= j < arr@.len() ==> in_bounds(#[trigger] arr@[j] as int),
                    intervals_in_bounds(intervals_of(sorted@)),
                    out.len() == i,
                    forall|j: int|
                        0 <= j < i ==> (#[trigger] out@[j]).0 == sorted@[j].0 && out@[j].1 == dispersed_position(
                            sorted@,
                            arr@,
                            g as int,
                            j,
                        ),
                decreases n - i,
            {
                let (info, (_left, right)) = sorted[i];
                let pos = if i < n - 1 {
                    let limit = arr[i + 1] - g;
                    if right <= limit {
                        right
                    } else {
                        limit
                    }
                } else {
                    right
                };
                out.push((info, pos));
                i += 1;
            }
            Some((out, g))
        },
    }
}

proof fn lemma_sort_keeps_valid<T>(s: Seq<(T, (i128, i128))>)
    requires
        valid_intervals(intervals_of(s)),
    ensures
        valid_intervals(intervals_of(sort_by_end(s))),
{
    broadcast use vstd::seq_lib::group_to_multiset_ensures;
    lemma_sort_by_end(s);
    let t = sort_by_end(s);
    assert forall|i: int| 0 <= i < t.len() implies (#[trigger] intervals_of(t)[i]).0 <= intervals_of(t)[i].1 by {
        assert(t.to_multiset().count(t[i]) > 0);
        assert(s.contains(t[i]));
        let j = choose|j: int| 0 <= j < s.len() && s[j] == t[i];
        assert(intervals_of(s)[j] == s[j].1);
    }
}

/// Dispersing siblings keeps each due time inside its sibling's interval and consecutive
/// due times at least the found gap apart.
pub proof fn lemma_dispersed_spacing<T>(data: Seq<(T, (i128, i128))>, delta: int, initial_gap: int)
    requires
        data.len() > 0,
        valid_intervals(intervals_of(data)),
    ensures
        ({
            let sorted = sort_by_end(data);
            match max_min_gap(intervals_of(sorted), delta, initial_gap) {
                Some((g, arr)) => {
                    &&& forall|i: int|
                        0 <= i < sorted.len() ==> sorted[i].1.0 <= #[trigger] dispersed_position(sorted, arr, g, i)
                            <= sorted[i].1.1
                    &&& forall|i: int|
                        0 <= i < sorted.len() - 1 ==> #[trigger] dispersed_position(sorted, arr, g, i + 1)
                            - dispersed_position(sorted, arr, g, i) >= g
                },
                None => true,
            }
        }),
{
    let sorted = sort_by_end(data);
    lemma_sort_by_end(data);
    lemma_sort_keeps_valid(data);
    let p = intervals_of(sorted);
    let w = with_unit(p);
    assert(sorted_by_end(w)) by {
        assert forall|a: int, b: int| 0 <= a <= b < w.len() implies w[a].1.1 <= w[b].1.1 by {
            assert(w[a].1 == sorted[a].1);
            assert(w[b].1 == sorted[b].1);
        }
    }
    lemma_sort_sorted(w);
    assert(intervals_of(w) =~= p);
    assert(sorted_points(p) == p);
    lemma_gap_search_feasible(p, initial_gap, p.last().1 - p[0].0, delta, None);
    if let Some((g, arr)) = max_min_gap(p, delta, initial_gap) {
        lemma_greedy_spaced(p, g, p.len() as int);
        assert(p.take(p.len() as int) =~= p);
        let n = sorted.len() as int;
        assert forall|i: int| 0 <= i < n implies sorted[i].1.0 <= #[trigger] dispersed_position(sorted, arr, g, i)
            <= sorted[i].1.1 by {
            assert(p[i] == sorted[i].1);
            if i < n - 1 {
                assert(p[i + 1] == sorted[i + 1].1);
                assert(arr[i + 1] - arr[i] >= g);
            }
        }
        assert forall|i: int| 0 <= i < n - 1 implies #[trigger] dispersed_position(sorted, arr, g, i + 1)
            - dispersed_position(sorted, arr, g, i) >= g by {
            assert(p[i + 1] == sorted[i + 1].1);
            assert(p[i + 1].0 <= arr[i + 1] <= p[i + 1].1);
            if i + 1 < n - 1 {
                assert(arr[i + 2] - arr[i + 1] >= g);
            }
        }
    }
}

/// Dispersed siblings are pushed as late as the gap allows: the sibling whose interval ends
/// last is due at the end of its interval, and every other sibling at the end of its
/// interval or, where that comes too close, exactly the gap before the next sibling's place
/// in the greedy placement at the found gap, whichever is earlier.
pub proof fn lemma_dispersed_as_late_as_allowed<T>(data: Seq<(T, (i128, i128))>, delta: int, initial_gap: int)
    requires
        data.len() > 0,
    ensures
        ({
            let sorted = sort_by_end(data);
            let n = sorted.len() as int;
            match max_min_gap(intervals_of(sorted), delta, initial_gap) {
                Some((g, arr)) => {
                    &&& n == data.len()
                    &&& greedy(intervals_of(sorted), g) == Some(arr)
                    &&& forall|j: int| 0 <= j < n ==> (#[trigger] sorted[j]).1.1 <= sorted[n - 1].1.1
                    &&& dispersed_position(sorted, arr, g, n - 1) == sorted[n - 1].1.1
                    &&& forall|i: int|
                        0 <= i < n - 1 ==> {
                            let p = #[trigger] dispersed_position(sorted, arr, g, i);
                            &&& p <= sorted[i].1.1
                            &&& p <= arr[i + 1] - g
                            &&& p == sorted[i].1.1 || p == arr[i + 1] - g
                        }
                },
                None => true,
            }
        }),
{
    let sorted = sort_by_end(data);
    lemma_sort_by_end(data);
    let p = intervals_of(sorted);
    let w = with_unit(p);
    assert(sorted_by_end(w)) by {
        assert forall|a: int, b: int| 0 <= a <= b < w.len() implies w[a].1.1 <= w[b].1.1 by {
            assert(w[a].1 == sorted[a].1);
            assert(w[b].1 == sorted[b].1);
        }
    }
    lemma_sort_sorted(w);
    assert(intervals_of(w) =~= p);
    assert(sorted_points(p) == p);
    lemma_gap_search_feasible(p, initial_gap, p.last().1 - p[0].0, delta, None);
    let n = sorted.len() as int;
    assert forall|j: int| 0 <= j < n implies (#[trigger] sorted[j]).1.1 <= sorted[n - 1].1.1 by {
        assert(w[j].1 == sorted[j].1);
        assert(w[n - 1].1 == sorted[n - 1].1);
    }
}

/// What the search keeps: no placement fits with a gap of `hi + delta` or more, and the
/// lower end of the search lies one step above the best gap so far, or at `init` before
/// any gap fitted.
proof fn lemma_gap_search_bound(
    points: Seq<(i128, i128)>,
    lo: int,
    hi: int,
    delta: int,
    best: Option<(int, Seq<i128>)>,
    init: int,
)
    requires
        delta > 0,
        points.len() >= 1,
        forall|x: int, a: Seq<int>| x >= hi + delta ==> !#[trigger] fits_with_gap(points, x, a),
        best matches Some((g, _)) ==> lo == g + delta,
        best is None ==> lo == init,
    ensures
        match gap_search(points, lo, hi, delta, best) {
            Some((g, _)) => forall|x: int, a: Seq<int>| x >= g + 2 * delta ==> !#[trigger] fits_with_gap(points, x, a),
            None => forall|x: int, a: Seq<int>| x >= init + delta ==> !#[trigger] fits_with_gap(points, x, a),
        },
    decreases gap_span(lo, hi),
{
    if lo <= hi {
        let mid = (lo + hi) / 2;
        match greedy(points, mid) {
            Some(arr) => lemma_gap_search_bound(points, mid + delta, hi, delta, Some((mid, arr)), init),
            None => {
                assert forall|x: int, a: Seq<int>| x >= mid - delta + delta implies !#[trigger] fits_with_gap(
                    points,
                    x,
                    a,
                ) by {
                    if fits_with_gap(points, x, a) {
                        assert(fits_with_gap(points, mid, a));
                        lemma_greedy_earliest(points, mid, a, points.len() as int);
                    }
                }
                lemma_gap_search_bound(points, lo, mid - delta, delta, best, init);
            },
        }
    }
}

/// The search comes within two steps of the best: with at least two siblings, no placement
/// of them in order of the end of their intervals keeps neighbours `2 * delta` or more
/// beyond the gap found; and when no gap is found, none keeps them `initial_gap + delta`
/// apart.
pub proof fn lemma_max_min_gap_near_best(points: Seq<(i128, i128)>, delta: int, initial_gap: int)
    requires
        points.len() >= 2,
        valid_intervals(points),
        delta > 0,
    ensures
        ({
            let sorted = sorted_points(points);
            match max_min_gap(points, delta, initial_gap) {
                Some((g, _)) => forall|x: int, a: Seq<int>|
                    x >= g + 2 * delta ==> !#[trigger] fits_with_gap(sorted, x, a),
                None => forall|x: int, a: Seq<int>|
                    x >= initial_gap + delta ==> !#[trigger] fits_with_gap(sorted, x, a),
            }
        }),
{
    let w = with_unit(points);
    assert(intervals_of(w) =~= points);
    lemma_sort_by_end(w);
    lemma_sort_keeps_valid(w);
    let t = sort_by_end(w);
    let sorted = sorted_points(points);
    let n = sorted.len() as int;
    assert(n == points.len());
    assert(sorted[0] == t[0].1);
    assert(sorted[n - 1] == t[n - 1].1);
    assert(t[0].1.1 <= t[n - 1].1.1);
    assert(sorted[0].0 <= sorted[0].1);
    let span = sorted.last().1 - sorted[0].0;
    assert forall|x: int, a: Seq<int>| x >= span + delta implies !#[trigger] fits_with_gap(sorted, x, a) by {
        if fits_with_gap(sorted, x, a) {
            lemma_fits_spread(sorted, x, a, n - 1);
            assert(a[n - 1] <= sorted[n - 1].1);
            assert(a[0] >= sorted[0].0);
        }
    }
    lemma_gap_search_bound(sorted, initial_gap, span, delta, None, initial_gap);
}

/// The latest of the times, for a non-empty sequence.
pub open spec fn seq_max(s: Seq<i128>) -> i128
    decreases s.len(),
{
    if s.len() <= 1 {
        s[0]
    } else if s.last() >= seq_max(s.drop_last()) {
        s.last()
    } else {
        seq_max(s.drop_last())
    }
}

/// The due ranges of the siblings, each with its card id, and, when any sibling was
/// reviewed, a pseudo-sibling without id due exactly at the latest review.
pub open spec fn with_latest_review(ranges: Seq<(i64, (i128, i128))>, reviewed_ats: Seq<i128>) -> Seq<
    (Option<i64>, (i128, i128)),
> {
    ranges.map_values(|r: (i64, (i128, i128))| (Some(r.0), r.1)) + if reviewed_ats.len() > 0 {
        seq![(None, (seq_max(reviewed_ats), seq_max(reviewed_ats)))]
    } else {
        Seq::empty()
    }
}

/// The entries that belong to a card, with its id, in order.
pub open spec fn cards_only(s: Seq<(Option<i64>, i128)>) -> Seq<(i64, i128)>
    decreases s.len(),
{
    if s.len() == 0 {
        Seq::empty()
    } else {
        let r = cards_only(s.drop_last());
        match s.last().0 {
            Some(id) => r.push((id, s.last().1)),
            None => r,
        }
    }
}

/// A day in nanoseconds.
pub open spec fn day() -> int {
    86_400_000_000_000
}

/// The dispersed due time of each entry of `sorted`, with its id.
pub open spec fn dispersed_entries(sorted: Seq<(Option<i64>, (i128, i128))>, arr: Seq<i128>, g: int) -> Seq<
    (Option<i64>, i128),
> {
    Seq::new(sorted.len(), |i: int| (sorted[i].0, dispersed_position(sorted, arr, g, i) as i128))
}

proof fn lemma_seq_max_in(s: Seq<i128>)
    requires
        s.len() > 0,
    ensures
        s.contains(seq_max(s)),
    decreases s.len(),
{
    if s.len() > 1 {
        lemma_seq_max_in(s.drop_last());
        if s.last() < seq_max(s.drop_last()) {
            let j = choose|j: int| 0 <= j < s.drop_last().len() && s.drop_last()[j] == seq_max(s.drop_last());
            assert(s[j] == seq_max(s));
        } else {
            assert(s[s.len() - 1] == seq_max(s));
        }
    } else {
        assert(s[0] == seq_max(s));
    }
}

/// Disperses the siblings of a card, given the due range of each (by card id) and the times
/// at which they were reviewed: a pseudo-sibling is placed at the latest review so that no
/// sibling falls due too close to it, the gap is searched in steps of a day from zero, and
/// each card gets its dispersed due time, in order of the end of its due range. `None` when
/// the due ranges are too close to disperse.
pub fn disperse_siblings_distance(ranges: Vec<(i64, (i128, i128))>, reviewed_ats: Vec<i128>) -> (r: Option<
    Vec<(i64, i128)>,
>)
    requires
        ranges.len() > 0 || reviewed_ats.len() > 0,
        intervals_in_bounds(ranges@.map_values(|r: (i64, (i128, i128))| r.1)),
        forall|i: int| 0 <= i < reviewed_ats.len() ==> in_bounds(#[trigger] reviewed_ats@[i] as int),
    ensures
        ({
            let sorted = sort_by_end(with_latest_review(ranges@, reviewed_ats@));
            match max_min_gap(intervals_of(sorted), day(), 0) {
                None => r is None,
                Some((g, arr)) => r matches Some(v) && v@ == cards_only(dispersed_entries(sorted, arr, g)),
            }
        }),
{
    let ghost rv = ranges@;
    let mut data: Vec<(Option<i64>, (i128, i128))> = Vec::new();
    let mut i: usize = 0;
    while i < ranges.len()
        invariant
            0 <= i <= ranges.len(),
            rv == ranges@,
            data@ == rv.take(i as int).map_values(|r: (i64, (i128, i128))| (Some(r.0), r.1)),
        decreases ranges.len() - i,
    {
        let (id, range) = ranges[i];
        data.push((Some(id), range));
        proof {
            assert(rv.take(i + 1).map_values(|r: (i64, (i128, i128))| (Some(r.0), r.1)) =~= rv.take(i as int).map_values(
                |r: (i64, (i128, i128))| (Some(r.0), r.1),
            ).push((Some(id), range)));
        }
        i += 1;
    }
    proof {
        assert(rv.take(rv.len() as int) =~= rv);
    }
    if reviewed_ats.len() > 0 {
        let mut latest = reviewed_ats[0];
        let mut j: usize = 1;
        proof {
            assert(reviewed_ats@.take(1).drop_last() =~= Seq::<i128>::empty());
        }
        while j < reviewed_ats.len()
            invariant
                1 <= j <= reviewed_ats.len(),
                latest == seq_max(reviewed_ats@.take(j as int)),
            decreases reviewed_ats.len() - j,
        {
            proof {
                assert(reviewed_ats@.take(j + 1).drop_last() =~= reviewed_ats@.take(j as int));
            }
            if reviewed_ats[j] >= latest {
                latest = reviewed_ats[j];
            }
            j += 1;
        }
        proof {
            assert(reviewed_ats@.take(reviewed_ats.len() as int) =~= reviewed_ats@);
            lemma_seq_max_in(reviewed_ats@);
        }
        data.push((None, (latest, latest)));
    }
    proof {
        let d = with_latest_review(rv, reviewed_ats@);
        assert(data@ =~= d);
        assert forall|k: int| 0 <= k < intervals_of(d).len() implies in_bounds((#[trigger] intervals_of(d)[k]).0 as int)
            && in_bounds(intervals_of(d)[k].1 as int) by {
            if k < rv.len() {
                assert(intervals_of(d)[k] == rv.map_values(|r: (i64, (i128, i128))| r.1)[k]);
            } else {
                let m = seq_max(reviewed_ats@);
                let j = choose|j: int| 0 <= j < reviewed_ats@.len() && reviewed_ats@[j] == m;
                assert(in_bounds(reviewed_ats@[j] as int));
            }
        }
    }
    match maximize_siblings_due_gap(data, 86_400_000_000_000, 0) {
        None => None,
        Some((out, _)) => {
            let ghost sorted = sort_by_end(with_latest_review(rv, reviewed_ats@));
            let ghost want = dispersed_entries(sorted, max_min_gap(intervals_of(sorted), day(), 0)->Some_0.1, max_min_gap(
                intervals_of(sorted),
                day(),
                0,
            )->Some_0.0);
            proof {
                assert(out@ =~= want);
            }
            let mut kept: Vec<(i64, i128)> = Vec::new();
            let mut k: usize = 0;
            while k < out.len()
                invariant
                    0 <= k <= out.len(),
                    out@ == want,
                    kept@ == cards_only(want.take(k as int)),
                decreases out.len() - k,
            {
                proof {
                    assert(want.take(k + 1).drop_last() =~= want.take(k as int));
                }
                let (id, due) = out[k];
                match id {
                    Some(card) => kept.push((card, due)),
                    None => {},
                }
                k += 1;
            }
            proof {
                assert(want.take(out.len() as int) =~= want);
            }
            Some(kept)
        },
    }
}

/// The due time of the first entry for card `id`, for a sequence that has one.
pub open spec fn first_due_of(v: Seq<(i64, i128)>, id: i64) -> i128
    decreases v.len(),
{
    if v.len() == 0 {
        0
    } else if v[0].0 == id {
        v[0].1
    } else {
        first_due_of(v.drop_first(), id)
    }
}

/// The new due time of the card being scheduled when easy days are off: its dispersed due
/// time, found by its id among the dispersed siblings; its current due time when the
/// siblings could not be dispersed.
pub fn main_card_new_due(main_card_id: i64, main_card_due: i128, dispersed: &Option<Vec<(i64, i128)>>) -> (r: i128)
    requires
        dispersed matches Some(v) ==> exists|k: int| 0 <= k < v.len() && (#[trigger] v@[k]).0 == main_card_id,
    ensures
        r == match dispersed {
            None => main_card_due,
            Some(v) => first_due_of(v@, main_card_id),
        },
{
    match dispersed {
        None => main_card_due,
        Some(v) => {
            let mut i: usize = 0;
            proof {
                assert(v@.skip(0) =~= v@);
            }
            while i < v.len()
                invariant
                    0 <= i <= v.len(),
                    dispersed matches Some(w) && w@ == v@,
                    first_due_of(v@, main_card_id) == first_due_of(v@.skip(i as int), main_card_id),
                    exists|k: int| i <= k < v.len() && (#[trigger] v@[k]).0 == main_card_id,
                decreases v.len() - i,
            {
                proof {
                    assert(v@.skip(i as int).drop_first() =~= v@.skip(i + 1));
                    assert(v@.skip(i as int)[0] == v@[i as int]);
                }
                if v[i].0 == main_card_id {
                    proof {
                        assert(first_due_of(v@.skip(i as int), main_card_id) == v@[i as int].1);
                    }
                    return v[i].1;
                }
                i += 1;
            }
            0
        },
    }
}

} // verus!
