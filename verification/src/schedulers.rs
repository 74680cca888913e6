//! What every scheduler shares.

use crate::clozes::keys::str_eq;
use crate::disperse::{in_bounds, time_bound};
use crate::error::{LibraryError, SchedulerErrorKind};
use vstd::prelude::*;

verus! {

/// How many steps of `step` from `start` stay at or before `end`, the start included.
pub open spec fn stepped_count(start: int, end: int, step: int) -> nat {
    if start > end {
        0
    } else {
        ((end - start) / step + 1) as nat
    }
}

/// The durations from `start` to `end`, both included, `step` apart: `start`,
/// `start + step`, and so on while they do not pass `end`. Durations are counted in
/// nanoseconds.
pub fn stepped_range_inclusive(start: i128, end: i128, step: i128) -> (r: Vec<i128>)
    requires
        in_bounds(start as int),
        in_bounds(end as int),
        in_bounds(step as int),
        step > 0 || start > end,
    ensures
        r@.len() == stepped_count(start as int, end as int, step as int),
        forall|i: int| 0 <= i < r@.len() ==> #[trigger] r@[i] == start + i * step,
{
    let mut intervals: Vec<i128> = Vec::new();
    let mut current = start;
    assert(intervals@.len() * step == 0) by (nonlinear_arith)
        requires
            intervals@.len() == 0,
    ;
    while current <= end
        invariant
            in_bounds(start as int),
            in_bounds(end as int),
            in_bounds(step as int),
            step > 0 || start > end,
            start <= current,
            start > end ==> intervals@.len() == 0,
            current == start + intervals@.len() * step,
            intervals@.len() > 0 ==> current <= end + step,
            intervals@.len() == 0 ==> current == start,
            forall|i: int| 0 <= i < intervals@.len() ==> #[trigger] intervals@[i] == start + i * step,
        decreases end + step - current,
    {
        let ghost k = intervals@.len() as int;
        intervals.push(current);
        assert(start + (k + 1) * step == start + k * step + step) by (nonlinear_arith);
        current += step;
    }
    proof {
        let k = intervals@.len() as int;
        let d = end - start;
        let s = step as int;
        if start <= end {
            assert(k > 0);
            assert((k - 1) * s == k * s - s) by (nonlinear_arith);
            assert(d / s == k - 1) by (nonlinear_arith)
                requires
                    s > 0,
                    (k - 1) * s <= d,
                    d < k * s,
            {
                vstd::arithmetic::div_mod::lemma_fundamental_div_mod(d, s);
            }
        }
    }
    intervals
}

/// The schedulers of the library.
#[derive(Clone, Copy, Debug, PartialEq, Eq)]
pub enum SchedulerKind {
    Fsrs,
}

pub open spec fn scheduler_name(s: SchedulerKind) -> Seq<char> {
    match s {
        SchedulerKind::Fsrs => "fsrs"@,
    }
}

impl SchedulerKind {
    /// The name the scheduler is stored and asked for by.
    pub fn get_scheduler_name(&self) -> (r: &'static str)
        ensures
            r@ == scheduler_name(*self),
    {
        match self {
            SchedulerKind::Fsrs => "fsrs",
        }
    }
}

pub open spec fn all_schedulers() -> Seq<SchedulerKind> {
    seq![SchedulerKind::Fsrs]
}

/// All schedulers of the library.
pub fn get_all_schedulers() -> (r: Vec<SchedulerKind>)
    ensures
        r@ == all_schedulers(),
{
    let r = vec![SchedulerKind::Fsrs];
    proof {
        assert(r@ =~= all_schedulers());
    }
    r
}

/// The first scheduler named `scheduler_str`; not found when none has that name.
pub fn get_scheduler_from_string(scheduler_str: &str) -> (r: Result<SchedulerKind, LibraryError>)
    ensures
        match r {
            Ok(s) => exists|i: int|
                0 <= i < all_schedulers().len() && #[trigger] all_schedulers()[i] == s && scheduler_name(s)
                    == scheduler_str@ && forall|j: int| 0 <= j < i ==> scheduler_name(all_schedulers()[j]) != scheduler_str@,
            Err(e) => {
                &&& forall|i: int|
                    0 <= i < all_schedulers().len() ==> scheduler_name(#[trigger] all_schedulers()[i]) != scheduler_str@
                &&& e matches LibraryError::Scheduler(SchedulerErrorKind::NotFound(n)) && n@ == scheduler_str@
            },
        },
{
    let all = get_all_schedulers();
    let mut i: usize = 0;
    while i < all.len()
        invariant
            0 <= i <= all.len(),
            all@ == all_schedulers(),
            forall|j: int| 0 <= j < i ==> scheduler_name(#[trigger] all_schedulers()[j]) != scheduler_str@,
        decreases all.len() - i,
    {
        let s = all[i];
        if str_eq(s.get_scheduler_name(), scheduler_str) {
            return Ok(s);
        }
        i += 1;
    }
    Err(LibraryError::Scheduler(SchedulerErrorKind::NotFound(scheduler_str.to_string())))
}

} // verus!
