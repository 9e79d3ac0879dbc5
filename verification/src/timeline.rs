//! Which registered animation range governs a moment of scene time.
//!
//! Times are carried as comparison keys (see `depth::compare_key`); a range is the pair
//! of keys of its start time and of its end time (start + duration). Every test is the
//! IEEE comparison of the times: a NaN time compares false with everything.
use vstd::prelude::*;
use crate::depth::{at_least, key_at_least, key_less, less};

verus! {

/// Where a moment falls among the animation ranges registered on a plot.
#[derive(Debug, Clone, Copy, PartialEq, Eq, Structural)]
pub enum Phase {
    /// No range is registered.
    NoAnimation,
    /// Before the start of the first registered range.
    Before,
    /// At or after the end of the last registered range.
    After,
    /// Inside this range (the first registered one that contains the moment).
    Active(usize),
    /// Between ranges: no range contains the moment. Holds the last registered
    /// range that has already ended, if any.
    Gap(Option<usize>),
}

/// Range `k` contains moment `t`: `t >= start && t < end`.
pub open spec fn contains_moment(ranges: Seq<(Option<u64>, Option<u64>)>, k: int, t: Option<u64>) -> bool {
    at_least(t, ranges[k].0) && less(t, ranges[k].1)
}

/// The phase of moment `t` among `ranges`, in registration order: the first range's
/// start and the last range's end bound the animated period; inside it the first
/// range containing `t` governs; otherwise the last range already ended is held.
///
/// A NaN moment is neither before the first start nor at or after the last end, and no
/// range contains it or has ended by it: it falls in a gap with no range ended.
pub fn animation_phase(t: Option<u64>, ranges: &Vec<(Option<u64>, Option<u64>)>) -> (p: Phase)
    ensures
        ranges@.len() == 0 <==> p == Phase::NoAnimation,
        ranges@.len() > 0 ==> (p == Phase::Before <==> less(t, ranges@[0].0)),
        ranges@.len() > 0 ==> (p == Phase::After <==> (!less(t, ranges@[0].0) && at_least(
            t,
            ranges@.last().1,
        ))),
        p matches Phase::Active(k) ==> k < ranges@.len() && contains_moment(ranges@, k as int, t)
            && forall|j: int| 0 <= j < k ==> !contains_moment(ranges@, j, t),
        p matches Phase::Gap(g) ==> {
            &&& ranges@.len() > 0
            &&& !less(t, ranges@[0].0)
            &&& !at_least(t, ranges@.last().1)
            &&& forall|j: int| 0 <= j < ranges@.len() ==> !contains_moment(ranges@, j, t)
            &&& match g {
                Some(k) => k < ranges@.len() && at_least(t, ranges@[k as int].1) && forall|j: int|
                    k < j < ranges@.len() ==> !at_least(t, #[trigger] ranges@[j].1),
                None => forall|j: int|
                    0 <= j < ranges@.len() ==> !at_least(t, #[trigger] ranges@[j].1),
            }
        },
        ranges@.len() > 0 && !less(t, ranges@[0].0) && !at_least(t, ranges@.last().1) ==> (
        p is Active || p is Gap),
{
    let n = ranges.len();
    if n == 0 {
        return Phase::NoAnimation;
    }
    if key_less(t, ranges[0].0) {
        return Phase::Before;
    }
    if key_at_least(t, ranges[n - 1].1) {
        return Phase::After;
    }
    let mut last_ended: Option<usize> = None;
    let mut k: usize = 0;
    while k < n
        invariant
            n == ranges@.len(),
            n > 0,
            !less(t, ranges@[0].0),
            !at_least(t, ranges@[n - 1].1),
            k <= n,
            forall|j: int| 0 <= j < k ==> !contains_moment(ranges@, j, t),
            match last_ended {
                Some(e) => e < k && at_least(t, ranges@[e as int].1) && forall|j: int|
                    e < j < k ==> !at_least(t, #[trigger] ranges@[j].1),
                None => forall|j: int| 0 <= j < k ==> !at_least(t, #[trigger] ranges@[j].1),
            },
        decreases n - k,
    {
        let (start, end) = ranges[k];
        if key_at_least(t, start) && key_less(t, end) {
            return Phase::Active(k);
        }
        if key_at_least(t, end) {
            last_ended = Some(k);
        }
        k = k + 1;
    }
    Phase::Gap(last_ended)
}

} // verus!
