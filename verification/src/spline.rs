//! Point selection for Catmull-Rom splines drawn as cubic Bezier segments.
use vstd::prelude::*;

verus! {

/// The four Catmull-Rom points (p0, p1, p2, p3) of segment `i` of a curve through
/// `n` points: the segment runs from point `i` to point `i + 1`, and the missing
/// neighbours at both ends are the end points themselves (phantom duplication).
pub open spec fn segment_points(i: int, n: int) -> (usize, usize, usize, usize) {
    (
        (if i == 0 {
            0
        } else {
            i - 1
        }) as usize,
        i as usize,
        (i + 1) as usize,
        (if i + 2 >= n {
            n - 1
        } else {
            i + 2
        }) as usize,
    )
}

/// The point indices of every segment of a Catmull-Rom curve through `n` points,
/// first segment first.
pub fn catmull_rom_segments(n: usize) -> (segments: Vec<(usize, usize, usize, usize)>)
    requires
        n >= 1,
    ensures
        segments@.len() == n - 1,
        forall|i: int| 0 <= i < n - 1 ==> #[trigger] segments@[i] == segment_points(i, n as int),
{
    let mut segments: Vec<(usize, usize, usize, usize)> = Vec::new();
    let mut i: usize = 0;
    while i < n - 1
        invariant
            n >= 1,
            i <= n - 1,
            segments@.len() == i,
            forall|k: int| 0 <= k < i ==> #[trigger] segments@[k] == segment_points(k, n as int),
        decreases n - 1 - i,
    {
        let p0 = if i == 0 {
            0
        } else {
            i - 1
        };
        let p3 = if i + 2 >= n {
            n - 1
        } else {
            i + 2
        };
        segments.push((p0, i, i + 1, p3));
        i = i + 1;
    }
    segments
}

/// Every point a segment refers to exists, and each segment starts where the
/// previous one ended, so the segments chain from the first point to the last.
pub proof fn lemma_segments_chain(n: int, i: int)
    requires
        2 <= n <= usize::MAX,
        0 <= i < n - 1,
    ensures
        segment_points(i, n).0 < n && segment_points(i, n).1 < n && segment_points(i, n).2 < n
            && segment_points(i, n).3 < n,
        i == 0 ==> segment_points(i, n).1 == 0,
        i == n - 2 ==> segment_points(i, n).2 == n - 1,
        i > 0 ==> segment_points(i, n).1 == segment_points(i - 1, n).2,
{
}

/// Segment `i` runs from point `i` to point `i + 1`; its outer control points are the
/// adjacent points (`i - 1` before, `i + 2` after) wherever they exist, and at the two ends
/// of the curve the end point itself stands in for the missing neighbour.
pub proof fn lemma_segment_neighbours(n: int, i: int)
    requires
        2 <= n <= usize::MAX,
        0 <= i < n - 1,
    ensures
        segment_points(i, n).1 == i,
        segment_points(i, n).2 == i + 1,
        i > 0 ==> segment_points(i, n).0 + 1 == segment_points(i, n).1,
        i == 0 ==> segment_points(i, n).0 == segment_points(i, n).1,
        i + 2 < n ==> segment_points(i, n).3 == segment_points(i, n).2 + 1,
        i + 2 == n ==> segment_points(i, n).3 == segment_points(i, n).2,
{
}

} // verus!
