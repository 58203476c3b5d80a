use vstd::prelude::*;
use crate::point::Point;

verus! {

/// Index `i` names the point with the maximum x-coordinate and, among the
/// points attaining it, the minimum y-coordinate.
pub open spec fn is_max_x_min_y(s: Seq<Point>, i: int) -> bool {
    &&& 0 <= i < s.len()
    &&& forall|j: int| 0 <= j < s.len() ==> (#[trigger] s[j]).x <= s[i].x
    &&& forall|j: int| 0 <= j < s.len() && (#[trigger] s[j]).x == s[i].x ==> s[i].y <= s[j].y
}

/// The first index of the point with maximal x-coordinate and, among those,
/// minimal y-coordinate: the canonical starting corner of a rectilinear
/// polygon.
pub fn find_max_x_min_y_point(points: &[Point]) -> (r: usize)
    requires
        points@.len() > 0,
    ensures
        is_max_x_min_y(points@, r as int),
        forall|j: int| 0 <= j < r as int ==> #[trigger] points@[j] != points@[r as int],
{
    let n: usize = points.len();
    let mut best: usize = 0;
    let mut ix: usize = 1;
    while ix < n
        invariant
            n == points@.len(),
            1 <= ix <= n,
            best < ix,
            forall|j: int| 0 <= j < ix as int ==> (#[trigger] points@[j]).x <= points@[best as int].x,
            forall|j: int| 0 <= j < ix as int && (#[trigger] points@[j]).x == points@[best as int].x
                ==> points@[best as int].y <= points@[j].y,
            forall|j: int| 0 <= j < best as int ==> #[trigger] points@[j] != points@[best as int],
        decreases n - ix,
    {
        let c: Point = points[ix];
        let b: Point = points[best];
        if c.x > b.x || (c.x == b.x && c.y < b.y) {
            best = ix;
        }
        ix = ix + 1;
    }
    best
}

} // verus!
