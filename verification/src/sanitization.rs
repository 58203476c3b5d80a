use vstd::prelude::*;
use crate::errors::GeometryError;
use crate::point::{step_direction, Point};
use crate::rect::RectDirection;

verus! {

/// The deduplication of a point sequence: every point keeps its first
/// occurrence, in order, and later repetitions are dropped.
pub open spec fn spec_dedup(s: Seq<Point>) -> Seq<Point>
    decreases s.len(),
{
    if s.len() == 0 {
        Seq::empty()
    } else {
        let front = spec_dedup(s.drop_last());
        if front.contains(s.last()) {
            front
        } else {
            front.push(s.last())
        }
    }
}

/// Whether the list holds the point.
fn contains_point(points: &Vec<Point>, p: Point) -> (r: bool)
    ensures
        r == points@.contains(p),
{
    let n: usize = points.len();
    let mut i: usize = 0;
    while i < n
        invariant
            n == points@.len(),
            i <= n,
            forall|j: int| 0 <= j < i as int ==> points@[j] != p,
        decreases n - i,
    {
        if points[i] == p {
            assert(points@.contains(p));
            return true;
        }
        i = i + 1;
    }
    assert(!points@.contains(p));
    false
}

/// Drops every repeated point, keeping first occurrences in their original
/// order.
pub fn deduplicate_points(points: Vec<Point>) -> (r: Vec<Point>)
    ensures
        r@ == spec_dedup(points@),
{
    let n: usize = points.len();
    let mut deduplicated_points: Vec<Point> = Vec::with_capacity(n);
    let mut i: usize = 0;
    while i < n
        invariant
            n == points@.len(),
            i <= n,
            deduplicated_points@ == spec_dedup(points@.take(i as int)),
        decreases n - i,
    {
        let ghost i0 = i as int;
        let p: Point = points[i];
        if !contains_point(&deduplicated_points, p) {
            deduplicated_points.push(p);
        }
        i = i + 1;
        proof {
            assert(points@.take(i as int).drop_last() =~= points@.take(i0));
            assert(points@.take(i as int).last() == points@[i0]);
            assert(deduplicated_points@ == spec_dedup(points@.take(i as int)));
        }
    }
    proof {
        assert(points@.take(n as int) =~= points@);
    }
    deduplicated_points
}

/// The deduplicated sequence holds no repeated point.
pub proof fn lemma_dedup_distinct(s: Seq<Point>)
    ensures
        forall|i: int, j: int| 0 <= i < j < spec_dedup(s).len()
            ==> spec_dedup(s)[i] != spec_dedup(s)[j],
        forall|p: Point| spec_dedup(s).contains(p) <==> s.contains(p),
        spec_dedup(s).len() == 0 <==> s.len() == 0,
    decreases s.len(),
{
    if s.len() > 0 {
        lemma_dedup_distinct(s.drop_last());
        let front = spec_dedup(s.drop_last());
        assert forall|p: Point| spec_dedup(s).contains(p) implies s.contains(p) by {
            if front.contains(p) {
                assert(s.drop_last().contains(p));
                let k = choose|k: int| 0 <= k < s.drop_last().len() && s.drop_last()[k] == p;
                assert(s[k] == p);
            } else {
                assert(p == s.last());
                assert(s[s.len() - 1] == p);
            }
        }
        assert forall|p: Point| s.contains(p) implies spec_dedup(s).contains(p) by {
            let k = choose|k: int| 0 <= k < s.len() && s[k] == p;
            if k < s.len() - 1 {
                assert(s.drop_last()[k] == p);
                assert(s.drop_last().contains(p));
                assert(front.contains(p));
                if !front.contains(s.last()) {
                    let k2 = choose|k2: int| 0 <= k2 < front.len() && front[k2] == p;
                    assert(spec_dedup(s)[k2] == p);
                }
            } else {
                if front.contains(s.last()) {
                    let k2 = choose|k2: int| 0 <= k2 < front.len() && front[k2] == p;
                    assert(spec_dedup(s)[k2] == p);
                } else {
                    assert(spec_dedup(s).last() == p);
                }
            }
        }
        if !front.contains(s.last()) {
            assert forall|i: int, j: int| 0 <= i < j < spec_dedup(s).len()
                implies spec_dedup(s)[i] != spec_dedup(s)[j] by {
                if j == spec_dedup(s).len() - 1 {
                    assert(spec_dedup(s)[j] == s.last());
                    assert(front[i] == spec_dedup(s)[i]);
                    if front[i] == s.last() {
                        assert(front.contains(s.last()));
                    }
                } else {
                    assert(front[i] == spec_dedup(s)[i] && front[j] == spec_dedup(s)[j]);
                }
            }
        }
    }
}

/// Checks that consecutive points are all placed one axis-aligned step from
/// each other, and yields the direction of every step; an invalid-corner
/// error at the first diagonal or zero step.
pub fn check_sequence_rectilinearity(points: &[Point]) -> (r: Result<Vec<RectDirection>, GeometryError>)
    ensures
        r is Ok <==> (forall|i: int| 0 <= i < points@.len() - 1
            ==> (#[trigger] step_direction(points@[i], points@[i + 1])) is Some),
        r is Err ==> r == Err::<Vec<RectDirection>, GeometryError>(GeometryError::InvalidCorner),
        r is Ok ==> {
            let dirs = r.unwrap()@;
            &&& dirs.len() == points@.len() - 1 || (points@.len() == 0 && dirs.len() == 0)
            &&& forall|i: int| 0 <= i < dirs.len()
                ==> #[trigger] dirs[i] == step_direction(points@[i], points@[i + 1]).unwrap()
        },
{
    let n: usize = points.len();
    let mut directions: Vec<RectDirection> = Vec::new();
    let mut i: usize = 0;
    while i + 1 < n
        invariant
            n == points@.len(),
            i + 1 <= n || n == 0,
            n == 0 ==> i == 0,
            directions@.len() == i as int,
            forall|j: int| 0 <= j < i as int
                ==> (#[trigger] step_direction(points@[j], points@[j + 1])) is Some,
            forall|j: int| 0 <= j < i as int
                ==> #[trigger] directions@[j] == step_direction(points@[j], points@[j + 1]).unwrap(),
        decreases n - i,
    {
        match points[i].simple_directions_to(&points[i + 1]) {
            Ok(d) => {
                directions.push(d);
            },
            Err(e) => {
                assert(!(step_direction(points@[i as int], points@[i as int + 1]) is Some));
                return Err(e);
            },
        }
        i = i + 1;
    }
    Ok(directions)
}

} // verus!
