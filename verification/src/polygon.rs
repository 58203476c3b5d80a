use vstd::prelude::*;
use crate::errors::GeometryError;
use crate::extrema::{find_max_x_min_y_point, is_max_x_min_y};
use crate::point::{step_direction, Point};
use crate::rect::RectDirection;
use crate::rect_corner::{
    is_min_x_max_y, is_min_y_min_x, lemma_classify_injective, Corners, RectCorner,
    spec_rect_corner_new,
};
use crate::sanitization::{check_sequence_rectilinearity, deduplicate_points, lemma_dedup_distinct, spec_dedup};

verus! {

/// The index before `i` on a cycle of length `n`.
pub open spec fn prev_index(n: int, i: int) -> int {
    if i == 0 {
        n - 1
    } else {
        i - 1
    }
}

/// The index after `i` on a cycle of length `n`.
pub open spec fn next_index(n: int, i: int) -> int {
    if i == n - 1 {
        0
    } else {
        i + 1
    }
}

/// A closed rectilinear polygon: an ordered point list (each point one
/// axis-aligned step from the next, the last wrapping around to the first)
/// and the drawing layer it belongs to.
#[derive(Clone, Debug, PartialEq, Eq, Hash)]
pub struct Polygon {
    pub points: Vec<Point>,
    pub layer: u8,
}

/// A closed polygon outline as plain data, without the corner machinery.
#[derive(Clone, Debug, PartialEq, Eq, Hash)]
pub struct Poly {
    pub points: Vec<Point>,
    pub layer: u8,
}

/// Any of the plain shapes the geometry works with.
#[derive(Clone, Debug, PartialEq, Eq, Hash)]
pub enum Shape {
    Rect(crate::rect::Rect),
    Poly(Poly),
    Path(crate::path::Path),
}

/// Every point of the cycle forms a valid rectilinear corner with its two
/// cyclic neighbours.
pub open spec fn cyclic_corners_valid(s: Seq<Point>) -> bool {
    forall|i: int| 0 <= i < s.len()
        ==> (#[trigger] spec_rect_corner_new(s[prev_index(s.len() as int, i)],
            s[next_index(s.len() as int, i)], s[i])) is Ok
}

/// Consecutive corners chain: each corner's incoming edge direction is the
/// previous corner's outgoing edge direction.
pub open spec fn chained_corners(cs: Seq<RectCorner>) -> bool {
    forall|i: int| #![trigger cs[i], cs[i - 1]] 1 <= i < cs.len()
        ==> cs[i].corner_type.spec_incoming_part()
            == cs[i - 1].corner_type.spec_outgoing_part()
}

impl Polygon {
    /// The classified corner at vertex `ix`: its incoming neighbour, its
    /// outgoing neighbour and itself, taken cyclically.
    pub open spec fn spec_corner_at(self, ix: int) -> Result<RectCorner, GeometryError> {
        let n = self.points@.len() as int;
        spec_rect_corner_new(
            self.points@[prev_index(n, ix)],
            self.points@[next_index(n, ix)],
            self.points@[ix],
        )
    }

    /// Every vertex of the polygon forms a valid rectilinear corner with its
    /// two neighbours.
    pub open spec fn all_corners_valid(self) -> bool {
        forall|ix: int| 0 <= ix < self.points@.len() ==> (#[trigger] self.spec_corner_at(ix)) is Ok
    }

    /// The canonical form the pipeline's input is expected to arrive in:
    /// at least four vertices, every vertex a valid rectilinear corner, and
    /// the first edge leaving the starting point going up (the start is the
    /// polygon's max-x/min-y point and traversal is counter-clockwise).
    pub open spec fn canonical(self) -> bool {
        &&& self.points@.len() >= 4
        &&& self.all_corners_valid()
        &&& step_direction(self.points@[0], self.points@[1]) == Some(RectDirection::Up)
    }

    /// Classifies every vertex of the polygon, in traversal order; an
    /// invalid-corner error when any vertex fails to classify.
    pub fn corners(&self) -> (r: Result<Corners, GeometryError>)
        requires
            self.points@.len() > 0,
        ensures
            r is Ok <==> self.all_corners_valid(),
            !self.all_corners_valid() ==> r == Err::<Corners, GeometryError>(GeometryError::InvalidCorner),
            r is Ok ==> {
                let cs = r.unwrap().corners@;
                &&& cs.len() == self.points@.len()
                &&& forall|i: int| 0 <= i < cs.len()
                    ==> self.spec_corner_at(i) == Ok::<RectCorner, GeometryError>(#[trigger] cs[i])
            },
            r is Ok ==> is_min_x_max_y(r.unwrap().corners@, r.unwrap().min_x_max_y_index as int),
            r is Ok ==> is_min_y_min_x(r.unwrap().corners@, r.unwrap().min_y_min_x_index as int),
    {
        let n: usize = self.points.len();
        let mut corners: Vec<RectCorner> = Vec::with_capacity(n);
        let mut ix: usize = 0;
        while ix < n
            invariant
                n == self.points@.len(),
                n > 0,
                ix <= n,
                corners@.len() == ix as int,
                forall|i: int| 0 <= i < ix as int
                    ==> self.spec_corner_at(i) == Ok::<RectCorner, GeometryError>(#[trigger] corners@[i]),
            decreases n - ix,
        {
            let last_ix: usize = if ix == 0 { n - 1 } else { ix - 1 };
            let next_ix: usize = if ix == n - 1 { 0 } else { ix + 1 };
            let incoming: Point = self.points[last_ix];
            let outgoing: Point = self.points[next_ix];
            let center: Point = self.points[ix];
            match RectCorner::new(incoming, outgoing, center) {
                Ok(corner) => {
                    corners.push(corner);
                },
                Err(e) => {
                    assert(!(self.spec_corner_at(ix as int) is Ok));
                    return Err(e);
                },
            }
            ix = ix + 1;
        }
        assert forall|i: int| 0 <= i < self.points@.len()
            implies (#[trigger] self.spec_corner_at(i)) is Ok by {
            assert(self.spec_corner_at(i) == Ok::<RectCorner, GeometryError>(corners@[i]));
        }
        Ok(Corners::new(corners))
    }
}

/// The list rotated left by `k`: the suffix from `k` followed by the prefix
/// before `k`.
fn rotated_left(points: Vec<Point>, k: usize) -> (r: Vec<Point>)
    requires
        k <= points@.len(),
    ensures
        r@ =~= points@.subrange(k as int, points@.len() as int) + points@.subrange(0, k as int),
        r@.len() == points@.len(),
{
    let n: usize = points.len();
    let mut out: Vec<Point> = Vec::with_capacity(n);
    let mut i: usize = k;
    while i < n
        invariant
            n == points@.len(),
            k <= i <= n,
            out@ =~= points@.subrange(k as int, i as int),
        decreases n - i,
    {
        let p: Point = points[i];
        out.push(p);
        proof {
            assert(out@ =~= points@.subrange(k as int, i as int + 1));
        }
        i = i + 1;
    }
    let mut j: usize = 0;
    while j < k
        invariant
            n == points@.len(),
            k <= n,
            j <= k,
            out@ =~= points@.subrange(k as int, n as int) + points@.subrange(0, j as int),
        decreases k - j,
    {
        let p: Point = points[j];
        out.push(p);
        proof {
            assert(out@ =~= points@.subrange(k as int, n as int)
                + points@.subrange(0, j as int + 1));
        }
        j = j + 1;
    }
    out
}

/// The list with its first element kept in place and the rest reversed:
/// the combined effect of reversing the whole list and then rotating it one
/// step to the right.
fn reversed_keeping_first(points: Vec<Point>) -> (r: Vec<Point>)
    requires
        points@.len() > 0,
    ensures
        r@.len() == points@.len(),
        r@[0] == points@[0],
        forall|j: int| 1 <= j < r@.len() ==> #[trigger] r@[j] == points@[points@.len() - j],
{
    let n: usize = points.len();
    let mut out: Vec<Point> = Vec::with_capacity(n);
    let first: Point = points[0];
    out.push(first);
    let mut j: usize = 1;
    while j < n
        invariant
            n == points@.len(),
            n > 0,
            1 <= j <= n,
            out@.len() == j as int,
            out@[0] == points@[0],
            forall|i: int| 1 <= i < j as int ==> #[trigger] out@[i] == points@[n as int - i],
        decreases n - j,
    {
        let p: Point = points[n - j];
        out.push(p);
        j = j + 1;
    }
    out
}

/// A step away from the canonical extreme point can never go down or right:
/// no point lies below it at the same x, and none lies right of it.
pub proof fn lemma_step_from_extreme(s: Seq<Point>, j: int)
    requires
        is_max_x_min_y(s, 0),
        0 <= j < s.len(),
    ensures
        step_direction(s[0], s[j]) != Some(RectDirection::Down),
        step_direction(s[0], s[j]) != Some(RectDirection::Right),
{
}

impl Polygon {
    /// Canonicalizes a raw point list: removes repeated points, rotates the
    /// list so that it starts at the point with maximal x (and minimal y
    /// among those), and reverses the traversal when the first edge leaves
    /// the start leftward, so that a valid polygon comes out
    /// counter-clockwise. An invalid-corner error when any step of the
    /// canonicalized cycle is diagonal or zero.
    ///
    /// The result keeps exactly the distinct points of the input, starts at
    /// the extreme point, steps one axis at a time, and never leaves the
    /// start downward or rightward.
    #[verifier::rlimit(100)]
    #[verifier::spinoff_prover]
    pub fn sanitize_points(points: Vec<Point>) -> (r: Result<Vec<Point>, GeometryError>)
        requires
            points@.len() > 0,
        ensures
            r is Err ==> r == Err::<Vec<Point>, GeometryError>(GeometryError::InvalidCorner),
            (forall|i: int| 0 <= i < spec_dedup(points@).len()
                ==> (#[trigger] step_direction(spec_dedup(points@)[i],
                    spec_dedup(points@)[next_index(spec_dedup(points@).len() as int, i)])) is Some)
                ==> r is Ok,
            cyclic_corners_valid(spec_dedup(points@)) && spec_dedup(points@).len() >= 2
                ==> r is Ok && step_direction(r.unwrap()@[0], r.unwrap()@[1])
                    == Some(RectDirection::Up),
            r is Ok ==> {
                let out = r.unwrap()@;
                &&& out.len() == spec_dedup(points@).len()
                &&& forall|p: Point| #[trigger] out.contains(p) <==> points@.contains(p)
                &&& forall|i: int, j: int| 0 <= i < j < out.len() ==> out[i] != out[j]
                &&& is_max_x_min_y(out, 0)
                &&& forall|i: int| 0 <= i < out.len() - 1
                    ==> (#[trigger] step_direction(out[i], out[i + 1])) is Some
                &&& out.len() >= 2 ==> step_direction(out[0], out[1])
                    != Some(RectDirection::Down) && step_direction(out[0], out[1])
                    != Some(RectDirection::Right)
            },
    {
        proof {
            lemma_dedup_distinct(points@);
        }
        let deduped: Vec<Point> = deduplicate_points(points);
        let ghost dd = deduped@;
        let max_x_min_y_ix: usize = find_max_x_min_y_point(deduped.as_slice());
        let ghost mix = max_x_min_y_ix as int;
        let n: usize = deduped.len();

        let rotated: Vec<Point> = rotated_left(deduped, max_x_min_y_ix);
        let ghost rot = rotated@;
        proof {
            assert forall|j: int| 0 <= j < rot.len() implies (#[trigger] rot[j]).x <= rot[0].x
                && (rot[j].x == rot[0].x ==> rot[0].y <= rot[j].y)
                && dd.contains(rot[j]) by {
                if j < dd.len() - mix {
                    assert(rot[j] == dd[mix + j]);
                } else {
                    assert(rot[j] == dd[j - (dd.len() - mix)]);
                }
                assert(rot[0] == dd[mix]);
            }
            assert forall|p: Point| dd.contains(p) implies rot.contains(p) by {
                let k = choose|k: int| 0 <= k < dd.len() && dd[k] == p;
                if k >= mix {
                    assert(rot[k - mix] == p);
                } else {
                    assert(rot[k + (dd.len() - mix)] == p);
                }
            }
            assert forall|i: int, j: int| 0 <= i < j < rot.len()
                implies rot[i] != rot[j] by {
                let n0 = dd.len();
                let i2 = if i < n0 - mix { mix + i } else { i - (n0 - mix) };
                let j2 = if j < n0 - mix { mix + j } else { j - (n0 - mix) };
                assert(rot[i] == dd[i2] && rot[j] == dd[j2]);
                assert(i2 != j2);
            }
            assert(is_max_x_min_y(rot, 0));
        }
        let ghost cyclic_ok = forall|i: int| 0 <= i < dd.len()
            ==> (#[trigger] step_direction(dd[i], dd[next_index(dd.len() as int, i)])) is Some;
        let ghost corners_ok = cyclic_corners_valid(dd) && dd.len() >= 2;
        proof {
            if corners_ok {
                assert forall|i: int| 0 <= i < dd.len()
                    implies (#[trigger] step_direction(dd[i],
                        dd[next_index(dd.len() as int, i)])) is Some by {
                    assert(spec_rect_corner_new(dd[prev_index(dd.len() as int, i)],
                        dd[next_index(dd.len() as int, i)], dd[i]) is Ok);
                }
                assert(cyclic_ok);
            }
        }
        proof {
            if cyclic_ok {
                assert forall|j: int| 0 <= j < rot.len() - 1
                    implies (#[trigger] step_direction(rot[j], rot[j + 1])) is Some by {
                    let n0 = dd.len();
                    if j < n0 - mix - 1 {
                        assert(rot[j] == dd[mix + j] && rot[j + 1] == dd[mix + j + 1]);
                        assert(next_index(n0 as int, mix + j) == mix + j + 1);
                        assert(step_direction(dd[mix + j],
                            dd[next_index(n0 as int, mix + j)]) is Some);
                    } else if j == n0 - mix - 1 {
                        assert(rot[j] == dd[n0 - 1] && rot[j + 1] == dd[0]);
                        assert(next_index(n0 as int, n0 - 1) == 0);
                        assert(step_direction(dd[n0 - 1],
                            dd[next_index(n0 as int, n0 - 1)]) is Some);
                    } else {
                        let j2 = j - (n0 - mix);
                        assert(rot[j] == dd[j2] && rot[j + 1] == dd[j2 + 1]);
                        assert(next_index(n0 as int, j2) == j2 + 1);
                        assert(step_direction(dd[j2], dd[next_index(n0 as int, j2)]) is Some);
                    }
                }
            }
        }

        match check_sequence_rectilinearity(rotated.as_slice()) {
            Ok(_) => {},
            Err(e) => {
                assert(!cyclic_ok);
                return Err(e);
            },
        }

        if n < 2 {
            return Ok(rotated);
        }

        let first_dir: RectDirection = match rotated[0].simple_directions_to(&rotated[1]) {
            Ok(d) => d,
            Err(_) => {
                // The rectilinearity check has already validated this step.
                assert(step_direction(rot[0int], rot[0int + 1]) is Some);
                assert(false);
                return Err(GeometryError::InvalidCorner);
            },
        };
        proof {
            lemma_step_from_extreme(rot, 1);
        }
        match first_dir {
            RectDirection::Up => Ok(rotated),
            RectDirection::Left => {
                // Reverse the traversal, keeping the extreme point first;
                // the former wrap-around step becomes the first step, so it
                // is validated here.
                let last: Point = rotated[n - 1];
                proof {
                    if cyclic_ok {
                        let n0 = dd.len();
                        if mix == 0 {
                            assert(rot[0] == dd[0] && rot[n0 - 1] == dd[n0 - 1]);
                            assert(next_index(n0 as int, n0 - 1) == 0);
                            assert(step_direction(dd[n0 - 1],
                                dd[next_index(n0 as int, n0 - 1)]) is Some);
                        } else {
                            assert(rot[0] == dd[mix] && rot[n0 - 1] == dd[mix - 1]);
                            assert(next_index(n0 as int, mix - 1) == mix);
                            assert(step_direction(dd[mix - 1],
                                dd[next_index(n0 as int, mix - 1)]) is Some);
                        }
                        assert(step_direction(rot[0], rot[rot.len() - 1]) is Some);
                    }
                }
                match rotated[0].simple_directions_to(&last) {
                    Ok(_) => {},
                    Err(e) => {
                        assert(!cyclic_ok);
                        return Err(e);
                    },
                }
                proof {
                    if corners_ok {
                        // The corner at the extreme point is valid, its
                        // outgoing edge goes left, so its incoming edge is
                        // vertical: the wrap neighbour sits directly above.
                        let n0 = dd.len() as int;
                        assert(spec_rect_corner_new(dd[prev_index(n0, mix)],
                            dd[next_index(n0, mix)], dd[mix]) is Ok);
                        assert(dd[mix] == rot[0]);
                        assert(dd[next_index(n0, mix)] == rot[1]) by {
                            if mix < n0 - 1 {
                                assert(rot[1] == dd[mix + 1]);
                            } else {
                                assert(rot[1] == dd[0]);
                            }
                        }
                        assert(dd[prev_index(n0, mix)] == rot[rot.len() - 1]) by {
                            if mix == 0 {
                                assert(rot[rot.len() - 1] == dd[n0 - 1]);
                            } else {
                                assert(rot[rot.len() - 1] == dd[mix - 1]);
                            }
                        }
                        let din = step_direction(rot[rot.len() - 1], rot[0]);
                        let dout = step_direction(rot[0], rot[1]);
                        assert(din is Some && dout is Some);
                        crate::rect_corner::lemma_classify_defined_iff(
                            din.unwrap(), dout.unwrap());
                        assert(dout == Some(RectDirection::Left));
                        assert(din.unwrap().spec_is_vertical());
                        assert(rot[rot.len() - 1].x == rot[0].x);
                        lemma_step_from_extreme(rot, rot.len() - 1);
                        assert(step_direction(rot[0], rot[rot.len() - 1])
                            == Some(RectDirection::Up));
                    }
                }
                let flipped: Vec<Point> = reversed_keeping_first(rotated);
                let ghost fv = flipped@;
                proof {
                    assert forall|p: Point| fv.contains(p) implies rot.contains(p) by {
                        let k = choose|k: int| 0 <= k < fv.len() && fv[k] == p;
                        if k == 0 {
                            assert(rot[0] == p);
                        } else {
                            assert(rot[rot.len() - k] == p);
                        }
                    }
                    assert forall|p: Point| rot.contains(p) implies fv.contains(p) by {
                        let k = choose|k: int| 0 <= k < rot.len() && rot[k] == p;
                        if k == 0 {
                            assert(fv[0] == p);
                        } else {
                            assert(fv[rot.len() - k] == p);
                        }
                    }
                    assert forall|i: int, j: int| 0 <= i < j < fv.len()
                        implies fv[i] != fv[j] by {
                        let n0 = rot.len();
                        let i2 = if i == 0 { 0int } else { n0 - i };
                        let j2 = n0 - j;
                        assert(fv[i] == rot[i2] && fv[j] == rot[j2]);
                        assert(i2 != j2);
                    }
                    assert forall|i: int| 0 <= i < fv.len() - 1
                        implies (#[trigger] step_direction(fv[i], fv[i + 1])) is Some by {
                        let n0 = rot.len();
                        if i == 0 {
                            assert(fv[0] == rot[0] && fv[1] == rot[n0 - 1]);
                        } else {
                            assert(fv[i] == rot[n0 - i] && fv[i + 1] == rot[n0 - i - 1]);
                            let k = n0 - i - 1;
                            assert(step_direction(rot[k], rot[k + 1]) is Some);
                            assert(step_direction(rot[k + 1], rot[k]) is Some);
                        }
                    }
                    assert(is_max_x_min_y(fv, 0)) by {
                        assert forall|j: int| 0 <= j < fv.len() implies (#[trigger] fv[j]).x <= fv[0].x
                            && (fv[j].x == fv[0].x ==> fv[0].y <= fv[j].y) by {
                            if j > 0 {
                                assert(fv[j] == rot[rot.len() - j]);
                            }
                        }
                    }
                    lemma_step_from_extreme(fv, 1);
                }
                Ok(flipped)
            },
            _ => {
                // A downward or rightward first step contradicts starting at
                // the maximal-x, minimal-y point; this arm is unreachable.
                assert(false);
                Err(GeometryError::InvalidCorner)
            },
        }
    }
}

/// The corner sequence of a polygon whose vertices all classify is chained:
/// the incoming direction of each corner is the outgoing direction of the
/// one before it, around the whole cycle.
#[verifier::rlimit(100)]
#[verifier::spinoff_prover]
pub proof fn lemma_corners_chained(p: Polygon, cs: Seq<RectCorner>)
    requires
        cs.len() == p.points@.len(),
        forall|i: int| 0 <= i < cs.len()
            ==> p.spec_corner_at(i) == Ok::<RectCorner, GeometryError>(#[trigger] cs[i]),
    ensures
        chained_corners(cs),
        forall|i: int| 0 <= i < cs.len() ==> (#[trigger] cs[i]).corner_type.spec_outgoing_part()
            == step_direction(p.points@[i], p.points@[next_index(cs.len() as int, i)]).unwrap(),
        cs.len() >= 2 ==> cs[0].corner_type.spec_incoming_part()
            == step_direction(p.points@[cs.len() - 1], p.points@[0]).unwrap(),
        cs.len() >= 2 ==> cs[cs.len() - 1].corner_type.spec_outgoing_part()
            == cs[0].corner_type.spec_incoming_part(),
        forall|i: int| 0 <= i < cs.len() ==> (#[trigger] cs[i]).wf(),
        forall|i: int| #![trigger cs[i], cs[i + 1]] 0 <= i < cs.len() - 1
            ==> cs[i].outgoing == cs[i + 1].point,
{
    assert forall|i: int| 0 <= i < cs.len() implies (#[trigger] cs[i]).wf() by {
        assert(p.spec_corner_at(i) == Ok::<RectCorner, GeometryError>(cs[i]));
    }
    assert forall|i: int| #![trigger cs[i], cs[i + 1]] 0 <= i < cs.len() - 1
        implies cs[i].outgoing == cs[i + 1].point by {
        let n = cs.len() as int;
        assert(cs[i].outgoing == p.points@[next_index(n, i)]);
        assert(next_index(n, i) == i + 1);
        assert(cs[i + 1].point == p.points@[i + 1]);
    }

    let n = cs.len() as int;
    assert forall|i: int| 0 <= i < n implies {
        &&& (#[trigger] cs[i]).corner_type.spec_outgoing_part()
            == step_direction(p.points@[i], p.points@[next_index(n, i)]).unwrap()
        &&& cs[i].corner_type.spec_incoming_part()
            == step_direction(p.points@[prev_index(n, i)], p.points@[i]).unwrap()
    } by {
        let din = step_direction(p.points@[prev_index(n, i)], p.points@[i]);
        let dout = step_direction(p.points@[i], p.points@[next_index(n, i)]);
        assert(p.spec_corner_at(i) is Ok);
        assert(din is Some && dout is Some);
        lemma_classify_injective(din.unwrap(), dout.unwrap(), cs[i].corner_type);
    }
    assert forall|i: int| 1 <= i < n implies (#[trigger] cs[i]).corner_type.spec_incoming_part()
        == cs[i - 1].corner_type.spec_outgoing_part() by {
        assert(prev_index(n, i) == i - 1);
        assert(next_index(n, i - 1) == i);
    }
}

} // verus!
