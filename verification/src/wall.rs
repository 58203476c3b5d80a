use vstd::prelude::*;
use core::cmp::Ordering;
use crate::errors::GeometryError;
use crate::point::Point;
use crate::rect::RectDirection;
use crate::rect_corner::RectCorner;

verus! {

/// The attitude of a wall: Forward walls consist of corners whose vertical
/// edges ascend, Reverse walls of corners whose vertical edges descend.
#[derive(Clone, Copy, Debug, PartialEq, Eq, Structural)]
pub enum WallAttitude {
    Forward,
    Reverse,
}

impl WallAttitude {
    /// The vertical edge direction that corners of a wall with this attitude
    /// must carry.
    pub open spec fn spec_vertical_direction(self) -> RectDirection {
        match self {
            WallAttitude::Forward => RectDirection::Up,
            WallAttitude::Reverse => RectDirection::Down,
        }
    }
}

/// A maximal run of polygon corners agreeing in vertical edge direction,
/// with a permanent creation-order identity.
#[derive(Clone, Debug)]
pub struct Wall {
    /// Creation-order identity of the wall within its model; the ordering
    /// tie-break.
    pub generation_index: usize,
    pub attitude: WallAttitude,
    /// The corners, in polygon traversal order. A Reverse wall stores its
    /// span top to bottom.
    pub rect_corners: Vec<RectCorner>,
}

/// The outcome of projecting a point onto a wall.
pub struct ProjectionResult {
    /// Index, within the wall, of the corner whose outgoing vertical edge
    /// contains the projected point.
    pub corner_ix: usize,
    /// The projected point.
    pub projected: Point,
}

impl ProjectionResult {
    pub fn new(corner_ix: usize, projected: Point) -> (r: ProjectionResult)
        ensures
            r == (ProjectionResult { corner_ix, projected }),
    {
        ProjectionResult { corner_ix, projected }
    }
}

/// The smallest index at or after `i` whose corner projects the point `p`
/// onto its outgoing vertical edge.
pub open spec fn first_projection_from(s: Seq<RectCorner>, p: Point, i: int) -> Option<int>
    decreases s.len() - i,
{
    if i < 0 || i >= s.len() {
        None
    } else if s[i].spec_project_vertical(p) is Some {
        Some(i)
    } else {
        first_projection_from(s, p, i + 1)
    }
}

impl Wall {
    /// Every corner's vertical edge direction agrees with the wall's
    /// attitude.
    pub open spec fn homogeneous(self) -> bool {
        forall|i: int| 0 <= i < self.rect_corners@.len()
            ==> (#[trigger] self.rect_corners@[i]).corner_type.spec_vertical_part()
                == self.attitude.spec_vertical_direction()
    }

    /// The wall is a well-formed run from one polygon traversal: non-empty
    /// and attitude-homogeneous, every corner's type re-derivable from its
    /// own three points, consecutive corners joined outgoing point to
    /// center point, and the run left by a horizontal edge.
    ///
    /// The wall builder establishes this for every wall it flushes from a
    /// canonical polygon; it is what makes `bottom_most` and `top_most` the
    /// true extremes of the wall's y-span.
    #[verifier::opaque]
    pub open spec fn regular(self) -> bool {
        &&& self.rect_corners@.len() > 0
        &&& self.homogeneous()
        &&& forall|i: int| 0 <= i < self.rect_corners@.len()
            ==> (#[trigger] self.rect_corners@[i]).wf()
        &&& forall|i: int| #![trigger self.rect_corners@[i], self.rect_corners@[i + 1]]
            0 <= i < self.rect_corners@.len() - 1
            ==> self.rect_corners@[i].outgoing == self.rect_corners@[i + 1].point
        &&& self.spec_last().corner_type.spec_outgoing_part().spec_is_horizontal()
    }

    pub open spec fn spec_is_forward(self) -> bool {
        self.attitude == WallAttitude::Forward
    }

    pub open spec fn spec_first(self) -> RectCorner {
        self.rect_corners@[0]
    }

    pub open spec fn spec_last(self) -> RectCorner {
        self.rect_corners@[self.rect_corners@.len() - 1]
    }

    /// The corner at the low-y end of the wall: the first for a Forward
    /// wall, the last for a Reverse wall.
    pub open spec fn spec_bottom_most(self) -> RectCorner {
        match self.attitude {
            WallAttitude::Forward => self.spec_first(),
            WallAttitude::Reverse => self.spec_last(),
        }
    }

    /// The corner at the high-y end of the wall.
    pub open spec fn spec_top_most(self) -> RectCorner {
        match self.attitude {
            WallAttitude::Forward => self.spec_last(),
            WallAttitude::Reverse => self.spec_first(),
        }
    }

    /// The point's y-coordinate lies within the wall's y-span.
    pub open spec fn spec_interacts_with(self, point: Point) -> bool {
        self.spec_bottom_most().point.y <= point.y && point.y <= self.spec_top_most().point.y
    }

    /// The geometric precondition for this wall and `other` to bound a
    /// common rectangle: this wall ascends, the other descends, and the two
    /// walls' y-spans overlap.
    pub open spec fn spec_shadows(self, other: Wall) -> bool {
        &&& self.spec_is_forward()
        &&& !other.spec_is_forward()
        &&& self.spec_bottom_most().point.y <= other.spec_top_most().point.y
        &&& other.spec_bottom_most().point.y <= self.spec_top_most().point.y
    }

    /// The projection of a point onto the wall: the first corner, in storage
    /// order, whose outgoing vertical edge spans the point's y-coordinate,
    /// together with the projected point; nothing when the point is outside
    /// the wall's y-span or no corner projects it.
    pub open spec fn spec_project_onto_wall(self, point: Point) -> Option<ProjectionResult> {
        if self.spec_interacts_with(point) {
            match first_projection_from(self.rect_corners@, point, 0) {
                Some(i) => Some(ProjectionResult {
                    corner_ix: i as usize,
                    projected: self.rect_corners@[i].spec_project_vertical(point).unwrap(),
                }),
                None => None,
            }
        } else {
            None
        }
    }

    /// Whether this wall lies left of `other`, judged by projecting the
    /// other's top-most, then bottom-most, corner point onto this wall;
    /// nothing when neither point projects.
    pub open spec fn spec_left_of_wall(self, other: Wall) -> Option<bool> {
        match self.spec_project_onto_wall(other.spec_top_most().point) {
            Some(pr) => Some(pr.projected.x < other.spec_top_most().point.x),
            None => match self.spec_project_onto_wall(other.spec_bottom_most().point) {
                Some(pr) => Some(pr.projected.x < other.spec_bottom_most().point.x),
                None => None,
            },
        }
    }

    /// The geometric tier of the wall order: the projected x-coordinate of
    /// the other wall's top-most (else bottom-most) corner point against
    /// that point's own x-coordinate. Nothing when the first projection that
    /// succeeds lands at exactly the same x (touching walls) or when no
    /// projection succeeds.
    #[verifier::opaque]
    pub open spec fn spec_projection_ordering(self, other: Wall) -> Option<Ordering> {
        match self.spec_project_onto_wall(other.spec_top_most().point) {
            Some(pr) => if pr.projected.x < other.spec_top_most().point.x {
                Some(Ordering::Less)
            } else if pr.projected.x == other.spec_top_most().point.x {
                None
            } else {
                Some(Ordering::Greater)
            },
            None => match self.spec_project_onto_wall(other.spec_bottom_most().point) {
                Some(pr) => if pr.projected.x < other.spec_bottom_most().point.x {
                    Some(Ordering::Less)
                } else if pr.projected.x == other.spec_bottom_most().point.x {
                    None
                } else {
                    Some(Ordering::Greater)
                },
                None => None,
            },
        }
    }

    /// The total wall order: the geometric tier where it decides, the
    /// generation index as tie-break where it does not.
    #[verifier::opaque]
    pub open spec fn spec_total_ordering(self, other: Wall) -> Ordering {
        match self.spec_projection_ordering(other) {
            Some(o) => o,
            None => if self.generation_index < other.generation_index {
                Ordering::Less
            } else if self.generation_index == other.generation_index {
                Ordering::Equal
            } else {
                Ordering::Greater
            },
        }
    }

    /// An empty Forward wall with the given identity. The capacity is a
    /// storage hint only.
    pub fn new_forward(generation_index: usize, capacity: usize) -> (r: Wall)
        ensures
            r.generation_index == generation_index,
            r.attitude == WallAttitude::Forward,
            r.rect_corners@.len() == 0,
    {
        Wall {
            generation_index,
            attitude: WallAttitude::Forward,
            rect_corners: Vec::with_capacity(capacity),
        }
    }

    /// An empty Reverse wall with the given identity. The capacity is a
    /// storage hint only.
    pub fn new_reverse(generation_index: usize, capacity: usize) -> (r: Wall)
        ensures
            r.generation_index == generation_index,
            r.attitude == WallAttitude::Reverse,
            r.rect_corners@.len() == 0,
    {
        Wall {
            generation_index,
            attitude: WallAttitude::Reverse,
            rect_corners: Vec::with_capacity(capacity),
        }
    }

    pub fn len(&self) -> (r: usize)
        ensures
            r == self.rect_corners@.len(),
    {
        self.rect_corners.len()
    }

    /// Appends a corner; an attitude-violation error, leaving the wall
    /// unchanged, when the corner's vertical edge direction does not match
    /// the wall's attitude.
    pub fn push(&mut self, rect_corner: RectCorner) -> (r: Result<(), GeometryError>)
        ensures
            rect_corner.corner_type.spec_vertical_part() == old(self).attitude.spec_vertical_direction()
                ==> r is Ok
                    && final(self).rect_corners@ =~= old(self).rect_corners@.push(rect_corner),
            rect_corner.corner_type.spec_vertical_part() != old(self).attitude.spec_vertical_direction()
                ==> r == Err::<(), GeometryError>(GeometryError::AttitudeViolation)
                    && *final(self) == *old(self),
            final(self).attitude == old(self).attitude,
            final(self).generation_index == old(self).generation_index,
    {
        let vertical: RectDirection = rect_corner.corner_type.vertical_part();
        match self.attitude {
            WallAttitude::Forward => {
                if vertical == RectDirection::Up {
                    self.rect_corners.push(rect_corner);
                    Ok(())
                } else {
                    Err(GeometryError::AttitudeViolation)
                }
            },
            WallAttitude::Reverse => {
                if vertical == RectDirection::Down {
                    self.rect_corners.push(rect_corner);
                    Ok(())
                } else {
                    Err(GeometryError::AttitudeViolation)
                }
            },
        }
    }

    /// Appends a sequence of corners, stopping at the first whose vertical
    /// edge direction does not match the wall's attitude.
    ///
    /// When every corner matches, the whole sequence is appended, so the
    /// wall grows by exactly the number of corners pushed; otherwise the
    /// matching prefix is appended, the first mismatched push fails with an
    /// attitude-violation error, and that push leaves the wall unchanged.
    pub fn push_all(&mut self, corners: &Vec<RectCorner>) -> (r: Result<(), GeometryError>)
        ensures
            final(self).attitude == old(self).attitude,
            final(self).generation_index == old(self).generation_index,
            match first_mismatch_from(old(self).attitude, corners@, 0) {
                None => r is Ok
                    && final(self).rect_corners@ =~= old(self).rect_corners@ + corners@,
                Some(j) => r == Err::<(), GeometryError>(GeometryError::AttitudeViolation)
                    && final(self).rect_corners@ =~= old(self).rect_corners@ + corners@.take(j),
            },
    {
        let ghost base = self.rect_corners@;
        let ghost att = self.attitude;
        let n: usize = corners.len();
        let mut i: usize = 0;
        while i < n
            invariant
                n == corners@.len(),
                i <= n,
                self.attitude == att,
                att == old(self).attitude,
                self.generation_index == old(self).generation_index,
                base == old(self).rect_corners@,
                self.rect_corners@ =~= base + corners@.take(i as int),
                first_mismatch_from(att, corners@, 0) == first_mismatch_from(att, corners@, i as int),
            decreases n - i,
        {
            let ghost i0 = i as int;
            match self.push(corners[i]) {
                Ok(()) => {},
                Err(e) => {
                    assert(first_mismatch_from(att, corners@, i0) == Some(i0));
                    return Err(e);
                },
            }
            i = i + 1;
            proof {
                assert(corners@.take(i as int) =~= corners@.take(i0).push(corners@[i0]));
            }
        }
        proof {
            assert(corners@.take(i as int) =~= corners@);
        }
        Ok(())
    }

    /// Removes every corner, keeping identity and attitude.
    pub fn clear(&mut self)
        ensures
            final(self).rect_corners@.len() == 0,
            final(self).attitude == old(self).attitude,
            final(self).generation_index == old(self).generation_index,
    {
        self.rect_corners.clear();
    }

    pub fn is_forward(&self) -> (r: bool)
        ensures
            r == self.spec_is_forward(),
    {
        match self.attitude {
            WallAttitude::Forward => true,
            _ => false,
        }
    }

    pub fn is_reverse(&self) -> (r: bool)
        ensures
            r == !self.spec_is_forward(),
    {
        !self.is_forward()
    }

    pub fn first(&self) -> (r: &RectCorner)
        requires
            self.rect_corners@.len() > 0,
        ensures
            *r == self.spec_first(),
    {
        &self.rect_corners[0]
    }

    pub fn last(&self) -> (r: &RectCorner)
        requires
            self.rect_corners@.len() > 0,
        ensures
            *r == self.spec_last(),
    {
        &self.rect_corners[self.rect_corners.len() - 1]
    }

    /// The corner at the low-y end of the wall. For a regular wall it is a
    /// true lower bound on every corner of the wall; see also
    /// [`lemma_regular_wall_span`].
    pub fn bottom_most(&self) -> (r: &RectCorner)
        requires
            self.rect_corners@.len() > 0,
        ensures
            *r == self.spec_bottom_most(),
            self.regular() ==> forall|i: int| 0 <= i < self.rect_corners@.len()
                ==> r.point.y <= (#[trigger] self.rect_corners@[i]).point.y,
    {
        proof {
            if self.regular() {
                lemma_regular_wall_span(*self);
            }
        }
        match self.attitude {
            WallAttitude::Forward => self.first(),
            WallAttitude::Reverse => self.last(),
        }
    }

    /// The corner at the high-y end of the wall. For a regular wall it is a
    /// true upper bound on every corner of the wall, and never below
    /// `bottom_most`; see also [`lemma_regular_wall_span`].
    pub fn top_most(&self) -> (r: &RectCorner)
        requires
            self.rect_corners@.len() > 0,
        ensures
            *r == self.spec_top_most(),
            self.regular() ==> forall|i: int| 0 <= i < self.rect_corners@.len()
                ==> (#[trigger] self.rect_corners@[i]).point.y <= r.point.y,
            self.regular() ==> self.spec_bottom_most().point.y <= r.point.y,
    {
        proof {
            if self.regular() {
                lemma_regular_wall_span(*self);
            }
        }
        match self.attitude {
            WallAttitude::Forward => self.last(),
            WallAttitude::Reverse => self.first(),
        }
    }

    /// Whether this wall shadows `other`; see [`Self::spec_shadows`].
    pub fn shadows(&self, other: &Wall) -> (r: bool)
        requires
            self.rect_corners@.len() > 0,
            other.rect_corners@.len() > 0,
        ensures
            r == self.spec_shadows(*other),
    {
        self.is_forward() && !other.is_forward()
            && self.bottom_most().point.y <= other.top_most().point.y
            && other.bottom_most().point.y <= self.top_most().point.y
    }

    pub fn attitude(&self) -> (r: WallAttitude)
        ensures
            r == self.attitude,
    {
        self.attitude
    }

    /// Whether the point's y-coordinate lies within the wall's y-span.
    pub fn interacts_with(&self, point: Point) -> (r: bool)
        requires
            self.rect_corners@.len() > 0,
        ensures
            r == self.spec_interacts_with(point),
    {
        self.bottom_most().point.y <= point.y && point.y <= self.top_most().point.y
    }

    /// Projects a point onto the wall; see [`Self::spec_project_onto_wall`].
    pub fn project_onto_wall(&self, point: Point) -> (r: Option<ProjectionResult>)
        requires
            self.rect_corners@.len() > 0,
        ensures
            r == self.spec_project_onto_wall(point),
    {
        if self.interacts_with(point) {
            let n: usize = self.rect_corners.len();
            let mut ix: usize = 0;
            while ix < n
                invariant
                    n == self.rect_corners@.len(),
                    n > 0,
                    ix <= n,
                    self.spec_interacts_with(point),
                    first_projection_from(self.rect_corners@, point, 0)
                        == first_projection_from(self.rect_corners@, point, ix as int),
                decreases n - ix,
            {
                match self.rect_corners[ix].project_onto_vertical_outgoing(point) {
                    Some(projected) => {
                        assert(first_projection_from(self.rect_corners@, point, ix as int)
                            == Some(ix as int));
                        return Some(ProjectionResult::new(ix, projected));
                    },
                    None => {},
                }
                ix = ix + 1;
            }
            None
        } else {
            None
        }
    }

    /// Whether this wall lies left of `other`; see
    /// [`Self::spec_left_of_wall`].
    pub fn left_of_wall(&self, other: &Wall) -> (r: Option<bool>)
        requires
            self.rect_corners@.len() > 0,
            other.rect_corners@.len() > 0,
        ensures
            r == self.spec_left_of_wall(*other),
    {
        match self.project_onto_wall(other.top_most().point) {
            Some(projection_result) => Some(projection_result.projected.x < other.top_most().point.x),
            None => match self.project_onto_wall(other.bottom_most().point) {
                Some(projection_result) => Some(
                    projection_result.projected.x < other.bottom_most().point.x),
                None => None,
            },
        }
    }

    /// The geometric tier of the wall order; see
    /// [`Self::spec_projection_ordering`].
    pub fn projection_ordering(&self, other: &Wall) -> (r: Option<Ordering>)
        requires
            self.rect_corners@.len() > 0,
            other.rect_corners@.len() > 0,
        ensures
            r == self.spec_projection_ordering(*other),
    {
        proof {
            reveal(Wall::spec_projection_ordering);
        }
        match self.project_onto_wall(other.top_most().point) {
            Some(projection_result) => {
                if projection_result.projected.x < other.top_most().point.x {
                    Some(Ordering::Less)
                } else if projection_result.projected.x == other.top_most().point.x {
                    None
                } else {
                    Some(Ordering::Greater)
                }
            },
            None => match self.project_onto_wall(other.bottom_most().point) {
                Some(projection_result) => {
                    if projection_result.projected.x < other.bottom_most().point.x {
                        Some(Ordering::Less)
                    } else if projection_result.projected.x == other.bottom_most().point.x {
                        None
                    } else {
                        Some(Ordering::Greater)
                    }
                },
                None => None,
            },
        }
    }

    /// The total wall order; see [`Self::spec_total_ordering`].
    pub fn total_ordering(&self, other: &Wall) -> (r: Ordering)
        requires
            self.rect_corners@.len() > 0,
            other.rect_corners@.len() > 0,
        ensures
            r == self.spec_total_ordering(*other),
    {
        proof {
            reveal(Wall::spec_total_ordering);
        }
        match self.projection_ordering(other) {
            Some(ordering) => ordering,
            None => {
                if self.generation_index < other.generation_index {
                    Ordering::Less
                } else if self.generation_index == other.generation_index {
                    Ordering::Equal
                } else {
                    Ordering::Greater
                }
            },
        }
    }
}

impl PartialEq for Wall {
    /// Walls are identified by their generation index.
    fn eq(&self, other: &Wall) -> (r: bool) {
        self.generation_index == other.generation_index
    }
}

impl vstd::std_specs::cmp::PartialEqSpecImpl for Wall {
    open spec fn obeys_eq_spec() -> bool {
        true
    }

    open spec fn eq_spec(&self, other: &Wall) -> bool {
        self.generation_index == other.generation_index
    }
}

/// In a regular wall, one corner's outgoing edge moves with the wall's
/// attitude: up or flat for a Forward wall, down or flat for a Reverse
/// wall.
proof fn lemma_regular_corner_step(w: Wall, i: int)
    requires
        w.regular(),
        0 <= i < w.rect_corners@.len(),
    ensures
        w.spec_is_forward() ==> w.rect_corners@[i].point.y <= w.rect_corners@[i].outgoing.y,
        !w.spec_is_forward() ==> w.rect_corners@[i].outgoing.y <= w.rect_corners@[i].point.y,
{
    reveal(Wall::regular);
    let c = w.rect_corners@[i];
    assert(c.wf());
    let dout = crate::point::step_direction(c.point, c.outgoing);
    assert(dout is Some);
    crate::rect_corner::lemma_classify_injective(
        crate::point::step_direction(c.incoming, c.point).unwrap(),
        dout.unwrap(),
        c.corner_type,
    );
    crate::rect_corner::lemma_corner_parts(c.corner_type);
}

/// Consecutive corners of a regular wall are joined outgoing point to
/// center point.
proof fn lemma_regular_chain(w: Wall, i: int, i1: int)
    requires
        w.regular(),
        0 <= i < w.rect_corners@.len() - 1,
        i1 == i + 1,
    ensures
        w.rect_corners@[i].outgoing == w.rect_corners@[i1].point,
{
    reveal(Wall::regular);
    assert(w.rect_corners@[i].outgoing == w.rect_corners@[i + 1].point);
}

/// In a regular wall, corner center points are ordered along the storage
/// order: ascending for a Forward wall, descending for a Reverse wall.
proof fn lemma_regular_monotone(w: Wall, i: int, j: int)
    requires
        w.regular(),
        0 <= i <= j < w.rect_corners@.len(),
    ensures
        w.spec_is_forward() ==> w.rect_corners@[i].point.y <= w.rect_corners@[j].point.y,
        !w.spec_is_forward() ==> w.rect_corners@[j].point.y <= w.rect_corners@[i].point.y,
    decreases j - i,
{
    if i < j {
        lemma_regular_monotone(w, i, j - 1);
        lemma_regular_corner_step(w, j - 1);
        lemma_regular_chain(w, j - 1, j);
    }
}

/// In a regular wall, `bottom_most` and `top_most` really bound the wall:
/// every corner's center point and outgoing point lie within
/// `[bottom_most.y, top_most.y]`.
pub proof fn lemma_regular_wall_span(w: Wall)
    requires
        w.regular(),
    ensures
        w.spec_bottom_most().point.y <= w.spec_top_most().point.y,
        forall|i: int| 0 <= i < w.rect_corners@.len() ==> {
            &&& w.spec_bottom_most().point.y <= (#[trigger] w.rect_corners@[i]).point.y
            &&& w.rect_corners@[i].point.y <= w.spec_top_most().point.y
            &&& w.spec_bottom_most().point.y <= w.rect_corners@[i].outgoing.y
            &&& w.rect_corners@[i].outgoing.y <= w.spec_top_most().point.y
        },
{
    reveal(Wall::regular);
    let n = w.rect_corners@.len() as int;
    lemma_regular_monotone(w, 0, n - 1);
    assert forall|i: int| 0 <= i < n implies {
        &&& w.spec_bottom_most().point.y <= (#[trigger] w.rect_corners@[i]).point.y
        &&& w.rect_corners@[i].point.y <= w.spec_top_most().point.y
        &&& w.spec_bottom_most().point.y <= w.rect_corners@[i].outgoing.y
        &&& w.rect_corners@[i].outgoing.y <= w.spec_top_most().point.y
    } by {
        lemma_regular_monotone(w, 0, i);
        lemma_regular_monotone(w, i, n - 1);
        if i < n - 1 {
            lemma_regular_chain(w, i, i + 1);
            lemma_regular_monotone(w, 0, i + 1);
            lemma_regular_monotone(w, i + 1, n - 1);
        } else {
            // The run leaves by a horizontal edge, so the last outgoing
            // point stays at the last corner's height.
            let c = w.rect_corners@[i];
            assert(c.wf());
            let dout = crate::point::step_direction(c.point, c.outgoing);
            assert(dout is Some);
            crate::rect_corner::lemma_classify_injective(
                crate::point::step_direction(c.incoming, c.point).unwrap(),
                dout.unwrap(),
                c.corner_type,
            );
        }
    }
}

/// The position of the first corner in the sequence whose vertical edge
/// direction does not match the attitude.
pub open spec fn first_mismatch_from(att: WallAttitude, cs: Seq<RectCorner>, i: int) -> Option<int>
    decreases cs.len() - i,
{
    if i < 0 || i >= cs.len() {
        None
    } else if cs[i].corner_type.spec_vertical_part() != att.spec_vertical_direction() {
        Some(i)
    } else {
        first_mismatch_from(att, cs, i + 1)
    }
}

/// Shadowing is asymmetric: a wall pair can shadow in at most one direction,
/// because the shadowing wall must be Forward and the shadowed wall must not
/// be.
pub proof fn lemma_shadows_asymmetric(a: Wall, b: Wall)
    ensures
        !(a.spec_shadows(b) && b.spec_shadows(a)),
{
}

/// A wall pair is projection-consistent when the geometric tier either
/// decides both directions, with opposite outcomes, or decides neither.
/// Walls built from one valid polygon are expected to compare this way.
pub open spec fn projection_consistent(a: Wall, b: Wall) -> bool {
    match (a.spec_projection_ordering(b), b.spec_projection_ordering(a)) {
        (Some(Ordering::Less), Some(Ordering::Greater)) => true,
        (Some(Ordering::Greater), Some(Ordering::Less)) => true,
        (None, None) => true,
        _ => false,
    }
}

/// The total wall order answers `Equal` exactly for walls that share a
/// generation index and that the geometric tier does not separate.
pub proof fn lemma_total_ordering_equal_iff(a: Wall, b: Wall)
    ensures
        a.spec_total_ordering(b) == Ordering::Equal
            <==> (a.spec_projection_ordering(b) is None
                && a.generation_index == b.generation_index),
{
    reveal(Wall::spec_total_ordering);
    reveal(Wall::spec_projection_ordering);
}

/// Antisymmetry of the total wall order, for projection-consistent pairs
/// with distinct generation indices: the two directions always disagree.
pub proof fn lemma_total_ordering_antisymmetric(a: Wall, b: Wall)
    requires
        projection_consistent(a, b),
        a.generation_index != b.generation_index,
    ensures
        a.spec_total_ordering(b) == Ordering::Less <==> b.spec_total_ordering(a) == Ordering::Greater,
        a.spec_total_ordering(b) != Ordering::Equal,
{
    reveal(Wall::spec_total_ordering);
}

/// Transitivity of the total wall order on the tie-break tier: where the
/// geometric tier separates none of the three pairs, the order is the order
/// of the generation indices, which is transitive.
pub proof fn lemma_total_ordering_transitive_tiebreak(a: Wall, b: Wall, c: Wall)
    requires
        a.spec_projection_ordering(b) is None,
        b.spec_projection_ordering(c) is None,
        a.spec_projection_ordering(c) is None,
        a.spec_total_ordering(b) == Ordering::Less,
        b.spec_total_ordering(c) == Ordering::Less,
    ensures
        a.spec_total_ordering(c) == Ordering::Less,
{
    reveal(Wall::spec_total_ordering);
}

} // verus!
