use vstd::prelude::*;
use crate::errors::GeometryError;
use crate::point::{step_direction, Point};
use crate::rect::RectDirection;

verus! {

/// The shape of a corner in a rectilinear polygon: the combination of the
/// incoming edge direction and the outgoing edge direction meeting at the
/// corner, where exactly one of the two is horizontal.
///
/// The first four have a 90-degree interior angle, the last four a
/// 270-degree interior angle.
#[derive(Clone, Copy, Debug, PartialEq, Eq, Structural)]
pub enum CornerType {
    DownRight,
    RightUp,
    UpLeft,
    LeftDown,
    DownLeft,
    RightDown,
    UpRight,
    LeftUp,
}

/// The corner shape for a pair of edge directions; defined exactly when one
/// direction is horizontal and the other vertical.
pub open spec fn classify(incoming: RectDirection, outgoing: RectDirection) -> Option<CornerType> {
    match (incoming, outgoing) {
        (RectDirection::Down, RectDirection::Right) => Some(CornerType::DownRight),
        (RectDirection::Right, RectDirection::Up) => Some(CornerType::RightUp),
        (RectDirection::Up, RectDirection::Left) => Some(CornerType::UpLeft),
        (RectDirection::Left, RectDirection::Down) => Some(CornerType::LeftDown),
        (RectDirection::Down, RectDirection::Left) => Some(CornerType::DownLeft),
        (RectDirection::Right, RectDirection::Down) => Some(CornerType::RightDown),
        (RectDirection::Up, RectDirection::Right) => Some(CornerType::UpRight),
        (RectDirection::Left, RectDirection::Up) => Some(CornerType::LeftUp),
        _ => None,
    }
}

impl CornerType {
    /// Classifies a pair of edge directions; an invalid-corner error when
    /// both are horizontal or both are vertical.
    pub fn new(incoming: RectDirection, outgoing: RectDirection) -> (r: Result<CornerType, GeometryError>)
        ensures
            r == (match classify(incoming, outgoing) {
                Some(c) => Ok::<CornerType, GeometryError>(c),
                None => Err::<CornerType, GeometryError>(GeometryError::InvalidCorner),
            }),
    {
        match (incoming, outgoing) {
            (RectDirection::Down, RectDirection::Right) => Ok(CornerType::DownRight),
            (RectDirection::Right, RectDirection::Up) => Ok(CornerType::RightUp),
            (RectDirection::Up, RectDirection::Left) => Ok(CornerType::UpLeft),
            (RectDirection::Left, RectDirection::Down) => Ok(CornerType::LeftDown),
            (RectDirection::Down, RectDirection::Left) => Ok(CornerType::DownLeft),
            (RectDirection::Right, RectDirection::Down) => Ok(CornerType::RightDown),
            (RectDirection::Up, RectDirection::Right) => Ok(CornerType::UpRight),
            (RectDirection::Left, RectDirection::Up) => Ok(CornerType::LeftUp),
            _ => Err(GeometryError::InvalidCorner),
        }
    }

    pub open spec fn spec_horizontal_part(self) -> RectDirection {
        match self {
            CornerType::UpLeft | CornerType::LeftDown | CornerType::DownLeft | CornerType::LeftUp
                => RectDirection::Left,
            _ => RectDirection::Right,
        }
    }

    pub open spec fn spec_vertical_part(self) -> RectDirection {
        match self {
            CornerType::DownRight | CornerType::LeftDown | CornerType::DownLeft | CornerType::RightDown
                => RectDirection::Down,
            _ => RectDirection::Up,
        }
    }

    pub open spec fn spec_right_angled(self) -> bool {
        match self {
            CornerType::DownRight | CornerType::RightUp | CornerType::UpLeft | CornerType::LeftDown
                => true,
            _ => false,
        }
    }

    pub open spec fn spec_incoming_part(self) -> RectDirection {
        match self {
            CornerType::DownRight | CornerType::DownLeft => RectDirection::Down,
            CornerType::RightUp | CornerType::RightDown => RectDirection::Right,
            CornerType::UpLeft | CornerType::UpRight => RectDirection::Up,
            CornerType::LeftDown | CornerType::LeftUp => RectDirection::Left,
        }
    }

    pub open spec fn spec_outgoing_part(self) -> RectDirection {
        match self {
            CornerType::RightDown | CornerType::LeftDown => RectDirection::Down,
            CornerType::UpRight | CornerType::DownRight => RectDirection::Right,
            CornerType::RightUp | CornerType::LeftUp => RectDirection::Up,
            CornerType::UpLeft | CornerType::DownLeft => RectDirection::Left,
        }
    }

    /// The horizontal one of the two edge directions of this corner.
    pub fn horizontal_part(&self) -> (r: RectDirection)
        ensures
            r == self.spec_horizontal_part(),
    {
        match self {
            CornerType::UpLeft | CornerType::LeftDown | CornerType::DownLeft | CornerType::LeftUp
                => RectDirection::Left,
            _ => RectDirection::Right,
        }
    }

    /// The vertical one of the two edge directions of this corner.
    pub fn vertical_part(&self) -> (r: RectDirection)
        ensures
            r == self.spec_vertical_part(),
    {
        match self {
            CornerType::DownRight | CornerType::LeftDown | CornerType::DownLeft | CornerType::RightDown
                => RectDirection::Down,
            _ => RectDirection::Up,
        }
    }

    /// Whether this corner has a 90-degree interior angle.
    pub fn right_angled(&self) -> (r: bool)
        ensures
            r == self.spec_right_angled(),
    {
        match self {
            CornerType::DownRight | CornerType::RightUp | CornerType::UpLeft | CornerType::LeftDown
                => true,
            _ => false,
        }
    }

    /// The edge direction arriving at this corner.
    pub fn incoming_part(&self) -> (r: RectDirection)
        ensures
            r == self.spec_incoming_part(),
    {
        match self {
            CornerType::DownRight | CornerType::DownLeft => RectDirection::Down,
            CornerType::RightUp | CornerType::RightDown => RectDirection::Right,
            CornerType::UpLeft | CornerType::UpRight => RectDirection::Up,
            CornerType::LeftDown | CornerType::LeftUp => RectDirection::Left,
        }
    }

    /// The edge direction leaving this corner.
    pub fn outgoing_part(&self) -> (r: RectDirection)
        ensures
            r == self.spec_outgoing_part(),
    {
        match self {
            CornerType::RightDown | CornerType::LeftDown => RectDirection::Down,
            CornerType::UpRight | CornerType::DownRight => RectDirection::Right,
            CornerType::RightUp | CornerType::LeftUp => RectDirection::Up,
            CornerType::UpLeft | CornerType::DownLeft => RectDirection::Left,
        }
    }
}

/// Classification is defined exactly for the mixed direction pairs: one
/// horizontal, one vertical. Of the sixteen pairs, eight classify and eight
/// are rejected.
pub proof fn lemma_classify_defined_iff(incoming: RectDirection, outgoing: RectDirection)
    ensures
        classify(incoming, outgoing) is Some
            <==> incoming.spec_is_horizontal() != outgoing.spec_is_horizontal(),
{
}

/// Classification is injective: the corner shape determines the direction
/// pair it came from.
pub proof fn lemma_classify_injective(incoming: RectDirection, outgoing: RectDirection, c: CornerType)
    requires
        classify(incoming, outgoing) == Some(c),
    ensures
        c.spec_incoming_part() == incoming,
        c.spec_outgoing_part() == outgoing,
{
}

/// Classification is surjective: every corner shape is the classification of
/// its own direction pair.
pub proof fn lemma_classify_surjective(c: CornerType)
    ensures
        classify(c.spec_incoming_part(), c.spec_outgoing_part()) == Some(c),
{
}

/// How the four direction accessors of a corner shape relate: one part is
/// horizontal and one vertical, and the incoming and outgoing directions are
/// those two parts in one order or the other.
pub proof fn lemma_corner_parts(c: CornerType)
    ensures
        c.spec_vertical_part().spec_is_vertical(),
        c.spec_horizontal_part().spec_is_horizontal(),
        c.spec_incoming_part().spec_is_horizontal() <==> c.spec_outgoing_part().spec_is_vertical(),
        c.spec_incoming_part().spec_is_vertical() ==> c.spec_incoming_part() == c.spec_vertical_part(),
        c.spec_outgoing_part().spec_is_vertical() ==> c.spec_outgoing_part() == c.spec_vertical_part(),
        c.spec_incoming_part().spec_is_horizontal() ==> c.spec_incoming_part() == c.spec_horizontal_part(),
        c.spec_outgoing_part().spec_is_horizontal() ==> c.spec_outgoing_part() == c.spec_horizontal_part(),
{
}

/// One polygon vertex together with its two neighbouring points and the
/// classified shape of the corner they form.
#[derive(Clone, Copy, Debug, PartialEq, Eq, Structural)]
pub struct RectCorner {
    pub incoming: Point,
    pub outgoing: Point,
    pub point: Point,
    pub corner_type: CornerType,
}

/// The corner a triple of consecutive points classifies to, when the two
/// steps are axis-aligned and meet at a right angle.
pub open spec fn spec_rect_corner_new(incoming: Point, outgoing: Point, center: Point)
    -> Result<RectCorner, GeometryError> {
    match (step_direction(incoming, center), step_direction(center, outgoing)) {
        (Some(din), Some(dout)) => match classify(din, dout) {
            Some(c) => Ok(RectCorner { incoming, outgoing, point: center, corner_type: c }),
            None => Err(GeometryError::InvalidCorner),
        },
        _ => Err(GeometryError::InvalidCorner),
    }
}

impl RectCorner {
    /// The stored corner type agrees with the classification re-derived from
    /// the three stored points.
    pub open spec fn wf(self) -> bool {
        spec_rect_corner_new(self.incoming, self.outgoing, self.point)
            == Ok::<RectCorner, GeometryError>(self)
    }

    /// Builds a classified corner from three consecutive polygon points; an
    /// invalid-corner error when either step is not axis-aligned or the two
    /// steps do not meet at a right angle.
    pub fn new(incoming: Point, outgoing: Point, center: Point) -> (r: Result<RectCorner, GeometryError>)
        ensures
            r == spec_rect_corner_new(incoming, outgoing, center),
            r is Ok ==> r.unwrap().wf(),
    {
        let din: RectDirection = match incoming.simple_directions_to(&center) {
            Ok(d) => d,
            Err(e) => {
                return Err(e);
            },
        };
        let dout: RectDirection = match center.simple_directions_to(&outgoing) {
            Ok(d) => d,
            Err(e) => {
                return Err(e);
            },
        };
        let corner_type: CornerType = match CornerType::new(din, dout) {
            Ok(c) => c,
            Err(e) => {
                return Err(e);
            },
        };
        Ok(RectCorner { incoming, outgoing, point: center, corner_type })
    }

    /// Rebuilds a corner from another one, point for point.
    pub fn from_other(other: &RectCorner) -> (r: RectCorner)
        ensures
            r == *other,
    {
        RectCorner {
            incoming: other.incoming,
            outgoing: other.outgoing,
            point: other.point,
            corner_type: other.corner_type,
        }
    }

    pub fn corner_type(&self) -> (r: CornerType)
        ensures
            r == self.corner_type,
    {
        self.corner_type
    }

    pub fn point(&self) -> (r: Point)
        ensures
            r == self.point,
    {
        self.point
    }

    pub fn incoming(&self) -> (r: Point)
        ensures
            r == self.incoming,
    {
        self.incoming
    }

    pub fn outgoing(&self) -> (r: Point)
        ensures
            r == self.outgoing,
    {
        self.outgoing
    }

    /// The projection of a query point onto this corner's outgoing edge:
    /// defined when that edge is vertical and the query's y-coordinate lies
    /// within the edge's span, in which case it is the point on the edge at
    /// the query's y-coordinate.
    pub open spec fn spec_project_vertical(self, p: Point) -> Option<Point> {
        if self.corner_type.spec_outgoing_part() == RectDirection::Down {
            if self.outgoing.y <= p.y && p.y <= self.point.y {
                Some(Point { x: self.point.x, y: p.y })
            } else {
                None
            }
        } else if self.corner_type.spec_outgoing_part() == RectDirection::Up {
            if self.point.y <= p.y && p.y <= self.outgoing.y {
                Some(Point { x: self.point.x, y: p.y })
            } else {
                None
            }
        } else {
            None
        }
    }

    /// Projects a query point onto this corner's outgoing vertical edge; see
    /// [`Self::spec_project_vertical`].
    pub fn project_onto_vertical_outgoing(&self, p: Point) -> (r: Option<Point>)
        ensures
            r == self.spec_project_vertical(p),
    {
        let (top, bottom): (i32, i32) = match self.corner_type.outgoing_part() {
            RectDirection::Down => (self.point.y, self.outgoing.y),
            RectDirection::Up => (self.outgoing.y, self.point.y),
            RectDirection::Left | RectDirection::Right => {
                return None;
            },
        };

        if bottom <= p.y && p.y <= top {
            Some(Point { x: self.point.x, y: p.y })
        } else {
            None
        }
    }
}

/// Index `i` names a corner whose point has the minimum x-coordinate, and
/// the maximum y-coordinate among the corners attaining that x.
pub open spec fn is_min_x_max_y(s: Seq<RectCorner>, i: int) -> bool {
    &&& 0 <= i < s.len()
    &&& forall|j: int| 0 <= j < s.len() ==> s[i].point.x <= #[trigger] s[j].point.x
    &&& forall|j: int| 0 <= j < s.len() && #[trigger] s[j].point.x == s[i].point.x
        ==> s[j].point.y <= s[i].point.y
}

/// Index `i` names a corner whose point has the minimum y-coordinate, and
/// the minimum x-coordinate among the corners attaining that y.
pub open spec fn is_min_y_min_x(s: Seq<RectCorner>, i: int) -> bool {
    &&& 0 <= i < s.len()
    &&& forall|j: int| 0 <= j < s.len() ==> s[i].point.y <= #[trigger] s[j].point.y
    &&& forall|j: int| 0 <= j < s.len() && #[trigger] s[j].point.y == s[i].point.y
        ==> s[i].point.x <= s[j].point.x
}

/// The number of positions `k` in `[1, i]` at which the horizontal part of
/// the corner `k` steps after `start` (cyclically) differs from the
/// horizontal part one step earlier.
pub open spec fn spec_horizontal_inversions(s: Seq<RectCorner>, start: int, i: int) -> int
    decreases i,
{
    if i < 1 {
        0
    } else {
        spec_horizontal_inversions(s, start, i - 1)
            + if s[(start + i) % (s.len() as int)].corner_type.spec_horizontal_part()
                != s[(start + i - 1) % (s.len() as int)].corner_type.spec_horizontal_part() {
                1int
            } else {
                0int
            }
    }
}

/// The number of positions `k` in `[1, i]` at which the vertical part of the
/// corner `k` steps after `start` (cyclically) differs from the vertical
/// part one step earlier.
pub open spec fn spec_vertical_inversions(s: Seq<RectCorner>, start: int, i: int) -> int
    decreases i,
{
    if i < 1 {
        0
    } else {
        spec_vertical_inversions(s, start, i - 1)
            + if s[(start + i) % (s.len() as int)].corner_type.spec_vertical_part()
                != s[(start + i - 1) % (s.len() as int)].corner_type.spec_vertical_part() {
                1int
            } else {
                0int
            }
    }
}

/// The classified corner sequence of one polygon, in traversal order,
/// together with its extremal corner indices and the number of direction
/// inversions around the boundary.
pub struct Corners {
    pub vertical_inversions: usize,
    pub horizontal_inversions: usize,
    pub min_x_max_y_index: usize,
    pub min_y_min_x_index: usize,
    pub corners: Vec<RectCorner>,
}

impl Corners {
    /// The first index of a corner with minimal x-coordinate and, among
    /// those, maximal y-coordinate.
    pub fn min_x_max_y_index(corners: &[RectCorner]) -> (r: usize)
        requires
            corners@.len() > 0,
        ensures
            is_min_x_max_y(corners@, r as int),
            forall|j: int| 0 <= j < r as int ==> #[trigger] corners@[j].point != corners@[r as int].point,
    {
        let n: usize = corners.len();
        let mut best: usize = 0;
        let mut ix: usize = 1;
        while ix < n
            invariant
                n == corners@.len(),
                1 <= ix <= n,
                best < ix,
                forall|j: int| 0 <= j < ix as int ==> corners@[best as int].point.x <= #[trigger] corners@[j].point.x,
                forall|j: int| 0 <= j < ix as int && #[trigger] corners@[j].point.x == corners@[best as int].point.x
                    ==> corners@[j].point.y <= corners@[best as int].point.y,
                forall|j: int| 0 <= j < best as int ==> #[trigger] corners@[j].point != corners@[best as int].point,
            decreases n - ix,
        {
            let c: Point = corners[ix].point;
            let b: Point = corners[best].point;
            if c.x < b.x || (c.x == b.x && c.y > b.y) {
                best = ix;
            }
            ix = ix + 1;
        }
        best
    }

    /// The first index of a corner with minimal y-coordinate and, among
    /// those, minimal x-coordinate.
    pub fn min_y_min_x_index(corners: &[RectCorner]) -> (r: usize)
        requires
            corners@.len() > 0,
        ensures
            is_min_y_min_x(corners@, r as int),
            forall|j: int| 0 <= j < r as int ==> #[trigger] corners@[j].point != corners@[r as int].point,
    {
        let n: usize = corners.len();
        let mut best: usize = 0;
        let mut ix: usize = 1;
        while ix < n
            invariant
                n == corners@.len(),
                1 <= ix <= n,
                best < ix,
                forall|j: int| 0 <= j < ix as int ==> corners@[best as int].point.y <= #[trigger] corners@[j].point.y,
                forall|j: int| 0 <= j < ix as int && #[trigger] corners@[j].point.y == corners@[best as int].point.y
                    ==> corners@[best as int].point.x <= corners@[j].point.x,
                forall|j: int| 0 <= j < best as int ==> #[trigger] corners@[j].point != corners@[best as int].point,
            decreases n - ix,
        {
            let c: Point = corners[ix].point;
            let b: Point = corners[best].point;
            if c.y < b.y || (c.y == b.y && c.x < b.x) {
                best = ix;
            }
            ix = ix + 1;
        }
        best
    }

    /// Counts, walking the full cycle of corners from the given start, how
    /// often the horizontal edge direction flips.
    pub fn count_horizontal_inversions(left_most_bottom_most_ix: usize, corners: &[RectCorner]) -> (r: usize)
        requires
            corners@.len() > 0,
            (left_most_bottom_most_ix as int) < corners@.len(),
        ensures
            r as int == spec_horizontal_inversions(
                corners@, left_most_bottom_most_ix as int, corners@.len() - 1),
    {
        let n: usize = corners.len();
        let start: usize = left_most_bottom_most_ix;
        let mut inversions: usize = 0;
        let mut last_horizontal: RectDirection = corners[start].corner_type.horizontal_part();
        proof {
            vstd::arithmetic::div_mod::lemma_small_mod(start as nat, n as nat);
        }
        let mut i: usize = 1;
        while i < n
            invariant
                n == corners@.len(),
                start < n,
                1 <= i <= n,
                inversions <= i - 1,
                inversions as int == spec_horizontal_inversions(corners@, start as int, i - 1),
                last_horizontal == corners@[
                    (start as int + i - 1) % (n as int)].corner_type.spec_horizontal_part(),
            decreases n - i,
        {
            let offset: usize = n - start;
            let idx: usize = if i < offset { start + i } else { i - offset };
            assert(idx as int == (start as int + i as int) % (n as int)) by {
                if i < offset {
                    vstd::arithmetic::div_mod::lemma_small_mod((start + i) as nat, n as nat);
                } else {
                    vstd::arithmetic::div_mod::lemma_mod_multiples_vanish(
                        1int, idx as int, n as int);
                    vstd::arithmetic::div_mod::lemma_small_mod(idx as nat, n as nat);
                }
            };
            let this_horizontal: RectDirection = corners[idx].corner_type.horizontal_part();
            if this_horizontal != last_horizontal {
                last_horizontal = this_horizontal;
                inversions = inversions + 1;
            }
            i = i + 1;
        }
        inversions
    }

    /// Counts, walking the full cycle of corners from the given start, how
    /// often the vertical edge direction flips.
    pub fn count_vertical_inversions(bottom_most_right_most_ix: usize, corners: &[RectCorner]) -> (r: usize)
        requires
            corners@.len() > 0,
            (bottom_most_right_most_ix as int) < corners@.len(),
        ensures
            r as int == spec_vertical_inversions(
                corners@, bottom_most_right_most_ix as int, corners@.len() - 1),
    {
        let n: usize = corners.len();
        let start: usize = bottom_most_right_most_ix;
        let mut inversions: usize = 0;
        let mut last_vertical: RectDirection = corners[start].corner_type.vertical_part();
        proof {
            vstd::arithmetic::div_mod::lemma_small_mod(start as nat, n as nat);
        }
        let mut i: usize = 1;
        while i < n
            invariant
                n == corners@.len(),
                start < n,
                1 <= i <= n,
                inversions <= i - 1,
                inversions as int == spec_vertical_inversions(corners@, start as int, i - 1),
                last_vertical == corners@[
                    (start as int + i - 1) % (n as int)].corner_type.spec_vertical_part(),
            decreases n - i,
        {
            let offset: usize = n - start;
            let idx: usize = if i < offset { start + i } else { i - offset };
            assert(idx as int == (start as int + i as int) % (n as int)) by {
                if i < offset {
                    vstd::arithmetic::div_mod::lemma_small_mod((start + i) as nat, n as nat);
                } else {
                    vstd::arithmetic::div_mod::lemma_mod_multiples_vanish(
                        1int, idx as int, n as int);
                    vstd::arithmetic::div_mod::lemma_small_mod(idx as nat, n as nat);
                }
            };
            let this_vertical: RectDirection = corners[idx].corner_type.vertical_part();
            if this_vertical != last_vertical {
                last_vertical = this_vertical;
                inversions = inversions + 1;
            }
            i = i + 1;
        }
        inversions
    }

    /// Bundles a corner sequence with its extremal indices and inversion
    /// counts.
    pub fn new(corners: Vec<RectCorner>) -> (r: Corners)
        requires
            corners@.len() > 0,
        ensures
            r.corners == corners,
            is_min_x_max_y(corners@, r.min_x_max_y_index as int),
            forall|j: int| 0 <= j < r.min_x_max_y_index as int
                ==> #[trigger] corners@[j].point != corners@[r.min_x_max_y_index as int].point,
            is_min_y_min_x(corners@, r.min_y_min_x_index as int),
            forall|j: int| 0 <= j < r.min_y_min_x_index as int
                ==> #[trigger] corners@[j].point != corners@[r.min_y_min_x_index as int].point,
            r.horizontal_inversions as int == spec_horizontal_inversions(
                corners@, r.min_x_max_y_index as int, corners@.len() - 1),
            r.vertical_inversions as int == spec_vertical_inversions(
                corners@, r.min_y_min_x_index as int, corners@.len() - 1),
    {
        let min_x_max_y_index: usize = Self::min_x_max_y_index(corners.as_slice());
        let min_y_min_x_index: usize = Self::min_y_min_x_index(corners.as_slice());
        let horizontal_inversions: usize = Self::count_horizontal_inversions(
            min_x_max_y_index, corners.as_slice());
        let vertical_inversions: usize = Self::count_vertical_inversions(
            min_y_min_x_index, corners.as_slice());

        Corners {
            vertical_inversions,
            horizontal_inversions,
            min_x_max_y_index,
            min_y_min_x_index,
            corners,
        }
    }
}

} // verus!
