use vstd::prelude::*;
use crate::errors::GeometryError;
use crate::rect::RectDirection;

verus! {

/// An immutable pair of signed integer coordinates. Equality and hashing are
/// by value.
#[derive(Clone, Copy, Debug, Default, PartialEq, Eq, Hash, Structural)]
pub struct Point {
    pub x: i32,
    pub y: i32,
}

/// The single axis-aligned step from `a` to `b`: defined exactly when the two
/// points differ in exactly one coordinate.
pub open spec fn step_direction(a: Point, b: Point) -> Option<RectDirection> {
    if a.x == b.x && a.y == b.y {
        None
    } else if a.x != b.x && a.y != b.y {
        None
    } else if a.x < b.x {
        Some(RectDirection::Right)
    } else if a.x > b.x {
        Some(RectDirection::Left)
    } else if a.y < b.y {
        Some(RectDirection::Up)
    } else {
        Some(RectDirection::Down)
    }
}

/// The directions, horizontal first, in which one must move to get from `a`
/// to `b`: up to one horizontal and up to one vertical component.
pub open spec fn spec_directions_to(a: Point, b: Point) -> Seq<RectDirection> {
    let horizontal: Seq<RectDirection> = if a.x < b.x {
        seq![RectDirection::Right]
    } else if a.x > b.x {
        seq![RectDirection::Left]
    } else {
        Seq::empty()
    };
    let vertical: Seq<RectDirection> = if a.y < b.y {
        seq![RectDirection::Up]
    } else if a.y > b.y {
        seq![RectDirection::Down]
    } else {
        Seq::empty()
    };
    horizontal + vertical
}

impl Point {
    pub fn new(x: i32, y: i32) -> (r: Point)
        ensures
            r == (Point { x, y }),
    {
        Point { x, y }
    }

    pub fn x(&self) -> (r: i32)
        ensures
            r == self.x,
    {
        self.x
    }

    pub fn y(&self) -> (r: i32)
        ensures
            r == self.y,
    {
        self.y
    }

    /// Translates this point by the coordinates of `other`.
    pub fn shift(&self, other: Point) -> (r: Point)
        requires
            i32::MIN <= self.x + other.x <= i32::MAX,
            i32::MIN <= self.y + other.y <= i32::MAX,
        ensures
            r.x == self.x + other.x,
            r.y == self.y + other.y,
    {
        Point { x: self.x + other.x, y: self.y + other.y }
    }

    /// Rotates this point a quarter turn counter-clockwise about the origin.
    pub fn rotate(&self) -> (r: Point)
        requires
            self.y != i32::MIN,
        ensures
            r.x == -self.y as int,
            r.y == self.x,
    {
        Point { x: -self.y, y: self.x }
    }

    /// The directions, horizontal first, in which one must move to reach
    /// `other`: empty when the points coincide, one direction for an
    /// axis-aligned step, two for a diagonal displacement.
    pub fn directions_to(&self, other: &Point) -> (r: Vec<RectDirection>)
        ensures
            r@ =~= spec_directions_to(*self, *other),
    {
        let mut result: Vec<RectDirection> = Vec::with_capacity(2);

        if self.x < other.x {
            result.push(RectDirection::Right);
        } else if self.x > other.x {
            result.push(RectDirection::Left);
        }

        if self.y < other.y {
            result.push(RectDirection::Up);
        } else if self.y > other.y {
            result.push(RectDirection::Down);
        }

        result
    }

    /// The single axis-aligned step to `other`; an invalid-corner error when
    /// the displacement is zero or diagonal, since such a pair cannot occur
    /// in a valid rectilinear point sequence.
    pub fn simple_directions_to(&self, other: &Point) -> (r: Result<RectDirection, GeometryError>)
        ensures
            r == (match step_direction(*self, *other) {
                Some(d) => Ok::<RectDirection, GeometryError>(d),
                None => Err::<RectDirection, GeometryError>(GeometryError::InvalidCorner),
            }),
    {
        if self.x == other.x && self.y == other.y {
            Err(GeometryError::InvalidCorner)
        } else if self.x != other.x && self.y != other.y {
            Err(GeometryError::InvalidCorner)
        } else if self.x < other.x {
            Ok(RectDirection::Right)
        } else if self.x > other.x {
            Ok(RectDirection::Left)
        } else if self.y < other.y {
            Ok(RectDirection::Up)
        } else {
            Ok(RectDirection::Down)
        }
    }
}

/// The abstraction the geometry works through: a value with two integer
/// coordinates that can be rebuilt from them.
pub trait PointLike: Sized + Copy {
    spec fn spec_x(&self) -> int;

    spec fn spec_y(&self) -> int;

    fn x(&self) -> (r: i32)
        ensures
            r as int == self.spec_x(),
    ;

    fn y(&self) -> (r: i32)
        ensures
            r as int == self.spec_y(),
    ;

    fn new(x: i32, y: i32) -> (r: Self)
        ensures
            r.spec_x() == x as int,
            r.spec_y() == y as int,
    ;

    fn into_point(self) -> (r: Point)
        ensures
            r.x as int == self.spec_x(),
            r.y as int == self.spec_y(),
    ;
}

impl PointLike for Point {
    open spec fn spec_x(&self) -> int {
        self.x as int
    }

    open spec fn spec_y(&self) -> int {
        self.y as int
    }

    fn x(&self) -> (r: i32)
        ensures
            r as int == self.spec_x(),
    {
        self.x
    }

    fn y(&self) -> (r: i32)
        ensures
            r as int == self.spec_y(),
    {
        self.y
    }

    fn new(x: i32, y: i32) -> (r: Point)
        ensures
            r.spec_x() == x as int,
            r.spec_y() == y as int,
    {
        Point { x, y }
    }

    fn into_point(self) -> (r: Point)
        ensures
            r.x as int == self.spec_x(),
            r.y as int == self.spec_y(),
    {
        self
    }
}

/// Converts a list of point-like values into plain [`Point`]s, preserving
/// order and coordinates.
pub fn into_points<P: PointLike>(point_likes: Vec<P>) -> (r: Vec<Point>)
    ensures
        r@.len() == point_likes@.len(),
        forall|i: int| 0 <= i < r@.len() ==> r@[i].x as int == point_likes@[i].spec_x()
            && r@[i].y as int == point_likes@[i].spec_y(),
{
    let mut result: Vec<Point> = Vec::with_capacity(point_likes.len());
    let n: usize = point_likes.len();
    let mut ix: usize = 0;
    while ix < n
        invariant
            n == point_likes@.len(),
            ix <= n,
            result@.len() == ix as int,
            forall|i: int| 0 <= i < ix as int ==> result@[i].x as int == point_likes@[i].spec_x()
                && result@[i].y as int == point_likes@[i].spec_y(),
        decreases n - ix,
    {
        let p: Point = point_likes[ix].into_point();
        result.push(p);
        ix = ix + 1;
    }
    result
}

} // verus!
