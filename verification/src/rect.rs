use vstd::prelude::*;
use crate::point::Point;

verus! {

/// One of the four axis-aligned edge directions of a rectilinear polygon.
#[derive(Clone, Copy, Debug, PartialEq, Eq, Structural)]
pub enum RectDirection {
    Down,
    Left,
    Right,
    Up,
}

impl RectDirection {
    pub open spec fn spec_is_horizontal(self) -> bool {
        self == RectDirection::Right || self == RectDirection::Left
    }

    pub open spec fn spec_is_vertical(self) -> bool {
        self == RectDirection::Up || self == RectDirection::Down
    }

    pub fn is_horizontal(&self) -> (r: bool)
        ensures
            r == self.spec_is_horizontal(),
    {
        match self {
            RectDirection::Right | RectDirection::Left => true,
            _ => false,
        }
    }

    pub fn is_vertical(&self) -> (r: bool)
        ensures
            r == self.spec_is_vertical(),
    {
        match self {
            RectDirection::Up | RectDirection::Down => true,
            _ => false,
        }
    }
}

/// A vertical edge direction, used for wall attitudes.
#[derive(Clone, Copy, Debug, PartialEq, Eq, Structural)]
pub enum VerticalDirection {
    Up,
    Down,
}

impl VerticalDirection {
    /// The same direction as a general [`RectDirection`].
    pub fn to_rect_direction(self) -> (r: RectDirection)
        ensures
            r == (match self {
                VerticalDirection::Up => RectDirection::Up,
                VerticalDirection::Down => RectDirection::Down,
            }),
    {
        match self {
            VerticalDirection::Up => RectDirection::Up,
            VerticalDirection::Down => RectDirection::Down,
        }
    }
}

/// A horizontal edge direction.
#[derive(Clone, Copy, Debug, PartialEq, Eq, Structural)]
pub enum HorizontalDirection {
    Left,
    Right,
}

impl HorizontalDirection {
    /// The same direction as a general [`RectDirection`].
    pub fn to_rect_direction(self) -> (r: RectDirection)
        ensures
            r == (match self {
                HorizontalDirection::Left => RectDirection::Left,
                HorizontalDirection::Right => RectDirection::Right,
            }),
    {
        match self {
            HorizontalDirection::Left => RectDirection::Left,
            HorizontalDirection::Right => RectDirection::Right,
        }
    }
}

/// An axis-aligned rectangle given by two opposite corner points.
///
/// In a decomposition result `p0` is the lower-left corner and `p1` the
/// upper-right corner.
#[derive(Clone, Copy, Debug, PartialEq, Eq, Hash, Structural)]
pub struct Rectangle {
    pub p0: Point,
    pub p1: Point,
}

impl Rectangle {
    /// The corner points name a rectangle of positive area.
    pub open spec fn well_formed(self) -> bool {
        self.p0.x < self.p1.x && self.p0.y < self.p1.y
    }
}

/// The two rectangles share interior area.
pub open spec fn rects_overlap(a: Rectangle, b: Rectangle) -> bool {
    &&& a.p0.x < b.p1.x
    &&& b.p0.x < a.p1.x
    &&& a.p0.y < b.p1.y
    &&& b.p0.y < a.p1.y
}

/// A rectangle tagged with the drawing layer it belongs to.
#[derive(Clone, Copy, Debug, PartialEq, Eq, Hash, Structural)]
pub struct Rect {
    pub rect: Rectangle,
    pub layer: u8,
}

/// A list of rectangles that together cover one polygon, tagged with the
/// polygon's drawing layer.
#[derive(Clone, Debug)]
pub struct PolyRect {
    pub rects: Vec<Rectangle>,
    pub layer: u8,
}

} // verus!
