use vstd::prelude::*;
use crate::errors::GeometryError;
use crate::point::{step_direction, Point};
use crate::polygon::Polygon;
use crate::rect::RectDirection;

verus! {

/// A stroked path: a centerline given by its points, a stroke width, and
/// the drawing layer it belongs to.
#[derive(Clone, Debug, PartialEq, Eq, Hash)]
pub struct Path {
    pub points: Vec<Point>,
    pub width: u32,
    pub layer: u8,
}

/// A path as it arrives from the outside, before any validity check.
#[derive(Clone, Debug, PartialEq, Eq, Hash)]
pub struct UnvalidatedPath {
    pub points: Vec<Point>,
    pub width: u32,
    pub layer: u8,
}

/// The point `(x, y)`, for coordinates known to fit.
pub open spec fn point_at(x: int, y: int) -> Point {
    Point { x: x as i32, y: y as i32 }
}

/// Shifting every path point by `h` in both axes stays within coordinate
/// range.
pub open spec fn shift_fits(ps: Seq<Point>, h: int) -> bool {
    forall|i: int| 0 <= i < ps.len() ==> {
        &&& i32::MIN <= (#[trigger] ps[i]).x - h
        &&& ps[i].x + h <= i32::MAX
        &&& i32::MIN <= ps[i].y - h
        &&& ps[i].y + h <= i32::MAX
    }
}

/// The two directions are the two opposite steps along one axis.
pub open spec fn opposite_directions(a: RectDirection, b: RectDirection) -> bool {
    ||| (a == RectDirection::Left && b == RectDirection::Right)
    ||| (a == RectDirection::Right && b == RectDirection::Left)
    ||| (a == RectDirection::Up && b == RectDirection::Down)
    ||| (a == RectDirection::Down && b == RectDirection::Up)
}

/// The outline point pushed onto the forward chain for a path endpoint
/// moving in the given direction.
pub open spec fn spec_start_forward(d: RectDirection, p: Point, h: int) -> Point {
    match d {
        RectDirection::Right => point_at(p.x as int, p.y - h),
        RectDirection::Left => point_at(p.x as int, p.y + h),
        RectDirection::Up => point_at(p.x + h, p.y as int),
        RectDirection::Down => point_at(p.x - h, p.y as int),
    }
}

/// The outline point pushed onto the backward chain for a path endpoint
/// moving in the given direction.
pub open spec fn spec_start_backward(d: RectDirection, p: Point, h: int) -> Point {
    match d {
        RectDirection::Right => point_at(p.x as int, p.y + h),
        RectDirection::Left => point_at(p.x as int, p.y - h),
        RectDirection::Up => point_at(p.x - h, p.y as int),
        RectDirection::Down => point_at(p.x + h, p.y as int),
    }
}

/// The outline point pushed onto the forward chain for an interior path
/// point entered along `last` and left along `next`.
pub open spec fn spec_corner_forward(last: RectDirection, next: RectDirection, p: Point, h: int) -> Point {
    match (last, next) {
        (RectDirection::Right, RectDirection::Right) => point_at(p.x as int, p.y - h),
        (RectDirection::Left, RectDirection::Left) => point_at(p.x as int, p.y + h),
        (RectDirection::Up, RectDirection::Up) => point_at(p.x + h, p.y as int),
        (RectDirection::Down, RectDirection::Down) => point_at(p.x - h, p.y as int),
        (RectDirection::Right, RectDirection::Down) | (RectDirection::Down, RectDirection::Right)
            => point_at(p.x - h, p.y - h),
        (RectDirection::Right, RectDirection::Up) | (RectDirection::Up, RectDirection::Right)
            => point_at(p.x + h, p.y - h),
        (RectDirection::Left, RectDirection::Up) | (RectDirection::Up, RectDirection::Left)
            => point_at(p.x + h, p.y + h),
        (RectDirection::Left, RectDirection::Down) | (RectDirection::Down, RectDirection::Left)
            => point_at(p.x - h, p.y + h),
        _ => p,
    }
}

/// The outline point pushed onto the backward chain for an interior path
/// point entered along `last` and left along `next`.
pub open spec fn spec_corner_backward(last: RectDirection, next: RectDirection, p: Point, h: int) -> Point {
    match (last, next) {
        (RectDirection::Right, RectDirection::Right) => point_at(p.x as int, p.y + h),
        (RectDirection::Left, RectDirection::Left) => point_at(p.x as int, p.y - h),
        (RectDirection::Up, RectDirection::Up) => point_at(p.x - h, p.y as int),
        (RectDirection::Down, RectDirection::Down) => point_at(p.x + h, p.y as int),
        (RectDirection::Right, RectDirection::Down) | (RectDirection::Down, RectDirection::Right)
            => point_at(p.x + h, p.y + h),
        (RectDirection::Right, RectDirection::Up) | (RectDirection::Up, RectDirection::Right)
            => point_at(p.x - h, p.y + h),
        (RectDirection::Left, RectDirection::Up) | (RectDirection::Up, RectDirection::Left)
            => point_at(p.x - h, p.y - h),
        (RectDirection::Left, RectDirection::Down) | (RectDirection::Down, RectDirection::Left)
            => point_at(p.x + h, p.y - h),
        _ => p,
    }
}

/// Appends the outline points, below and above, of a point on a stroke that
/// continues horizontally to the right.
pub fn shift_pure_right(
    forward_poly_points: &mut Vec<Point>,
    backward_poly_points: &mut Vec<Point>,
    p0: Point,
    half_width: i32,
)
    requires
        half_width >= 0,
        i32::MIN <= p0.y - half_width,
        p0.y + half_width <= i32::MAX,
    ensures
        final(forward_poly_points)@ =~= old(forward_poly_points)@.push(
            point_at(p0.x as int, p0.y - half_width)),
        final(backward_poly_points)@ =~= old(backward_poly_points)@.push(
            point_at(p0.x as int, p0.y + half_width)),
{
    forward_poly_points.push(Point { x: p0.x, y: p0.y - half_width });
    backward_poly_points.push(Point { x: p0.x, y: p0.y + half_width });
}

/// Appends the outline points of a point on a stroke that continues
/// horizontally to the left: the rightward shift with the chains swapped.
pub fn shift_pure_left(
    forward_poly_points: &mut Vec<Point>,
    backward_poly_points: &mut Vec<Point>,
    p0: Point,
    half_width: i32,
)
    requires
        half_width >= 0,
        i32::MIN <= p0.y - half_width,
        p0.y + half_width <= i32::MAX,
    ensures
        final(forward_poly_points)@ =~= old(forward_poly_points)@.push(
            point_at(p0.x as int, p0.y + half_width)),
        final(backward_poly_points)@ =~= old(backward_poly_points)@.push(
            point_at(p0.x as int, p0.y - half_width)),
{
    shift_pure_right(backward_poly_points, forward_poly_points, p0, half_width)
}

/// Appends the outline points, right and left, of a point on a stroke that
/// continues vertically upward.
pub fn shift_pure_up(
    forward_poly_points: &mut Vec<Point>,
    backward_poly_points: &mut Vec<Point>,
    p0: Point,
    half_width: i32,
)
    requires
        half_width >= 0,
        i32::MIN <= p0.x - half_width,
        p0.x + half_width <= i32::MAX,
    ensures
        final(forward_poly_points)@ =~= old(forward_poly_points)@.push(
            point_at(p0.x + half_width, p0.y as int)),
        final(backward_poly_points)@ =~= old(backward_poly_points)@.push(
            point_at(p0.x - half_width, p0.y as int)),
{
    forward_poly_points.push(Point { x: p0.x + half_width, y: p0.y });
    backward_poly_points.push(Point { x: p0.x - half_width, y: p0.y });
}

/// Appends the outline points of a point on a stroke that continues
/// vertically downward: the upward shift with the chains swapped.
pub fn shift_pure_down(
    forward_poly_points: &mut Vec<Point>,
    backward_poly_points: &mut Vec<Point>,
    p0: Point,
    half_width: i32,
)
    requires
        half_width >= 0,
        i32::MIN <= p0.x - half_width,
        p0.x + half_width <= i32::MAX,
    ensures
        final(forward_poly_points)@ =~= old(forward_poly_points)@.push(
            point_at(p0.x - half_width, p0.y as int)),
        final(backward_poly_points)@ =~= old(backward_poly_points)@.push(
            point_at(p0.x + half_width, p0.y as int)),
{
    shift_pure_up(backward_poly_points, forward_poly_points, p0, half_width)
}

/// Appends the outline points of a corner turning between rightward and
/// upward travel.
pub fn shift_right_up(
    forward_poly_points: &mut Vec<Point>,
    backward_poly_points: &mut Vec<Point>,
    p0: Point,
    half_width: i32,
)
    requires
        half_width >= 0,
        i32::MIN <= p0.x - half_width,
        p0.x + half_width <= i32::MAX,
        i32::MIN <= p0.y - half_width,
        p0.y + half_width <= i32::MAX,
    ensures
        final(forward_poly_points)@ =~= old(forward_poly_points)@.push(
            point_at(p0.x + half_width, p0.y - half_width)),
        final(backward_poly_points)@ =~= old(backward_poly_points)@.push(
            point_at(p0.x - half_width, p0.y + half_width)),
{
    forward_poly_points.push(Point { x: p0.x + half_width, y: p0.y - half_width });
    backward_poly_points.push(Point { x: p0.x - half_width, y: p0.y + half_width });
}

/// Appends the outline points of a corner turning between leftward and
/// downward travel: the right-up shift with the chains swapped.
pub fn shift_left_down(
    forward_poly_points: &mut Vec<Point>,
    backward_poly_points: &mut Vec<Point>,
    p0: Point,
    half_width: i32,
)
    requires
        half_width >= 0,
        i32::MIN <= p0.x - half_width,
        p0.x + half_width <= i32::MAX,
        i32::MIN <= p0.y - half_width,
        p0.y + half_width <= i32::MAX,
    ensures
        final(forward_poly_points)@ =~= old(forward_poly_points)@.push(
            point_at(p0.x - half_width, p0.y + half_width)),
        final(backward_poly_points)@ =~= old(backward_poly_points)@.push(
            point_at(p0.x + half_width, p0.y - half_width)),
{
    shift_right_up(backward_poly_points, forward_poly_points, p0, half_width);
}

/// Appends the outline points of a corner turning between rightward and
/// downward travel.
pub fn shift_right_down(
    forward_poly_points: &mut Vec<Point>,
    backward_poly_points: &mut Vec<Point>,
    p0: Point,
    half_width: i32,
)
    requires
        half_width >= 0,
        i32::MIN <= p0.x - half_width,
        p0.x + half_width <= i32::MAX,
        i32::MIN <= p0.y - half_width,
        p0.y + half_width <= i32::MAX,
    ensures
        final(forward_poly_points)@ =~= old(forward_poly_points)@.push(
            point_at(p0.x - half_width, p0.y - half_width)),
        final(backward_poly_points)@ =~= old(backward_poly_points)@.push(
            point_at(p0.x + half_width, p0.y + half_width)),
{
    forward_poly_points.push(Point { x: p0.x - half_width, y: p0.y - half_width });
    backward_poly_points.push(Point { x: p0.x + half_width, y: p0.y + half_width });
}

/// Appends the outline points of a corner turning between leftward and
/// upward travel: the right-down shift with the chains swapped.
pub fn shift_left_up(
    forward_poly_points: &mut Vec<Point>,
    backward_poly_points: &mut Vec<Point>,
    p0: Point,
    half_width: i32,
)
    requires
        half_width >= 0,
        i32::MIN <= p0.x - half_width,
        p0.x + half_width <= i32::MAX,
        i32::MIN <= p0.y - half_width,
        p0.y + half_width <= i32::MAX,
    ensures
        final(forward_poly_points)@ =~= old(forward_poly_points)@.push(
            point_at(p0.x + half_width, p0.y + half_width)),
        final(backward_poly_points)@ =~= old(backward_poly_points)@.push(
            point_at(p0.x - half_width, p0.y - half_width)),
{
    shift_right_down(backward_poly_points, forward_poly_points, p0, half_width);
}

/// Appends the outline points of a path endpoint, dispatching on the
/// direction the stroke leaves (or arrives at) the endpoint.
pub fn start_or_end_path_to_poly(
    start_or_end_point: Point,
    start_or_end_direction: RectDirection,
    half_width: i32,
    forward_poly_points: &mut Vec<Point>,
    backward_poly_points: &mut Vec<Point>,
)
    requires
        half_width >= 0,
        i32::MIN <= start_or_end_point.x - half_width,
        start_or_end_point.x + half_width <= i32::MAX,
        i32::MIN <= start_or_end_point.y - half_width,
        start_or_end_point.y + half_width <= i32::MAX,
    ensures
        final(forward_poly_points)@ =~= old(forward_poly_points)@.push(
            spec_start_forward(start_or_end_direction, start_or_end_point, half_width as int)),
        final(backward_poly_points)@ =~= old(backward_poly_points)@.push(
            spec_start_backward(start_or_end_direction, start_or_end_point, half_width as int)),
{
    match start_or_end_direction {
        RectDirection::Right => shift_pure_right(
            forward_poly_points, backward_poly_points, start_or_end_point, half_width),
        RectDirection::Left => shift_pure_left(
            forward_poly_points, backward_poly_points, start_or_end_point, half_width),
        RectDirection::Up => shift_pure_up(
            forward_poly_points, backward_poly_points, start_or_end_point, half_width),
        RectDirection::Down => shift_pure_down(
            forward_poly_points, backward_poly_points, start_or_end_point, half_width),
    }
}

/// The outline of a two-point path whose endpoints share their
/// x-coordinate, as a four-point polygon shifted in y.
pub fn simple_horizontal_path_to_poly(points: &[Point], width: u32, layer: u8) -> (r: Polygon)
    requires
        points@.len() >= 2,
        i32::MIN <= points@[0].y - (width as int) / 2,
        points@[0].y + (width as int) / 2 <= i32::MAX,
        i32::MIN <= points@[1].y - (width as int) / 2,
        points@[1].y + (width as int) / 2 <= i32::MAX,
    ensures
        r.layer == layer,
        r.points@ =~= seq![
            point_at(points@[0].x as int, points@[0].y - (width as int) / 2),
            point_at(points@[1].x as int, points@[1].y - (width as int) / 2),
            point_at(points@[1].x as int, points@[1].y + (width as int) / 2),
            point_at(points@[0].x as int, points@[0].y + (width as int) / 2),
        ],
{
    let half_width: i32 = (width / 2) as i32;

    let a: Point = Point { x: points[0].x, y: points[0].y - half_width };
    let b: Point = Point { x: points[1].x, y: points[1].y - half_width };
    let c: Point = Point { x: points[1].x, y: points[1].y + half_width };
    let d: Point = Point { x: points[0].x, y: points[0].y + half_width };
    let poly_points: Vec<Point> = vec![a, b, c, d];

    Polygon { points: poly_points, layer }
}

/// The outline of a two-point path whose endpoints share their
/// y-coordinate, as a four-point polygon shifted in x.
pub fn simple_vertical_path_to_poly(points: &[Point], width: u32, layer: u8) -> (r: Polygon)
    requires
        points@.len() >= 2,
        i32::MIN <= points@[0].x - (width as int) / 2,
        points@[0].x + (width as int) / 2 <= i32::MAX,
        i32::MIN <= points@[1].x - (width as int) / 2,
        points@[1].x + (width as int) / 2 <= i32::MAX,
    ensures
        r.layer == layer,
        r.points@ =~= seq![
            point_at(points@[0].x + (width as int) / 2, points@[0].y as int),
            point_at(points@[1].x + (width as int) / 2, points@[1].y as int),
            point_at(points@[1].x - (width as int) / 2, points@[1].y as int),
            point_at(points@[0].x - (width as int) / 2, points@[0].y as int),
        ],
{
    let half_width: i32 = (width / 2) as i32;

    let a: Point = Point { x: points[0].x + half_width, y: points[0].y };
    let b: Point = Point { x: points[1].x + half_width, y: points[1].y };
    let c: Point = Point { x: points[1].x - half_width, y: points[1].y };
    let d: Point = Point { x: points[0].x - half_width, y: points[0].y };
    let poly_points: Vec<Point> = vec![a, b, c, d];

    Polygon { points: poly_points, layer }
}

/// The step direction at position `i` of the centerline.
pub open spec fn path_dir_at(ps: Seq<Point>, i: int) -> RectDirection {
    step_direction(ps[i], ps[i + 1]).unwrap()
}

/// Every centerline step is one axis-aligned move, and no interior point
/// reverses the direction of travel.
pub open spec fn path_points_valid(ps: Seq<Point>) -> bool {
    &&& forall|i: int| 0 <= i < ps.len() - 1 ==> (#[trigger] step_direction(ps[i], ps[i + 1])) is Some
    &&& forall|i: int| #![trigger path_dir_at(ps, i), path_dir_at(ps, i - 1)] 1 <= i < ps.len() - 1
        ==> !opposite_directions(path_dir_at(ps, i - 1), path_dir_at(ps, i))
}

/// The outline point at index `k` of the forward chain of a path.
#[verifier::opaque]
pub open spec fn spec_forward_point(ps: Seq<Point>, h: int, k: int) -> Point {
    if k == 0 {
        spec_start_forward(path_dir_at(ps, 0), ps[0], h)
    } else if k < ps.len() - 1 {
        spec_corner_forward(path_dir_at(ps, k - 1), path_dir_at(ps, k), ps[k], h)
    } else {
        spec_start_forward(path_dir_at(ps, ps.len() - 2), ps[k], h)
    }
}

/// The outline point at index `k` of the backward chain of a path.
#[verifier::opaque]
pub open spec fn spec_backward_point(ps: Seq<Point>, h: int, k: int) -> Point {
    if k == 0 {
        spec_start_backward(path_dir_at(ps, 0), ps[0], h)
    } else if k < ps.len() - 1 {
        spec_corner_backward(path_dir_at(ps, k - 1), path_dir_at(ps, k), ps[k], h)
    } else {
        spec_start_backward(path_dir_at(ps, ps.len() - 2), ps[k], h)
    }
}

/// How the chain points unfold at the path start.
proof fn lemma_chain_point_start(ps: Seq<Point>, h: int)
    requires
        ps.len() >= 2,
    ensures
        spec_forward_point(ps, h, 0) == spec_start_forward(path_dir_at(ps, 0), ps[0], h),
        spec_backward_point(ps, h, 0) == spec_start_backward(path_dir_at(ps, 0), ps[0], h),
{
    reveal(spec_forward_point);
    reveal(spec_backward_point);
}

/// How the chain points unfold at an interior path point.
proof fn lemma_chain_point_mid(ps: Seq<Point>, h: int, k: int)
    requires
        1 <= k < ps.len() - 1,
    ensures
        spec_forward_point(ps, h, k)
            == spec_corner_forward(path_dir_at(ps, k - 1), path_dir_at(ps, k), ps[k], h),
        spec_backward_point(ps, h, k)
            == spec_corner_backward(path_dir_at(ps, k - 1), path_dir_at(ps, k), ps[k], h),
{
    reveal(spec_forward_point);
    reveal(spec_backward_point);
}

/// How the chain points unfold at the path end.
proof fn lemma_chain_point_end(ps: Seq<Point>, h: int)
    requires
        ps.len() >= 2,
    ensures
        spec_forward_point(ps, h, ps.len() - 1)
            == spec_start_forward(path_dir_at(ps, ps.len() - 2), ps[ps.len() - 1], h),
        spec_backward_point(ps, h, ps.len() - 1)
            == spec_start_backward(path_dir_at(ps, ps.len() - 2), ps[ps.len() - 1], h),
{
    reveal(spec_forward_point);
    reveal(spec_backward_point);
}

/// Appends the outline points of one interior path point, dispatching on
/// the directions entering and leaving it; an invalid-corner error when the
/// two directions are opposite (the stroke doubles back on itself).
fn shift_corner(
    forward_poly_points: &mut Vec<Point>,
    backward_poly_points: &mut Vec<Point>,
    last_direction: RectDirection,
    next_move: RectDirection,
    p0: Point,
    half_width: i32,
) -> (r: Result<(), GeometryError>)
    requires
        half_width >= 0,
        i32::MIN <= p0.x - half_width,
        p0.x + half_width <= i32::MAX,
        i32::MIN <= p0.y - half_width,
        p0.y + half_width <= i32::MAX,
    ensures
        opposite_directions(last_direction, next_move) ==> {
            &&& r == Err::<(), GeometryError>(GeometryError::InvalidCorner)
            &&& final(forward_poly_points)@ =~= old(forward_poly_points)@
            &&& final(backward_poly_points)@ =~= old(backward_poly_points)@
        },
        !opposite_directions(last_direction, next_move) ==> {
            &&& r is Ok
            &&& final(forward_poly_points)@ =~= old(forward_poly_points)@.push(
                spec_corner_forward(last_direction, next_move, p0, half_width as int))
            &&& final(backward_poly_points)@ =~= old(backward_poly_points)@.push(
                spec_corner_backward(last_direction, next_move, p0, half_width as int))
        },
{
    match (last_direction, next_move) {
        (RectDirection::Right, RectDirection::Right) => {
            shift_pure_right(forward_poly_points, backward_poly_points, p0, half_width);
            Ok(())
        },
        (RectDirection::Left, RectDirection::Left) => {
            shift_pure_left(forward_poly_points, backward_poly_points, p0, half_width);
            Ok(())
        },
        (RectDirection::Up, RectDirection::Up) => {
            shift_pure_up(forward_poly_points, backward_poly_points, p0, half_width);
            Ok(())
        },
        (RectDirection::Down, RectDirection::Down) => {
            shift_pure_down(forward_poly_points, backward_poly_points, p0, half_width);
            Ok(())
        },
        (RectDirection::Right, RectDirection::Down)
        | (RectDirection::Down, RectDirection::Right) => {
            shift_right_down(forward_poly_points, backward_poly_points, p0, half_width);
            Ok(())
        },
        (RectDirection::Right, RectDirection::Up)
        | (RectDirection::Up, RectDirection::Right) => {
            shift_right_up(forward_poly_points, backward_poly_points, p0, half_width);
            Ok(())
        },
        (RectDirection::Left, RectDirection::Up)
        | (RectDirection::Up, RectDirection::Left) => {
            shift_left_up(forward_poly_points, backward_poly_points, p0, half_width);
            Ok(())
        },
        (RectDirection::Left, RectDirection::Down)
        | (RectDirection::Down, RectDirection::Left) => {
            shift_left_down(forward_poly_points, backward_poly_points, p0, half_width);
            Ok(())
        },
        (_, _) => Err(GeometryError::InvalidCorner),
    }
}

/// Converts a stroked path into its outline polygon: the forward chain of
/// shifted points followed by the backward chain in reverse, so that the
/// outline closes around the stroke. An invalid-corner error when some step
/// of a path of more than two points is not a single axis-aligned move, or
/// reverses the previous step.
#[verifier::rlimit(100)]
#[verifier::spinoff_prover]
pub fn path_to_poly(points: &[Point], width: u32, layer: u8) -> (r: Result<Polygon, GeometryError>)
    requires
        points@.len() >= 2,
        width % 2 == 0,
        shift_fits(points@, (width as int) / 2),
    ensures
        points@.len() == 2 ==> r is Ok,
        points@.len() > 2 ==> (r is Ok <==> path_points_valid(points@)),
        r is Err ==> r == Err::<Polygon, GeometryError>(GeometryError::InvalidCorner),
        r is Ok ==> r.unwrap().layer == layer,
        points@.len() == 2 ==> r.unwrap().points@.len() == 4,
        points@.len() > 2 && r is Ok ==> {
            let out = r.unwrap().points@;
            let n = points@.len() as int;
            let h = (width as int) / 2;
            &&& out.len() == 2 * n
            &&& forall|k: int| 0 <= k < n
                ==> #[trigger] out[k] == spec_forward_point(points@, h, k)
            &&& forall|k: int| 0 <= k < n
                ==> #[trigger] out[n + k] == spec_backward_point(points@, h, n - 1 - k)
        },
{
    let num_points: usize = points.len();

    if num_points == 2 {
        return if points[0].x == points[1].x {
            Ok(simple_horizontal_path_to_poly(points, width, layer))
        } else {
            Ok(simple_vertical_path_to_poly(points, width, layer))
        };
    }

    let half_width: i32 = (width / 2) as i32;
    let ghost h = (width as int) / 2;
    let ghost ps = points@;
    let n: usize = num_points;

    let mut forward_poly_points: Vec<Point> = Vec::with_capacity(num_points);
    let mut backward_poly_points: Vec<Point> = Vec::with_capacity(num_points);

    let start_direction: RectDirection = match points[0].simple_directions_to(&points[1]) {
        Ok(d) => d,
        Err(e) => {
            assert(!(step_direction(ps[0int], ps[0int + 1]) is Some));
            assert(!path_points_valid(ps));
            return Err(e);
        },
    };

    start_or_end_path_to_poly(
        points[0],
        start_direction,
        half_width,
        &mut forward_poly_points,
        &mut backward_poly_points,
    );

    proof {
        lemma_chain_point_start(ps, h);
        assert(forward_poly_points@[0] == spec_forward_point(ps, h, 0));
        assert(backward_poly_points@[0] == spec_backward_point(ps, h, 0));
    }
    let mut last_direction: RectDirection = start_direction;
    let mut ix: usize = 1;
    while ix < n - 1
        invariant
            n == ps.len(),
            n >= 3,
            ps == points@,
            h == (width as int) / 2,
            half_width as int == h,
            shift_fits(ps, h),
            1 <= ix < n,
            forall|i: int| 0 <= i < ix as int
                ==> (#[trigger] step_direction(ps[i], ps[i + 1])) is Some,
            forall|i: int| #![trigger path_dir_at(ps, i), path_dir_at(ps, i - 1)] 1 <= i < ix as int
                ==> !opposite_directions(path_dir_at(ps, i - 1), path_dir_at(ps, i)),
            last_direction == path_dir_at(ps, ix as int - 1),
            forward_poly_points@.len() == ix as int,
            backward_poly_points@.len() == ix as int,
            forall|k: int| 0 <= k < ix as int
                ==> (#[trigger] forward_poly_points@[k]) == spec_forward_point(ps, h, k),
            forall|k: int| 0 <= k < ix as int
                ==> (#[trigger] backward_poly_points@[k]) == spec_backward_point(ps, h, k),
        decreases n - ix,
    {
        let p0: Point = points[ix];
        let p1: Point = points[ix + 1];
        let next_move: RectDirection = match p0.simple_directions_to(&p1) {
            Ok(d) => d,
            Err(e) => {
                assert(!(step_direction(ps[ix as int], ps[ix as int + 1]) is Some));
                assert(!path_points_valid(ps));
                return Err(e);
            },
        };
        assert(next_move == path_dir_at(ps, ix as int));

        match shift_corner(
            &mut forward_poly_points, &mut backward_poly_points,
            last_direction, next_move, p0, half_width) {
            Ok(()) => {},
            Err(e) => {
                assert(opposite_directions(path_dir_at(ps, ix as int - 1), path_dir_at(ps, ix as int)));
                assert(!path_points_valid(ps));
                return Err(e);
            },
        }
        proof {
            lemma_chain_point_mid(ps, h, ix as int);
            assert(forward_poly_points@[ix as int] == spec_forward_point(ps, h, ix as int));
            assert(backward_poly_points@[ix as int] == spec_backward_point(ps, h, ix as int));
        }
        last_direction = next_move;
        ix = ix + 1;
    }

    let end_direction: RectDirection = last_direction;
    assert(end_direction == path_dir_at(ps, n as int - 2));

    start_or_end_path_to_poly(
        points[n - 1],
        end_direction,
        half_width,
        &mut forward_poly_points,
        &mut backward_poly_points,
    );
    proof {
        lemma_chain_point_end(ps, h);
        assert(forward_poly_points@[n as int - 1] == spec_forward_point(ps, h, n as int - 1));
        assert(backward_poly_points@[n as int - 1] == spec_backward_point(ps, h, n as int - 1));
    }

    let ghost fwd = forward_poly_points@;
    let ghost bwd = backward_poly_points@;
    let mut out: Vec<Point> = forward_poly_points;
    let mut k: usize = 0;
    while k < n
        invariant
            n == ps.len(),
            n == fwd.len(),
            n == bwd.len(),
            k <= n,
            backward_poly_points@ =~= bwd,
            out@.len() == n as int + k as int,
            forall|j: int| 0 <= j < n as int ==> (#[trigger] out@[j]) == fwd[j],
            forall|j: int| 0 <= j < k as int
                ==> (#[trigger] out@[n as int + j]) == bwd[n as int - 1 - j],
        decreases n - k,
    {
        let p: Point = backward_poly_points[n - 1 - k];
        out.push(p);
        k = k + 1;
    }

    assert(path_points_valid(ps));
    Ok(Polygon { points: out, layer })
}

impl Path {
    /// The outline polygon of this path; see [`path_to_poly`].
    pub fn as_poly(&self) -> (r: Result<Polygon, GeometryError>)
        requires
            self.points@.len() >= 2,
            self.width % 2 == 0,
            shift_fits(self.points@, (self.width as int) / 2),
        ensures
            self.points@.len() == 2 ==> r is Ok,
            self.points@.len() > 2 ==> (r is Ok <==> path_points_valid(self.points@)),
            r is Err ==> r == Err::<Polygon, GeometryError>(GeometryError::InvalidCorner),
            r is Ok ==> r.unwrap().layer == self.layer,
    {
        path_to_poly(self.points.as_slice(), self.width, self.layer)
    }
}

} // verus!
