use vstd::prelude::*;
use crate::errors::GeometryError;
use crate::extrema::is_max_x_min_y;
use crate::path::{path_to_poly, shift_fits, Path};
use crate::point::{step_direction, Point};
use crate::polygon::Polygon;
use crate::rect::RectDirection;

verus! {

/// The direction of the spiral's move number `k`: the moves cycle right,
/// up, left, down.
pub open spec fn spiral_direction(k: int) -> RectDirection {
    let m = k % 4;
    if m == 0 {
        RectDirection::Right
    } else if m == 1 {
        RectDirection::Up
    } else if m == 2 {
        RectDirection::Left
    } else {
        RectDirection::Down
    }
}

/// A rectilinear spiral path around the origin, starting at the origin:
/// each move is one axis-aligned step following the right, up, left, down
/// cycle, with the stride growing so that consecutive loops never touch.
/// Useful as a non-trivial decomposition input.
pub fn spiral_path(spiral_inversions: usize) -> (r: Path)
    requires
        spiral_inversions <= 1000,
    ensures
        r.width == 2,
        r.layer == 0,
        r.points@.len() == 2 * spiral_inversions + 3,
        r.points@[0] == (Point { x: 0, y: 0 }),
        forall|k: int| 0 <= k < r.points@.len() - 1
            ==> #[trigger] step_direction(r.points@[k], r.points@[k + 1])
                == Some(spiral_direction(k)),
        shift_fits(r.points@, 1),
{
    let mut executed_moves: usize = 0;
    let mut points: Vec<Point> = Vec::new();
    let mut jump: i32 = 0;
    let mut cursor_point: Point = Point { x: 0, y: 0 };

    points.push(cursor_point);
    while executed_moves / 2 <= spiral_inversions
        invariant
            spiral_inversions <= 1000,
            executed_moves <= 2 * spiral_inversions + 2,
            0 <= jump,
            jump as int <= 2 * (executed_moves as int + 1),
            -8200000 <= cursor_point.x <= 8200000,
            -8200000 <= cursor_point.y <= 8200000,
            (if cursor_point.x < 0 { -(cursor_point.x as int) } else { cursor_point.x as int })
                + (if cursor_point.y < 0 { -(cursor_point.y as int) } else { cursor_point.y as int })
                <= 4008 * (executed_moves as int),
            points@.len() == executed_moves as int + 1,
            points@[0] == (Point { x: 0, y: 0 }),
            points@[executed_moves as int] == cursor_point,
            forall|k: int| 0 <= k < executed_moves as int
                ==> #[trigger] step_direction(points@[k], points@[k + 1])
                    == Some(spiral_direction(k)),
            forall|k: int| 0 <= k < points@.len() ==> {
                &&& -8200000 <= (#[trigger] points@[k]).x <= 8200000
                &&& -8200000 <= points@[k].y <= 8200000
            },
        decreases 2 * spiral_inversions + 2 - executed_moves,
    {
        assert(executed_moves <= 2 * spiral_inversions + 1);
        let ghost e0 = executed_moves as int;
        let ghost cursor0 = cursor_point;
        let delta: Point = match executed_moves % 4 {
            3 => {
                jump = jump + 1;
                Point { x: 0, y: -jump }
            },
            2 => {
                jump = jump + 2;
                Point { x: -jump, y: 0 }
            },
            0 => {
                jump = jump + 2;
                Point { x: jump, y: 0 }
            },
            _ => {
                jump = jump + 1;
                Point { x: 0, y: jump }
            },
        };

        executed_moves = executed_moves + 1;
        cursor_point = cursor_point.shift(delta);

        points.push(cursor_point);
        proof {
            assert(points@[e0] == cursor0);
            assert(points@[e0 + 1] == cursor_point);
            assert(step_direction(cursor0, cursor_point) == Some(spiral_direction(e0)));
            assert forall|k: int| 0 <= k < executed_moves as int
                implies #[trigger] step_direction(points@[k], points@[k + 1])
                    == Some(spiral_direction(k)) by {
                if k < e0 {
                    assert(points@[k] == points@.drop_last()[k]);
                    assert(points@[k + 1] == points@.drop_last()[k + 1]);
                }
            }
        }
    }

    Path { points, width: 2, layer: 0 }
}

/// The outline polygon of a spiral path; the spiral's centerline is a valid
/// path, so the conversion is expected to succeed.
pub fn spiral_poly(spiral_inversions: usize) -> (r: Result<Polygon, GeometryError>)
    requires
        spiral_inversions <= 1000,
    ensures
        r is Err ==> r == Err::<Polygon, GeometryError>(GeometryError::InvalidCorner),
        r is Ok ==> r.unwrap().layer == 0,
{
    let path: Path = spiral_path(spiral_inversions);
    let Path { points, width, layer } = path;
    path_to_poly(points.as_slice(), width, layer)
}

/// Rotates every point of the polygon a quarter turn counter-clockwise
/// about the origin and re-canonicalizes the result on layer zero.
pub fn rotate_poly(polygon: Polygon) -> (r: Result<Polygon, GeometryError>)
    requires
        polygon.points@.len() > 0,
        forall|k: int| 0 <= k < polygon.points@.len()
            ==> (#[trigger] polygon.points@[k]).y != i32::MIN,
    ensures
        r is Err ==> r == Err::<Polygon, GeometryError>(GeometryError::InvalidCorner),
        r is Ok ==> {
            let out = r.unwrap();
            &&& out.layer == 0
            &&& forall|i: int, j: int| 0 <= i < j < out.points@.len()
                ==> out.points@[i] != out.points@[j]
            &&& is_max_x_min_y(out.points@, 0)
            &&& forall|i: int| 0 <= i < out.points@.len() - 1
                ==> (#[trigger] step_direction(out.points@[i], out.points@[i + 1])) is Some
            &&& out.points@.len() >= 2 ==> step_direction(out.points@[0], out.points@[1])
                != Some(RectDirection::Down) && step_direction(out.points@[0], out.points@[1])
                != Some(RectDirection::Right)
        },
{
    let Polygon { points, layer: _ } = polygon;
    let n: usize = points.len();
    let mut rotated: Vec<Point> = Vec::with_capacity(n);
    let mut i: usize = 0;
    while i < n
        invariant
            n == points@.len(),
            i <= n,
            rotated@.len() == i as int,
            forall|k: int| 0 <= k < points@.len()
                ==> (#[trigger] points@[k]).y != i32::MIN,
        decreases n - i,
    {
        let p: Point = points[i].rotate();
        rotated.push(p);
        i = i + 1;
    }
    match Polygon::sanitize_points(rotated) {
        Ok(canonical_points) => Ok(Polygon { points: canonical_points, layer: 0 }),
        Err(e) => Err(e),
    }
}

} // verus!
