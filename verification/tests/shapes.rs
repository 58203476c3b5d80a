use doug_geometry::errors::GeometryError;
use doug_geometry::extrema::find_max_x_min_y_point;
use doug_geometry::path::{path_to_poly, Path};
use doug_geometry::point::{into_points, Point, PointLike};
use doug_geometry::polygon::Polygon;
use doug_geometry::rect::{HorizontalDirection, RectDirection, VerticalDirection};
use doug_geometry::rect::RectDirection::{Down, Left, Right, Up};
use doug_geometry::samples::{rotate_poly, spiral_path};
use doug_geometry::sanitization::{check_sequence_rectilinearity, deduplicate_points};

fn pt(x: i32, y: i32) -> Point {
    Point { x, y }
}

#[test]
fn directions_to_lists_horizontal_then_vertical() {
    assert_eq!(pt(0, 0).directions_to(&pt(3, 0)), vec![Right]);
    assert_eq!(pt(0, 0).directions_to(&pt(-3, 0)), vec![Left]);
    assert_eq!(pt(0, 0).directions_to(&pt(0, 2)), vec![Up]);
    assert_eq!(pt(0, 0).directions_to(&pt(0, -2)), vec![Down]);
    assert_eq!(pt(0, 0).directions_to(&pt(3, -2)), vec![Right, Down]);
    assert_eq!(pt(0, 0).directions_to(&pt(0, 0)), vec![]);
}

#[test]
fn simple_directions_to_rejects_diagonal_and_zero_steps() {
    assert_eq!(pt(0, 0).simple_directions_to(&pt(0, 5)), Ok(RectDirection::Up));
    assert_eq!(
        pt(0, 0).simple_directions_to(&pt(1, 1)),
        Err(GeometryError::InvalidCorner)
    );
    assert_eq!(
        pt(2, 2).simple_directions_to(&pt(2, 2)),
        Err(GeometryError::InvalidCorner)
    );
}

#[test]
fn point_shift_rotate_and_conversions() {
    assert_eq!(pt(1, 2).shift(pt(10, -20)), pt(11, -18));
    assert_eq!(pt(3, 1).rotate(), pt(-1, 3));
    assert_eq!(Point::new(5, 6), pt(5, 6));
    assert_eq!(PointLike::x(&pt(5, 6)), 5);
    assert_eq!(PointLike::y(&pt(5, 6)), 6);
    assert_eq!(into_points(vec![pt(1, 1), pt(2, 2)]), vec![pt(1, 1), pt(2, 2)]);
    assert_eq!(VerticalDirection::Up.to_rect_direction(), RectDirection::Up);
    assert_eq!(HorizontalDirection::Left.to_rect_direction(), RectDirection::Left);
    assert!(RectDirection::Left.is_horizontal());
    assert!(!RectDirection::Left.is_vertical());
}

#[test]
fn deduplication_keeps_first_occurrences() {
    let points = vec![pt(0, 0), pt(1, 0), pt(0, 0), pt(2, 0), pt(1, 0)];
    assert_eq!(deduplicate_points(points), vec![pt(0, 0), pt(1, 0), pt(2, 0)]);
}

#[test]
fn rectilinearity_check_reports_the_step_directions() {
    let points = [pt(4, 0), pt(4, 4), pt(0, 4)];
    assert_eq!(
        check_sequence_rectilinearity(&points),
        Ok(vec![Up, Left])
    );
    let diagonal = [pt(0, 0), pt(1, 1)];
    assert_eq!(
        check_sequence_rectilinearity(&diagonal),
        Err(GeometryError::InvalidCorner)
    );
}

#[test]
fn extreme_point_is_max_x_then_min_y() {
    let points = [pt(0, 0), pt(4, 4), pt(4, 0), pt(2, 1)];
    assert_eq!(find_max_x_min_y_point(&points), 2);
}

#[test]
fn sanitize_rejects_diagonal_steps() {
    let raw = vec![pt(0, 0), pt(1, 1), pt(0, 1)];
    assert_eq!(
        Polygon::sanitize_points(raw),
        Err(GeometryError::InvalidCorner)
    );
}

#[test]
fn sanitize_reverses_clockwise_input() {
    // Clockwise square; canonicalization must flip it so the first edge
    // goes up from (4, 0).
    let raw = vec![pt(0, 0), pt(0, 4), pt(4, 4), pt(4, 0)];
    let points = Polygon::sanitize_points(raw).unwrap();
    assert_eq!(points, vec![pt(4, 0), pt(4, 4), pt(0, 4), pt(0, 0)]);
}

#[test]
fn two_point_path_uses_the_simple_outlines() {
    // Two-point paths go through the simple converters, which shift the
    // endpoints by half the width without validating the stroke direction.
    let horizontal = [pt(0, 0), pt(6, 0)];
    let poly = path_to_poly(&horizontal, 2, 4).unwrap();
    assert_eq!(poly.layer, 4);
    assert_eq!(poly.points, vec![pt(1, 0), pt(7, 0), pt(5, 0), pt(-1, 0)]);

    let vertical = [pt(0, 0), pt(0, 6)];
    let poly = path_to_poly(&vertical, 2, 4).unwrap();
    assert_eq!(poly.points, vec![pt(0, -1), pt(0, 5), pt(0, 7), pt(0, 1)]);
}

#[test]
fn elbow_path_outline_walks_forward_then_back() {
    // An L-shaped stroke of width 2: right then up.
    let points = [pt(0, 0), pt(4, 0), pt(4, 4)];
    let poly = path_to_poly(&points, 2, 0).unwrap();
    assert_eq!(poly.layer, 0);
    assert_eq!(poly.points.len(), 6);
    assert_eq!(
        poly.points,
        vec![pt(0, -1), pt(5, -1), pt(5, 4), pt(3, 4), pt(3, 1), pt(0, 1)]
    );
}

#[test]
fn path_with_a_reversal_is_rejected() {
    let points = [pt(0, 0), pt(4, 0), pt(2, 0), pt(2, 4)];
    assert_eq!(
        path_to_poly(&points, 2, 0),
        Err(GeometryError::InvalidCorner)
    );
}

#[test]
fn path_as_poly_matches_free_function() {
    let path = Path { points: vec![pt(0, 0), pt(4, 0), pt(4, 4)], width: 2, layer: 9 };
    let a = path.as_poly().unwrap();
    let b = path_to_poly(&path.points, path.width, path.layer).unwrap();
    assert_eq!(a, b);
}

#[test]
fn spiral_path_starts_at_the_origin() {
    let path = spiral_path(2);
    assert_eq!(path.width, 2);
    assert_eq!(path.layer, 0);
    assert_eq!(path.points[0], pt(0, 0));
    // First move goes right by the opening jump of two.
    assert_eq!(path.points[1], pt(2, 0));
    // Second move goes up, the stride having grown to three.
    assert_eq!(path.points[2], pt(2, 3));
    assert!(path.points.len() >= 2);
}

#[test]
fn rotating_a_square_keeps_it_canonical() {
    let polygon = Polygon {
        points: vec![pt(4, 0), pt(4, 4), pt(0, 4), pt(0, 0)],
        layer: 3,
    };
    let rotated = rotate_poly(polygon).unwrap();
    assert_eq!(rotated.layer, 0);
    // The square spans x in [-4, 0] and y in [0, 4] after a quarter turn;
    // traversal starts at its max-x/min-y corner.
    assert_eq!(rotated.points, vec![pt(0, 0), pt(0, 4), pt(-4, 4), pt(-4, 0)]);
}
