use doug_geometry::errors::GeometryError;
use doug_geometry::point::Point;
use doug_geometry::polygon::Polygon;
use doug_geometry::rect::{PolyRect, Rectangle};
use doug_geometry::rect_corner::RectCorner;
use doug_geometry::samples::spiral_poly;
use doug_geometry::wall::Wall;
use doug_geometry::wall_model::{WallModel, WallModeler};

fn pt(x: i32, y: i32) -> Point {
    Point { x, y }
}

/// Twice the signed area of a closed polygon, by the shoelace formula;
/// positive for counter-clockwise traversal.
fn shoelace_double_area(points: &[Point]) -> i64 {
    let n = points.len();
    let mut sum: i64 = 0;
    for i in 0..n {
        let a = points[i];
        let b = points[(i + 1) % n];
        sum += i64::from(a.x) * i64::from(b.y) - i64::from(b.x) * i64::from(a.y);
    }
    sum
}

fn rect_area(r: &Rectangle) -> i64 {
    i64::from(r.p1.x - r.p0.x) * i64::from(r.p1.y - r.p0.y)
}

fn rects_overlap(a: &Rectangle, b: &Rectangle) -> bool {
    a.p0.x < b.p1.x && b.p0.x < a.p1.x && a.p0.y < b.p1.y && b.p0.y < a.p1.y
}

/// Decomposes the polygon and checks the round trip: the rectangles cover
/// exactly the polygon's area and never overlap.
fn check_round_trip(polygon: &Polygon) -> PolyRect {
    let model = WallModeler::build(polygon).unwrap();
    let decomposed = model.decompose().unwrap();
    assert_eq!(decomposed.layer, polygon.layer);

    let mut total: i64 = 0;
    for rect in &decomposed.rects {
        assert!(rect.p0.x < rect.p1.x && rect.p0.y < rect.p1.y);
        total += rect_area(rect);
    }
    assert_eq!(2 * total, shoelace_double_area(&polygon.points));

    for i in 0..decomposed.rects.len() {
        for j in (i + 1)..decomposed.rects.len() {
            assert!(
                !rects_overlap(&decomposed.rects[i], &decomposed.rects[j]),
                "rectangles overlap"
            );
        }
    }
    decomposed
}

#[test]
fn square_decomposes_into_one_rectangle() {
    let polygon = Polygon {
        points: vec![pt(4, 0), pt(4, 4), pt(0, 4), pt(0, 0)],
        layer: 1,
    };
    let decomposed = check_round_trip(&polygon);
    assert_eq!(decomposed.rects.len(), 1);
    assert_eq!(decomposed.rects[0], Rectangle { p0: pt(0, 0), p1: pt(4, 4) });
}

#[test]
fn square_from_raw_points_decomposes_after_canonicalization() {
    let raw = vec![pt(0, 0), pt(4, 0), pt(4, 4), pt(0, 4), pt(0, 0)];
    let points = Polygon::sanitize_points(raw).unwrap();
    assert_eq!(points, vec![pt(4, 0), pt(4, 4), pt(0, 4), pt(0, 0)]);
    let polygon = Polygon { points, layer: 1 };
    let decomposed = check_round_trip(&polygon);
    assert_eq!(decomposed.rects.len(), 1);
    assert_eq!(decomposed.rects[0], Rectangle { p0: pt(0, 0), p1: pt(4, 4) });
}

#[test]
fn l_shape_decomposes_into_two_rectangles() {
    let raw = vec![pt(0, 0), pt(4, 0), pt(4, 2), pt(2, 2), pt(2, 4), pt(0, 4), pt(0, 0)];
    let points = Polygon::sanitize_points(raw).unwrap();
    let polygon = Polygon { points, layer: 2 };
    let decomposed = check_round_trip(&polygon);
    assert_eq!(decomposed.rects.len(), 2);
    let total: i64 = decomposed.rects.iter().map(rect_area).sum();
    assert_eq!(total, 12);
    assert!(decomposed.rects.contains(&Rectangle { p0: pt(0, 0), p1: pt(4, 2) }));
    assert!(decomposed.rects.contains(&Rectangle { p0: pt(0, 2), p1: pt(2, 4) }));
}

#[test]
fn u_shape_round_trip() {
    // An upward-open U: the middle notch forces a three-rectangle cover.
    let raw = vec![
        pt(0, 0), pt(6, 0), pt(6, 6), pt(4, 6), pt(4, 2), pt(2, 2), pt(2, 6), pt(0, 6),
        pt(0, 0),
    ];
    let points = Polygon::sanitize_points(raw).unwrap();
    let polygon = Polygon { points, layer: 5 };
    check_round_trip(&polygon);
}

#[test]
fn spiral_round_trip_area() {
    for inversions in 1..=5 {
        let outline = spiral_poly(inversions).unwrap();
        let points = Polygon::sanitize_points(outline.points).unwrap();
        let polygon = Polygon { points, layer: 7 };
        check_round_trip(&polygon);
    }
}

#[test]
fn lone_reverse_wall_is_not_decomposable() {
    // A model holding only the left boundary of a square: no forward wall
    // shadows it, so decomposition must report the coverage error.
    let mut wall = Wall::new_reverse(0, 2);
    wall.push(RectCorner::new(pt(4, 4), pt(0, 0), pt(0, 4)).unwrap()).unwrap();
    wall.push(RectCorner::new(pt(0, 4), pt(4, 0), pt(0, 0)).unwrap()).unwrap();
    let mut model = WallModel::new(0);
    model.push(wall);
    assert!(matches!(model.decompose(), Err(GeometryError::NoCoverage)));
}

#[test]
fn decompose_keeps_the_layer_tag() {
    let polygon = Polygon {
        points: vec![pt(1, 0), pt(1, 1), pt(0, 1), pt(0, 0)],
        layer: 250,
    };
    let model = WallModeler::build(&polygon).unwrap();
    let decomposed = model.decompose().unwrap();
    assert_eq!(decomposed.layer, 250);
    assert_eq!(decomposed.rects, vec![Rectangle { p0: pt(0, 0), p1: pt(1, 1) }]);
}
