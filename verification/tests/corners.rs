use doug_geometry::errors::GeometryError;
use doug_geometry::point::Point;
use doug_geometry::rect::RectDirection;
use doug_geometry::rect::RectDirection::{Down, Left, Right, Up};
use doug_geometry::rect_corner::{CornerType, Corners, RectCorner};

fn pt(x: i32, y: i32) -> Point {
    Point { x, y }
}

#[test]
fn classification_accepts_exactly_the_eight_mixed_pairs() {
    // The eight mixed pairs classify, bijectively.
    assert_eq!(CornerType::new(Down, Right), Ok(CornerType::DownRight));
    assert_eq!(CornerType::new(Right, Up), Ok(CornerType::RightUp));
    assert_eq!(CornerType::new(Up, Left), Ok(CornerType::UpLeft));
    assert_eq!(CornerType::new(Left, Down), Ok(CornerType::LeftDown));
    assert_eq!(CornerType::new(Down, Left), Ok(CornerType::DownLeft));
    assert_eq!(CornerType::new(Right, Down), Ok(CornerType::RightDown));
    assert_eq!(CornerType::new(Up, Right), Ok(CornerType::UpRight));
    assert_eq!(CornerType::new(Left, Up), Ok(CornerType::LeftUp));
    // The eight same-axis pairs are rejected.
    for a in [Left, Right] {
        for b in [Left, Right] {
            assert_eq!(CornerType::new(a, b), Err(GeometryError::InvalidCorner));
        }
    }
    for a in [Up, Down] {
        for b in [Up, Down] {
            assert_eq!(CornerType::new(a, b), Err(GeometryError::InvalidCorner));
        }
    }
}

#[test]
fn corner_parts_round_trip() {
    let all = [
        CornerType::DownRight,
        CornerType::RightUp,
        CornerType::UpLeft,
        CornerType::LeftDown,
        CornerType::DownLeft,
        CornerType::RightDown,
        CornerType::UpRight,
        CornerType::LeftUp,
    ];
    for ct in all {
        let incoming = ct.incoming_part();
        let outgoing = ct.outgoing_part();
        assert_eq!(CornerType::new(incoming, outgoing), Ok(ct));
        assert!(ct.horizontal_part().is_horizontal());
        assert!(ct.vertical_part().is_vertical());
    }
}

#[test]
fn right_angled_marks_the_four_ninety_degree_corners() {
    assert!(CornerType::DownRight.right_angled());
    assert!(CornerType::RightUp.right_angled());
    assert!(CornerType::UpLeft.right_angled());
    assert!(CornerType::LeftDown.right_angled());
    assert!(!CornerType::DownLeft.right_angled());
    assert!(!CornerType::RightDown.right_angled());
    assert!(!CornerType::UpRight.right_angled());
    assert!(!CornerType::LeftUp.right_angled());
}

#[test]
fn rect_corner_new_classifies_its_triple() {
    // Incoming from the left, outgoing upward: a RightUp corner.
    let corner = RectCorner::new(pt(-1, 0), pt(0, 1), pt(0, 0)).unwrap();
    assert_eq!(corner.corner_type(), CornerType::RightUp);
    assert_eq!(corner.point(), pt(0, 0));
    assert_eq!(corner.incoming(), pt(-1, 0));
    assert_eq!(corner.outgoing(), pt(0, 1));
    let copy = RectCorner::from_other(&corner);
    assert_eq!(copy, corner);
}

#[test]
fn rect_corner_new_rejects_diagonal_and_straight_triples() {
    // Diagonal step into the center.
    assert_eq!(
        RectCorner::new(pt(-1, -1), pt(0, 1), pt(0, 0)),
        Err(GeometryError::InvalidCorner)
    );
    // Straight-through collinear triple: both steps point right.
    assert_eq!(
        RectCorner::new(pt(-1, 0), pt(1, 0), pt(0, 0)),
        Err(GeometryError::InvalidCorner)
    );
    // Zero step.
    assert_eq!(
        RectCorner::new(pt(0, 0), pt(1, 0), pt(0, 0)),
        Err(GeometryError::InvalidCorner)
    );
}

#[test]
fn projection_onto_vertical_outgoing_edge() {
    // RightUp corner at (4, 0) with outgoing edge up to (4, 4).
    let corner = RectCorner::new(pt(0, 0), pt(4, 4), pt(4, 0)).unwrap();
    assert_eq!(corner.project_onto_vertical_outgoing(pt(0, 2)), Some(pt(4, 2)));
    assert_eq!(corner.project_onto_vertical_outgoing(pt(0, 4)), Some(pt(4, 4)));
    assert_eq!(corner.project_onto_vertical_outgoing(pt(0, 5)), None);
    // UpLeft corner: outgoing edge is horizontal, so nothing projects.
    let flat = RectCorner::new(pt(4, 0), pt(0, 4), pt(4, 4)).unwrap();
    assert_eq!(flat.project_onto_vertical_outgoing(pt(0, 4)), None);
}

#[test]
fn corners_indices_and_inversions_of_a_square() {
    // Canonical unit-square corners, traversal order from (4, 0).
    let square = [
        RectCorner::new(pt(0, 0), pt(4, 4), pt(4, 0)).unwrap(),
        RectCorner::new(pt(4, 0), pt(0, 4), pt(4, 4)).unwrap(),
        RectCorner::new(pt(4, 4), pt(0, 0), pt(0, 4)).unwrap(),
        RectCorner::new(pt(0, 4), pt(4, 0), pt(0, 0)).unwrap(),
    ];
    let corners = Corners::new(square.to_vec());
    // (0, 4) has the minimal x and the larger y of the two x = 0 corners.
    assert_eq!(corners.min_x_max_y_index, 2);
    // (0, 0) has the minimal y and the smaller x of the two y = 0 corners.
    assert_eq!(corners.min_y_min_x_index, 3);
    // Walking the cycle, each direction flips twice: once onto the far
    // side and once back.
    assert_eq!(corners.horizontal_inversions, 2);
    assert_eq!(corners.vertical_inversions, 2);
    assert_eq!(corners.corners.len(), 4);
}

#[test]
fn error_descriptions_name_the_failure() {
    assert_eq!(GeometryError::InvalidCorner.describe(), "invalid rectilinear corner");
    assert_eq!(
        GeometryError::AttitudeViolation.describe(),
        "corner does not match wall attitude"
    );
    assert_eq!(GeometryError::NoCoverage.describe(), "polygon is not decomposable");
}
