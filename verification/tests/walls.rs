use core::cmp::Ordering;
use doug_geometry::errors::GeometryError;
use doug_geometry::point::Point;
use doug_geometry::polygon::Polygon;
use doug_geometry::rect_corner::RectCorner;
use doug_geometry::wall::{Wall, WallAttitude};
use doug_geometry::wall_model::{WallModel, WallModeler};

fn pt(x: i32, y: i32) -> Point {
    Point { x, y }
}

/// A corner whose vertical edge ascends: incoming from the left, outgoing
/// upward.
fn ascending_corner(x: i32, y: i32) -> RectCorner {
    RectCorner::new(pt(x - 1, y), pt(x, y + 1), pt(x, y)).unwrap()
}

/// A corner whose vertical edge descends: incoming from above, outgoing
/// rightward.
fn descending_corner(x: i32, y: i32) -> RectCorner {
    RectCorner::new(pt(x, y + 1), pt(x + 1, y), pt(x, y)).unwrap()
}

fn canonical_square() -> Polygon {
    Polygon {
        points: vec![pt(4, 0), pt(4, 4), pt(0, 4), pt(0, 0)],
        layer: 3,
    }
}

#[test]
fn matching_pushes_succeed_and_grow_the_wall() {
    let mut wall = Wall::new_forward(0, 4);
    for i in 0..5 {
        assert_eq!(wall.push(ascending_corner(0, i)), Ok(()));
    }
    assert_eq!(wall.len(), 5);
    assert_eq!(wall.attitude(), WallAttitude::Forward);
}

#[test]
fn first_mismatched_push_fails_and_leaves_the_wall_unchanged() {
    let mut wall = Wall::new_forward(0, 4);
    assert_eq!(wall.push(ascending_corner(0, 0)), Ok(()));
    let before_len = wall.len();
    assert_eq!(
        wall.push(descending_corner(0, 1)),
        Err(GeometryError::AttitudeViolation)
    );
    assert_eq!(wall.len(), before_len);
    assert_eq!(*wall.first(), ascending_corner(0, 0));
}

#[test]
fn push_all_appends_the_matching_prefix() {
    let mut wall = Wall::new_reverse(2, 0);
    let corners = vec![
        descending_corner(0, 3),
        descending_corner(0, 2),
        ascending_corner(0, 1),
        descending_corner(0, 0),
    ];
    assert_eq!(wall.push_all(&corners), Err(GeometryError::AttitudeViolation));
    // Only the two matching descending corners were kept.
    assert_eq!(wall.len(), 2);

    let mut all_match = Wall::new_reverse(3, 0);
    let corners = vec![descending_corner(1, 9), descending_corner(1, 8)];
    assert_eq!(all_match.push_all(&corners), Ok(()));
    assert_eq!(all_match.len(), 2);
}

#[test]
fn endpoints_follow_the_attitude() {
    let mut forward = Wall::new_forward(0, 0);
    forward.push(ascending_corner(0, 0)).unwrap();
    forward.push(ascending_corner(0, 5)).unwrap();
    assert_eq!(forward.bottom_most().point(), pt(0, 0));
    assert_eq!(forward.top_most().point(), pt(0, 5));
    assert!(forward.is_forward());
    assert!(!forward.is_reverse());

    // A reverse wall stores its span top to bottom.
    let mut reverse = Wall::new_reverse(1, 0);
    reverse.push(descending_corner(2, 5)).unwrap();
    reverse.push(descending_corner(2, 0)).unwrap();
    assert_eq!(reverse.bottom_most().point(), pt(2, 0));
    assert_eq!(reverse.top_most().point(), pt(2, 5));
}

#[test]
fn shadows_holds_for_partially_overlapping_spans() {
    // A forward wall spanning y in [0, 4] and a reverse wall spanning
    // y in [2, 6]: neither contains the other's endpoint run, but the spans
    // overlap, so the forward wall shadows the reverse one.
    let mut forward = Wall::new_forward(0, 0);
    forward.push(ascending_corner(5, 0)).unwrap();
    forward.push(ascending_corner(5, 4)).unwrap();
    let mut reverse = Wall::new_reverse(1, 0);
    reverse.push(descending_corner(0, 6)).unwrap();
    reverse.push(descending_corner(0, 2)).unwrap();
    assert!(forward.shadows(&reverse));
    assert!(!reverse.shadows(&forward));

    // Disjoint spans do not shadow.
    let mut high_reverse = Wall::new_reverse(2, 0);
    high_reverse.push(descending_corner(0, 9)).unwrap();
    high_reverse.push(descending_corner(0, 6)).unwrap();
    assert!(!forward.shadows(&high_reverse));
}

#[test]
fn shadows_needs_a_forward_wall_over_a_reverse_wall() {
    let model = WallModeler::build(&canonical_square()).unwrap();
    let forward = model.wall_at(0);
    let reverse = model.wall_at(1);
    assert!(forward.is_forward());
    assert!(reverse.is_reverse());
    assert!(forward.shadows(reverse));
    // Shadowing never holds in both directions for one pair.
    assert!(!reverse.shadows(forward));
}

#[test]
fn projection_walks_the_wall_in_storage_order() {
    let model = WallModeler::build(&canonical_square()).unwrap();
    let forward = model.wall_at(0);
    assert!(forward.interacts_with(pt(9, 2)));
    assert!(!forward.interacts_with(pt(9, 5)));
    let projection = forward.project_onto_wall(pt(0, 2)).unwrap();
    assert_eq!(projection.corner_ix, 0);
    assert_eq!(projection.projected, pt(4, 2));
    assert!(forward.project_onto_wall(pt(0, -1)).is_none());
}

#[test]
fn left_of_wall_compares_projected_x() {
    let model = WallModeler::build(&canonical_square()).unwrap();
    let forward = model.wall_at(0);
    let reverse = model.wall_at(1);
    // The forward wall sits at x = 4, right of the reverse wall at x = 0.
    assert_eq!(forward.left_of_wall(reverse), Some(false));
    assert_eq!(reverse.left_of_wall(forward), Some(true));
}

#[test]
fn wall_order_is_antisymmetric_for_square_walls() {
    let model = WallModeler::build(&canonical_square()).unwrap();
    let forward = model.wall_at(0);
    let reverse = model.wall_at(1);
    assert_eq!(forward.projection_ordering(reverse), Some(Ordering::Greater));
    assert_eq!(reverse.projection_ordering(forward), Some(Ordering::Less));
    assert_eq!(forward.total_ordering(reverse), Ordering::Greater);
    assert_eq!(reverse.total_ordering(forward), Ordering::Less);
}

#[test]
fn sorted_walls_orders_left_to_right() {
    let model = WallModeler::build(&canonical_square()).unwrap();
    // The reverse wall (x = 0, generation 1) comes before the forward wall
    // (x = 4, generation 0).
    assert_eq!(model.sorted_walls(), vec![1, 0]);
}

#[test]
fn builder_splits_the_square_into_two_walls() {
    let polygon = canonical_square();
    let model = WallModeler::build(&polygon).unwrap();
    assert_eq!(model.len(), 2);
    let forward = model.wall_at(0);
    assert_eq!(forward.attitude(), WallAttitude::Forward);
    assert_eq!(forward.len(), 2);
    assert_eq!(forward.first().point(), pt(4, 0));
    assert_eq!(forward.last().point(), pt(4, 4));
    let reverse = model.wall_at(1);
    assert_eq!(reverse.attitude(), WallAttitude::Reverse);
    assert_eq!(reverse.len(), 2);
    assert_eq!(reverse.first().point(), pt(0, 4));
    assert_eq!(reverse.last().point(), pt(0, 0));
}

#[test]
fn builder_keeps_a_staircase_in_one_wall() {
    // The L-shape: the whole right staircase ascends, so it forms one wall.
    let polygon = Polygon {
        points: vec![pt(4, 0), pt(4, 2), pt(2, 2), pt(2, 4), pt(0, 4), pt(0, 0)],
        layer: 0,
    };
    let model = WallModeler::build(&polygon).unwrap();
    assert_eq!(model.len(), 2);
    assert_eq!(model.wall_at(0).len(), 4);
    assert_eq!(model.wall_at(1).len(), 2);
}

#[test]
fn builder_rejects_an_uncanonical_start() {
    // A square started at its lower-left corner: the first corner arrives
    // from above and leaves rightward, so it descends while the builder's
    // opening wall is Forward.
    let polygon = Polygon {
        points: vec![pt(0, 0), pt(4, 0), pt(4, 4), pt(0, 4)],
        layer: 0,
    };
    assert!(matches!(
        WallModeler::build(&polygon),
        Err(GeometryError::AttitudeViolation)
    ));
}

#[test]
fn corners_reject_a_diagonal_step() {
    let polygon = Polygon {
        points: vec![pt(0, 0), pt(1, 1), pt(0, 1)],
        layer: 0,
    };
    assert!(matches!(polygon.corners(), Err(GeometryError::InvalidCorner)));
    assert!(matches!(
        WallModeler::build(&polygon),
        Err(GeometryError::InvalidCorner)
    ));
}

#[test]
fn corners_classify_the_whole_square() {
    let corners = canonical_square().corners().unwrap();
    assert_eq!(corners.corners.len(), 4);
    assert_eq!(corners.corners[0].point(), pt(4, 0));
}

#[test]
fn modeler_tracks_generations_and_clear_resets_corners() {
    let mut modeler = WallModeler::new(9, 4);
    modeler.push(ascending_corner(0, 0)).unwrap();
    let model: WallModel = modeler.finish();
    assert_eq!(model.len(), 1);
    assert_eq!(model.layer, 9);

    let mut wall = Wall::new_forward(0, 0);
    wall.push(ascending_corner(0, 0)).unwrap();
    wall.clear();
    assert_eq!(wall.len(), 0);
}
