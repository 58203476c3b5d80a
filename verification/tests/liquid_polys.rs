use doug_geometry::liquid::{LiquidPoly, Twist, Vertex, Vix};

#[test]
fn init_is_a_purely_convex_rectangle() {
    let poly = LiquidPoly::init();
    assert_eq!(poly.len(), Vix(4));
    assert_eq!(
        poly.vertices,
        vec![Vertex::X, Vertex::X, Vertex::X, Vertex::X]
    );
}

#[test]
fn twist_splices_a_pair_after_a_copy_of_the_vertex() {
    let poly = LiquidPoly::init().twist(Twist::XC, Vix(1));
    assert_eq!(poly.len(), Vix(7));
    assert_eq!(
        poly.vertices,
        vec![
            Vertex::X,
            Vertex::X,
            Vertex::X,
            Vertex::C,
            Vertex::X,
            Vertex::X,
            Vertex::X,
        ]
    );

    let other = LiquidPoly::init().twist(Twist::CX, Vix(0));
    assert_eq!(
        other.vertices,
        vec![
            Vertex::X,
            Vertex::C,
            Vertex::X,
            Vertex::X,
            Vertex::X,
            Vertex::X,
            Vertex::X,
        ]
    );
}

#[test]
fn twists_accumulate() {
    let mut poly = LiquidPoly::init();
    for i in 0..3 {
        poly = poly.twist(Twist::XC, Vix(i));
    }
    assert_eq!(poly.len(), Vix(13));
    let concave = poly
        .vertices
        .iter()
        .filter(|v| matches!(v, Vertex::C))
        .count();
    assert_eq!(concave, 3);
}
