use vstd::prelude::*;

verus! {

/// The two kinds of vertex in an abstract closed polygon: `X` marks a
/// convex vertex, `C` a concave one. A concave vertex can only be closed
/// off by a matching convex one, so `X` and `C` behave as annihilating
/// opposites and the surplus of `X` vertices is invariant.
#[derive(Clone, Copy, Debug, PartialEq, Eq, Structural)]
pub enum Vertex {
    X,
    C,
}

/// The two ways of twisting an edge: inserting a convex-concave pair or a
/// concave-convex pair. On a purely convex polygon the two are equivalent;
/// afterwards they are not, so both are kept.
#[derive(Clone, Copy, Debug, PartialEq, Eq, Structural)]
pub enum Twist {
    /// Inserts an `(X, C)` pair.
    XC,
    /// Inserts a `(C, X)` pair.
    CX,
}

impl Twist {
    /// The vertex pair this twist inserts, in order.
    pub open spec fn spec_pair(self) -> (Vertex, Vertex) {
        match self {
            Twist::XC => (Vertex::X, Vertex::C),
            Twist::CX => (Vertex::C, Vertex::X),
        }
    }

    /// The vertex pair this twist inserts, in order.
    pub fn pair(self) -> (r: (Vertex, Vertex))
        ensures
            r == self.spec_pair(),
    {
        match self {
            Twist::XC => (Vertex::X, Vertex::C),
            Twist::CX => (Vertex::C, Vertex::X),
        }
    }
}

/// An index into the vertex list of a liquid polygon.
#[derive(Clone, Copy, Debug, Default, PartialEq, Eq, PartialOrd, Ord, Hash, Structural)]
pub struct Vix(pub usize);

/// An abstract polygon that retains only the convexity of its vertices:
/// a run of `n` convex vertices can stand for any convex closed polygon
/// with `n` corners; a rectangle is the four-vertex case.
#[derive(Clone, Debug, PartialEq, Eq)]
pub struct LiquidPoly {
    /// The vertex sequence of the polygon.
    pub vertices: Vec<Vertex>,
}

impl LiquidPoly {
    /// A fresh, purely convex four-vertex polygon: a rectangle.
    pub fn init() -> (r: LiquidPoly)
        ensures
            r.vertices@ =~= seq![Vertex::X, Vertex::X, Vertex::X, Vertex::X],
    {
        let mut vertices: Vec<Vertex> = Vec::with_capacity(4);
        vertices.push(Vertex::X);
        vertices.push(Vertex::X);
        vertices.push(Vertex::X);
        vertices.push(Vertex::X);
        LiquidPoly { vertices }
    }

    /// The number of vertices in this polygon.
    pub fn len(&self) -> (r: Vix)
        ensures
            r.0 == self.vertices@.len(),
    {
        Vix(self.vertices.len())
    }

    /// Applies a twist to the edge leaving vertex `ix`: the vertex is kept,
    /// a copy of it and the twist's pair are spliced in before the rest of
    /// the sequence, growing the polygon by three vertices.
    pub fn twist(self, action: Twist, ix: Vix) -> (r: LiquidPoly)
        requires
            ix.0 < self.vertices@.len(),
            self.vertices@.len() + 3 <= usize::MAX,
        ensures
            r.vertices@ =~= self.vertices@.take(ix.0 as int)
                + seq![
                    self.vertices@[ix.0 as int],
                    action.spec_pair().0,
                    action.spec_pair().1,
                ]
                + self.vertices@.skip(ix.0 as int),
    {
        let LiquidPoly { mut vertices } = self;
        let at: Vertex = vertices[ix.0];
        let (first, second): (Vertex, Vertex) = action.pair();
        vertices.insert(ix.0, second);
        vertices.insert(ix.0, first);
        vertices.insert(ix.0, at);
        LiquidPoly { vertices }
    }
}

} // verus!
