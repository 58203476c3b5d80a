use vstd::prelude::*;

verus! {

/// The failures that the decomposition pipeline can report.
///
/// All of them are detected eagerly, at the point of the violated invariant,
/// and none is recoverable: they signal either a broken canonicalization
/// precondition or a polygon that cannot be decomposed.
#[derive(Clone, Copy, Debug, PartialEq, Eq, Structural)]
pub enum GeometryError {
    /// Three consecutive points do not form a valid rectilinear corner:
    /// the two edge directions meeting at the center are not exactly one
    /// horizontal and one vertical.
    InvalidCorner,
    /// A corner whose vertical edge direction disagrees with the attitude of
    /// the wall it is being pushed into.
    AttitudeViolation,
    /// A reverse wall has a span that no forward wall covers, so the polygon
    /// is not decomposable (open or self-intersecting boundary).
    NoCoverage,
}

impl GeometryError {
    /// A short human-readable description of the failure.
    pub fn describe(&self) -> (r: &'static str)
        ensures
            r@ =~= self.spec_describe(),
    {
        match self {
            GeometryError::InvalidCorner => "invalid rectilinear corner",
            GeometryError::AttitudeViolation => "corner does not match wall attitude",
            GeometryError::NoCoverage => "polygon is not decomposable",
        }
    }

    pub open spec fn spec_describe(self) -> Seq<char> {
        match self {
            GeometryError::InvalidCorner => "invalid rectilinear corner"@,
            GeometryError::AttitudeViolation => "corner does not match wall attitude"@,
            GeometryError::NoCoverage => "polygon is not decomposable"@,
        }
    }
}

} // verus!
