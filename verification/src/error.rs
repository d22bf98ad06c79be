//! Error kinds of the library. Failures are synchronous and abort the whole
//! column-level call; degenerate inputs are normal values, not errors.

use vstd::prelude::*;
use crate::geometry::GeomType;

verus! {

#[derive(Clone, Copy, Debug, PartialEq, Eq, Structural)]
pub enum Error {
    /// Truncated or unrecognized binary geometry input.
    MalformedEncoding,
    /// No conversion rule from the first variant to the second.
    UnsupportedCast(GeomType, GeomType),
    /// A coordinate list whose rows do not all have the same arity.
    NonUniformCoordinateDimension,
    /// A spatial reference code that no projection is defined for.
    UnknownReferenceSystem(i64),
    /// The projection engine rejected a coordinate; carries source and
    /// destination codes.
    ProjectionFailure(i64, i64),
    /// An aggregate that needs a collection was given something else.
    InvalidGeometryForOperation,
}

impl Error {
    /// A short name of the error kind, for host-side messages.
    pub fn describe(&self) -> (r: &'static str)
        ensures
            r@.len() > 0,
    {
        let s: &'static str = match self {
            Error::MalformedEncoding => "malformed geometry encoding",
            Error::UnsupportedCast(_, _) => "unsupported geometry cast",
            Error::NonUniformCoordinateDimension => "coordinate list must be uniform",
            Error::UnknownReferenceSystem(_) => "unknown spatial reference code",
            Error::ProjectionFailure(_, _) => "projection failure",
            Error::InvalidGeometryForOperation => "geometry must be a collection",
        };
        proof {
            reveal_strlit("malformed geometry encoding");
            reveal_strlit("unsupported geometry cast");
            reveal_strlit("coordinate list must be uniform");
            reveal_strlit("unknown spatial reference code");
            reveal_strlit("projection failure");
            reveal_strlit("geometry must be a collection");
        }
        s
    }
}

} // verus!
