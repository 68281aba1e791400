//! Lattice points as the functions of this crate hand them out.

use crate::coordinates::lattice_point;
use crate::lattice::ambient;
use crate::number::{integer_values, rational_value, rational_values};
use rug::Integer;
use rug::Rational;
use vstd::prelude::*;

verus! {

/// A lattice point in both of its forms: its integer coefficients on the
/// basis, and its coordinates.
#[derive(Debug, Clone)]
pub struct LatticePoint {
    pub coefficients: Vec<Integer>,
    pub coordinates: Vec<Rational>,
}

/// A lattice point together with its squared distance to a target.
#[derive(Debug, Clone)]
pub struct Candidate {
    pub point: LatticePoint,
    pub squared_distance: Rational,
}

impl LatticePoint {
    /// The coordinates are those of the point with these coefficients in the
    /// lattice with the basis `b`.
    pub open spec fn is_point_of(&self, b: Seq<Seq<real>>) -> bool {
        &&& self.coefficients.len() == b.len()
        &&& rational_values(self.coordinates@) == lattice_point(
            b,
            integer_values(self.coefficients@),
            ambient(b),
        )
    }
}

impl Candidate {
    /// The candidate is the point with the coefficients `best`, and `cost` is
    /// its squared distance.
    pub open spec fn matches(&self, b: Seq<Seq<real>>, best: Seq<int>, cost: real) -> bool {
        &&& integer_values(self.point.coefficients@) == best
        &&& rational_values(self.point.coordinates@) == lattice_point(b, best, ambient(b))
        &&& rational_value(self.squared_distance) == cost
    }
}

} // verus!
