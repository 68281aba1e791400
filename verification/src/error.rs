//! What can be wrong with a lattice or with a request to it.

use vstd::prelude::*;

verus! {

/// The ways in which a request fails. Every failure is a fault of the input;
/// none is transient.
#[derive(Debug, Clone, Copy, PartialEq, Eq, Structural)]
pub enum LatticeError {
    /// Two vectors that must have one length do not: basis vectors among
    /// themselves, a target and the basis vectors, or a coefficient vector and
    /// the basis.
    DimensionMismatch,
    /// The lattice has no basis vector.
    EmptyLattice,
    /// A Gram-Schmidt vector is zero: the basis vectors are linearly
    /// dependent.
    DegenerateBasis,
    /// An index is not below the rank.
    IndexOutOfRange,
}

impl LatticeError {
    /// The words for the failure, as a reader is told them.
    pub open spec fn words(&self) -> Seq<char> {
        match self {
            LatticeError::DimensionMismatch => "Vector size not compatible with lattice"@,
            LatticeError::EmptyLattice => "Lattice is empty."@,
            LatticeError::DegenerateBasis => "Basis vectors are linearly dependent."@,
            LatticeError::IndexOutOfRange => "Index is not below the rank."@,
        }
    }

    /// What is wrong, in words.
    pub fn message(&self) -> (r: String)
        ensures
            r@ == self.words(),
    {
        match self {
            LatticeError::DimensionMismatch => "Vector size not compatible with lattice".to_owned(),
            LatticeError::EmptyLattice => "Lattice is empty.".to_owned(),
            LatticeError::DegenerateBasis => "Basis vectors are linearly dependent.".to_owned(),
            LatticeError::IndexOutOfRange => "Index is not below the rank.".to_owned(),
        }
    }
}

} // verus!
