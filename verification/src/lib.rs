//! Exact computational algebra: closest vectors in a lattice, found with
//! rational arithmetic that does not round, and beside them the arithmetic of
//! the integers by a modulus.

pub mod number;
pub mod vector;
pub mod gram_schmidt;
pub mod coordinates;
pub mod error;
pub mod lattice;
pub mod bounds;
pub mod point;
pub mod enumeration;
pub mod optimality;
pub mod babai;
pub mod exact;
pub mod laws;
pub mod first_met;
pub mod coefficients;
pub mod integer_computations;
pub mod algebraic_structure;
pub mod primes;
