//! The lattice: a basis together with its Gram-Schmidt frame, computed once
//! when the lattice is made and only read afterwards.

use crate::coordinates::{combination, lattice_point, lemma_combination_len};
use crate::error::LatticeError;
use crate::gram_schmidt::{
    frame_ready, gram_schmidt_vector, lemma_mu_triangular, lemma_remainder_len, mu, remainder,
    squared_length, well_shaped,
};
use crate::number::{
    integer_values, rational_div, rational_eq, rational_from_integer, rational_rows, rational_value,
    rational_values,
};
use crate::vector::{
    add_scaled, copy_vector, dot_product, rational_one, rational_zero, sub_scaled, zeros,
};
use rug::Integer;
use rug::Rational;
use vstd::prelude::*;

verus! {

/// The number of coordinates of the vectors of `b`; zero where there is no
/// vector.
pub open spec fn ambient(b: Seq<Seq<real>>) -> nat {
    if b.len() == 0 {
        0
    } else {
        b[0].len()
    }
}

/// A lattice, given by its basis. It owns the Gram-Schmidt vectors, their
/// squared lengths and the projection coefficients of that basis.
#[derive(Debug, Clone)]
pub struct Lattice {
    basis: Vec<Vec<Rational>>,
    frame: Vec<Vec<Rational>>,
    squared_lengths: Vec<Rational>,
    coefficients: Vec<Vec<Rational>>,
}

impl View for Lattice {
    type V = Seq<Seq<real>>;

    /// The basis vectors, in order.
    closed spec fn view(&self) -> Seq<Seq<real>> {
        rational_rows(self.basis@)
    }
}

impl Lattice {
    /// The stored Gram-Schmidt data is that of the basis, and the basis is
    /// ready for the search.
    pub closed spec fn wf(&self) -> bool {
        &&& frame_ready(self@, ambient(self@))
        &&& self.frame.len() == self.basis.len()
        &&& self.squared_lengths.len() == self.basis.len()
        &&& self.coefficients.len() == self.basis.len()
        &&& forall|i: int|
            0 <= i < self.basis.len() ==> rational_values(#[trigger] self.frame@[i]@)
                == gram_schmidt_vector(self@, i)
        &&& forall|i: int|
            0 <= i < self.basis.len() ==> rational_value(#[trigger] self.squared_lengths@[i])
                == squared_length(self@, i)
        &&& forall|i: int|
            0 <= i < self.basis.len() ==> (#[trigger] self.coefficients@[i]).len() == i
        &&& forall|i: int, j: int|
            0 <= j < i < self.basis.len() ==> rational_value(
                #[trigger] self.coefficients@[i]@[j],
            ) == mu(self@, i, j)
    }

    /// A well-formed lattice has vectors of one length, none of them in the
    /// span of those before it.
    pub proof fn lemma_wf_frame_ready(&self)
        requires
            self.wf(),
        ensures
            frame_ready(self@, ambient(self@)),
    {
    }

    /// Makes the lattice with the given basis vectors and derives its
    /// Gram-Schmidt frame.
    ///
    /// It fails with `DimensionMismatch` where the vectors differ in length,
    /// and else with `DegenerateBasis` where a Gram-Schmidt vector is zero.
    /// No vector at all makes the empty lattice.
    pub fn new(basis: Vec<Vec<Rational>>) -> (r: Result<Lattice, LatticeError>)
        ensures
            match r {
                Ok(l) => l.wf() && l@ == rational_rows(basis@),
                Err(e) => e == (if !well_shaped(
                    rational_rows(basis@),
                    ambient(rational_rows(basis@)),
                ) {
                    LatticeError::DimensionMismatch
                } else {
                    LatticeError::DegenerateBasis
                }),
            },
            r is Ok <==> frame_ready(rational_rows(basis@), ambient(rational_rows(basis@))),
    {
        let ghost b = rational_rows(basis@);
        let n = basis.len();
        let m: usize = if n == 0 {
            0
        } else {
            basis[0].len()
        };
        let mut i: usize = 0;
        while i < n
            invariant
                i <= n,
                n == basis.len(),
                b == rational_rows(basis@),
                m == ambient(b),
                forall|l: int| 0 <= l < i ==> (#[trigger] b[l]).len() == m,
            decreases n - i,
        {
            if basis[i].len() != m {
                assert(b[i as int].len() != m);
                return Err(LatticeError::DimensionMismatch);
            }
            i = i + 1;
        }
        assert(well_shaped(b, m as nat));
        let mut frame: Vec<Vec<Rational>> = Vec::new();
        let mut squared_lengths: Vec<Rational> = Vec::new();
        let mut coefficients: Vec<Vec<Rational>> = Vec::new();
        let zero = rational_zero();
        let mut i: usize = 0;
        while i < n
            invariant
                i <= n,
                n == basis.len(),
                b == rational_rows(basis@),
                m == ambient(b),
                well_shaped(b, m as nat),
                rational_value(zero) == 0real,
                frame.len() == i,
                squared_lengths.len() == i,
                coefficients.len() == i,
                forall|l: int|
                    0 <= l < i ==> rational_values(#[trigger] frame@[l]@) == gram_schmidt_vector(
                        b,
                        l,
                    ),
                forall|l: int|
                    0 <= l < i ==> rational_value(#[trigger] squared_lengths@[l])
                        == squared_length(b, l),
                forall|l: int| 0 <= l < i ==> #[trigger] squared_length(b, l) != 0real,
                forall|l: int| 0 <= l < i ==> (#[trigger] coefficients@[l]).len() == l,
                forall|l: int, j: int|
                    0 <= j < l < i ==> rational_value(#[trigger] coefficients@[l]@[j]) == mu(
                        b,
                        l,
                        j,
                    ),
            decreases n - i,
        {
            let mut w = copy_vector(&basis[i]);
            let mut row: Vec<Rational> = Vec::new();
            let mut j: usize = 0;
            assert(rational_values(w@) == remainder(b, b[i as int], 0));
            while j < i
                invariant
                    j <= i < n,
                    n == basis.len(),
                    b == rational_rows(basis@),
                    well_shaped(b, m as nat),
                    frame.len() == i,
                    squared_lengths.len() == i,
                    forall|l: int|
                        0 <= l < i ==> rational_values(#[trigger] frame@[l]@)
                            == gram_schmidt_vector(b, l),
                    forall|l: int|
                        0 <= l < i ==> rational_value(#[trigger] squared_lengths@[l])
                            == squared_length(b, l),
                    forall|l: int| 0 <= l < i ==> #[trigger] squared_length(b, l) != 0real,
                    rational_values(w@) == remainder(b, b[i as int], j as int),
                    row.len() == j,
                    forall|l: int|
                        0 <= l < j ==> rational_value(#[trigger] row@[l]) == mu(b, i as int, l),
                decreases i - j,
            {
                proof {
                    lemma_remainder_len(b, b[i as int], j as int);
                    lemma_remainder_len(b, b[j as int], j as int);
                    assert(squared_length(b, j as int) != 0real);
                }
                let p = dot_product(&basis[i], &frame[j]);
                let c = rational_div(&p, &squared_lengths[j]);
                w = sub_scaled(&w, &c, &frame[j]);
                row.push(c);
                j = j + 1;
            }
            let len = dot_product(&w, &w);
            if rational_eq(&len, &zero) {
                assert(squared_length(b, i as int) == 0real);
                return Err(LatticeError::DegenerateBasis);
            }
            frame.push(w);
            squared_lengths.push(len);
            coefficients.push(row);
            i = i + 1;
        }
        let l = Lattice { basis, frame, squared_lengths, coefficients };
        Ok(l)
    }

    /// The basis vector `b_i`, borrowed.
    pub(crate) fn basis_row(&self, i: usize) -> (r: &Vec<Rational>)
        requires
            i < self@.len(),
        ensures
            rational_values(r@) == self@[i as int],
    {
        &self.basis[i]
    }

    /// The Gram-Schmidt vector `b*_i`, borrowed.
    pub(crate) fn frame_row(&self, i: usize) -> (r: &Vec<Rational>)
        requires
            self.wf(),
            i < self@.len(),
        ensures
            rational_values(r@) == gram_schmidt_vector(self@, i as int),
    {
        &self.frame[i]
    }

    /// The squared length `B_i`, borrowed. It is not zero.
    pub(crate) fn squared_length_ref(&self, i: usize) -> (r: &Rational)
        requires
            self.wf(),
            i < self@.len(),
        ensures
            rational_value(*r) == squared_length(self@, i as int),
            rational_value(*r) != 0real,
    {
        &self.squared_lengths[i]
    }

    /// The projection coefficient `mu[j][i]`.
    pub(crate) fn mu_value(&self, j: usize, i: usize) -> (r: Rational)
        requires
            self.wf(),
            j < self@.len(),
            i < self@.len(),
        ensures
            rational_value(r) == mu(self@, j as int, i as int),
    {
        if j > i {
            self.coefficients[j][i].clone()
        } else {
            proof {
                lemma_mu_triangular(self@, ambient(self@), j as int, i as int);
            }
            if j == i {
                rational_one()
            } else {
                rational_zero()
            }
        }
    }

    /// The number of basis vectors.
    pub fn rank(&self) -> (r: usize)
        ensures
            r == self@.len(),
    {
        self.basis.len()
    }

    /// The number of coordinates of each basis vector; zero for the empty
    /// lattice.
    pub fn ambient_dimension(&self) -> (r: usize)
        ensures
            r == ambient(self@),
    {
        if self.basis.len() == 0 {
            0
        } else {
            self.basis[0].len()
        }
    }

    /// The basis vector `b_i`, or `IndexOutOfRange` where `i` is not below the
    /// rank.
    pub fn basis_vector(&self, i: usize) -> (r: Result<Vec<Rational>, LatticeError>)
        ensures
            match r {
                Ok(v) => i < self@.len() && rational_values(v@) == self@[i as int],
                Err(e) => i >= self@.len() && e == LatticeError::IndexOutOfRange,
            },
    {
        if i >= self.basis.len() {
            return Err(LatticeError::IndexOutOfRange);
        }
        Ok(copy_vector(&self.basis[i]))
    }

    /// The Gram-Schmidt vector `b*_i`, or `IndexOutOfRange` where `i` is not
    /// below the rank.
    pub fn gram_schmidt_vector(&self, i: usize) -> (r: Result<Vec<Rational>, LatticeError>)
        requires
            self.wf(),
        ensures
            match r {
                Ok(v) => i < self@.len() && rational_values(v@) == gram_schmidt_vector(
                    self@,
                    i as int,
                ),
                Err(e) => i >= self@.len() && e == LatticeError::IndexOutOfRange,
            },
    {
        if i >= self.basis.len() {
            return Err(LatticeError::IndexOutOfRange);
        }
        Ok(copy_vector(&self.frame[i]))
    }

    /// The squared length `B_i` of the Gram-Schmidt vector `b*_i`, or
    /// `IndexOutOfRange` where `i` is not below the rank.
    pub fn gram_schmidt_squared_length(&self, i: usize) -> (r: Result<Rational, LatticeError>)
        requires
            self.wf(),
        ensures
            match r {
                Ok(v) => i < self@.len() && rational_value(v) == squared_length(self@, i as int),
                Err(e) => i >= self@.len() && e == LatticeError::IndexOutOfRange,
            },
    {
        if i >= self.basis.len() {
            return Err(LatticeError::IndexOutOfRange);
        }
        Ok(self.squared_lengths[i].clone())
    }

    /// The projection coefficient `mu[j][i] = <b_j, b*_i> / B_i`, or
    /// `IndexOutOfRange` where `j` or `i` is not below the rank. The
    /// coefficient is 1 for `j == i` and 0 for `j < i`.
    pub fn mu(&self, j: usize, i: usize) -> (r: Result<Rational, LatticeError>)
        requires
            self.wf(),
        ensures
            match r {
                Ok(v) => j < self@.len() && i < self@.len() && rational_value(v) == mu(
                    self@,
                    j as int,
                    i as int,
                ),
                Err(e) => (j >= self@.len() || i >= self@.len()) && e
                    == LatticeError::IndexOutOfRange,
            },
    {
        if j >= self.basis.len() || i >= self.basis.len() {
            return Err(LatticeError::IndexOutOfRange);
        }
        Ok(self.mu_value(j, i))
    }

    /// The lattice point with the given coefficients, the sum of all
    /// `x_i b_i`, or `DimensionMismatch` where there are not as many
    /// coefficients as basis vectors.
    pub fn lattice_point(&self, coefficients: &Vec<Integer>) -> (r: Result<
        Vec<Rational>,
        LatticeError,
    >)
        requires
            self.wf(),
        ensures
            match r {
                Ok(p) => coefficients.len() == self@.len() && rational_values(p@) == lattice_point(
                    self@,
                    integer_values(coefficients@),
                    ambient(self@),
                ),
                Err(e) => coefficients.len() != self@.len() && e
                    == LatticeError::DimensionMismatch,
            },
    {
        let n = self.basis.len();
        if coefficients.len() != n {
            return Err(LatticeError::DimensionMismatch);
        }
        let m = self.ambient_dimension();
        let mut p = zeros(m);
        let ghost x = integer_values(coefficients@);
        let mut i: usize = 0;
        while i < n
            invariant
                i <= n,
                n == self.basis.len(),
                n == coefficients.len(),
                m == ambient(self@),
                self.wf(),
                x == integer_values(coefficients@),
                rational_values(p@) == combination(self@, x, m as nat, i as int),
            decreases n - i,
        {
            proof {
                lemma_combination_len(self@, x, m as nat, i as int);
                assert(self@[i as int].len() == m);
            }
            let c = rational_from_integer(&coefficients[i]);
            p = add_scaled(&p, &c, &self.basis[i]);
            i = i + 1;
        }
        Ok(p)
    }
}

} // verus!
