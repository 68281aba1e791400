//! Babai's nearest-plane approximation: one pass over the Gram-Schmidt frame,
//! from the highest index down, that at each level moves to the nearest of
//! the parallel planes in which the points of the lattice lie.

use crate::coordinates::{
    coordinate_sum, frame_coordinate, lattice_point, lemma_combination_len,
    lemma_coordinate_sum_first, lemma_frame_coordinate_split, offset, target_coordinate,
};
use crate::error::LatticeError;
use crate::gram_schmidt::{
    frame_ready, gram_schmidt_vector, lemma_basis_dot_frame, lemma_dot_minus_scaled,
    lemma_gram_schmidt_len, lemma_orthogonal, mu, projection_coefficient, squared_length,
};
use crate::lattice::{ambient, Lattice};
use crate::number::{
    integer_value, integer_values, rational_div, rational_from_integer, rational_round,
    rational_sub, rational_values, reversed, round_half_away,
};
use crate::point::{Candidate, LatticePoint};
use crate::vector::{
    copy_vector, dist_sq, dot, dot_product, minus, scaled, squared_distance, sub_scaled,
};
use rug::Integer;
use rug::Rational;
use vstd::prelude::*;

verus! {

/// What is left of the target `t` after the levels `n - 1` down to `i`: at
/// each level `j`, with `l = <w, b*_j> / B_j` and `k` the integer nearest to
/// `l` (halves away from zero), `w` becomes `w - (l - k) b*_j - k b_j`.
pub open spec fn babai_residue(b: Seq<Seq<real>>, t: Seq<real>, i: int) -> Seq<real>
    decreases b.len() - i,
{
    if i >= b.len() {
        t
    } else {
        let w = babai_residue(b, t, i + 1);
        let g = gram_schmidt_vector(b, i);
        let l = projection_coefficient(w, g);
        let k = round_half_away(l) as real;
        minus(minus(w, scaled(l - k, g)), scaled(k, b[i]))
    }
}

/// The coefficient that the approximation gives to `b_i`.
pub open spec fn babai_coefficient(b: Seq<Seq<real>>, t: Seq<real>, i: int) -> int {
    round_half_away(
        projection_coefficient(babai_residue(b, t, i + 1), gram_schmidt_vector(b, i)),
    )
}

/// The coefficients of the approximation.
pub open spec fn babai_coefficients(b: Seq<Seq<real>>, t: Seq<real>) -> Seq<int> {
    Seq::new(b.len(), |i: int| babai_coefficient(b, t, i))
}

/// The lattice point that the approximation returns.
pub open spec fn babai_point(b: Seq<Seq<real>>, t: Seq<real>) -> Seq<real> {
    lattice_point(b, babai_coefficients(b, t), ambient(b))
}

/// What is left of the target has as many coordinates as the target.
pub proof fn lemma_babai_residue_len(b: Seq<Seq<real>>, t: Seq<real>, i: int)
    ensures
        babai_residue(b, t, i).len() == t.len(),
    decreases b.len() - i,
{
    if i < b.len() {
        lemma_babai_residue_len(b, t, i + 1);
    }
}

/// What is left of the target after the levels down to `i`, seen along a
/// Gram-Schmidt vector `b*_j` below `i`: the target's part along `b*_j` less
/// what the coefficients found so far put there.
pub proof fn lemma_babai_residue_dot(b: Seq<Seq<real>>, m: nat, t: Seq<real>, i: int, j: int)
    requires
        frame_ready(b, m),
        t.len() == m,
        0 <= j < i <= b.len(),
    ensures
        dot(babai_residue(b, t, i), gram_schmidt_vector(b, j)) == dot(
            t,
            gram_schmidt_vector(b, j),
        ) - coordinate_sum(b, babai_coefficients(b, t), j, i, b.len() as int) * squared_length(b, j),
    decreases b.len() - i,
{
    let found = babai_coefficients(b, t);
    let v = gram_schmidt_vector(b, j);
    let bj = squared_length(b, j);
    if i >= b.len() {
        assert(0real * bj == 0real) by (nonlinear_arith);
    } else {
        let w = babai_residue(b, t, i + 1);
        let g = gram_schmidt_vector(b, i);
        let l = projection_coefficient(w, g);
        let k = round_half_away(l) as real;
        lemma_babai_residue_dot(b, m, t, i + 1, j);
        lemma_babai_residue_len(b, t, i + 1);
        lemma_gram_schmidt_len(b, m, i);
        lemma_dot_minus_scaled(w, l - k, g, v);
        lemma_dot_minus_scaled(minus(w, scaled(l - k, g)), k, b[i], v);
        lemma_orthogonal(b, m, i, j);
        lemma_basis_dot_frame(b, m, i, j);
        lemma_coordinate_sum_first(b, found, j, i, b.len() as int);
        assert(found[i] == round_half_away(l));
        let rest = coordinate_sum(b, found, j, i + 1, b.len() as int);
        let e = mu(b, i, j);
        let td = dot(t, v);
        assert((td - rest * bj) - (l - k) * 0real - k * (e * bj) == td - (k * e + rest) * bj)
            by (nonlinear_arith);
    }
}

/// Why the approximation is named after the nearest plane: each coefficient
/// is the integer nearest to where the target lies along that direction once
/// the coefficients above are taken, so the point found is within half a
/// Gram-Schmidt vector of the target in every direction of the frame.
pub proof fn law_babai_rounds_every_direction(b: Seq<Seq<real>>, t: Seq<real>, i: int)
    requires
        frame_ready(b, ambient(b)),
        t.len() == ambient(b),
        0 <= i < b.len(),
    ensures
        babai_coefficients(b, t)[i] == round_half_away(
            target_coordinate(b, t, i) - offset(b, babai_coefficients(b, t), i),
        ),
        2real * (frame_coordinate(b, babai_coefficients(b, t), i) - target_coordinate(b, t, i))
            <= 1real,
        2real * (target_coordinate(b, t, i) - frame_coordinate(b, babai_coefficients(b, t), i))
            <= 1real,
{
    let m = ambient(b);
    let found = babai_coefficients(b, t);
    let g = gram_schmidt_vector(b, i);
    let bi = squared_length(b, i);
    lemma_babai_residue_dot(b, m, t, i + 1, i);
    lemma_frame_coordinate_split(b, m, found, i);
    let td = dot(t, g);
    let off = offset(b, found, i);
    assert((td - off * bi) / bi == td / bi - off) by (nonlinear_arith)
        requires
            bi != 0real,
    ;
}

/// The approximate closest vector: the lattice point that Babai's
/// nearest-plane pass reaches from `target`, with its coefficients and its
/// squared distance to `target`.
///
/// It fails with `EmptyLattice` where the lattice has no basis vector, and
/// else with `DimensionMismatch` where `target` has not the lattice's ambient
/// dimension.
pub fn approximate_closest_vector(lattice: &Lattice, target: &Vec<Rational>) -> (r: Result<
    Candidate,
    LatticeError,
>)
    requires
        lattice.wf(),
    ensures
        match r {
            Ok(c) => {
                &&& lattice@.len() >= 1
                &&& target.len() == ambient(lattice@)
                &&& c.matches(
                    lattice@,
                    babai_coefficients(lattice@, rational_values(target@)),
                    dist_sq(babai_point(lattice@, rational_values(target@)), rational_values(target@)),
                )
                &&& c.point.is_point_of(lattice@)
            },
            Err(e) => e == (if lattice@.len() == 0 {
                LatticeError::EmptyLattice
            } else {
                LatticeError::DimensionMismatch
            }) && (lattice@.len() == 0 || target.len() != ambient(lattice@)),
        },
{
    let n = lattice.rank();
    if n == 0 {
        return Err(LatticeError::EmptyLattice);
    }
    if target.len() != lattice.ambient_dimension() {
        return Err(LatticeError::DimensionMismatch);
    }
    let ghost b = lattice@;
    let ghost m = ambient(lattice@);
    let ghost t = rational_values(target@);
    let mut w = copy_vector(target);
    let mut found: Vec<Integer> = Vec::new();
    let mut i = n;
    while i > 0
        invariant
            lattice.wf(),
            b == lattice@,
            m == ambient(lattice@),
            t == rational_values(target@),
            n == b.len(),
            target.len() == m,
            i <= n,
            found.len() == n - i,
            rational_values(w@) == babai_residue(b, t, i as int),
            forall|j: int|
                0 <= j < found.len() ==> integer_value(#[trigger] found@[j]) == babai_coefficient(
                    b,
                    t,
                    n - 1 - j,
                ),
        decreases i,
    {
        let j = i - 1;
        proof {
            lattice.lemma_wf_frame_ready();
            lemma_babai_residue_len(b, t, i as int);
            lemma_gram_schmidt_len(b, m, j as int);
            assert(rational_values(w@).len() == w.len());
            assert(b[j as int].len() == m);
        }
        let g = lattice.frame_row(j);
        let l = rational_div(&dot_product(&w, g), lattice.squared_length_ref(j));
        let k = rational_round(&l);
        let whole = rational_from_integer(&k);
        let part = rational_sub(&l, &whole);
        let along = sub_scaled(&w, &part, g);
        proof {
            assert(rational_values(along@).len() == along.len());
        }
        w = sub_scaled(&along, &whole, lattice.basis_row(j));
        found.push(k);
        i = j;
    }
    let coefficients = reversed(&found);
    proof {
        assert(integer_values(found@).len() == found.len());
        assert(integer_values(coefficients@).len() == coefficients.len());
        assert(integer_values(coefficients@) =~= babai_coefficients(b, t));
    }
    match lattice.lattice_point(&coefficients) {
        Ok(p) => {
            proof {
                lemma_combination_len(b, babai_coefficients(b, t), m, n as int);
                assert(rational_values(p@).len() == p.len());
            }
            let d = squared_distance(&p, target);
            Ok(
                Candidate {
                    point: LatticePoint { coefficients, coordinates: p },
                    squared_distance: d,
                },
            )
        },
        Err(e) => Err(e),
    }
}

impl Lattice {
    /// The coordinates of the approximate closest vector to `target`; see
    /// `approximate_closest_vector`.
    pub fn babai_nearest_plane(&self, target: &Vec<Rational>) -> (r: Result<
        Vec<Rational>,
        LatticeError,
    >)
        requires
            self.wf(),
        ensures
            match r {
                Ok(p) => {
                    &&& self@.len() >= 1
                    &&& target.len() == ambient(self@)
                    &&& rational_values(p@) == babai_point(self@, rational_values(target@))
                },
                Err(e) => e == (if self@.len() == 0 {
                    LatticeError::EmptyLattice
                } else {
                    LatticeError::DimensionMismatch
                }) && (self@.len() == 0 || target.len() != ambient(self@)),
            },
    {
        match approximate_closest_vector(self, target) {
            Ok(c) => Ok(c.point.coordinates),
            Err(e) => Err(e),
        }
    }
}

} // verus!
