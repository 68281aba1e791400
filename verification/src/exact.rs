//! The exact closest vector: the search of `enumeration`, started from the
//! first basis vector, together with the statement that its result is nearest
//! among all points of the lattice.

use crate::coordinates::{lattice_point, target_coordinate, target_coordinates};
use crate::enumeration::{closest, pair_values, project, shadows, unit_coefficients};
use crate::error::LatticeError;
use crate::gram_schmidt::lemma_gram_schmidt_len;
use crate::lattice::{ambient, Lattice};
use crate::number::{
    integer_from_i64, integer_value, integer_values, rational_div, rational_value, rational_values,
};
use crate::optimality::{lemma_closest_is_a_point, lemma_closest_is_nearest, lemma_unit_point};
use crate::point::{Candidate, LatticePoint};
use crate::vector::{copy_vector, dist_sq, dot_product, squared_distance};
use rug::Integer;
use rug::Rational;
use vstd::prelude::*;

verus! {

/// The coefficients of the first basis vector: one, then zeros.
pub fn first_unit(n: usize) -> (r: Vec<Integer>)
    ensures
        integer_values(r@) == unit_coefficients(n as nat),
{
    let mut r: Vec<Integer> = Vec::new();
    let mut i: usize = 0;
    while i < n
        invariant
            i <= n,
            r.len() == i,
            forall|l: int|
                0 <= l < i ==> integer_value(#[trigger] r@[l]) == (if l == 0 {
                    1int
                } else {
                    0int
                }),
        decreases n - i,
    {
        let c = if i == 0 {
            integer_from_i64(1)
        } else {
            integer_from_i64(0)
        };
        r.push(c);
        i = i + 1;
    }
    assert(integer_values(r@) =~= unit_coefficients(n as nat));
    r
}

impl Lattice {
    /// The coordinates `y` of `target` in the Gram-Schmidt frame:
    /// `y_j = <target, b*_j> / B_j`. It fails with `DimensionMismatch` where
    /// `target` has not the lattice's ambient dimension.
    pub fn frame_coordinates(&self, target: &Vec<Rational>) -> (r: Result<
        Vec<Rational>,
        LatticeError,
    >)
        requires
            self.wf(),
        ensures
            match r {
                Ok(y) => target.len() == ambient(self@) && rational_values(y@)
                    == target_coordinates(self@, rational_values(target@)),
                Err(e) => target.len() != ambient(self@) && e == LatticeError::DimensionMismatch,
            },
    {
        if target.len() != self.ambient_dimension() {
            return Err(LatticeError::DimensionMismatch);
        }
        let n = self.rank();
        let ghost b = self@;
        let ghost t = rational_values(target@);
        let mut y: Vec<Rational> = Vec::new();
        let mut j: usize = 0;
        while j < n
            invariant
                self.wf(),
                b == self@,
                t == rational_values(target@),
                n == b.len(),
                target.len() == ambient(b),
                j <= n,
                y.len() == j,
                forall|l: int|
                    0 <= l < j ==> rational_value(#[trigger] y@[l]) == target_coordinate(b, t, l),
            decreases n - j,
        {
            proof {
                self.lemma_wf_frame_ready();
                lemma_gram_schmidt_len(b, ambient(b), j as int);
            }
            let g = self.frame_row(j);
            proof {
                assert(rational_values(g@).len() == g.len());
            }
            y.push(rational_div(&dot_product(target, g), self.squared_length_ref(j)));
            j = j + 1;
        }
        assert(rational_values(y@) =~= target_coordinates(b, t));
        Ok(y)
    }

    /// The coordinates of the exact closest vector to `target`, and the
    /// projections of the points that the search looked at; see
    /// `exact_closest_vector`.
    pub fn closest_vector_by_enumeration(&self, target: &Vec<Rational>) -> (r: Result<
        (Vec<Rational>, Vec<(Rational, Rational)>),
        LatticeError,
    >)
        requires
            self.wf(),
        ensures
            match r {
                Ok((p, seen)) => {
                    let found = closest(self@, ambient(self@), rational_values(target@));
                    &&& self@.len() >= 1
                    &&& target.len() == ambient(self@)
                    &&& rational_values(p@) == lattice_point(self@, found.best, ambient(self@))
                    &&& pair_values(seen@) == shadows(self@, ambient(self@), found.visited)
                    &&& forall|x: Seq<int>|
                        x.len() == self@.len() ==> dist_sq(
                            rational_values(p@),
                            rational_values(target@),
                        ) <= dist_sq(
                            #[trigger] lattice_point(self@, x, ambient(self@)),
                            rational_values(target@),
                        )
                },
                Err(e) => e == (if self@.len() == 0 {
                    LatticeError::EmptyLattice
                } else {
                    LatticeError::DimensionMismatch
                }) && (self@.len() == 0 || target.len() != ambient(self@)),
            },
    {
        match exact_closest_vector(self, target) {
            Ok((c, seen)) => Ok((c.point.coordinates, seen)),
            Err(e) => Err(e),
        }
    }
}

/// The exact closest vector: the lattice point nearest to `target` among all
/// points of the lattice, with its coefficients and its squared distance to
/// `target`; and, beside it, the projections onto the first two coordinates
/// of every point whose distance the search worked out, in the order in which
/// it did.
///
/// Of several nearest points, the first basis vector is returned if it is one
/// of them, and else the one that the search meets first.
///
/// It fails with `EmptyLattice` where the lattice has no basis vector, and
/// else with `DimensionMismatch` where `target` has not the lattice's ambient
/// dimension.
pub fn exact_closest_vector(lattice: &Lattice, target: &Vec<Rational>) -> (r: Result<
    (Candidate, Vec<(Rational, Rational)>),
    LatticeError,
>)
    requires
        lattice.wf(),
    ensures
        match r {
            Ok((c, seen)) => {
                let found = closest(lattice@, ambient(lattice@), rational_values(target@));
                &&& lattice@.len() >= 1
                &&& target.len() == ambient(lattice@)
                &&& c.matches(lattice@, found.best, found.cost)
                &&& c.point.is_point_of(lattice@)
                &&& rational_value(c.squared_distance) == dist_sq(
                    rational_values(c.point.coordinates@),
                    rational_values(target@),
                )
                &&& pair_values(seen@) == shadows(lattice@, ambient(lattice@), found.visited)
                &&& forall|x: Seq<int>|
                    x.len() == lattice@.len() ==> rational_value(c.squared_distance) <= dist_sq(
                        #[trigger] lattice_point(lattice@, x, ambient(lattice@)),
                        rational_values(target@),
                    )
            },
            Err(e) => e == (if lattice@.len() == 0 {
                LatticeError::EmptyLattice
            } else {
                LatticeError::DimensionMismatch
            }) && (lattice@.len() == 0 || target.len() != ambient(lattice@)),
        },
{
    let n = lattice.rank();
    if n == 0 {
        return Err(LatticeError::EmptyLattice);
    }
    let y = match lattice.frame_coordinates(target) {
        Ok(y) => y,
        Err(e) => {
            return Err(e);
        },
    };
    let ghost b = lattice@;
    let ghost m = ambient(lattice@);
    let ghost t = rational_values(target@);
    proof {
        lattice.lemma_wf_frame_ready();
        lemma_unit_point(b, m, n as int);
        lemma_closest_is_a_point(b, m, t);
        assert forall|x: Seq<int>| x.len() == b.len() implies closest(b, m, t).cost <= dist_sq(
            #[trigger] lattice_point(b, x, m),
            t,
        ) by {
            lemma_closest_is_nearest(b, m, t, x);
        }
    }
    let first = copy_vector(lattice.basis_row(0));
    proof {
        assert(rational_values(first@).len() == first.len());
        assert(b[0].len() == m);
    }
    let d = squared_distance(&first, target);
    let mut seen: Vec<(Rational, Rational)> = Vec::new();
    seen.push(project(&first));
    proof {
        assert(pair_values(seen@) =~= shadows(b, m, seq![unit_coefficients(n as nat)]));
    }
    let unit = first_unit(n);
    proof {
        assert(integer_values(unit@).len() == unit.len());
        assert(lattice_point(b, unit_coefficients(n as nat), m) == b[0]);
    }
    let start = Candidate {
        point: LatticePoint { coefficients: unit, coordinates: first },
        squared_distance: d,
    };
    let none: Vec<Integer> = Vec::new();
    proof {
        assert(integer_values(none@).reverse() =~= Seq::<int>::empty());
    }
    let c = lattice.closest_vector_enumeration_step(target, 0, &none, start, &y, &mut seen);
    proof {
        let found = closest(b, m, t);
        assert(pair_values(seen@) =~= shadows(b, m, found.visited));
    }
    Ok((c, seen))
}

} // verus!
