//! From coordinates back to coefficients: the two forms of a lattice point
//! determine each other.

use crate::bounds::padded;
use crate::coordinates::{
    frame_coordinate, lattice_point, lemma_combination_dot_frame, lemma_coordinate_sum_agrees,
    lemma_frame_coordinate_split, offset, target_coordinate, target_coordinates,
};
use crate::error::LatticeError;
use crate::gram_schmidt::{frame_ready, squared_length};
use crate::lattice::{ambient, Lattice};
use crate::number::{
    integer_value, integer_values, rational_eq, rational_floor, rational_from_integer, rational_sub,
    rational_value, rational_values, reversed,
};
use crate::optimality::extends;
use crate::vector::same_vector;
use rug::Integer;
use rug::Rational;
use vstd::prelude::*;

verus! {

/// The coordinate of a lattice point along `b*_j`, taken from its
/// coordinates, is the one that its coefficients give.
pub proof fn lemma_point_coordinate(b: Seq<Seq<real>>, m: nat, x: Seq<int>, j: int)
    requires
        frame_ready(b, m),
        0 <= j < b.len(),
    ensures
        target_coordinate(b, lattice_point(b, x, m), j) == frame_coordinate(b, x, j),
{
    lemma_combination_dot_frame(b, m, x, b.len() as int, j);
    let z = frame_coordinate(b, x, j);
    let bg = squared_length(b, j);
    assert((z * bg) / bg == z) by (nonlinear_arith)
        requires
            bg != 0real,
    ;
}

/// The coefficient of index `i` of a lattice point is its coordinate along
/// `b*_i` less the offset of the coefficients above `i`.
pub proof fn lemma_coefficient_from_coordinates(
    b: Seq<Seq<real>>,
    m: nat,
    x: Seq<int>,
    fixed: Seq<int>,
)
    requires
        frame_ready(b, m),
        fixed.len() < b.len(),
        extends(x, fixed, b.len()),
    ensures
        x[b.len() - fixed.len() - 1] as real == target_coordinate(
            b,
            lattice_point(b, x, m),
            b.len() - fixed.len() - 1,
        ) - offset(b, padded(fixed, b.len()), b.len() - fixed.len() - 1),
{
    let i = b.len() - fixed.len() - 1;
    lemma_point_coordinate(b, m, x, i);
    lemma_frame_coordinate_split(b, m, x, i);
    lemma_coordinate_sum_agrees(b, x, padded(fixed, b.len()), i, i + 1, b.len() as int);
}

/// Two coefficient vectors with the same lattice point are the same: the
/// basis vectors are linearly independent over the integers.
pub proof fn law_coefficients_are_unique(b: Seq<Seq<real>>, x: Seq<int>, w: Seq<int>)
    requires
        frame_ready(b, ambient(b)),
        x.len() == b.len(),
        w.len() == b.len(),
        lattice_point(b, x, ambient(b)) == lattice_point(b, w, ambient(b)),
    ensures
        x == w,
{
    lemma_coefficients_agree(b, ambient(b), x, w, b.len() as int);
    assert(x =~= w);
}

/// Two coefficient vectors with the same lattice point agree in their `d`
/// highest coefficients.
pub proof fn lemma_coefficients_agree(b: Seq<Seq<real>>, m: nat, x: Seq<int>, w: Seq<int>, d: int)
    requires
        frame_ready(b, m),
        x.len() == b.len(),
        w.len() == b.len(),
        lattice_point(b, x, m) == lattice_point(b, w, m),
        0 <= d <= b.len(),
    ensures
        forall|l: int| b.len() - d <= l < b.len() ==> x[l] == w[l],
    decreases d,
{
    if d > 0 {
        lemma_coefficients_agree(b, m, x, w, d - 1);
        let n = b.len();
        let fixed = Seq::new((d - 1) as nat, |l: int| x[n - (d - 1) + l]);
        assert(extends(x, fixed, n));
        assert(extends(w, fixed, n));
        lemma_coefficient_from_coordinates(b, m, x, fixed);
        lemma_coefficient_from_coordinates(b, m, w, fixed);
    }
}

impl Lattice {
    /// The integer coefficients of `point` on the basis, where `point` is a
    /// point of the lattice, and `None` where no integer coefficients give
    /// `point`. It fails with `DimensionMismatch` where `point` has not the
    /// lattice's ambient dimension.
    pub fn coefficients_of(&self, point: &Vec<Rational>) -> (r: Result<
        Option<Vec<Integer>>,
        LatticeError,
    >)
        requires
            self.wf(),
        ensures
            match r {
                Ok(Some(x)) => {
                    &&& point.len() == ambient(self@)
                    &&& x.len() == self@.len()
                    &&& lattice_point(self@, integer_values(x@), ambient(self@)) == rational_values(
                        point@,
                    )
                },
                Ok(None) => {
                    &&& point.len() == ambient(self@)
                    &&& forall|x: Seq<int>|
                        x.len() == self@.len() ==> #[trigger] lattice_point(
                            self@,
                            x,
                            ambient(self@),
                        ) != rational_values(point@)
                },
                Err(e) => point.len() != ambient(self@) && e == LatticeError::DimensionMismatch,
            },
    {
        let y = match self.frame_coordinates(point) {
            Ok(y) => y,
            Err(e) => {
                return Err(e);
            },
        };
        let n = self.rank();
        let ghost b = self@;
        let ghost m = ambient(self@);
        let ghost p = rational_values(point@);
        proof {
            self.lemma_wf_frame_ready();
            assert(rational_values(y@).len() == y.len());
        }
        let mut found: Vec<Integer> = Vec::new();
        let mut fixed: Vec<Integer> = reversed(&found);
        proof {
            assert(integer_values(found@).len() == 0);
            assert(integer_values(fixed@).len() == fixed.len());
        }
        while found.len() < n
            invariant
                self.wf(),
                b == self@,
                m == ambient(self@),
                p == rational_values(point@),
                frame_ready(b, m),
                n == b.len(),
                y.len() == n,
                point.len() == m,
                rational_values(y@) == target_coordinates(b, p),
                found.len() <= n,
                fixed.len() == found.len(),
                integer_values(fixed@) == integer_values(found@).reverse(),
                forall|x: Seq<int>|
                    x.len() == n && #[trigger] lattice_point(b, x, m) == p ==> extends(
                        x,
                        integer_values(fixed@),
                        n as nat,
                    ),
            decreases n - found.len(),
        {
            let i = n - found.len() - 1;
            let ghost fv = integer_values(fixed@);
            let above = self.coordinate_sum_of(&fixed, i, i + 1);
            let c = rational_sub(&y[i], &above);
            let k = rational_floor(&c);
            proof {
                assert(fv.len() == fixed.len());
                assert(rational_values(y@)[i as int] == target_coordinate(b, p, i as int));
                assert(rational_value(above) == offset(b, padded(fv, n as nat), i as int));
                assert forall|x: Seq<int>|
                    x.len() == n && #[trigger] lattice_point(b, x, m) == p implies x[i as int] as real
                    == rational_value(c) by {
                    assert(extends(x, fv, n as nat));
                    lemma_coefficient_from_coordinates(b, m, x, fv);
                }
            }
            if !rational_eq(&rational_from_integer(&k), &c) {
                proof {
                    assert forall|x: Seq<int>| x.len() == n implies #[trigger] lattice_point(
                        b,
                        x,
                        m,
                    ) != p by {
                        if lattice_point(b, x, m) == p {
                            assert(x[i as int] as real == rational_value(c));
                            assert(rational_value(c).floor() == x[i as int]);
                        }
                    }
                }
                return Ok(None);
            }
            let ghost kv = integer_value(k);
            found.push(k);
            fixed = reversed(&found);
            proof {
                assert(integer_values(found@).len() == found.len());
                assert(integer_values(fixed@).len() == fixed.len());
                assert(integer_values(fixed@) =~= seq![kv] + fv);
                assert forall|x: Seq<int>|
                    x.len() == n && #[trigger] lattice_point(b, x, m) == p implies extends(
                    x,
                    integer_values(fixed@),
                    n as nat,
                ) by {
                    let longer = integer_values(fixed@);
                    assert(extends(x, fv, n as nat));
                    assert(x[i as int] == kv);
                    assert forall|l: int| 0 <= l < longer.len() implies x[n - longer.len() + l]
                        == longer[l] by {
                        if l > 0 {
                            assert(longer[l] == fv[l - 1]);
                            assert(x[n - fv.len() + (l - 1)] == fv[l - 1]);
                        }
                    }
                }
            }
        }
        match self.lattice_point(&fixed) {
            Ok(q) => {
                if same_vector(&q, point) {
                    Ok(Some(fixed))
                } else {
                    proof {
                        assert forall|x: Seq<int>| x.len() == n implies #[trigger] lattice_point(
                            b,
                            x,
                            m,
                        ) != p by {
                            if lattice_point(b, x, m) == p {
                                assert(x =~= integer_values(fixed@));
                            }
                        }
                    }
                    Ok(None)
                }
            },
            Err(e) => Err(e),
        }
    }
}

} // verus!
