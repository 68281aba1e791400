//! The exact search: a depth-first walk over integer coefficient vectors,
//! highest index first, that leaves out what the bound routine shows to be
//! too far, and keeps the nearest point that it has met.
//!
//! The walk is defined twice: as mathematics (`explore`, `sweep`, `closest`),
//! which fixes what the search visits and returns, and as code, which is
//! proved to compute just that.

use crate::bounds::{
    is_lower_end, is_upper_end, lemma_lower_end_unique, lemma_upper_end_unique, slice_center,
    slice_radius_sq,
};
use crate::coordinates::{lattice_point, lemma_combination_len, target_coordinates};
use crate::lattice::{ambient, Lattice};
use crate::number::{
    integer_add, integer_from_i64, integer_lt, integer_value, integer_values, rational_lt,
    rational_value, rational_values, reversed,
};
use crate::point::{Candidate, LatticePoint};
use crate::vector::{dist_sq, rational_zero, squared_distance};
use rug::Integer;
use rug::Rational;
use vstd::prelude::*;

verus! {

/// What a part of the search leaves behind: the coefficients of the nearest
/// point known, its squared distance to the target, and the coefficient
/// vectors of the points that the part has looked at, in order.
pub struct Outcome {
    pub best: Seq<int>,
    pub cost: real,
    pub visited: Seq<Seq<int>>,
}

/// `ceil(c - sqrt(r))`.
pub open spec fn lower_end(c: real, r: real) -> int {
    choose|l: int| is_lower_end(l, c, r)
}

/// `floor(c + sqrt(r))`.
pub open spec fn upper_end(c: real, r: real) -> int {
    choose|h: int| is_upper_end(h, c, r)
}

/// Looking at the point with the coefficients `x`: it replaces the nearest
/// point known only where it is strictly nearer.
pub open spec fn evaluate(
    b: Seq<Seq<real>>,
    m: nat,
    t: Seq<real>,
    x: Seq<int>,
    best: Seq<int>,
    cost: real,
) -> Outcome {
    let d = dist_sq(lattice_point(b, x, m), t);
    if d < cost {
        Outcome { best: x, cost: d, visited: seq![x] }
    } else {
        Outcome { best, cost, visited: seq![x] }
    }
}

/// The search below the coefficients `fixed` of the highest indices (lowest
/// index first), entered with the nearest point known and its squared
/// distance: at full depth it looks at the one point, above it it walks the
/// interval that the bound routine gives for the next coefficient.
pub open spec fn explore(
    b: Seq<Seq<real>>,
    m: nat,
    t: Seq<real>,
    fixed: Seq<int>,
    best: Seq<int>,
    cost: real,
) -> Outcome
    decreases b.len() - fixed.len(), 1int, 0int,
{
    if fixed.len() >= b.len() {
        evaluate(b, m, t, fixed, best, cost)
    } else {
        let y = target_coordinates(b, t);
        let c = slice_center(b, fixed, y);
        let r = slice_radius_sq(b, fixed, y, cost);
        sweep(b, m, t, fixed, lower_end(c, r), upper_end(c, r), best, cost)
    }
}

/// The walk over the values `k ..= hi` of the next coefficient, in rising
/// order; each value is searched with the nearest point known after the
/// values before it.
pub open spec fn sweep(
    b: Seq<Seq<real>>,
    m: nat,
    t: Seq<real>,
    fixed: Seq<int>,
    k: int,
    hi: int,
    best: Seq<int>,
    cost: real,
) -> Outcome
    decreases b.len() - fixed.len(), 0int, hi - k + 1,
{
    if k > hi || fixed.len() >= b.len() {
        Outcome { best, cost, visited: Seq::empty() }
    } else {
        let first = explore(b, m, t, seq![k] + fixed, best, cost);
        let rest = sweep(b, m, t, fixed, k + 1, hi, first.best, first.cost);
        Outcome { best: rest.best, cost: rest.cost, visited: first.visited + rest.visited }
    }
}

/// The coefficients of the first basis vector: one, then zeros.
pub open spec fn unit_coefficients(n: nat) -> Seq<int> {
    Seq::new(
        n,
        |l: int|
            if l == 0 {
                1int
            } else {
                0int
            },
    )
}

/// The whole search for the target `t` in the lattice with the basis `b`: it
/// starts from the first basis vector as the nearest point known.
pub open spec fn closest(b: Seq<Seq<real>>, m: nat, t: Seq<real>) -> Outcome {
    let first = unit_coefficients(b.len());
    let found = explore(b, m, t, Seq::empty(), first, dist_sq(b[0], t));
    Outcome { best: found.best, cost: found.cost, visited: seq![first] + found.visited }
}

/// The first two coordinates of a point, zero standing for one that the
/// point does not have.
pub open spec fn projection(p: Seq<real>) -> (real, real) {
    (
        if p.len() >= 1 {
            p[0]
        } else {
            0real
        },
        if p.len() >= 2 {
            p[1]
        } else {
            0real
        },
    )
}

/// The projections of the lattice points with the coefficient vectors
/// `visited`.
pub open spec fn shadows(b: Seq<Seq<real>>, m: nat, visited: Seq<Seq<int>>) -> Seq<(real, real)> {
    Seq::new(visited.len(), |k: int| projection(lattice_point(b, visited[k], m)))
}

/// The values of a sequence of pairs of rationals.
pub open spec fn pair_values(s: Seq<(Rational, Rational)>) -> Seq<(real, real)> {
    Seq::new(s.len(), |k: int| (rational_value(s[k].0), rational_value(s[k].1)))
}

/// A copy of `v`.
pub fn copy_integers(v: &Vec<Integer>) -> (r: Vec<Integer>)
    ensures
        integer_values(r@) == integer_values(v@),
{
    let mut r: Vec<Integer> = Vec::new();
    let mut i: usize = 0;
    while i < v.len()
        invariant
            i <= v.len(),
            r.len() == i,
            forall|l: int| 0 <= l < i ==> integer_value(#[trigger] r@[l]) == integer_value(v@[l]),
        decreases v.len() - i,
    {
        r.push(v[i].clone());
        i = i + 1;
    }
    assert(integer_values(r@) =~= integer_values(v@));
    r
}

/// The first two coordinates of `p`, zero standing for one that `p` does not
/// have.
pub fn project(p: &Vec<Rational>) -> (r: (Rational, Rational))
    ensures
        (rational_value(r.0), rational_value(r.1)) == projection(rational_values(p@)),
{
    let first = if p.len() >= 1 {
        p[0].clone()
    } else {
        rational_zero()
    };
    let second = if p.len() >= 2 {
        p[1].clone()
    } else {
        rational_zero()
    };
    (first, second)
}

/// The projections of two runs of points, one after the other.
pub proof fn lemma_shadows_concat(
    b: Seq<Seq<real>>,
    m: nat,
    first: Seq<Seq<int>>,
    second: Seq<Seq<int>>,
)
    ensures
        shadows(b, m, first + second) == shadows(b, m, first) + shadows(b, m, second),
{
    assert(shadows(b, m, first + second) =~= shadows(b, m, first) + shadows(b, m, second));
}

/// The ends that the bound routine finds are the ends of the definition.
pub proof fn lemma_ends_are_chosen(lo: int, hi: int, c: real, r: real)
    requires
        is_lower_end(lo, c, r),
        is_upper_end(hi, c, r),
    ensures
        lo == lower_end(c, r),
        hi == upper_end(c, r),
{
    lemma_lower_end_unique(lo, lower_end(c, r), c, r);
    lemma_upper_end_unique(hi, upper_end(c, r), c, r);
}

impl Lattice {
    /// One level of the search: with `combination` holding the coefficients
    /// fixed so far, the highest index first, it looks at the one point where
    /// all are fixed, and else walks the interval of the next coefficient,
    /// each value with the nearest point known after the values before it.
    /// Every point looked at is recorded in `checked_points` by its
    /// projection.
    pub fn closest_vector_enumeration_step(
        &self,
        target: &Vec<Rational>,
        depth: usize,
        combination: &Vec<Integer>,
        current: Candidate,
        y: &Vec<Rational>,
        checked_points: &mut Vec<(Rational, Rational)>,
    ) -> (r: Candidate)
        requires
            self.wf(),
            target.len() == ambient(self@),
            combination.len() == depth,
            depth <= self@.len(),
            rational_values(y@) == target_coordinates(self@, rational_values(target@)),
            current.point.is_point_of(self@),
        ensures
            ({
                let o = explore(
                    self@,
                    ambient(self@),
                    rational_values(target@),
                    integer_values(combination@).reverse(),
                    integer_values(current.point.coefficients@),
                    rational_value(current.squared_distance),
                );
                &&& r.matches(self@, o.best, o.cost)
                &&& r.point.is_point_of(self@)
                &&& pair_values(final(checked_points)@) == pair_values(old(checked_points)@)
                    + shadows(self@, ambient(self@), o.visited)
            }),
        decreases self@.len() - depth,
    {
        let n = self.rank();
        let ghost b = self@;
        let ghost m = ambient(self@);
        let ghost t = rational_values(target@);
        let ghost fv = integer_values(combination@).reverse();
        let ghost log0 = pair_values(checked_points@);
        let fixed = reversed(combination);
        assert(integer_values(fixed@).len() == fixed.len());
        assert(integer_values(combination@).len() == combination.len());
        assert(rational_values(y@).len() == y.len());
        if depth >= n {
            match self.lattice_point(&fixed) {
                Ok(p) => {
                    proof {
                        lemma_combination_len(b, fv, m, n as int);
                        assert(rational_values(p@).len() == p.len());
                    }
                    let d = squared_distance(&p, target);
                    checked_points.push(project(&p));
                    assert(pair_values(checked_points@) =~= log0 + shadows(b, m, seq![fv]));
                    if rational_lt(&d, &current.squared_distance) {
                        Candidate {
                            point: LatticePoint { coefficients: fixed, coordinates: p },
                            squared_distance: d,
                        }
                    } else {
                        current
                    }
                },
                Err(_) => current,
            }
        } else {
            let ends = self.get_cvp_enumeration_bounds(&fixed, depth, &current.squared_distance, y);
            let lo = ends.0;
            let hi = ends.1;
            let one = integer_from_i64(1);
            let ghost best0 = integer_values(current.point.coefficients@);
            let ghost cost0 = rational_value(current.squared_distance);
            let ghost total = sweep(b, m, t, fv, integer_value(lo), integer_value(hi), best0, cost0);
            proof {
                let yv = target_coordinates(b, t);
                lemma_ends_are_chosen(
                    integer_value(lo),
                    integer_value(hi),
                    slice_center(b, fv, yv),
                    slice_radius_sq(b, fv, yv, cost0),
                );
                assert(total == explore(b, m, t, fv, best0, cost0));
                assert(log0 =~= log0 + shadows(b, m, Seq::<Seq<int>>::empty()));
            }
            let ghost mut seen: Seq<Seq<int>> = Seq::empty();
            let mut best = current;
            let mut k = lo;
            while !integer_lt(&hi, &k)
                invariant
                    self.wf(),
                    n == self@.len(),
                    b == self@,
                    m == ambient(self@),
                    t == rational_values(target@),
                    fv == integer_values(combination@).reverse(),
                    target.len() == ambient(self@),
                    combination.len() == depth,
                    depth < n,
                    rational_values(y@) == target_coordinates(self@, rational_values(target@)),
                    integer_value(one) == 1,
                    best.point.is_point_of(self@),
                    ({
                        let rest = sweep(
                            b,
                            m,
                            t,
                            fv,
                            integer_value(k),
                            integer_value(hi),
                            integer_values(best.point.coefficients@),
                            rational_value(best.squared_distance),
                        );
                        &&& total.best == rest.best
                        &&& total.cost == rest.cost
                        &&& total.visited == seen + rest.visited
                    }),
                    pair_values(checked_points@) == log0 + shadows(b, m, seen),
                decreases integer_value(hi) - integer_value(k) + 1,
            {
                let mut next = copy_integers(combination);
                next.push(k.clone());
                let ghost kv = integer_value(k);
                let ghost first = explore(
                    b,
                    m,
                    t,
                    seq![kv] + fv,
                    integer_values(best.point.coefficients@),
                    rational_value(best.squared_distance),
                );
                let ghost rest = sweep(
                    b,
                    m,
                    t,
                    fv,
                    kv + 1,
                    integer_value(hi),
                    first.best,
                    first.cost,
                );
                proof {
                    assert(integer_values(next@).reverse() =~= seq![kv] + fv);
                    assert(fv.len() == depth);
                }
                best =
                self.closest_vector_enumeration_step(
                    target,
                    depth + 1,
                    &next,
                    best,
                    y,
                    checked_points,
                );
                proof {
                    lemma_shadows_concat(b, m, seen, first.visited);
                    assert(seen + (first.visited + rest.visited) =~= (seen + first.visited)
                        + rest.visited);
                    assert(log0 + (shadows(b, m, seen) + shadows(b, m, first.visited)) =~= (log0
                        + shadows(b, m, seen)) + shadows(b, m, first.visited));
                    seen = seen + first.visited;
                }
                k = integer_add(&k, &one);
            }
            proof {
                assert(seen + Seq::<Seq<int>>::empty() =~= seen);
            }
            best
        }
    }
}

} // verus!
