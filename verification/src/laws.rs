//! What holds of the library as a whole, each statement proved from the
//! definitions that the contracts of the functions use.

use crate::babai::{babai_coefficients, babai_point};
use crate::bounds::{
    is_lower_end, is_upper_end, lemma_ends_enclose_slice, slice_center, slice_index,
    slice_radius_sq,
};
use crate::coordinates::{lattice_point, target_coordinates};
use crate::enumeration::{closest, explore, lower_end, sweep, unit_coefficients, upper_end};
use crate::gram_schmidt::frame_ready;
use crate::lattice::ambient;
use crate::number::{integer_values, rational_value, rational_values};
use crate::optimality::{
    extends, lemma_closest_is_a_point, lemma_closest_is_nearest, lemma_explore_improves,
    lemma_point_within_budget_is_in_slice, lemma_radius_nonnegative, lemma_sweep_improves,
};
use crate::point::Candidate;
use crate::vector::dist_sq;
use vstd::prelude::*;

verus! {

/// The exact search is exact: the point it returns is a point of the
/// lattice, the distance it returns is that point's, and no integer
/// combination of the basis vectors is nearer to the target.
pub proof fn law_exact_is_nearest(b: Seq<Seq<real>>, t: Seq<real>, x: Seq<int>)
    requires
        frame_ready(b, ambient(b)),
        b.len() >= 1,
        t.len() == ambient(b),
        x.len() == b.len(),
    ensures
        closest(b, ambient(b), t).best.len() == b.len(),
        closest(b, ambient(b), t).cost == dist_sq(
            lattice_point(b, closest(b, ambient(b), t).best, ambient(b)),
            t,
        ),
        closest(b, ambient(b), t).cost <= dist_sq(lattice_point(b, x, ambient(b)), t),
{
    lemma_closest_is_a_point(b, ambient(b), t);
    lemma_closest_is_nearest(b, ambient(b), t, x);
}

/// The exact search is never farther from the target than the nearest-plane
/// approximation.
pub proof fn law_exact_not_farther_than_approximate(b: Seq<Seq<real>>, t: Seq<real>)
    requires
        frame_ready(b, ambient(b)),
        b.len() >= 1,
        t.len() == ambient(b),
    ensures
        closest(b, ambient(b), t).cost <= dist_sq(babai_point(b, t), t),
{
    lemma_closest_is_nearest(b, ambient(b), t, babai_coefficients(b, t));
}

/// The exact search is a function of the lattice and the target: two answers
/// to one question have the same coefficients, the same coordinates and the
/// same distance.
pub proof fn law_exact_is_deterministic(
    b: Seq<Seq<real>>,
    t: Seq<real>,
    one: Candidate,
    other: Candidate,
)
    requires
        one.matches(b, closest(b, ambient(b), t).best, closest(b, ambient(b), t).cost),
        other.matches(b, closest(b, ambient(b), t).best, closest(b, ambient(b), t).cost),
    ensures
        integer_values(one.point.coefficients@) == integer_values(other.point.coefficients@),
        rational_values(one.point.coordinates@) == rational_values(other.point.coordinates@),
        rational_value(one.squared_distance) == rational_value(other.squared_distance),
{
}

/// A part of the search that does not find a strictly nearer point keeps the
/// point it was entered with.
pub proof fn lemma_explore_keeps_on_ties(
    b: Seq<Seq<real>>,
    m: nat,
    t: Seq<real>,
    fixed: Seq<int>,
    best: Seq<int>,
    cost: real,
)
    requires
        explore(b, m, t, fixed, best, cost).cost == cost,
    ensures
        explore(b, m, t, fixed, best, cost).best == best,
    decreases b.len() - fixed.len(), 1int, 0int,
{
    if fixed.len() < b.len() {
        let y = target_coordinates(b, t);
        let c = slice_center(b, fixed, y);
        let r = slice_radius_sq(b, fixed, y, cost);
        lemma_sweep_keeps_on_ties(b, m, t, fixed, lower_end(c, r), upper_end(c, r), best, cost);
    }
}

/// As `lemma_explore_keeps_on_ties`, for a walk over an interval.
pub proof fn lemma_sweep_keeps_on_ties(
    b: Seq<Seq<real>>,
    m: nat,
    t: Seq<real>,
    fixed: Seq<int>,
    k: int,
    hi: int,
    best: Seq<int>,
    cost: real,
)
    requires
        sweep(b, m, t, fixed, k, hi, best, cost).cost == cost,
    ensures
        sweep(b, m, t, fixed, k, hi, best, cost).best == best,
    decreases b.len() - fixed.len(), 0int, hi - k + 1,
{
    if !(k > hi || fixed.len() >= b.len()) {
        let first = explore(b, m, t, seq![k] + fixed, best, cost);
        lemma_explore_improves(b, m, t, seq![k] + fixed, best, cost);
        lemma_sweep_improves(b, m, t, fixed, k + 1, hi, first.best, first.cost);
        lemma_explore_keeps_on_ties(b, m, t, seq![k] + fixed, best, cost);
        lemma_sweep_keeps_on_ties(b, m, t, fixed, k + 1, hi, first.best, first.cost);
    }
}

/// Ties go to the point known first: where the first basis vector is as near
/// to the target as any lattice point, the exact search returns it.
pub proof fn law_first_basis_vector_wins_ties(b: Seq<Seq<real>>, t: Seq<real>)
    requires
        frame_ready(b, ambient(b)),
        b.len() >= 1,
        t.len() == ambient(b),
        forall|x: Seq<int>|
            x.len() == b.len() ==> dist_sq(b[0], t) <= dist_sq(
                #[trigger] lattice_point(b, x, ambient(b)),
                t,
            ),
    ensures
        closest(b, ambient(b), t).best == unit_coefficients(b.len()),
        closest(b, ambient(b), t).cost == dist_sq(b[0], t),
{
    let m = ambient(b);
    let first = unit_coefficients(b.len());
    lemma_closest_is_a_point(b, m, t);
    lemma_explore_improves(b, m, t, Seq::empty(), first, dist_sq(b[0], t));
    let found = closest(b, m, t);
    assert(dist_sq(b[0], t) <= dist_sq(lattice_point(b, found.best, m), t));
    lemma_explore_keeps_on_ties(b, m, t, Seq::empty(), first, dist_sq(b[0], t));
}

/// The bound routine is sound at every depth: a lattice point within the
/// budget, whose highest coefficients are the fixed ones, has its next
/// coefficient inside the interval.
pub proof fn law_bounds_are_sound(
    b: Seq<Seq<real>>,
    t: Seq<real>,
    fixed: Seq<int>,
    budget: real,
    lo: int,
    hi: int,
    x: Seq<int>,
)
    requires
        frame_ready(b, ambient(b)),
        t.len() == ambient(b),
        fixed.len() < b.len(),
        is_lower_end(
            lo,
            slice_center(b, fixed, target_coordinates(b, t)),
            slice_radius_sq(b, fixed, target_coordinates(b, t), budget),
        ),
        is_upper_end(
            hi,
            slice_center(b, fixed, target_coordinates(b, t)),
            slice_radius_sq(b, fixed, target_coordinates(b, t), budget),
        ),
        extends(x, fixed, b.len()),
        dist_sq(lattice_point(b, x, ambient(b)), t) <= budget,
    ensures
        lo <= x[slice_index(b, fixed)] <= hi,
{
    let y = target_coordinates(b, t);
    lemma_point_within_budget_is_in_slice(b, ambient(b), t, fixed, budget, x);
    lemma_radius_nonnegative(b, ambient(b), fixed, y, budget);
    lemma_ends_enclose_slice(
        lo,
        hi,
        slice_center(b, fixed, y),
        slice_radius_sq(b, fixed, y, budget),
        x[slice_index(b, fixed)],
    );
}

/// At depth zero, with the squared distance of the closest vector as the
/// budget, the interval of the bound routine holds the highest coefficient of
/// the closest vector.
pub proof fn law_bounds_hold_the_closest(b: Seq<Seq<real>>, t: Seq<real>, lo: int, hi: int)
    requires
        frame_ready(b, ambient(b)),
        b.len() >= 1,
        t.len() == ambient(b),
        is_lower_end(
            lo,
            slice_center(b, Seq::empty(), target_coordinates(b, t)),
            slice_radius_sq(
                b,
                Seq::empty(),
                target_coordinates(b, t),
                closest(b, ambient(b), t).cost,
            ),
        ),
        is_upper_end(
            hi,
            slice_center(b, Seq::empty(), target_coordinates(b, t)),
            slice_radius_sq(
                b,
                Seq::empty(),
                target_coordinates(b, t),
                closest(b, ambient(b), t).cost,
            ),
        ),
    ensures
        lo <= closest(b, ambient(b), t).best[b.len() - 1] <= hi,
{
    let found = closest(b, ambient(b), t);
    lemma_closest_is_a_point(b, ambient(b), t);
    law_bounds_are_sound(b, t, Seq::empty(), found.cost, lo, hi, found.best);
}

} // verus!
