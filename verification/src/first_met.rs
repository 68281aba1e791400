//! Which of several nearest points the exact search returns: the one that it
//! looks at first.

use crate::bounds::{slice_center, slice_radius_sq};
use crate::coordinates::{lattice_point, target_coordinates};
use crate::enumeration::{closest, explore, lower_end, sweep, unit_coefficients, upper_end};
use crate::gram_schmidt::frame_ready;
use crate::lattice::ambient;
use crate::optimality::lemma_unit_point;
use crate::vector::dist_sq;
use vstd::prelude::*;

verus! {

/// The squared distance to the target of the `j`-th point looked at.
pub open spec fn seen_distance(
    b: Seq<Seq<real>>,
    m: nat,
    t: Seq<real>,
    visited: Seq<Seq<int>>,
    j: int,
) -> real {
    dist_sq(lattice_point(b, visited[j], m), t)
}

/// None of the points looked at is nearer to the target than `cost`.
pub open spec fn none_nearer(
    b: Seq<Seq<real>>,
    m: nat,
    t: Seq<real>,
    visited: Seq<Seq<int>>,
    cost: real,
) -> bool {
    forall|j: int| 0 <= j < visited.len() ==> #[trigger] seen_distance(b, m, t, visited, j) >= cost
}

/// The `k`-th point looked at has the coefficients `best` and the squared
/// distance `cost`, and every point looked at before it is farther.
pub open spec fn first_at(
    b: Seq<Seq<real>>,
    m: nat,
    t: Seq<real>,
    visited: Seq<Seq<int>>,
    best: Seq<int>,
    cost: real,
    k: int,
) -> bool {
    &&& 0 <= k < visited.len()
    &&& visited[k] == best
    &&& seen_distance(b, m, t, visited, k) == cost
    &&& forall|j: int| 0 <= j < k ==> #[trigger] seen_distance(b, m, t, visited, j) > cost
}

/// What a part of the search has done to the nearest point known: kept it,
/// having looked at no nearer point, or replaced it by the first of the
/// points looked at that is as near as any of them.
pub open spec fn kept_or_first(
    b: Seq<Seq<real>>,
    m: nat,
    t: Seq<real>,
    best: Seq<int>,
    cost: real,
    visited: Seq<Seq<int>>,
    new_best: Seq<int>,
    new_cost: real,
) -> bool {
    &&& none_nearer(b, m, t, visited, new_cost)
    &&& new_cost <= cost
    &&& new_cost == cost ==> new_best == best
    &&& new_cost < cost ==> exists|k: int| first_at(b, m, t, visited, new_best, new_cost, k)
}

/// Two parts of the search, one after the other, do what one part does.
proof fn lemma_kept_or_first_chains(
    b: Seq<Seq<real>>,
    m: nat,
    t: Seq<real>,
    best: Seq<int>,
    cost: real,
    first_visited: Seq<Seq<int>>,
    mid_best: Seq<int>,
    mid_cost: real,
    rest_visited: Seq<Seq<int>>,
    new_best: Seq<int>,
    new_cost: real,
)
    requires
        kept_or_first(b, m, t, best, cost, first_visited, mid_best, mid_cost),
        kept_or_first(b, m, t, mid_best, mid_cost, rest_visited, new_best, new_cost),
    ensures
        kept_or_first(b, m, t, best, cost, first_visited + rest_visited, new_best, new_cost),
{
    let all = first_visited + rest_visited;
    let shift = first_visited.len() as int;
    assert forall|j: int| 0 <= j < all.len() implies #[trigger] seen_distance(b, m, t, all, j)
        >= new_cost by {
        if j < shift {
            assert(all[j] == first_visited[j]);
            assert(seen_distance(b, m, t, first_visited, j) >= mid_cost);
        } else {
            assert(all[j] == rest_visited[j - shift]);
            assert(seen_distance(b, m, t, rest_visited, j - shift) >= new_cost);
        }
    }
    if new_cost < mid_cost {
        let k = choose|k: int| first_at(b, m, t, rest_visited, new_best, new_cost, k);
        assert(all[shift + k] == rest_visited[k]);
        assert forall|j: int| 0 <= j < shift + k implies #[trigger] seen_distance(b, m, t, all, j)
            > new_cost by {
            if j < shift {
                assert(all[j] == first_visited[j]);
                assert(seen_distance(b, m, t, first_visited, j) >= mid_cost);
            } else {
                assert(all[j] == rest_visited[j - shift]);
                assert(seen_distance(b, m, t, rest_visited, j - shift) > new_cost);
            }
        }
        assert(first_at(b, m, t, all, new_best, new_cost, shift + k));
    } else if new_cost < cost {
        let k = choose|k: int| first_at(b, m, t, first_visited, mid_best, mid_cost, k);
        assert(all[k] == first_visited[k]);
        assert forall|j: int| 0 <= j < k implies #[trigger] seen_distance(b, m, t, all, j)
            > new_cost by {
            assert(all[j] == first_visited[j]);
            assert(seen_distance(b, m, t, first_visited, j) > mid_cost);
        }
        assert(first_at(b, m, t, all, new_best, new_cost, k));
    }
}

/// A part of the search keeps the nearest point known or replaces it by the
/// first nearest of the points that it looks at.
pub proof fn lemma_explore_takes_the_first(
    b: Seq<Seq<real>>,
    m: nat,
    t: Seq<real>,
    fixed: Seq<int>,
    best: Seq<int>,
    cost: real,
)
    ensures
        kept_or_first(
            b,
            m,
            t,
            best,
            cost,
            explore(b, m, t, fixed, best, cost).visited,
            explore(b, m, t, fixed, best, cost).best,
            explore(b, m, t, fixed, best, cost).cost,
        ),
    decreases b.len() - fixed.len(), 1int, 0int,
{
    let o = explore(b, m, t, fixed, best, cost);
    if fixed.len() >= b.len() {
        assert(seen_distance(b, m, t, o.visited, 0) == dist_sq(lattice_point(b, fixed, m), t));
        if o.cost < cost {
            assert(first_at(b, m, t, o.visited, o.best, o.cost, 0));
        }
    } else {
        let y = target_coordinates(b, t);
        let c = slice_center(b, fixed, y);
        let r = slice_radius_sq(b, fixed, y, cost);
        lemma_sweep_takes_the_first(b, m, t, fixed, lower_end(c, r), upper_end(c, r), best, cost);
    }
}

/// As `lemma_explore_takes_the_first`, for a walk over an interval.
pub proof fn lemma_sweep_takes_the_first(
    b: Seq<Seq<real>>,
    m: nat,
    t: Seq<real>,
    fixed: Seq<int>,
    k: int,
    hi: int,
    best: Seq<int>,
    cost: real,
)
    ensures
        kept_or_first(
            b,
            m,
            t,
            best,
            cost,
            sweep(b, m, t, fixed, k, hi, best, cost).visited,
            sweep(b, m, t, fixed, k, hi, best, cost).best,
            sweep(b, m, t, fixed, k, hi, best, cost).cost,
        ),
    decreases b.len() - fixed.len(), 0int, hi - k + 1,
{
    if !(k > hi || fixed.len() >= b.len()) {
        let first = explore(b, m, t, seq![k] + fixed, best, cost);
        let rest = sweep(b, m, t, fixed, k + 1, hi, first.best, first.cost);
        lemma_explore_takes_the_first(b, m, t, seq![k] + fixed, best, cost);
        lemma_sweep_takes_the_first(b, m, t, fixed, k + 1, hi, first.best, first.cost);
        lemma_kept_or_first_chains(
            b,
            m,
            t,
            best,
            cost,
            first.visited,
            first.best,
            first.cost,
            rest.visited,
            rest.best,
            rest.cost,
        );
    }
}

/// Ties go to the point met first: the exact search returns the first of
/// the points it looks at that is as near to the target as any of them; every
/// point looked at before it is strictly farther.
pub proof fn law_first_met_wins(b: Seq<Seq<real>>, t: Seq<real>)
    requires
        frame_ready(b, ambient(b)),
        b.len() >= 1,
    ensures
        none_nearer(b, ambient(b), t, closest(b, ambient(b), t).visited, closest(b, ambient(b), t).cost),
        exists|k: int|
            first_at(
                b,
                ambient(b),
                t,
                closest(b, ambient(b), t).visited,
                closest(b, ambient(b), t).best,
                closest(b, ambient(b), t).cost,
                k,
            ),
{
    let m = ambient(b);
    let unit = unit_coefficients(b.len());
    let seed = dist_sq(b[0], t);
    let found = explore(b, m, t, Seq::empty(), unit, seed);
    let whole = closest(b, m, t);
    lemma_unit_point(b, m, b.len() as int);
    lemma_explore_takes_the_first(b, m, t, Seq::empty(), unit, seed);
    let start = seq![unit];
    assert(seen_distance(b, m, t, start, 0) == seed);
    assert(first_at(b, m, t, start, unit, seed, 0));
    // The seed itself is a part of the search that looks at one point and
    // takes it.
    assert(kept_or_first(b, m, t, unit, seed + 1real, start, unit, seed));
    lemma_kept_or_first_chains(
        b,
        m,
        t,
        unit,
        seed + 1real,
        start,
        unit,
        seed,
        found.visited,
        found.best,
        found.cost,
    );
    assert(whole.visited == start + found.visited);
    assert(found.cost < seed + 1real);
    let k = choose|k: int| first_at(b, m, t, start + found.visited, found.best, found.cost, k);
    assert(first_at(b, m, t, whole.visited, whole.best, whole.cost, k));
}

} // verus!
