//! Why the search is exact: the bound routine never leaves out a coefficient
//! that a point within the budget has, so the search meets, or does better
//! than, every point of the lattice.

use crate::bounds::{
    in_slice, is_lower_end, is_upper_end, lemma_ends_enclose_slice, magnitude, padded, slice_center,
    slice_index, slice_radius_sq,
};
use crate::coordinates::{
    agree_from, combination, fixed_cost, frame_coordinate, lattice_point,
    lemma_coordinate_sum_agrees, lemma_distance_bounds_cost, lemma_frame_coordinate_split,
    lemma_partial_cost_agrees, lemma_partial_cost_nonnegative, lemma_partial_cost_split, offset,
    partial_cost, target_coordinates,
};
use crate::enumeration::{closest, explore, lower_end, sweep, unit_coefficients, upper_end};
use crate::gram_schmidt::{frame_ready, lemma_squared_length_positive, squared_length};
use crate::vector::{dist_sq, plus, scaled};
use vstd::prelude::*;

verus! {

/// `x` is a coefficient vector of length `n` whose highest coefficients are
/// `fixed` (lowest index first).
pub open spec fn extends(x: Seq<int>, fixed: Seq<int>, n: nat) -> bool {
    &&& x.len() == n
    &&& fixed.len() <= n
    &&& forall|l: int| 0 <= l < fixed.len() ==> x[n - fixed.len() + l] == fixed[l]
}

/// The greatest `s` with `s * s <= v`.
pub open spec fn integer_root(v: nat) -> nat
    decreases v,
{
    if v == 0 {
        0
    } else {
        let s = integer_root((v - 1) as nat);
        if (s + 1) * (s + 1) <= v {
            s + 1
        } else {
            s
        }
    }
}

/// `integer_root(v)` is the integer part of the square root of `v`.
pub proof fn lemma_integer_root(v: nat)
    ensures
        integer_root(v) * integer_root(v) <= v,
        v < (integer_root(v) + 1) * (integer_root(v) + 1),
    decreases v,
{
    let r = integer_root(v) as int;
    if v > 0 {
        lemma_integer_root((v - 1) as nat);
        let s = integer_root((v - 1) as nat) as int;
        if (s + 1) * (s + 1) <= v {
            assert(r * r <= v && v < (r + 1) * (r + 1)) by (nonlinear_arith)
                requires
                    r == s + 1,
                    s >= 0,
                    (s + 1) * (s + 1) <= v,
                    v - 1 < (s + 1) * (s + 1),
            ;
        } else {
            assert(r * r <= v && v < (r + 1) * (r + 1)) by (nonlinear_arith)
                requires
                    r == s,
                    s * s <= v - 1,
                    v < (s + 1) * (s + 1),
            ;
        }
    } else {
        assert(r * r <= v && v < (r + 1) * (r + 1)) by (nonlinear_arith)
            requires
                r == 0,
                v == 0,
        ;
    }
}

/// Every interval has its two ends: `ceil(c - sqrt(r))` and
/// `floor(c + sqrt(r))` exist for `r >= 0`.
pub proof fn lemma_ends_exist(c: real, r: real)
    requires
        r >= 0real,
    ensures
        is_lower_end(lower_end(c, r), c, r),
        is_upper_end(upper_end(c, r), c, r),
{
    let fl = r.floor();
    let s = integer_root(fl as nat) as int;
    lemma_integer_root(fl as nat);
    let sr = s as real;
    assert(sr * sr == (s * s) as real) by (nonlinear_arith)
        requires
            sr == s as real,
    ;
    assert((sr + 1real) * (sr + 1real) == ((s + 1) * (s + 1)) as real) by (nonlinear_arith)
        requires
            sr == s as real,
    ;
    let f = c.floor();
    let a = f as real - c;
    let u = (f + s) as real - c;
    let v = (f + s + 1) as real - c;
    assert(u == sr + a);
    assert(v == sr + a + 1real);
    if in_slice(f + s + 1, c, r) {
        assert((v + 1real) * (v + 1real) > r) by (nonlinear_arith)
            requires
                v + 1real > sr + 1real,
                sr >= 0real,
                r < (sr + 1real) * (sr + 1real),
        ;
        assert(is_upper_end(f + s + 1, c, r));
    } else {
        assert(u <= 0real || u * u <= r) by (nonlinear_arith)
            requires
                u <= sr,
                sr >= 0real,
                sr * sr <= r,
        ;
        assert(is_upper_end(f + s, c, r));
    }
    let g = if f as real == c {
        f
    } else {
        f + 1
    };
    let p = c - (g - s) as real;
    let q = c - (g - s - 1) as real;
    assert(q == p + 1real);
    let d = (g - s - 1) as real - c;
    assert(d * d == q * q) by (nonlinear_arith)
        requires
            d == -q,
    ;
    if in_slice(g - s - 1, c, r) {
        assert((q + 1real) * (q + 1real) > r) by (nonlinear_arith)
            requires
                q + 1real > sr + 1real,
                sr >= 0real,
                r < (sr + 1real) * (sr + 1real),
        ;
        assert(is_lower_end(g - s - 1, c, r));
    } else {
        assert(p <= 0real || p * p <= r) by (nonlinear_arith)
            requires
                p <= sr,
                sr >= 0real,
                sr * sr <= r,
        ;
        assert(is_lower_end(g - s, c, r));
    }
}

/// The squared radius of an interval is not negative.
pub proof fn lemma_radius_nonnegative(
    b: Seq<Seq<real>>,
    m: nat,
    fixed: Seq<int>,
    y: Seq<real>,
    budget: real,
)
    requires
        frame_ready(b, m),
        fixed.len() < b.len(),
    ensures
        slice_radius_sq(b, fixed, y, budget) >= 0real,
{
    let i = slice_index(b, fixed);
    lemma_squared_length_positive(b, m, i);
    let g = magnitude(budget - fixed_cost(b, padded(fixed, b.len()), y, i));
    let bv = squared_length(b, i);
    assert(g / bv >= 0real) by (nonlinear_arith)
        requires
            g >= 0real,
            bv > 0real,
    ;
}

/// The bound is sound: a point within the budget has, at the next index, a
/// coefficient inside the interval of the coefficients above it.
pub proof fn lemma_point_within_budget_is_in_slice(
    b: Seq<Seq<real>>,
    m: nat,
    t: Seq<real>,
    fixed: Seq<int>,
    budget: real,
    x: Seq<int>,
)
    requires
        frame_ready(b, m),
        t.len() == m,
        fixed.len() < b.len(),
        extends(x, fixed, b.len()),
        dist_sq(lattice_point(b, x, m), t) <= budget,
    ensures
        in_slice(
            x[slice_index(b, fixed)],
            slice_center(b, fixed, target_coordinates(b, t)),
            slice_radius_sq(b, fixed, target_coordinates(b, t), budget),
        ),
{
    let n = b.len();
    let i = slice_index(b, fixed);
    let y = target_coordinates(b, t);
    let w = padded(fixed, n);
    assert(agree_from(x, w, i + 1));
    lemma_distance_bounds_cost(b, m, x, t, i);
    lemma_partial_cost_split(b, x, y, i, i + 1, n as int);
    assert(partial_cost(b, x, y, i, i) == 0real);
    lemma_partial_cost_agrees(b, x, w, y, i + 1, n as int);
    lemma_partial_cost_nonnegative(b, m, w, y, i + 1, n as int);
    lemma_frame_coordinate_split(b, m, x, i);
    lemma_coordinate_sum_agrees(b, x, w, i, i + 1, n as int);
    lemma_squared_length_positive(b, m, i);
    let k = x[i] as real;
    let off = offset(b, w, i);
    let sum = fixed_cost(b, w, y, i);
    let bv = squared_length(b, i);
    let c = y[i] - off;
    let z = frame_coordinate(b, x, i);
    assert(z == k + off);
    assert((z - y[i]) * (z - y[i]) * bv + sum <= budget);
    assert((k - c) * (k - c) <= (budget - sum) / bv) by (nonlinear_arith)
        requires
            (z - y[i]) * (z - y[i]) * bv + sum <= budget,
            z - y[i] == k - c,
            bv > 0real,
    ;
    assert(budget - sum >= 0real) by (nonlinear_arith)
        requires
            (z - y[i]) * (z - y[i]) * bv + sum <= budget,
            bv > 0real,
    ;
}

/// A part of the search never ends with a farther point than it began with.
pub proof fn lemma_explore_improves(
    b: Seq<Seq<real>>,
    m: nat,
    t: Seq<real>,
    fixed: Seq<int>,
    best: Seq<int>,
    cost: real,
)
    ensures
        explore(b, m, t, fixed, best, cost).cost <= cost,
    decreases b.len() - fixed.len(), 1int, 0int,
{
    if fixed.len() < b.len() {
        let y = target_coordinates(b, t);
        let c = slice_center(b, fixed, y);
        let r = slice_radius_sq(b, fixed, y, cost);
        lemma_sweep_improves(b, m, t, fixed, lower_end(c, r), upper_end(c, r), best, cost);
    }
}

/// A walk over an interval never ends with a farther point than it began
/// with.
pub proof fn lemma_sweep_improves(
    b: Seq<Seq<real>>,
    m: nat,
    t: Seq<real>,
    fixed: Seq<int>,
    k: int,
    hi: int,
    best: Seq<int>,
    cost: real,
)
    ensures
        sweep(b, m, t, fixed, k, hi, best, cost).cost <= cost,
    decreases b.len() - fixed.len(), 0int, hi - k + 1,
{
    if !(k > hi || fixed.len() >= b.len()) {
        let first = explore(b, m, t, seq![k] + fixed, best, cost);
        lemma_explore_improves(b, m, t, seq![k] + fixed, best, cost);
        lemma_sweep_improves(b, m, t, fixed, k + 1, hi, first.best, first.cost);
    }
}

/// What the search knows stays true: if `cost` is the squared distance of the
/// point with the coefficients `best`, then so it is after a part of the
/// search.
pub proof fn lemma_explore_keeps_a_point(
    b: Seq<Seq<real>>,
    m: nat,
    t: Seq<real>,
    fixed: Seq<int>,
    best: Seq<int>,
    cost: real,
)
    requires
        fixed.len() <= b.len(),
        best.len() == b.len(),
        cost == dist_sq(lattice_point(b, best, m), t),
    ensures
        explore(b, m, t, fixed, best, cost).best.len() == b.len(),
        explore(b, m, t, fixed, best, cost).cost == dist_sq(
            lattice_point(b, explore(b, m, t, fixed, best, cost).best, m),
            t,
        ),
    decreases b.len() - fixed.len(), 1int, 0int,
{
    if fixed.len() < b.len() {
        let y = target_coordinates(b, t);
        let c = slice_center(b, fixed, y);
        let r = slice_radius_sq(b, fixed, y, cost);
        lemma_sweep_keeps_a_point(b, m, t, fixed, lower_end(c, r), upper_end(c, r), best, cost);
    }
}

/// As `lemma_explore_keeps_a_point`, for a walk over an interval.
pub proof fn lemma_sweep_keeps_a_point(
    b: Seq<Seq<real>>,
    m: nat,
    t: Seq<real>,
    fixed: Seq<int>,
    k: int,
    hi: int,
    best: Seq<int>,
    cost: real,
)
    requires
        fixed.len() <= b.len(),
        best.len() == b.len(),
        cost == dist_sq(lattice_point(b, best, m), t),
    ensures
        sweep(b, m, t, fixed, k, hi, best, cost).best.len() == b.len(),
        sweep(b, m, t, fixed, k, hi, best, cost).cost == dist_sq(
            lattice_point(b, sweep(b, m, t, fixed, k, hi, best, cost).best, m),
            t,
        ),
    decreases b.len() - fixed.len(), 0int, hi - k + 1,
{
    if !(k > hi || fixed.len() >= b.len()) {
        let first = explore(b, m, t, seq![k] + fixed, best, cost);
        lemma_explore_keeps_a_point(b, m, t, seq![k] + fixed, best, cost);
        lemma_sweep_keeps_a_point(b, m, t, fixed, k + 1, hi, first.best, first.cost);
    }
}

/// A part of the search ends with a point that is at least as near as every
/// lattice point whose highest coefficients are the fixed ones.
pub proof fn lemma_explore_covers(
    b: Seq<Seq<real>>,
    m: nat,
    t: Seq<real>,
    fixed: Seq<int>,
    best: Seq<int>,
    cost: real,
    x: Seq<int>,
)
    requires
        frame_ready(b, m),
        t.len() == m,
        extends(x, fixed, b.len()),
    ensures
        explore(b, m, t, fixed, best, cost).cost <= dist_sq(lattice_point(b, x, m), t),
    decreases b.len() - fixed.len(), 1int, 0int,
{
    if fixed.len() >= b.len() {
        assert(x =~= fixed);
    } else {
        let i = slice_index(b, fixed);
        let y = target_coordinates(b, t);
        let c = slice_center(b, fixed, y);
        let r = slice_radius_sq(b, fixed, y, cost);
        let lo = lower_end(c, r);
        let hi = upper_end(c, r);
        lemma_radius_nonnegative(b, m, fixed, y, cost);
        lemma_ends_exist(c, r);
        lemma_ends_enclose_slice(lo, hi, c, r, x[i]);
        if lo <= x[i] <= hi {
            lemma_sweep_covers(b, m, t, fixed, lo, hi, best, cost, x);
        } else {
            lemma_sweep_improves(b, m, t, fixed, lo, hi, best, cost);
            if dist_sq(lattice_point(b, x, m), t) <= cost {
                lemma_point_within_budget_is_in_slice(b, m, t, fixed, cost, x);
            }
        }
    }
}

/// A walk over an interval ends with a point that is at least as near as
/// every lattice point whose highest coefficients are the fixed ones and
/// whose next coefficient is in the interval.
pub proof fn lemma_sweep_covers(
    b: Seq<Seq<real>>,
    m: nat,
    t: Seq<real>,
    fixed: Seq<int>,
    k: int,
    hi: int,
    best: Seq<int>,
    cost: real,
    x: Seq<int>,
)
    requires
        frame_ready(b, m),
        t.len() == m,
        fixed.len() < b.len(),
        extends(x, fixed, b.len()),
        k <= x[slice_index(b, fixed)] <= hi,
    ensures
        sweep(b, m, t, fixed, k, hi, best, cost).cost <= dist_sq(lattice_point(b, x, m), t),
    decreases b.len() - fixed.len(), 0int, hi - k + 1,
{
    let i = slice_index(b, fixed);
    let first = explore(b, m, t, seq![k] + fixed, best, cost);
    if x[i] == k {
        assert(extends(x, seq![k] + fixed, b.len())) by {
            let longer = seq![k] + fixed;
            assert forall|l: int| 0 <= l < longer.len() implies x[b.len() - longer.len() + l]
                == longer[l] by {
                if l > 0 {
                    assert(longer[l] == fixed[l - 1]);
                    assert(x[b.len() - fixed.len() + (l - 1)] == fixed[l - 1]);
                }
            }
        }
        lemma_explore_covers(b, m, t, seq![k] + fixed, best, cost, x);
        lemma_sweep_improves(b, m, t, fixed, k + 1, hi, first.best, first.cost);
    } else {
        lemma_sweep_covers(b, m, t, fixed, k + 1, hi, first.best, first.cost, x);
    }
}

/// The lattice point with the coefficients one, zero, ..., zero is the first
/// basis vector.
pub proof fn lemma_unit_point(b: Seq<Seq<real>>, m: nat, k: int)
    requires
        forall|i: int| 0 <= i < b.len() ==> (#[trigger] b[i]).len() == m,
        1 <= k <= b.len(),
    ensures
        combination(b, unit_coefficients(b.len()), m, k) == b[0],
    decreases k,
{
    let e = unit_coefficients(b.len());
    if k == 1 {
        let z = combination(b, e, m, 0);
        let s = scaled(1real, b[0]);
        assert forall|i: int| 0 <= i < m implies 0real + 1real * #[trigger] b[0][i] == b[0][i] by {
            let a = b[0][i];
            assert(0real + 1real * a == a) by (nonlinear_arith);
        }
        assert(plus(z, s) =~= b[0]);
    } else {
        lemma_unit_point(b, m, k - 1);
        let prev = combination(b, e, m, k - 1);
        let s = scaled(0real, b[k - 1]);
        assert forall|i: int| 0 <= i < m implies prev[i] + 0real * #[trigger] b[k - 1][i]
            == prev[i] by {
            let a = b[k - 1][i];
            assert(0real * a == 0real) by (nonlinear_arith);
        }
        assert(plus(prev, s) =~= b[0]);
    }
}

/// The search returns a lattice point, and the cost it returns is that
/// point's squared distance to the target.
pub proof fn lemma_closest_is_a_point(b: Seq<Seq<real>>, m: nat, t: Seq<real>)
    requires
        frame_ready(b, m),
        b.len() >= 1,
    ensures
        closest(b, m, t).best.len() == b.len(),
        closest(b, m, t).cost == dist_sq(lattice_point(b, closest(b, m, t).best, m), t),
{
    lemma_unit_point(b, m, b.len() as int);
    lemma_explore_keeps_a_point(
        b,
        m,
        t,
        Seq::empty(),
        unit_coefficients(b.len()),
        dist_sq(b[0], t),
    );
}

/// The search is exact: no lattice point is nearer to the target than the one
/// it returns.
pub proof fn lemma_closest_is_nearest(b: Seq<Seq<real>>, m: nat, t: Seq<real>, x: Seq<int>)
    requires
        frame_ready(b, m),
        b.len() >= 1,
        t.len() == m,
        x.len() == b.len(),
    ensures
        closest(b, m, t).cost <= dist_sq(lattice_point(b, x, m), t),
{
    lemma_explore_covers(
        b,
        m,
        t,
        Seq::empty(),
        unit_coefficients(b.len()),
        dist_sq(b[0], t),
        x,
    );
}

} // verus!
