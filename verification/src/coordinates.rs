//! Lattice points and their coordinates in the Gram-Schmidt frame, as
//! mathematics. The main fact is `lemma_distance_bounds_cost`: the squared
//! distance from a lattice point to the target is at least the cost that the
//! point's highest coefficients already fix. The pruning of the search is
//! sound because of it.

use crate::gram_schmidt::{
    frame_ready, gram_schmidt_vector, lemma_basis_dot_frame, lemma_dot_plus_scaled,
    lemma_gram_schmidt_len, lemma_mu_triangular, lemma_norm_minus_scaled, lemma_remainder_dot,
    lemma_remainder_len, lemma_squared_length_positive, mu, projection_coefficient, remainder,
    squared_length,
};
use crate::vector::{
    dist_sq, dot, dot_prefix, lemma_dot_minus, lemma_norm_nonnegative, minus, norm_sq, plus, scaled,
    zero_vector,
};
use vstd::prelude::*;

verus! {

/// `x_0 b_0 + ... + x_(k-1) b_(k-1)`, in `m` coordinates.
pub open spec fn combination(b: Seq<Seq<real>>, x: Seq<int>, m: nat, k: int) -> Seq<real>
    decreases k,
{
    if k <= 0 {
        zero_vector(m)
    } else {
        plus(combination(b, x, m, k - 1), scaled(x[k - 1] as real, b[k - 1]))
    }
}

/// The lattice point with the coefficients `x`: the sum of all `x_i b_i`.
pub open spec fn lattice_point(b: Seq<Seq<real>>, x: Seq<int>, m: nat) -> Seq<real> {
    combination(b, x, m, b.len() as int)
}

/// `x_from mu[from][j] + ... + x_(k-1) mu[k-1][j]`.
pub open spec fn coordinate_sum(b: Seq<Seq<real>>, x: Seq<int>, j: int, from: int, k: int) -> real
    decreases k - from,
{
    if k <= from {
        0real
    } else {
        coordinate_sum(b, x, j, from, k - 1) + (x[k - 1] as real) * mu(b, k - 1, j)
    }
}

/// `z_j`: the coordinate along `b*_j` of the lattice point with the
/// coefficients `x`. Only the coefficients from `j` upwards enter it.
pub open spec fn frame_coordinate(b: Seq<Seq<real>>, x: Seq<int>, j: int) -> real {
    coordinate_sum(b, x, j, j, b.len() as int)
}

/// `N_i`: what the coefficients above `i` add to the coordinate along
/// `b*_i`.
pub open spec fn offset(b: Seq<Seq<real>>, x: Seq<int>, i: int) -> real {
    coordinate_sum(b, x, i, i + 1, b.len() as int)
}

/// `y_j`: the coordinate of the target `t` along `b*_j`.
pub open spec fn target_coordinate(b: Seq<Seq<real>>, t: Seq<real>, j: int) -> real {
    projection_coefficient(t, gram_schmidt_vector(b, j))
}

/// The coordinates of the target `t` in the Gram-Schmidt frame of `b`.
pub open spec fn target_coordinates(b: Seq<Seq<real>>, t: Seq<real>) -> Seq<real> {
    Seq::new(b.len(), |j: int| target_coordinate(b, t, j))
}

/// `(z_j - y_j)^2 B_j`: what the direction `b*_j` adds to the squared
/// distance between a point with frame coordinate `z` and a target with
/// frame coordinate `y`.
pub open spec fn direction_cost(z: real, y: real, bj: real) -> real {
    (z - y) * (z - y) * bj
}

/// The cost of the directions `from .. k`, for the coefficients `x` and a
/// target with the frame coordinates `y`.
pub open spec fn partial_cost(
    b: Seq<Seq<real>>,
    x: Seq<int>,
    y: Seq<real>,
    from: int,
    k: int,
) -> real
    decreases k - from,
{
    if k <= from {
        0real
    } else {
        partial_cost(b, x, y, from, k - 1) + direction_cost(
            frame_coordinate(b, x, k - 1),
            y[k - 1],
            squared_length(b, k - 1),
        )
    }
}

/// The cost that the coefficients above `i` fix: the `sum` of the bound
/// formula.
pub open spec fn fixed_cost(b: Seq<Seq<real>>, x: Seq<int>, y: Seq<real>, i: int) -> real {
    partial_cost(b, x, y, i + 1, b.len() as int)
}

/// `x` and `w` have the same coefficients from `i` upwards.
pub open spec fn agree_from(x: Seq<int>, w: Seq<int>, i: int) -> bool {
    x.len() == w.len() && forall|l: int| i <= l < x.len() ==> x[l] == w[l]
}

/// A combination of basis vectors has `m` coordinates.
pub proof fn lemma_combination_len(b: Seq<Seq<real>>, x: Seq<int>, m: nat, k: int)
    ensures
        combination(b, x, m, k).len() == m,
    decreases k,
{
    if k > 0 {
        lemma_combination_len(b, x, m, k - 1);
    }
}

/// `<0, v> = 0`.
pub proof fn lemma_dot_zero(m: nat, v: Seq<real>, k: int)
    requires
        k <= m,
    ensures
        dot_prefix(zero_vector(m), v, k) == 0real,
    decreases k,
{
    if k > 0 {
        lemma_dot_zero(m, v, k - 1);
        let a = v[k - 1];
        assert(0real * a == 0real) by (nonlinear_arith);
    }
}

/// A sum of `mu` terms splits off its first term.
pub proof fn lemma_coordinate_sum_first(b: Seq<Seq<real>>, x: Seq<int>, j: int, from: int, k: int)
    requires
        from < k,
    ensures
        coordinate_sum(b, x, j, from, k) == (x[from] as real) * mu(b, from, j) + coordinate_sum(
            b,
            x,
            j,
            from + 1,
            k,
        ),
    decreases k - from,
{
    if k > from + 1 {
        lemma_coordinate_sum_first(b, x, j, from, k - 1);
    } else {
        assert(coordinate_sum(b, x, j, from, k - 1) == 0real);
        assert(coordinate_sum(b, x, j, from + 1, k) == 0real);
    }
}

/// `z_i = x_i + N_i`.
pub proof fn lemma_frame_coordinate_split(b: Seq<Seq<real>>, m: nat, x: Seq<int>, i: int)
    requires
        frame_ready(b, m),
        0 <= i < b.len(),
    ensures
        frame_coordinate(b, x, i) == (x[i] as real) + offset(b, x, i),
{
    lemma_coordinate_sum_first(b, x, i, i, b.len() as int);
    lemma_mu_triangular(b, m, i, i);
    let a = x[i] as real;
    assert(a * 1real == a) by (nonlinear_arith);
}

/// A sum of `mu` terms reads only the coefficients in its range.
pub proof fn lemma_coordinate_sum_agrees(
    b: Seq<Seq<real>>,
    x: Seq<int>,
    w: Seq<int>,
    j: int,
    from: int,
    k: int,
)
    requires
        forall|l: int| from <= l < k ==> x[l] == w[l],
    ensures
        coordinate_sum(b, x, j, from, k) == coordinate_sum(b, w, j, from, k),
    decreases k - from,
{
    if k > from {
        lemma_coordinate_sum_agrees(b, x, w, j, from, k - 1);
    }
}

/// The cost of a range of directions reads only the coefficients from the
/// start of the range upwards.
pub proof fn lemma_partial_cost_agrees(
    b: Seq<Seq<real>>,
    x: Seq<int>,
    w: Seq<int>,
    y: Seq<real>,
    from: int,
    k: int,
)
    requires
        agree_from(x, w, from),
        x.len() == b.len(),
        k <= b.len(),
    ensures
        partial_cost(b, x, y, from, k) == partial_cost(b, w, y, from, k),
    decreases k - from,
{
    if k > from {
        lemma_partial_cost_agrees(b, x, w, y, from, k - 1);
        lemma_coordinate_sum_agrees(b, x, w, k - 1, k - 1, b.len() as int);
    }
}

/// `<x_0 b_0 + ... + x_(k-1) b_(k-1), b*_j>` is `B_j` times the sum of the
/// `mu` terms from `j` to `k`.
pub proof fn lemma_combination_dot_frame(
    b: Seq<Seq<real>>,
    m: nat,
    x: Seq<int>,
    k: int,
    j: int,
)
    requires
        frame_ready(b, m),
        0 <= k <= b.len(),
        0 <= j < b.len(),
    ensures
        dot(combination(b, x, m, k), gram_schmidt_vector(b, j)) == coordinate_sum(b, x, j, j, k)
            * squared_length(b, j),
    decreases k,
{
    let g = gram_schmidt_vector(b, j);
    let bg = squared_length(b, j);
    lemma_gram_schmidt_len(b, m, j);
    if k <= 0 {
        lemma_dot_zero(m, g, m as int);
        assert(0real * bg == 0real) by (nonlinear_arith);
    } else {
        let prev = combination(b, x, m, k - 1);
        let c = x[k - 1] as real;
        lemma_combination_dot_frame(b, m, x, k - 1, j);
        lemma_combination_len(b, x, m, k - 1);
        lemma_dot_plus_scaled(prev, c, b[k - 1], g);
        lemma_basis_dot_frame(b, m, k - 1, j);
        let s = coordinate_sum(b, x, j, j, k - 1);
        let e = mu(b, k - 1, j);
        if k - 1 < j {
            lemma_mu_triangular(b, m, k - 1, j);
            assert(s * bg + c * (0real * bg) == 0real * bg) by (nonlinear_arith)
                requires
                    s == 0real,
            ;
        } else {
            assert(s * bg + c * (e * bg) == (s + c * e) * bg) by (nonlinear_arith);
        }
    }
}

/// `<p - t, b*_j> = (z_j - y_j) B_j` for the lattice point `p` with the
/// coefficients `x`.
pub proof fn lemma_difference_dot_frame(
    b: Seq<Seq<real>>,
    m: nat,
    x: Seq<int>,
    t: Seq<real>,
    j: int,
)
    requires
        frame_ready(b, m),
        t.len() == m,
        0 <= j < b.len(),
    ensures
        projection_coefficient(minus(lattice_point(b, x, m), t), gram_schmidt_vector(b, j))
            == frame_coordinate(b, x, j) - target_coordinate(b, t, j),
{
    let p = lattice_point(b, x, m);
    let g = gram_schmidt_vector(b, j);
    let bg = squared_length(b, j);
    lemma_combination_len(b, x, m, b.len() as int);
    lemma_combination_dot_frame(b, m, x, b.len() as int, j);
    lemma_dot_minus(p, t, g, m as int);
    let z = frame_coordinate(b, x, j);
    let d = dot(t, g);
    assert((z * bg - d) / bg == z - d / bg) by (nonlinear_arith)
        requires
            bg != 0real,
    ;
}

/// The squared length of `u` inside the span of the first `k` Gram-Schmidt
/// vectors.
pub open spec fn frame_energy(b: Seq<Seq<real>>, u: Seq<real>, k: int) -> real
    decreases k,
{
    if k <= 0 {
        0real
    } else {
        frame_energy(b, u, k - 1) + direction_cost(
            projection_coefficient(u, gram_schmidt_vector(b, k - 1)),
            0real,
            squared_length(b, k - 1),
        )
    }
}

/// Taking the projections onto the first `k` Gram-Schmidt vectors out of `u`
/// takes exactly their energy out of its squared length.
pub proof fn lemma_remainder_norm(b: Seq<Seq<real>>, m: nat, u: Seq<real>, k: int)
    requires
        frame_ready(b, m),
        u.len() == m,
        0 <= k <= b.len(),
    ensures
        norm_sq(remainder(b, u, k)) == norm_sq(u) - frame_energy(b, u, k),
    decreases k,
{
    if k > 0 {
        let r = remainder(b, u, k - 1);
        let g = gram_schmidt_vector(b, k - 1);
        let c = projection_coefficient(u, g);
        let bg = squared_length(b, k - 1);
        lemma_remainder_norm(b, m, u, k - 1);
        lemma_remainder_len(b, u, k - 1);
        lemma_gram_schmidt_len(b, m, k - 1);
        lemma_norm_minus_scaled(r, c, g);
        lemma_remainder_dot(b, m, u, k - 1, k - 1);
        let x = dot(u, g);
        assert((x / bg) * bg == x) by (nonlinear_arith)
            requires
                bg != 0real,
        ;
        let nr = norm_sq(r);
        assert(nr - (2real * c) * (c * bg) + (c * c) * bg == nr - (c - 0real) * (c - 0real) * bg)
            by (nonlinear_arith);
    }
}

/// The cost of a range of directions is not negative.
pub proof fn lemma_partial_cost_nonnegative(
    b: Seq<Seq<real>>,
    m: nat,
    x: Seq<int>,
    y: Seq<real>,
    from: int,
    k: int,
)
    requires
        frame_ready(b, m),
        0 <= from,
        k <= b.len(),
    ensures
        partial_cost(b, x, y, from, k) >= 0real,
    decreases k - from,
{
    if k > from {
        lemma_partial_cost_nonnegative(b, m, x, y, from, k - 1);
        lemma_squared_length_positive(b, m, k - 1);
        let d = frame_coordinate(b, x, k - 1) - y[k - 1];
        let bg = squared_length(b, k - 1);
        assert(d * d * bg >= 0real) by (nonlinear_arith)
            requires
                bg > 0real,
        ;
    }
}

/// A range of directions costs what its two parts cost.
pub proof fn lemma_partial_cost_split(
    b: Seq<Seq<real>>,
    x: Seq<int>,
    y: Seq<real>,
    from: int,
    mid: int,
    k: int,
)
    requires
        from <= mid <= k,
    ensures
        partial_cost(b, x, y, from, k) == partial_cost(b, x, y, from, mid) + partial_cost(
            b,
            x,
            y,
            mid,
            k,
        ),
    decreases k - mid,
{
    if k > mid {
        lemma_partial_cost_split(b, x, y, from, mid, k - 1);
    }
}

/// The cost of the first `k` directions is the energy of `p - t` in them.
pub proof fn lemma_cost_is_energy(b: Seq<Seq<real>>, m: nat, x: Seq<int>, t: Seq<real>, k: int)
    requires
        frame_ready(b, m),
        t.len() == m,
        0 <= k <= b.len(),
    ensures
        partial_cost(b, x, target_coordinates(b, t), 0, k) == frame_energy(
            b,
            minus(lattice_point(b, x, m), t),
            k,
        ),
    decreases k,
{
    if k > 0 {
        lemma_cost_is_energy(b, m, x, t, k - 1);
        lemma_difference_dot_frame(b, m, x, t, k - 1);
        let z = frame_coordinate(b, x, k - 1);
        let yk = target_coordinate(b, t, k - 1);
        let bg = squared_length(b, k - 1);
        assert(((z - yk) - 0real) * ((z - yk) - 0real) * bg == (z - yk) * (z - yk) * bg)
            by (nonlinear_arith);
    }
}

/// The squared distance from the lattice point with the coefficients `x` to
/// the target is at least the cost of the directions from `i` upwards.
pub proof fn lemma_distance_bounds_cost(
    b: Seq<Seq<real>>,
    m: nat,
    x: Seq<int>,
    t: Seq<real>,
    i: int,
)
    requires
        frame_ready(b, m),
        t.len() == m,
        0 <= i <= b.len(),
    ensures
        partial_cost(b, x, target_coordinates(b, t), i, b.len() as int) <= dist_sq(
            lattice_point(b, x, m),
            t,
        ),
{
    let n = b.len() as int;
    let y = target_coordinates(b, t);
    let u = minus(lattice_point(b, x, m), t);
    lemma_combination_len(b, x, m, n);
    lemma_cost_is_energy(b, m, x, t, n);
    lemma_remainder_norm(b, m, u, n);
    let r = remainder(b, u, n);
    lemma_norm_nonnegative(r, r.len() as int);
    lemma_partial_cost_split(b, x, y, 0, i, n);
    lemma_partial_cost_nonnegative(b, m, x, y, 0, i);
}

} // verus!
