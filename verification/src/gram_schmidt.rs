//! The Gram-Schmidt frame of a basis, as mathematics: its definition and the
//! facts about it on which the search rests (the frame is orthogonal, a
//! lattice point has the coordinates that the `mu` table gives, and no
//! vector is shorter than its part inside the frame).

use crate::vector::{
    dot, lemma_dot_minus, lemma_dot_plus, lemma_dot_scaled, lemma_dot_symmetric,
    lemma_norm_nonnegative, minus, norm_sq, plus, scaled,
};
use vstd::prelude::*;

verus! {

/// Every vector of `b` has `m` coordinates.
pub open spec fn well_shaped(b: Seq<Seq<real>>, m: nat) -> bool {
    forall|i: int| 0 <= i < b.len() ==> (#[trigger] b[i]).len() == m
}

/// `<u, w> / <w, w>`: the multiple of `w` that is the projection of `u` onto
/// `w`.
pub open spec fn projection_coefficient(u: Seq<real>, w: Seq<real>) -> real {
    dot(u, w) / norm_sq(w)
}

/// `u` without its projections onto the first `k` Gram-Schmidt vectors.
pub open spec fn remainder(b: Seq<Seq<real>>, u: Seq<real>, k: int) -> Seq<real>
    decreases k, 0int,
{
    if k <= 0 {
        u
    } else {
        let g = gram_schmidt_vector(b, k - 1);
        minus(remainder(b, u, k - 1), scaled(projection_coefficient(u, g), g))
    }
}

/// The Gram-Schmidt vector `b*_i`: `b_i` without its projections onto the
/// Gram-Schmidt vectors before it.
pub open spec fn gram_schmidt_vector(b: Seq<Seq<real>>, i: int) -> Seq<real>
    decreases i, 1int,
{
    remainder(b, b[i], i)
}

/// `B_i = <b*_i, b*_i>`.
pub open spec fn squared_length(b: Seq<Seq<real>>, i: int) -> real {
    norm_sq(gram_schmidt_vector(b, i))
}

/// `mu[i][j] = <b_i, b*_j> / B_j`.
pub open spec fn mu(b: Seq<Seq<real>>, i: int, j: int) -> real {
    projection_coefficient(b[i], gram_schmidt_vector(b, j))
}

/// No Gram-Schmidt vector of `b` is zero; this is so exactly when the
/// vectors of `b` are linearly independent.
pub open spec fn nondegenerate(b: Seq<Seq<real>>) -> bool {
    forall|i: int| 0 <= i < b.len() ==> #[trigger] squared_length(b, i) != 0real
}

/// A basis as the search needs it: vectors of one length, none of them in
/// the span of those before it.
pub open spec fn frame_ready(b: Seq<Seq<real>>, m: nat) -> bool {
    well_shaped(b, m) && nondegenerate(b)
}

/// Taking projections out of a vector leaves its length as it is.
pub proof fn lemma_remainder_len(b: Seq<Seq<real>>, u: Seq<real>, k: int)
    ensures
        remainder(b, u, k).len() == u.len(),
    decreases k,
{
    if k > 0 {
        lemma_remainder_len(b, u, k - 1);
    }
}

/// A Gram-Schmidt vector has as many coordinates as the basis vectors.
pub proof fn lemma_gram_schmidt_len(b: Seq<Seq<real>>, m: nat, i: int)
    requires
        well_shaped(b, m),
        0 <= i < b.len(),
    ensures
        gram_schmidt_vector(b, i).len() == m,
{
    lemma_remainder_len(b, b[i], i);
}

/// `<a - c w, v> = <a, v> - c <w, v>`.
pub proof fn lemma_dot_minus_scaled(a: Seq<real>, c: real, w: Seq<real>, v: Seq<real>)
    requires
        a.len() == w.len(),
    ensures
        dot(minus(a, scaled(c, w)), v) == dot(a, v) - c * dot(w, v),
{
    let m = a.len() as int;
    lemma_dot_minus(a, scaled(c, w), v, m);
    lemma_dot_scaled(c, w, v, m);
}

/// `<a + c w, v> = <a, v> + c <w, v>`.
pub proof fn lemma_dot_plus_scaled(a: Seq<real>, c: real, w: Seq<real>, v: Seq<real>)
    requires
        a.len() == w.len(),
    ensures
        dot(plus(a, scaled(c, w)), v) == dot(a, v) + c * dot(w, v),
{
    let m = a.len() as int;
    lemma_dot_plus(a, scaled(c, w), v, m);
    lemma_dot_scaled(c, w, v, m);
}

/// `<u, v> = <v, u>`.
pub proof fn lemma_dot_commutes(u: Seq<real>, v: Seq<real>)
    requires
        u.len() == v.len(),
    ensures
        dot(u, v) == dot(v, u),
{
    lemma_dot_symmetric(u, v, u.len() as int);
}

/// `|r - c g|^2 = |r|^2 - 2 c <r, g> + c^2 |g|^2`.
pub proof fn lemma_norm_minus_scaled(r: Seq<real>, c: real, g: Seq<real>)
    requires
        r.len() == g.len(),
    ensures
        norm_sq(minus(r, scaled(c, g))) == norm_sq(r) - (2real * c) * dot(r, g) + (c * c) * norm_sq(
            g,
        ),
{
    let d = minus(r, scaled(c, g));
    lemma_dot_minus_scaled(r, c, g, d);
    lemma_dot_commutes(r, d);
    lemma_dot_commutes(g, d);
    lemma_dot_minus_scaled(r, c, g, r);
    lemma_dot_minus_scaled(r, c, g, g);
    lemma_dot_commutes(g, r);
    let rr = dot(r, r);
    let rg = dot(r, g);
    let gg = dot(g, g);
    assert((rr - c * rg) - c * (rg - c * gg) == rr - (2real * c) * rg + (c * c) * gg)
        by (nonlinear_arith);
}

/// The inner product of a remainder with a Gram-Schmidt vector: zero where
/// that vector's part was taken out, and untouched elsewhere.
pub proof fn lemma_remainder_dot(b: Seq<Seq<real>>, m: nat, u: Seq<real>, k: int, j: int)
    requires
        frame_ready(b, m),
        u.len() == m,
        0 <= k <= b.len(),
        0 <= j < b.len(),
    ensures
        dot(remainder(b, u, k), gram_schmidt_vector(b, j)) == (if j < k {
            0real
        } else {
            dot(u, gram_schmidt_vector(b, j))
        }),
    decreases (if k > j + 1 { k } else { j + 1 }), 0int, k,
{
    if k > 0 {
        let r = remainder(b, u, k - 1);
        let g = gram_schmidt_vector(b, k - 1);
        let v = gram_schmidt_vector(b, j);
        let c = projection_coefficient(u, g);
        lemma_remainder_dot(b, m, u, k - 1, j);
        lemma_remainder_len(b, u, k - 1);
        lemma_gram_schmidt_len(b, m, k - 1);
        lemma_gram_schmidt_len(b, m, j);
        lemma_dot_minus_scaled(r, c, g, v);
        if j == k - 1 {
            let bg = squared_length(b, j);
            let x = dot(u, g);
            assert((x / bg) * bg == x) by (nonlinear_arith)
                requires
                    bg != 0real,
            ;
        } else {
            lemma_orthogonal(b, m, k - 1, j);
            assert(c * 0real == 0real) by (nonlinear_arith);
        }
    }
}

/// Two different Gram-Schmidt vectors are orthogonal.
pub proof fn lemma_orthogonal(b: Seq<Seq<real>>, m: nat, i: int, j: int)
    requires
        frame_ready(b, m),
        0 <= i < b.len(),
        0 <= j < b.len(),
        i != j,
    ensures
        dot(gram_schmidt_vector(b, i), gram_schmidt_vector(b, j)) == 0real,
    decreases (if i > j { i } else { j }), 1int, 0int,
{
    lemma_gram_schmidt_len(b, m, i);
    lemma_gram_schmidt_len(b, m, j);
    if j < i {
        lemma_remainder_dot(b, m, b[i], i, j);
    } else {
        lemma_remainder_dot(b, m, b[j], j, i);
        lemma_dot_commutes(gram_schmidt_vector(b, i), gram_schmidt_vector(b, j));
    }
}

/// `<b_i, b*_j> = mu[i][j] B_j`.
pub proof fn lemma_basis_dot_frame(b: Seq<Seq<real>>, m: nat, i: int, j: int)
    requires
        frame_ready(b, m),
        0 <= i < b.len(),
        0 <= j < b.len(),
    ensures
        dot(b[i], gram_schmidt_vector(b, j)) == mu(b, i, j) * squared_length(b, j),
{
    let bg = squared_length(b, j);
    let x = dot(b[i], gram_schmidt_vector(b, j));
    assert((x / bg) * bg == x) by (nonlinear_arith)
        requires
            bg != 0real,
    ;
}

/// The `mu` table is unit lower triangular: `mu[i][i] = 1`, and
/// `mu[i][j] = 0` for `i < j`.
pub proof fn lemma_mu_triangular(b: Seq<Seq<real>>, m: nat, i: int, j: int)
    requires
        frame_ready(b, m),
        0 <= i <= j < b.len(),
    ensures
        i == j ==> mu(b, i, j) == 1real,
        i < j ==> mu(b, i, j) == 0real,
{
    lemma_remainder_dot(b, m, b[i], i, j);
    let bg = squared_length(b, j);
    if i == j {
        assert(bg / bg == 1real) by (nonlinear_arith)
            requires
                bg != 0real,
        ;
    } else {
        lemma_orthogonal(b, m, i, j);
        assert(0real / bg == 0real) by (nonlinear_arith)
            requires
                bg != 0real,
        ;
    }
}

/// A Gram-Schmidt vector of a ready basis has a positive squared length.
pub proof fn lemma_squared_length_positive(b: Seq<Seq<real>>, m: nat, i: int)
    requires
        frame_ready(b, m),
        0 <= i < b.len(),
    ensures
        squared_length(b, i) > 0real,
{
    let g = gram_schmidt_vector(b, i);
    lemma_norm_nonnegative(g, g.len() as int);
}

} // verus!
