//! Vectors of exact numbers: the mathematical operations on sequences of
//! reals, the algebra that the rest of the crate needs of them, and the
//! executable operations on `Vec<Rational>`.

use crate::number::{
    integer_from_i64, rational_add, rational_eq, rational_from_integer, rational_mul, rational_sub,
    rational_value, rational_values,
};
use rug::Rational;
use vstd::prelude::*;

verus! {

/// The sum of the products of the first `k` coordinates of `u` and `v`.
pub open spec fn dot_prefix(u: Seq<real>, v: Seq<real>, k: int) -> real
    decreases k,
{
    if k <= 0 {
        0 as real
    } else {
        dot_prefix(u, v, k - 1) + u[k - 1] * v[k - 1]
    }
}

/// The inner product of two vectors of one length.
pub open spec fn dot(u: Seq<real>, v: Seq<real>) -> real {
    dot_prefix(u, v, u.len() as int)
}

/// The squared Euclidean length of a vector.
pub open spec fn norm_sq(u: Seq<real>) -> real {
    dot(u, u)
}

/// The vector of `m` zeros.
pub open spec fn zero_vector(m: nat) -> Seq<real> {
    Seq::new(m, |i: int| 0 as real)
}

/// The coordinate-wise sum `u + v`.
pub open spec fn plus(u: Seq<real>, v: Seq<real>) -> Seq<real> {
    Seq::new(u.len(), |i: int| u[i] + v[i])
}

/// The coordinate-wise difference `u - v`.
pub open spec fn minus(u: Seq<real>, v: Seq<real>) -> Seq<real> {
    Seq::new(u.len(), |i: int| u[i] - v[i])
}

/// The multiple `c * v`.
pub open spec fn scaled(c: real, v: Seq<real>) -> Seq<real> {
    Seq::new(v.len(), |i: int| c * v[i])
}

/// The squared Euclidean distance between two points.
pub open spec fn dist_sq(u: Seq<real>, v: Seq<real>) -> real {
    norm_sq(minus(u, v))
}

/// `<u, v> = <v, u>`, coordinate by coordinate.
pub proof fn lemma_dot_symmetric(u: Seq<real>, v: Seq<real>, k: int)
    ensures
        dot_prefix(u, v, k) == dot_prefix(v, u, k),
    decreases k,
{
    if k > 0 {
        lemma_dot_symmetric(u, v, k - 1);
        let a = u[k - 1];
        let b = v[k - 1];
        assert(a * b == b * a) by (nonlinear_arith);
    }
}

/// `<u + w, v> = <u, v> + <w, v>`.
pub proof fn lemma_dot_plus(u: Seq<real>, w: Seq<real>, v: Seq<real>, k: int)
    requires
        k <= u.len(),
    ensures
        dot_prefix(plus(u, w), v, k) == dot_prefix(u, v, k) + dot_prefix(w, v, k),
    decreases k,
{
    if k > 0 {
        lemma_dot_plus(u, w, v, k - 1);
        let a = u[k - 1];
        let b = w[k - 1];
        let c = v[k - 1];
        assert((a + b) * c == a * c + b * c) by (nonlinear_arith);
    }
}

/// `<u - w, v> = <u, v> - <w, v>`.
pub proof fn lemma_dot_minus(u: Seq<real>, w: Seq<real>, v: Seq<real>, k: int)
    requires
        k <= u.len(),
    ensures
        dot_prefix(minus(u, w), v, k) == dot_prefix(u, v, k) - dot_prefix(w, v, k),
    decreases k,
{
    if k > 0 {
        lemma_dot_minus(u, w, v, k - 1);
        let a = u[k - 1];
        let b = w[k - 1];
        let c = v[k - 1];
        assert((a - b) * c == a * c - b * c) by (nonlinear_arith);
    }
}

/// `<c u, v> = c <u, v>`.
pub proof fn lemma_dot_scaled(c: real, u: Seq<real>, v: Seq<real>, k: int)
    requires
        k <= u.len(),
    ensures
        dot_prefix(scaled(c, u), v, k) == c * dot_prefix(u, v, k),
    decreases k,
{
    if k > 0 {
        lemma_dot_scaled(c, u, v, k - 1);
        let a = u[k - 1];
        let b = v[k - 1];
        let s = dot_prefix(u, v, k - 1);
        assert(c * s + (c * a) * b == c * (s + a * b)) by (nonlinear_arith);
    } else {
        assert(c * (0 as real) == 0 as real) by (nonlinear_arith);
    }
}

/// A sum of squares is not negative.
pub proof fn lemma_norm_nonnegative(u: Seq<real>, k: int)
    ensures
        dot_prefix(u, u, k) >= 0 as real,
    decreases k,
{
    if k > 0 {
        lemma_norm_nonnegative(u, k - 1);
        let a = u[k - 1];
        assert(a * a >= 0 as real) by (nonlinear_arith);
    }
}

/// The inner product of two vectors of one length.
pub fn dot_product(u: &Vec<Rational>, v: &Vec<Rational>) -> (r: Rational)
    requires
        u.len() == v.len(),
    ensures
        rational_value(r) == dot(rational_values(u@), rational_values(v@)),
{
    let zero = integer_from_i64(0);
    let mut acc = rational_from_integer(&zero);
    let mut i: usize = 0;
    while i < u.len()
        invariant
            i <= u.len(),
            u.len() == v.len(),
            rational_value(acc) == dot_prefix(rational_values(u@), rational_values(v@), i as int),
        decreases u.len() - i,
    {
        let p = rational_mul(&u[i], &v[i]);
        acc = rational_add(&acc, &p);
        i = i + 1;
    }
    acc
}

/// The rational zero.
pub fn rational_zero() -> (r: Rational)
    ensures
        rational_value(r) == 0real,
{
    let zero = integer_from_i64(0);
    rational_from_integer(&zero)
}

/// The rational one.
pub fn rational_one() -> (r: Rational)
    ensures
        rational_value(r) == 1real,
{
    let one = integer_from_i64(1);
    rational_from_integer(&one)
}

/// A copy of `v`.
pub fn copy_vector(v: &Vec<Rational>) -> (r: Vec<Rational>)
    ensures
        rational_values(r@) == rational_values(v@),
{
    let mut r: Vec<Rational> = Vec::new();
    let mut i: usize = 0;
    while i < v.len()
        invariant
            i <= v.len(),
            r.len() == i,
            forall|l: int| 0 <= l < i ==> rational_value(#[trigger] r@[l]) == rational_value(v@[l]),
        decreases v.len() - i,
    {
        r.push(v[i].clone());
        i = i + 1;
    }
    assert(rational_values(r@) =~= rational_values(v@));
    r
}

/// The vector of `m` zeros.
pub fn zeros(m: usize) -> (r: Vec<Rational>)
    ensures
        rational_values(r@) == zero_vector(m as nat),
{
    let mut r: Vec<Rational> = Vec::new();
    let mut i: usize = 0;
    while i < m
        invariant
            i <= m,
            r.len() == i,
            forall|l: int| 0 <= l < i ==> rational_value(#[trigger] r@[l]) == 0real,
        decreases m - i,
    {
        r.push(rational_zero());
        i = i + 1;
    }
    assert(rational_values(r@) =~= zero_vector(m as nat));
    r
}

/// `w + c g`.
pub fn add_scaled(w: &Vec<Rational>, c: &Rational, g: &Vec<Rational>) -> (r: Vec<Rational>)
    requires
        w.len() == g.len(),
    ensures
        rational_values(r@) == plus(
            rational_values(w@),
            scaled(rational_value(*c), rational_values(g@)),
        ),
{
    let mut r: Vec<Rational> = Vec::new();
    let mut i: usize = 0;
    while i < w.len()
        invariant
            i <= w.len(),
            w.len() == g.len(),
            r.len() == i,
            forall|l: int|
                0 <= l < i ==> rational_value(#[trigger] r@[l]) == rational_value(w@[l])
                    + rational_value(*c) * rational_value(g@[l]),
        decreases w.len() - i,
    {
        let p = rational_mul(c, &g[i]);
        r.push(rational_add(&w[i], &p));
        i = i + 1;
    }
    assert(rational_values(r@) =~= plus(
        rational_values(w@),
        scaled(rational_value(*c), rational_values(g@)),
    ));
    r
}

/// `w - c g`.
pub fn sub_scaled(w: &Vec<Rational>, c: &Rational, g: &Vec<Rational>) -> (r: Vec<Rational>)
    requires
        w.len() == g.len(),
    ensures
        rational_values(r@) == minus(
            rational_values(w@),
            scaled(rational_value(*c), rational_values(g@)),
        ),
{
    let mut r: Vec<Rational> = Vec::new();
    let mut i: usize = 0;
    while i < w.len()
        invariant
            i <= w.len(),
            w.len() == g.len(),
            r.len() == i,
            forall|l: int|
                0 <= l < i ==> rational_value(#[trigger] r@[l]) == rational_value(w@[l])
                    - rational_value(*c) * rational_value(g@[l]),
        decreases w.len() - i,
    {
        let p = rational_mul(c, &g[i]);
        r.push(rational_sub(&w[i], &p));
        i = i + 1;
    }
    assert(rational_values(r@) =~= minus(
        rational_values(w@),
        scaled(rational_value(*c), rational_values(g@)),
    ));
    r
}

/// Whether two vectors are the same: of one length, with equal coordinates.
pub fn same_vector(u: &Vec<Rational>, v: &Vec<Rational>) -> (r: bool)
    ensures
        r == (rational_values(u@) == rational_values(v@)),
{
    if u.len() != v.len() {
        assert(rational_values(u@).len() != rational_values(v@).len());
        return false;
    }
    let mut i: usize = 0;
    while i < u.len()
        invariant
            i <= u.len(),
            u.len() == v.len(),
            forall|l: int| 0 <= l < i ==> rational_value(u@[l]) == rational_value(v@[l]),
        decreases u.len() - i,
    {
        if !rational_eq(&u[i], &v[i]) {
            assert(rational_values(u@)[i as int] != rational_values(v@)[i as int]);
            return false;
        }
        i = i + 1;
    }
    assert(rational_values(u@) =~= rational_values(v@));
    true
}

/// The squared Euclidean distance between two points of one dimension.
pub fn squared_distance(u: &Vec<Rational>, v: &Vec<Rational>) -> (r: Rational)
    requires
        u.len() == v.len(),
    ensures
        rational_value(r) == dist_sq(rational_values(u@), rational_values(v@)),
{
    let mut acc = rational_zero();
    let mut i: usize = 0;
    let ghost d = minus(rational_values(u@), rational_values(v@));
    while i < u.len()
        invariant
            i <= u.len(),
            u.len() == v.len(),
            d == minus(rational_values(u@), rational_values(v@)),
            rational_value(acc) == dot_prefix(d, d, i as int),
        decreases u.len() - i,
    {
        let e = rational_sub(&u[i], &v[i]);
        let p = rational_mul(&e, &e);
        acc = rational_add(&acc, &p);
        i = i + 1;
    }
    acc
}

} // verus!
