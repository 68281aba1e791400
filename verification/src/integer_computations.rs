//! Computations on integers of any size: the extended Euclidean algorithm and
//! powers by a modulus.

use crate::algebraic_structure::{Element, HasRepresentation};
use crate::number::{
    integer_add, integer_div_rem_euc, integer_from_i64, integer_lt, integer_mul, integer_sub,
    integer_value,
};
use crate::number::is_prime;
use rug::Integer;
use vstd::arithmetic::div_mod::{
    lemma_fundamental_div_mod, lemma_fundamental_div_mod_converse, lemma_mod_bound,
    lemma_mod_multiples_vanish, lemma_mul_mod_noop_general, lemma_small_mod,
};
use vstd::prelude::*;

verus! {

/// `|n|`.
pub open spec fn absolute(n: int) -> int {
    if n < 0 {
        -n
    } else {
        n
    }
}

/// `d` divides `n`; zero divides zero only.
pub open spec fn divides(d: int, n: int) -> bool {
    if d == 0 {
        n == 0
    } else {
        n % d == 0
    }
}

/// The remainder of a division is below the divisor in size and not
/// negative.
pub proof fn lemma_remainder_bound(a: int, b: int)
    requires
        b != 0,
    ensures
        0 <= a % b < absolute(b),
{
    if b > 0 {
        lemma_mod_bound(a, b);
    } else {
        assert(0 <= a % b < -b) by (nonlinear_arith)
            requires
                b < 0,
        ;
    }
}

/// What the extended Euclidean algorithm gives for `a` and `b`: the greatest
/// common divisor `d`, never negative, and `x` and `y` with
/// `a x + b y == d`.
pub open spec fn bezout(a: int, b: int) -> (int, int, int)
    decreases absolute(b),
    via bezout_decreases
{
    if b == 0 {
        if a < 0 {
            (-a, -1int, 0int)
        } else {
            (a, 1int, 0int)
        }
    } else {
        let below = bezout(b, a % b);
        (below.0, below.2, below.1 - (a / b) * below.2)
    }
}

#[via_fn]
proof fn bezout_decreases(a: int, b: int) {
    if b != 0 {
        lemma_remainder_bound(a, b);
    }
}

/// A multiple of `d` is divisible by `d`.
pub proof fn lemma_multiple_is_divisible(d: int, k: int)
    requires
        d >= 0,
    ensures
        divides(d, k * d),
{
    if d > 0 {
        lemma_fundamental_div_mod_converse(k * d, d, k, 0);
    } else {
        assert(k * d == 0) by (nonlinear_arith)
            requires
                d == 0,
        ;
    }
}

/// What `d` divides is a multiple of `d`.
pub proof fn lemma_divisible_is_multiple(d: int, n: int) -> (k: int)
    requires
        d >= 0,
        divides(d, n),
    ensures
        n == k * d,
{
    if d > 0 {
        lemma_fundamental_div_mod(n, d);
        let k = n / d;
        assert(d * k == k * d) by (nonlinear_arith);
        k
    } else {
        assert(0 * d == 0) by (nonlinear_arith);
        0
    }
}

/// The extended Euclidean algorithm is right: `d` is not negative, it
/// divides `a` and `b`, and `a x + b y == d`; so `d` is the greatest common
/// divisor of `a` and `b`.
pub proof fn lemma_bezout(a: int, b: int)
    ensures
        bezout(a, b).0 >= 0,
        a * bezout(a, b).1 + b * bezout(a, b).2 == bezout(a, b).0,
        divides(bezout(a, b).0, a),
        divides(bezout(a, b).0, b),
    decreases absolute(b),
{
    if b == 0 {
        if a < 0 {
            assert(a * (-1int) + b * 0int == -a) by (nonlinear_arith);
            lemma_multiple_is_divisible(-a, -1);
            assert((-1int) * (-a) == a) by (nonlinear_arith);
        } else {
            assert(a * 1int + b * 0int == a) by (nonlinear_arith);
            lemma_multiple_is_divisible(a, 1);
            assert(1int * a == a) by (nonlinear_arith);
        }
        lemma_multiple_is_divisible(bezout(a, b).0, 0);
        assert(0 * bezout(a, b).0 == 0) by (nonlinear_arith);
    } else {
        let r = a % b;
        let q = a / b;
        lemma_remainder_bound(a, b);
        lemma_bezout(b, r);
        lemma_fundamental_div_mod(a, b);
        let d = bezout(b, r).0;
        let x = bezout(b, r).1;
        let y = bezout(b, r).2;
        assert(a * y + b * (x - q * y) == d) by (nonlinear_arith)
            requires
                a == b * q + r,
                b * x + r * y == d,
        ;
        let kb = lemma_divisible_is_multiple(d, b);
        let kr = lemma_divisible_is_multiple(d, r);
        lemma_multiple_is_divisible(d, q * kb + kr);
        assert((q * kb + kr) * d == a) by (nonlinear_arith)
            requires
                a == b * q + r,
                b == kb * d,
                r == kr * d,
        ;
    }
}

/// A common divisor of `a` and `b` divides what the algorithm gives: that is
/// the greatest one.
pub proof fn lemma_bezout_is_greatest(a: int, b: int, c: int)
    requires
        c > 0,
        divides(c, a),
        divides(c, b),
    ensures
        divides(c, bezout(a, b).0),
{
    lemma_bezout(a, b);
    let d = bezout(a, b).0;
    let x = bezout(a, b).1;
    let y = bezout(a, b).2;
    let ka = lemma_divisible_is_multiple(c, a);
    let kb = lemma_divisible_is_multiple(c, b);
    lemma_multiple_is_divisible(c, ka * x + kb * y);
    assert((ka * x + kb * y) * c == d) by (nonlinear_arith)
        requires
            a == ka * c,
            b == kb * c,
            a * x + b * y == d,
    ;
}

/// Adding a multiple of `m` leaves the remainder by `m` as it is.
pub proof fn lemma_remainder_drops_multiples(a: int, k: int, m: int)
    requires
        m != 0,
    ensures
        (a + k * m) % m == a % m,
{
    if m > 0 {
        lemma_mod_multiples_vanish(k, a, m);
        assert(m * k + a == a + k * m) by (nonlinear_arith);
    } else {
        lemma_remainder_ignores_sign(a, m);
        lemma_remainder_ignores_sign(a + k * m, m);
        lemma_mod_multiples_vanish(-k, a, -m);
        assert((-m) * (-k) + a == a + k * m) by (nonlinear_arith);
    }
}

/// Where the greatest common divisor of `m` and `a` is one, the coefficient
/// that the extended Euclidean algorithm gives to `a` is an inverse of `a` by
/// the modulus `m`, and so is its remainder.
pub proof fn law_coefficient_is_inverse(m: int, a: int)
    requires
        m != 0,
        bezout(m, a).0 == 1,
    ensures
        (a * bezout(m, a).2) % m == 1int % m,
        (a * (bezout(m, a).2 % m)) % m == 1int % m,
{
    lemma_bezout(m, a);
    let x = bezout(m, a).1;
    let y = bezout(m, a).2;
    lemma_remainder_drops_multiples(1, -x, m);
    assert(1 + (-x) * m == a * y) by (nonlinear_arith)
        requires
            m * x + a * y == 1,
    ;
    lemma_remainder_of_product(a, y, m);
}

/// A prime has one as its greatest common divisor with every number that it
/// does not divide.
pub proof fn law_prime_is_coprime(p: int, a: int)
    requires
        is_prime(p),
        a % p != 0,
    ensures
        bezout(p, a).0 == 1,
{
    lemma_bezout(p, a);
    let d = bezout(p, a).0;
    if d > p {
        lemma_small_mod(p as nat, d as nat);
    }
}

/// `a` to the power `e`; one for an `e` that is not positive.
pub open spec fn power(a: int, e: int) -> int
    decreases e,
{
    if e <= 0 {
        1
    } else {
        a * power(a, e - 1)
    }
}

/// The remainder by `m` is the remainder by `-m`.
pub proof fn lemma_remainder_ignores_sign(a: int, m: int)
    requires
        m != 0,
    ensures
        a % m == a % (-m),
{
    lemma_remainder_bound(a, m);
    lemma_fundamental_div_mod(a, m);
    let q = a / m;
    let r = a % m;
    if m < 0 {
        assert(a == (-q) * (-m) + r) by (nonlinear_arith)
            requires
                a == m * q + r,
        ;
        lemma_fundamental_div_mod_converse(a, -m, -q, r);
    } else {
        lemma_remainder_bound(a, -m);
        lemma_fundamental_div_mod(a, -m);
        let q2 = a / (-m);
        let r2 = a % (-m);
        assert(a == (-q2) * m + r2) by (nonlinear_arith)
            requires
                a == (-m) * q2 + r2,
        ;
        lemma_fundamental_div_mod_converse(a, m, -q2, r2);
    }
}

/// In a product, each factor may be replaced by its remainder without a
/// change to the remainder of the product.
pub proof fn lemma_remainder_of_product(x: int, y: int, m: int)
    requires
        m != 0,
    ensures
        ((x % m) * y) % m == (x * y) % m,
        (x * (y % m)) % m == (x * y) % m,
        ((x % m) * (y % m)) % m == (x * y) % m,
{
    if m > 0 {
        lemma_mul_mod_noop_general(x, y, m);
    } else {
        lemma_remainder_ignores_sign(x, m);
        lemma_remainder_ignores_sign(y, m);
        lemma_remainder_ignores_sign(x * y, m);
        lemma_remainder_ignores_sign((x % m) * y, m);
        lemma_remainder_ignores_sign(x * (y % m), m);
        lemma_remainder_ignores_sign((x % m) * (y % m), m);
        lemma_mul_mod_noop_general(x, y, -m);
    }
}

/// A remainder is its own remainder.
pub proof fn lemma_remainder_of_remainder(x: int, m: int)
    requires
        m != 0,
    ensures
        (x % m) % m == x % m,
{
    lemma_remainder_bound(x, m);
    let r = x % m;
    if m > 0 {
        lemma_fundamental_div_mod_converse(r, m, 0, r);
    } else {
        lemma_remainder_ignores_sign(r, m);
        lemma_fundamental_div_mod_converse(r, -m, 0, r);
    }
}

/// `a^(2q) == (a a)^q`.
pub proof fn lemma_power_of_square(a: int, q: int)
    ensures
        power(a, 2 * q) == power(a * a, q),
    decreases q,
{
    if q > 0 {
        lemma_power_of_square(a, q - 1);
        assert(power(a, 2 * q) == a * power(a, 2 * q - 1));
        assert(power(a, 2 * q - 1) == a * power(a, 2 * q - 2));
        let p = power(a * a, q - 1);
        assert(a * (a * p) == (a * a) * p) by (nonlinear_arith);
    }
}

/// In a power, the base may be replaced by its remainder without a change to
/// the remainder of the power.
pub proof fn lemma_remainder_of_power(a: int, e: int, m: int)
    requires
        m != 0,
    ensures
        power(a % m, e) % m == power(a, e) % m,
    decreases e,
{
    if e > 0 {
        lemma_remainder_of_power(a, e - 1, m);
        let p = power(a, e - 1);
        let pr = power(a % m, e - 1);
        lemma_remainder_of_product(a % m, pr, m);
        lemma_remainder_of_product(a % m, p, m);
        lemma_remainder_of_product(a, p, m);
    }
}

/// `base` to the power `exponent`, by the modulus `modulus`: the remainder,
/// never negative, of the power. An exponent that is not positive gives the
/// remainder of one. The power is reached by squaring: the number of
/// multiplications grows with the length of the exponent, not with its
/// size.
pub fn pow_rug(base: &Integer, exponent: &Integer, modulus: &Integer) -> (r: Integer)
    requires
        integer_value(*modulus) != 0,
    ensures
        integer_value(r) == power(integer_value(*base), integer_value(*exponent)) % integer_value(
            *modulus,
        ),
{
    let ghost a = integer_value(*base);
    let ghost e0 = integer_value(*exponent);
    let ghost m = integer_value(*modulus);
    let zero = integer_from_i64(0);
    let one = integer_from_i64(1);
    let two = integer_from_i64(2);
    let mut result = integer_div_rem_euc(&one, modulus).1;
    let mut square = integer_div_rem_euc(base, modulus).1;
    let mut e = exponent.clone();
    proof {
        lemma_remainder_of_power(a, e0, m);
        lemma_remainder_of_product(1, power(a % m, e0), m);
        assert(1 * power(a % m, e0) == power(a % m, e0)) by (nonlinear_arith);
        lemma_remainder_of_remainder(1, m);
    }
    while integer_lt(&zero, &e)
        invariant
            m == integer_value(*modulus),
            m != 0,
            integer_value(zero) == 0,
            integer_value(two) == 2,
            integer_value(result) % m == integer_value(result),
            (integer_value(result) * power(integer_value(square), integer_value(e))) % m == power(
                a,
                e0,
            ) % m,
        decreases integer_value(e),
    {
        let ghost rv = integer_value(result);
        let ghost sv = integer_value(square);
        let ghost ev = integer_value(e);
        let (half, bit) = integer_div_rem_euc(&e, &two);
        proof {
            let q = ev / 2;
            assert(ev == 2 * q + ev % 2);
            lemma_power_of_square(sv, q);
            lemma_remainder_of_power(sv * sv, q, m);
            let pq = power(sv * sv, q);
            let pr = power((sv * sv) % m, q);
            if ev % 2 == 1 {
                assert(power(sv, ev) == sv * power(sv, 2 * q));
                assert(rv * (sv * pq) == (rv * sv) * pq) by (nonlinear_arith);
                lemma_remainder_of_product(rv * sv, pq, m);
                lemma_remainder_of_product((rv * sv) % m, pq, m);
                lemma_remainder_of_product((rv * sv) % m, pr, m);
                lemma_remainder_of_remainder(rv * sv, m);
            } else {
                lemma_remainder_of_product(rv, pq, m);
                lemma_remainder_of_product(rv, pr, m);
            }
        }
        if integer_lt(&zero, &bit) {
            result = integer_div_rem_euc(&integer_mul(&result, &square), modulus).1;
        }
        square = integer_div_rem_euc(&integer_mul(&square, &square), modulus).1;
        e = half;
    }
    proof {
        assert(integer_value(result) * 1 == integer_value(result)) by (nonlinear_arith);
    }
    result
}

/// The same power as `pow_rug`, reached by multiplying `exponent` times.
pub fn naive_pow(base: &Integer, exponent: &Integer, modulus: &Integer) -> (r: Integer)
    requires
        integer_value(*modulus) != 0,
    ensures
        integer_value(r) == power(integer_value(*base), integer_value(*exponent)) % integer_value(
            *modulus,
        ),
{
    let ghost a = integer_value(*base);
    let ghost m = integer_value(*modulus);
    let one = integer_from_i64(1);
    let mut result = integer_div_rem_euc(&one, modulus).1;
    let mut done = integer_from_i64(0);
    while integer_lt(&done, exponent)
        invariant
            m == integer_value(*modulus),
            a == integer_value(*base),
            m != 0,
            integer_value(one) == 1,
            integer_value(done) >= 0,
            integer_value(done) <= integer_value(*exponent) || integer_value(done) == 0,
            integer_value(result) == power(a, integer_value(done)) % m,
        decreases integer_value(*exponent) - integer_value(done),
    {
        proof {
            let p = power(a, integer_value(done));
            lemma_remainder_of_product(p, a, m);
            assert(p * a == a * p) by (nonlinear_arith);
        }
        result = integer_div_rem_euc(&integer_mul(&result, base), modulus).1;
        done = integer_add(&done, &one);
    }
    result
}

/// The extended Euclidean algorithm on `a` and `b`: the greatest common
/// divisor `d` of the two, never negative, and integers `x` and `y` with
/// `a x + b y == d`, as `(d, x, y)`.
pub fn extended_euclidean_ordered(a: &Integer, b: &Integer) -> (r: (Integer, Integer, Integer))
    ensures
        (integer_value(r.0), integer_value(r.1), integer_value(r.2)) == bezout(
            integer_value(*a),
            integer_value(*b),
        ),
    decreases absolute(integer_value(*b)),
{
    let zero = integer_from_i64(0);
    if !integer_lt(b, &zero) && !integer_lt(&zero, b) {
        if integer_lt(a, &zero) {
            (integer_sub(&zero, a), integer_from_i64(-1), zero)
        } else {
            (a.clone(), integer_from_i64(1), zero)
        }
    } else {
        let (q, rem) = integer_div_rem_euc(a, b);
        proof {
            lemma_remainder_bound(integer_value(*a), integer_value(*b));
        }
        let (d, x, y) = extended_euclidean_ordered(b, &rem);
        let t = integer_sub(&x, &integer_mul(&q, &y));
        (d, y, t)
    }
}

/// The extended Euclidean algorithm on the integers that stand for two
/// elements; see `extended_euclidean_ordered`.
pub fn extended_euclidean_to_integers<T: HasRepresentation + Clone>(
    a: &Element<T>,
    b: &Element<T>,
) -> (r: (Integer, Integer, Integer))
    ensures
        (integer_value(r.0), integer_value(r.1), integer_value(r.2)) == bezout(
            a.value(),
            b.value(),
        ),
{
    extended_euclidean_ordered(a.get_rep(), b.get_rep())
}

} // verus!
