//! Exact numbers.
//!
//! All arithmetic of this crate is exact: coordinates are `rug::Rational`
//! values, and coefficients and residues are `rug::Integer` values. Verus sees
//! neither type from the inside, so each of them gets a mathematical value
//! here ([`rational_value`], [`integer_value`]) and every operation that the
//! crate uses is declared once, with the claim that it computes the
//! corresponding operation on those values. These declarations, with
//! [`reversed`] and [`share`], are the trusted base of the crate; everything
//! else is proved from them.

use itertools::Itertools;
use rug::Integer;
use rug::Rational;
use rug::integer::IsPrime;
use std::sync::Arc;
use vstd::prelude::*;

verus! {

/// `rug::Integer`, an integer of any size. Nothing of its inside is used.
#[verifier::external_type_specification]
#[verifier::external_body]
pub struct ExInteger(rug::Integer);

/// `rug::Rational`, a fraction of two integers of any size. Nothing of its
/// inside is used.
#[verifier::external_type_specification]
#[verifier::external_body]
pub struct ExRational(rug::Rational);

/// The mathematical integer that an `Integer` holds.
pub uninterp spec fn integer_value(x: rug::Integer) -> int;

/// The mathematical number that a `Rational` holds.
pub uninterp spec fn rational_value(q: rug::Rational) -> real;

/// The values of a sequence of integers.
pub open spec fn integer_values(s: Seq<Integer>) -> Seq<int> {
    Seq::new(s.len(), |i: int| integer_value(s[i]))
}

/// The values of a sequence of rationals.
pub open spec fn rational_values(s: Seq<Rational>) -> Seq<real> {
    Seq::new(s.len(), |i: int| rational_value(s[i]))
}

/// The values of a sequence of rows of rationals.
pub open spec fn rational_rows(s: Seq<Vec<Rational>>) -> Seq<Seq<real>> {
    Seq::new(s.len(), |i: int| rational_values(s[i]@))
}

/// The integer nearest to `x`; a number halfway between two integers goes to
/// the one farther from zero.
pub open spec fn round_half_away(x: real) -> int {
    if x >= 0real {
        (x + 1real / 2real).floor()
    } else {
        -((-x + 1real / 2real).floor())
    }
}

/// `Integer::from` on an `i64`: the integer with the same value.
#[verifier::external_body]
pub(crate) fn integer_from_i64(n: i64) -> (r: Integer)
    ensures
        integer_value(r) == n,
{
    Integer::from(n)
}

/// `Integer::clone`: a second integer with the same value.
pub assume_specification[ <rug::Integer as Clone>::clone ](x: &rug::Integer) -> (r: rug::Integer)
    ensures
        integer_value(r) == integer_value(*x),
;

/// `&Integer + &Integer`, completed into an `Integer`: the exact sum.
#[verifier::external_body]
pub(crate) fn integer_add(a: &Integer, b: &Integer) -> (r: Integer)
    ensures
        integer_value(r) == integer_value(*a) + integer_value(*b),
{
    Integer::from(a + b)
}

/// `&Integer - &Integer`, completed into an `Integer`: the exact difference.
#[verifier::external_body]
pub(crate) fn integer_sub(a: &Integer, b: &Integer) -> (r: Integer)
    ensures
        integer_value(r) == integer_value(*a) - integer_value(*b),
{
    Integer::from(a - b)
}

/// `&Integer * &Integer`, completed into an `Integer`: the exact product.
#[verifier::external_body]
pub(crate) fn integer_mul(a: &Integer, b: &Integer) -> (r: Integer)
    ensures
        integer_value(r) == integer_value(*a) * integer_value(*b),
{
    Integer::from(a * b)
}

/// `Integer::div_rem_euc`: the quotient and the remainder of Euclidean
/// division, the remainder never negative. It panics on a zero divisor,
/// which `requires` leaves out.
#[verifier::external_body]
pub(crate) fn integer_div_rem_euc(a: &Integer, d: &Integer) -> (r: (Integer, Integer))
    requires
        integer_value(*d) != 0,
    ensures
        integer_value(r.0) == integer_value(*a) / integer_value(*d),
        integer_value(r.1) == integer_value(*a) % integer_value(*d),
{
    a.clone().div_rem_euc(d.clone())
}

/// A prime: an integer above one that only one and itself divide.
pub open spec fn is_prime(n: int) -> bool {
    n >= 2 && forall|d: int| 1 < d < n ==> #[trigger] (n % d) != 0
}

/// `Integer::is_probably_prime`, asked whether its answer is other than
/// `IsPrime::No`. `No` is given to no prime; what is given to a number that
/// is not prime depends on the tests made. It panics where `reps` is above
/// `i32::MAX`, which `requires` leaves out.
#[verifier::external_body]
pub(crate) fn integer_may_be_prime(n: &Integer, reps: u32) -> (r: bool)
    requires
        reps <= i32::MAX,
    ensures
        is_prime(integer_value(*n)) ==> r,
{
    n.is_probably_prime(reps) != IsPrime::No
}

/// `Integer::next_prime`: an integer above the given one.
#[verifier::external_body]
pub(crate) fn integer_next_prime(n: &Integer) -> (r: Integer)
    ensures
        integer_value(r) > integer_value(*n),
{
    n.clone().next_prime()
}

/// `Arc::clone`: a second handle on the same value.
#[verifier::external_body]
pub(crate) fn share<T>(a: &Arc<T>) -> (r: Arc<T>)
    ensures
        r == *a,
{
    a.clone()
}

/// `<` on `Integer`: the order of the values.
#[verifier::external_body]
pub(crate) fn integer_lt(a: &Integer, b: &Integer) -> (r: bool)
    ensures
        r == (integer_value(*a) < integer_value(*b)),
{
    a < b
}

/// `Integer::sqrt`: the square root, truncated. It panics on a negative
/// value, which `requires` leaves out.
#[verifier::external_body]
pub(crate) fn integer_sqrt(x: &Integer) -> (r: Integer)
    requires
        integer_value(*x) >= 0,
    ensures
        integer_value(r) >= 0,
        integer_value(r) * integer_value(r) <= integer_value(*x),
        integer_value(*x) < (integer_value(r) + 1) * (integer_value(r) + 1),
{
    x.clone().sqrt()
}

/// `Itertools::collect_vec` on the clones of the items of `v`, walked from the
/// back: a vector with the same values in the opposite order.
#[verifier::external_body]
pub(crate) fn reversed(v: &Vec<Integer>) -> (r: Vec<Integer>)
    ensures
        integer_values(r@) == integer_values(v@).reverse(),
{
    v.iter().rev().cloned().collect_vec()
}

/// `Rational::from` on an `&Integer`: the rational with the same value.
#[verifier::external_body]
pub(crate) fn rational_from_integer(x: &Integer) -> (r: Rational)
    ensures
        rational_value(r) == integer_value(*x) as real,
{
    Rational::from(x)
}

/// `Rational::clone`: a second rational with the same value.
pub assume_specification[ <rug::Rational as Clone>::clone ](q: &rug::Rational) -> (r: rug::Rational)
    ensures
        rational_value(r) == rational_value(*q),
;

/// `&Rational + &Rational`, completed into a `Rational`: the exact sum.
#[verifier::external_body]
pub(crate) fn rational_add(a: &Rational, b: &Rational) -> (r: Rational)
    ensures
        rational_value(r) == rational_value(*a) + rational_value(*b),
{
    Rational::from(a + b)
}

/// `&Rational - &Rational`, completed into a `Rational`: the exact
/// difference.
#[verifier::external_body]
pub(crate) fn rational_sub(a: &Rational, b: &Rational) -> (r: Rational)
    ensures
        rational_value(r) == rational_value(*a) - rational_value(*b),
{
    Rational::from(a - b)
}

/// `&Rational * &Rational`, completed into a `Rational`: the exact product.
#[verifier::external_body]
pub(crate) fn rational_mul(a: &Rational, b: &Rational) -> (r: Rational)
    ensures
        rational_value(r) == rational_value(*a) * rational_value(*b),
{
    Rational::from(a * b)
}

/// `&Rational / &Rational`, completed into a `Rational`: the exact quotient.
/// It panics on a zero divisor, which `requires` leaves out.
#[verifier::external_body]
pub(crate) fn rational_div(a: &Rational, b: &Rational) -> (r: Rational)
    requires
        rational_value(*b) != 0real,
    ensures
        rational_value(r) == rational_value(*a) / rational_value(*b),
{
    Rational::from(a / b)
}

/// `<` on `Rational`: the order of the values.
#[verifier::external_body]
pub(crate) fn rational_lt(a: &Rational, b: &Rational) -> (r: bool)
    ensures
        r == (rational_value(*a) < rational_value(*b)),
{
    a < b
}

/// `==` on `Rational`: whether the values are equal.
#[verifier::external_body]
pub(crate) fn rational_eq(a: &Rational, b: &Rational) -> (r: bool)
    ensures
        r == (rational_value(*a) == rational_value(*b)),
{
    a == b
}

/// `Rational::floor_ref`, completed into an `Integer`: the greatest integer
/// that is not above the value.
#[verifier::external_body]
pub(crate) fn rational_floor(q: &Rational) -> (r: Integer)
    ensures
        integer_value(r) == rational_value(*q).floor(),
{
    Integer::from(q.floor_ref())
}

/// `Rational::ceil_ref`, completed into an `Integer`: the least integer that
/// is not below the value.
#[verifier::external_body]
pub(crate) fn rational_ceil(q: &Rational) -> (r: Integer)
    ensures
        ((integer_value(r) - 1) as real) < rational_value(*q),
        rational_value(*q) <= (integer_value(r) as real),
{
    Integer::from(q.ceil_ref())
}

/// `Rational::round_ref`, completed into an `Integer`: the nearest integer,
/// a value halfway between two integers going away from zero.
#[verifier::external_body]
pub(crate) fn rational_round(q: &Rational) -> (r: Integer)
    ensures
        integer_value(r) == round_half_away(rational_value(*q)),
{
    Integer::from(q.round_ref())
}

} // verus!
