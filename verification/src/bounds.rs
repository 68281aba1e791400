//! The bound routine of the search: for coefficients fixed at the highest
//! indices and a squared-distance budget, the interval of integers that the
//! next coefficient may take.
//!
//! With `sum` the cost that the fixed coefficients already have, `N` their
//! offset along the next direction `i` and `M = sqrt(|A - sum| / B_i)`, the
//! interval is `[ceil(y_i - M - N), floor(y_i + M - N)]`. No root is taken of
//! a rational: the ends are found from the integer root of `floor(M^2)` and
//! one exact comparison each.

use crate::coordinates::{coordinate_sum, fixed_cost, frame_coordinate, offset, partial_cost};
use crate::gram_schmidt::{lemma_squared_length_positive, squared_length};
use crate::lattice::{ambient, Lattice};
use crate::number::{
    integer_add, integer_from_i64, integer_sqrt, integer_sub, integer_value, integer_values,
    rational_add, rational_ceil, rational_div, rational_floor, rational_from_integer, rational_lt,
    rational_mul, rational_sub, rational_value, rational_values,
};
use crate::vector::rational_zero;
use rug::Integer;
use rug::Rational;
use vstd::prelude::*;

verus! {

/// The coefficient vector of length `n` that ends in `fixed` and is zero
/// before it. `fixed` holds the coefficients of the highest indices, the
/// lowest of them (the one fixed last) first.
pub open spec fn padded(fixed: Seq<int>, n: nat) -> Seq<int> {
    Seq::new(
        n,
        |l: int|
            if l >= n - fixed.len() {
                fixed[l - (n - fixed.len())]
            } else {
                0int
            },
    )
}

/// `|x|`.
pub open spec fn magnitude(x: real) -> real {
    if x < 0real {
        -x
    } else {
        x
    }
}

/// The index of the next coefficient once `fixed` is fixed.
pub open spec fn slice_index(b: Seq<Seq<real>>, fixed: Seq<int>) -> int {
    b.len() - fixed.len() - 1
}

/// `y_i - N_i`: the middle of the interval for the next coefficient.
pub open spec fn slice_center(b: Seq<Seq<real>>, fixed: Seq<int>, y: Seq<real>) -> real {
    let i = slice_index(b, fixed);
    y[i] - offset(b, padded(fixed, b.len()), i)
}

/// `M_i^2 = |A - sum| / B_i`: the square of half the interval's width.
pub open spec fn slice_radius_sq(
    b: Seq<Seq<real>>,
    fixed: Seq<int>,
    y: Seq<real>,
    budget: real,
) -> real {
    let i = slice_index(b, fixed);
    magnitude(budget - fixed_cost(b, padded(fixed, b.len()), y, i)) / squared_length(b, i)
}

/// `k` is within `sqrt(r)` of `c`.
pub open spec fn in_slice(k: int, c: real, r: real) -> bool {
    (k as real - c) * (k as real - c) <= r
}

/// `l == ceil(c - sqrt(r))`, said without the root.
pub open spec fn is_lower_end(l: int, c: real, r: real) -> bool {
    &&& c - l as real <= 0real || (c - l as real) * (c - l as real) <= r
    &&& c - l as real + 1real > 0real
    &&& (c - l as real + 1real) * (c - l as real + 1real) > r
}

/// `h == floor(c + sqrt(r))`, said without the root.
pub open spec fn is_upper_end(h: int, c: real, r: real) -> bool {
    &&& h as real - c <= 0real || (h as real - c) * (h as real - c) <= r
    &&& h as real - c + 1real > 0real
    &&& (h as real - c + 1real) * (h as real - c + 1real) > r
}

/// The integers between the two ends are those within `sqrt(r)` of `c`.
pub proof fn lemma_ends_enclose_slice(lo: int, hi: int, c: real, r: real, k: int)
    requires
        is_lower_end(lo, c, r),
        is_upper_end(hi, c, r),
        r >= 0real,
    ensures
        lo <= k <= hi <==> in_slice(k, c, r),
{
    let d = k as real - c;
    let u = hi as real - c;
    let l = c - lo as real;
    if k > hi {
        assert(d * d > r) by (nonlinear_arith)
            requires
                d >= u + 1real,
                u + 1real > 0real,
                (u + 1real) * (u + 1real) > r,
        ;
    } else if k < lo {
        assert(d * d > r) by (nonlinear_arith)
            requires
                -d >= l + 1real,
                l + 1real > 0real,
                (l + 1real) * (l + 1real) > r,
        ;
    } else if d >= 0real {
        assert(d * d <= r) by (nonlinear_arith)
            requires
                0real <= d <= u,
                u <= 0real || u * u <= r,
                r >= 0real,
        ;
    } else {
        assert(d * d <= r) by (nonlinear_arith)
            requires
                0real <= -d <= l,
                l <= 0real || l * l <= r,
                r >= 0real,
        ;
    }
}

/// There is one upper end only.
pub proof fn lemma_upper_end_unique(h1: int, h2: int, c: real, r: real)
    requires
        is_upper_end(h1, c, r),
        is_upper_end(h2, c, r),
    ensures
        h1 == h2,
{
    let u1 = h1 as real - c;
    let u2 = h2 as real - c;
    if h1 < h2 {
        assert(false) by (nonlinear_arith)
            requires
                u2 >= u1 + 1real,
                u1 + 1real > 0real,
                (u1 + 1real) * (u1 + 1real) > r,
                u2 <= 0real || u2 * u2 <= r,
        ;
    } else if h2 < h1 {
        assert(false) by (nonlinear_arith)
            requires
                u1 >= u2 + 1real,
                u2 + 1real > 0real,
                (u2 + 1real) * (u2 + 1real) > r,
                u1 <= 0real || u1 * u1 <= r,
        ;
    }
}

/// There is one lower end only.
pub proof fn lemma_lower_end_unique(l1: int, l2: int, c: real, r: real)
    requires
        is_lower_end(l1, c, r),
        is_lower_end(l2, c, r),
    ensures
        l1 == l2,
{
    let u1 = c - l1 as real;
    let u2 = c - l2 as real;
    if l1 > l2 {
        assert(false) by (nonlinear_arith)
            requires
                u2 >= u1 + 1real,
                u1 + 1real > 0real,
                (u1 + 1real) * (u1 + 1real) > r,
                u2 <= 0real || u2 * u2 <= r,
        ;
    } else if l2 > l1 {
        assert(false) by (nonlinear_arith)
            requires
                u1 >= u2 + 1real,
                u2 + 1real > 0real,
                (u2 + 1real) * (u2 + 1real) > r,
                u1 <= 0real || u1 * u1 <= r,
        ;
    }
}

/// The integer root `s` of `floor(r)` brackets the root of `r`.
proof fn lemma_root_brackets(s: int, fl: int, r: real)
    requires
        s >= 0,
        s * s <= fl,
        fl < (s + 1) * (s + 1),
        fl == r.floor(),
    ensures
        (s as real) * (s as real) <= r,
        r < (s as real + 1real) * (s as real + 1real),
{
    let sr = s as real;
    assert(sr * sr == (s * s) as real) by (nonlinear_arith)
        requires
            sr == s as real,
    ;
    assert((sr + 1real) * (sr + 1real) == ((s + 1) * (s + 1)) as real) by (nonlinear_arith)
        requires
            sr == s as real,
    ;
}

/// Which of the two candidates next to `floor(c) + s` is the upper end.
proof fn lemma_upper_end_found(f: int, s: int, c: real, r: real)
    requires
        f == c.floor(),
        s >= 0,
        (s as real) * (s as real) <= r,
        r < (s as real + 1real) * (s as real + 1real),
    ensures
        in_slice(f + s + 1, c, r) ==> is_upper_end(f + s + 1, c, r),
        !in_slice(f + s + 1, c, r) ==> is_upper_end(f + s, c, r),
{
    let a = f as real - c;
    let sr = s as real;
    let u = (f + s) as real - c;
    let v = (f + s + 1) as real - c;
    assert(u == sr + a);
    assert(v == sr + a + 1real);
    if in_slice(f + s + 1, c, r) {
        assert((v + 1real) * (v + 1real) > r) by (nonlinear_arith)
            requires
                v + 1real > sr + 1real,
                sr >= 0real,
                r < (sr + 1real) * (sr + 1real),
        ;
    } else {
        assert(u <= 0real || u * u <= r) by (nonlinear_arith)
            requires
                u <= sr,
                sr >= 0real,
                sr * sr <= r,
        ;
    }
}

/// Which of the two candidates next to `ceil(c) - s` is the lower end.
proof fn lemma_lower_end_found(g: int, s: int, c: real, r: real)
    requires
        ((g - 1) as real) < c <= g as real,
        s >= 0,
        (s as real) * (s as real) <= r,
        r < (s as real + 1real) * (s as real + 1real),
    ensures
        in_slice(g - s - 1, c, r) ==> is_lower_end(g - s - 1, c, r),
        !in_slice(g - s - 1, c, r) ==> is_lower_end(g - s, c, r),
{
    let sr = s as real;
    let u = c - (g - s) as real;
    let v = c - (g - s - 1) as real;
    assert(v == u + 1real);
    assert(u <= sr);
    assert(v > sr);
    let d = (g - s - 1) as real - c;
    assert(d == -v);
    assert(d * d == v * v) by (nonlinear_arith)
        requires
            d == -v,
    ;
    if in_slice(g - s - 1, c, r) {
        assert((v + 1real) * (v + 1real) > r) by (nonlinear_arith)
            requires
                v + 1real > sr + 1real,
                sr >= 0real,
                r < (sr + 1real) * (sr + 1real),
        ;
    } else {
        assert(u <= 0real || u * u <= r) by (nonlinear_arith)
            requires
                u <= sr,
                sr >= 0real,
                sr * sr <= r,
        ;
    }
}

/// `[ceil(c - sqrt(r)), floor(c + sqrt(r))]` for a rational `c` and a
/// rational `r` that is not negative.
pub fn root_interval(c: &Rational, r: &Rational) -> (ends: (Integer, Integer))
    requires
        rational_value(*r) >= 0real,
    ensures
        is_lower_end(integer_value(ends.0), rational_value(*c), rational_value(*r)),
        is_upper_end(integer_value(ends.1), rational_value(*c), rational_value(*r)),
{
    let one = integer_from_i64(1);
    let whole = rational_floor(r);
    let s = integer_sqrt(&whole);
    proof {
        lemma_root_brackets(integer_value(s), integer_value(whole), rational_value(*r));
    }
    let f = rational_floor(c);
    let g = rational_ceil(c);
    let below = integer_add(&f, &s);
    let above = integer_add(&below, &one);
    let high = if within(&above, c, r) {
        above
    } else {
        below
    };
    let inner = integer_sub(&g, &s);
    let outer = integer_sub(&inner, &one);
    let low = if within(&outer, c, r) {
        outer
    } else {
        inner
    };
    proof {
        lemma_upper_end_found(
            integer_value(f),
            integer_value(s),
            rational_value(*c),
            rational_value(*r),
        );
        lemma_lower_end_found(
            integer_value(g),
            integer_value(s),
            rational_value(*c),
            rational_value(*r),
        );
    }
    (low, high)
}

/// Whether `(k - c)^2 <= r`.
pub fn within(k: &Integer, c: &Rational, r: &Rational) -> (inside: bool)
    ensures
        inside == in_slice(integer_value(*k), rational_value(*c), rational_value(*r)),
{
    let d = rational_sub(&rational_from_integer(k), c);
    let sq = rational_mul(&d, &d);
    !rational_lt(r, &sq)
}

impl Lattice {
    /// `x_from mu[from][j] + ... + x_(n-1) mu[n-1][j]` for the coefficients
    /// in `fixed`.
    pub(crate) fn coordinate_sum_of(&self, fixed: &Vec<Integer>, j: usize, from: usize) -> (r:
        Rational)
        requires
            self.wf(),
            fixed.len() <= self@.len(),
            self@.len() - fixed.len() <= from <= self@.len(),
            j < self@.len(),
        ensures
            rational_value(r) == coordinate_sum(
                self@,
                padded(integer_values(fixed@), self@.len()),
                j as int,
                from as int,
                self@.len() as int,
            ),
    {
        let n = self.rank();
        let skip = n - fixed.len();
        let ghost x = padded(integer_values(fixed@), self@.len());
        let mut acc = rational_zero();
        let mut l = from;
        while l < n
            invariant
                self.wf(),
                n == self@.len(),
                fixed.len() <= n,
                skip == n - fixed.len(),
                skip <= from <= l <= n,
                j < n,
                x == padded(integer_values(fixed@), self@.len()),
                rational_value(acc) == coordinate_sum(self@, x, j as int, from as int, l as int),
            decreases n - l,
        {
            let c = rational_from_integer(&fixed[l - skip]);
            let e = self.mu_value(l, j);
            acc = rational_add(&acc, &rational_mul(&c, &e));
            l = l + 1;
        }
        acc
    }

    /// The coordinate, along the Gram-Schmidt vector of the lowest fixed
    /// index, of every lattice point whose highest coefficients are `fixed`
    /// (the lowest index first). With nothing fixed it is zero.
    pub fn get_gram_schmidt_coefficient(&self, fixed: &Vec<Integer>) -> (r: Rational)
        requires
            self.wf(),
            fixed.len() <= self@.len(),
        ensures
            rational_value(r) == frame_coordinate(
                self@,
                padded(integer_values(fixed@), self@.len()),
                self@.len() - fixed.len(),
            ),
    {
        let n = self.rank();
        if fixed.len() == 0 {
            return rational_zero();
        }
        let j = n - fixed.len();
        self.coordinate_sum_of(fixed, j, j)
    }

    /// The interval `[lo, hi]` of the integers that the coefficient of index
    /// `n - depth - 1` may take, for the `depth` coefficients `fixed` at the
    /// indices above it (the lowest index first), the squared-distance budget
    /// `budget` and the frame coordinates `y` of the target:
    /// `lo = ceil(y_i - M - N)` and `hi = floor(y_i + M - N)`.
    pub fn get_cvp_enumeration_bounds(
        &self,
        fixed: &Vec<Integer>,
        depth: usize,
        budget: &Rational,
        y: &Vec<Rational>,
    ) -> (ends: (Integer, Integer))
        requires
            self.wf(),
            depth < self@.len(),
            fixed.len() == depth,
            y.len() == self@.len(),
        ensures
            is_lower_end(
                integer_value(ends.0),
                slice_center(self@, integer_values(fixed@), rational_values(y@)),
                slice_radius_sq(
                    self@,
                    integer_values(fixed@),
                    rational_values(y@),
                    rational_value(*budget),
                ),
            ),
            is_upper_end(
                integer_value(ends.1),
                slice_center(self@, integer_values(fixed@), rational_values(y@)),
                slice_radius_sq(
                    self@,
                    integer_values(fixed@),
                    rational_values(y@),
                    rational_value(*budget),
                ),
            ),
    {
        let n = self.rank();
        let i = n - depth - 1;
        let ghost x = padded(integer_values(fixed@), self@.len());
        let ghost yv = rational_values(y@);
        let mut sum = rational_zero();
        let mut k = i + 1;
        while k < n
            invariant
                self.wf(),
                n == self@.len(),
                fixed.len() == depth,
                depth < n,
                i == n - depth - 1,
                i + 1 <= k <= n,
                y.len() == n,
                x == padded(integer_values(fixed@), self@.len()),
                yv == rational_values(y@),
                rational_value(sum) == partial_cost(self@, x, yv, i + 1, k as int),
            decreases n - k,
        {
            let z = self.coordinate_sum_of(fixed, k, k);
            let d = rational_sub(&z, &y[k]);
            let term = rational_mul(&rational_mul(&d, &d), self.squared_length_ref(k));
            sum = rational_add(&sum, &term);
            k = k + 1;
        }
        let offset = self.coordinate_sum_of(fixed, i, i + 1);
        let center = rational_sub(&y[i], &offset);
        let zero = rational_zero();
        let diff = rational_sub(budget, &sum);
        let gap = if rational_lt(&diff, &zero) {
            rational_sub(&zero, &diff)
        } else {
            diff
        };
        let bi = self.squared_length_ref(i);
        let radius_sq = rational_div(&gap, bi);
        proof {
            self.lemma_wf_frame_ready();
            lemma_squared_length_positive(self@, ambient(self@), i as int);
            let g = rational_value(gap);
            let bv = rational_value(*bi);
            assert(g / bv >= 0real) by (nonlinear_arith)
                requires
                    g >= 0real,
                    bv > 0real,
            ;
        }
        root_interval(&center, &radius_sq)
    }
}

} // verus!
