//! A run of primes from two upwards.

use crate::number::{integer_from_i64, integer_next_prime, integer_value, integer_values};
use rug::Integer;
use vstd::prelude::*;

verus! {

/// Each number of `s` is above the one before it.
pub open spec fn rising(s: Seq<int>) -> bool {
    forall|i: int, j: int| 0 <= i < j < s.len() ==> s[i] < s[j]
}

/// The `n` numbers that a walk from two meets, each the next prime after
/// the one before it as far as the primality tests of `rug` can tell: they
/// begin with two and rise.
pub fn primes_from_two(n: u32) -> (r: Vec<Integer>)
    ensures
        r.len() == n,
        n > 0 ==> integer_value(r@[0]) == 2,
        rising(integer_values(r@)),
{
    let mut found: Vec<Integer> = Vec::new();
    let mut b = integer_from_i64(2);
    let mut i: u32 = 0;
    while i < n
        invariant
            i <= n,
            found.len() == i,
            i > 0 ==> integer_value(found@[0]) == 2,
            i == 0 ==> integer_value(b) == 2,
            rising(integer_values(found@)),
            forall|l: int| 0 <= l < i ==> integer_value(#[trigger] found@[l]) < integer_value(b),
        decreases n - i,
    {
        let next = integer_next_prime(&b);
        let ghost before = integer_values(found@);
        found.push(b);
        proof {
            let after = integer_values(found@);
            assert forall|x: int, y: int| 0 <= x < y < after.len() implies after[x] < after[y] by {
                if y < i {
                    assert(before[x] < before[y]);
                }
            }
        }
        b = next;
        i = i + 1;
    }
    found
}

} // verus!
