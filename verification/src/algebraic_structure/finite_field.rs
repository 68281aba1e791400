//! The integers by a modulus: the field of a prime, and the group of the
//! units under multiplication.

use crate::algebraic_structure::{Element, HasAdd, HasMul, HasMulInv, HasRepresentation};
use crate::integer_computations::{
    bezout, extended_euclidean_ordered, extended_euclidean_to_integers, law_coefficient_is_inverse,
    law_prime_is_coprime, lemma_remainder_of_product, lemma_remainder_of_remainder, pow_rug, power,
};
use crate::number::{
    integer_add, integer_div_rem_euc, integer_from_i64, integer_lt, integer_may_be_prime,
    integer_mul, integer_sub, integer_value, is_prime,
};
use rug::Integer;
use vstd::arithmetic::div_mod::lemma_small_mod;
use vstd::prelude::*;

verus! {

/// The field of the integers by a prime. Only fields of this kind are
/// considered.
#[derive(Debug, Clone)]
pub struct FiniteField {
    size: Integer,
}

impl HasRepresentation for FiniteField {
    open spec fn valid(&self) -> bool {
        self.modulus() != 0
    }

    open spec fn representation_of(&self, v: int) -> int {
        v % self.modulus()
    }

    /// The remainder of `repr` by the size of the field, never negative.
    fn make_representation(&self, repr: Integer) -> (r: Integer) {
        integer_div_rem_euc(&repr, self.mod_num()).1
    }
}

impl HasMul for FiniteField {
    open spec fn can_multiply(&self) -> bool {
        self.modulus() != 0
    }

    open spec fn product(&self, outer: FiniteField, a: int, b: int) -> int {
        outer.representation_of((a * b) % self.modulus())
    }

    open spec fn power_of(&self, outer: FiniteField, a: int, e: int) -> int {
        outer.representation_of(power(a, e) % self.modulus())
    }

    fn mul(&self, a: &Element<FiniteField>, b: &Element<FiniteField>) -> (r: Element<FiniteField>) {
        Element::new(
            a.get_outer_structure(),
            integer_div_rem_euc(&integer_mul(a.get_rep(), b.get_rep()), self.mod_num()).1,
        )
    }

    fn pow(&self, a: &Element<Self>, b: &Integer) -> (r: Element<Self>) {
        Element::new(a.get_outer_structure(), pow_rug(a.get_rep(), b, self.mod_num()))
    }
}

impl HasAdd for FiniteField {
    open spec fn can_add(&self) -> bool {
        self.modulus() != 0
    }

    open spec fn sum(&self, outer: FiniteField, a: int, b: int) -> int {
        outer.representation_of((a + b) % self.modulus())
    }

    fn add(&self, a: &Element<FiniteField>, b: &Element<FiniteField>) -> (r: Element<FiniteField>) {
        Element::new(
            a.get_outer_structure(),
            integer_div_rem_euc(&integer_add(a.get_rep(), b.get_rep()), self.mod_num()).1,
        )
    }
}

impl FiniteField {
    /// The size of the field, as mathematics.
    pub closed spec fn modulus(&self) -> int {
        integer_value(self.size)
    }

    /// The field of the given size where the primality test has not said
    /// that the size is no prime, and where the size is not zero.
    pub fn from_verdict(size: Integer, may_be_prime: bool) -> (r: Option<FiniteField>)
        ensures
            r is Some <==> may_be_prime && integer_value(size) != 0,
            r matches Some(f) ==> f.modulus() == integer_value(size) && f.valid(),
    {
        let zero = integer_from_i64(0);
        if may_be_prime && (integer_lt(&size, &zero) || integer_lt(&zero, &size)) {
            Some(FiniteField { size })
        } else {
            None
        }
    }

    /// The field of the given size, unless a primality test of thirty rounds
    /// says that the size is no prime. A prime always gives its field; zero
    /// never gives one.
    pub fn new(size: Integer) -> (r: Option<FiniteField>)
        ensures
            is_prime(integer_value(size)) ==> r is Some,
            integer_value(size) == 0 ==> r is None,
            r matches Some(f) ==> f.modulus() == integer_value(size) && f.valid(),
    {
        let verdict = integer_may_be_prime(&size, 30);
        FiniteField::from_verdict(size, verdict)
    }

    /// The size of the field.
    pub fn get_size(&self) -> (r: Integer)
        ensures
            integer_value(r) == self.modulus(),
    {
        self.size.clone()
    }

    fn mod_num(&self) -> (r: &Integer)
        ensures
            integer_value(*r) == self.modulus(),
    {
        &self.size
    }

    /// The extended Euclidean algorithm on the integers that stand for `a`
    /// and `b`: the greatest common divisor and the two coefficients, each
    /// as an element of the field of `a`.
    pub fn extended_euclidean(&self, a: &Element<FiniteField>, b: &Element<FiniteField>) -> (r: (
        Element<FiniteField>,
        Element<FiniteField>,
        Element<FiniteField>,
    ))
        requires
            a.structure().valid(),
        ensures
            r.0.structure() == a.structure(),
            r.1.structure() == a.structure(),
            r.2.structure() == a.structure(),
            r.0.value() == a.structure().representation_of(bezout(a.value(), b.value()).0),
            r.1.value() == a.structure().representation_of(bezout(a.value(), b.value()).1),
            r.2.value() == a.structure().representation_of(bezout(a.value(), b.value()).2),
    {
        let (d, x, y) = extended_euclidean_to_integers(a, b);
        (
            Element::new(a.get_outer_structure(), d),
            Element::new(a.get_outer_structure(), x),
            Element::new(a.get_outer_structure(), y),
        )
    }
}

impl HasMulInv for FiniteField {
    open spec fn can_invert(&self) -> bool {
        true
    }

    open spec fn inverse(&self, outer: FiniteField, a: int) -> int {
        outer.representation_of(bezout(self.modulus(), a).2)
    }

    fn inv(&self, a: &Element<Self>) -> (r: Element<Self>) {
        let (_, _, y) = extended_euclidean_ordered(self.mod_num(), a.get_rep());
        Element::new(a.get_outer_structure(), y)
    }
}

/// In the field of a prime, every element but zero has an inverse: its
/// product with what `inv` gives is one.
pub proof fn law_field_inverse(f: FiniteField, a: int)
    requires
        is_prime(f.modulus()),
        a % f.modulus() != 0,
    ensures
        f.product(f, a, f.inverse(f, a)) == 1,
{
    let p = f.modulus();
    law_prime_is_coprime(p, a);
    law_coefficient_is_inverse(p, a);
    lemma_remainder_of_remainder(a * (bezout(p, a).2 % p), p);
    lemma_small_mod(1, p as nat);
}

/// In the group by a prime, every element has an inverse: its product with
/// what `inv` gives is one.
pub proof fn law_group_inverse(g: MultiplicativeGroup, a: int)
    requires
        is_prime(g.modulus()),
        a % g.modulus() != 0,
    ensures
        g.product(g, a, g.inverse(g, a)) == 1,
{
    let p = g.modulus();
    law_prime_is_coprime(p, a);
    law_coefficient_is_inverse(p, a);
    let y = bezout(p, a).2;
    lemma_small_mod(1, p as nat);
    if y % p == 0 {
        assert(a * 0 == 0) by (nonlinear_arith);
        lemma_small_mod(0, p as nat);
        assert(false);
    }
    lemma_remainder_of_remainder(a * (y % p), p);
    lemma_remainder_of_remainder(1, p);
}

/// The group, under multiplication, of the integers by a modulus that are
/// not zero.
#[derive(Debug, Clone)]
pub struct MultiplicativeGroup {
    mod_num: Integer,
}

impl HasRepresentation for MultiplicativeGroup {
    open spec fn valid(&self) -> bool {
        self.modulus() != 0
    }

    open spec fn representation_of(&self, v: int) -> int {
        if v % self.modulus() == 0 {
            1
        } else {
            v % self.modulus()
        }
    }

    /// The remainder of `repr` by the modulus. Zero is not in the group: for
    /// a multiple of the modulus the identity is taken to be meant, and one
    /// is given.
    fn make_representation(&self, repr: Integer) -> (r: Integer) {
        let representation = integer_div_rem_euc(&repr, self.mod_num()).1;
        let zero = integer_from_i64(0);
        if !integer_lt(&representation, &zero) && !integer_lt(&zero, &representation) {
            integer_from_i64(1)
        } else {
            representation
        }
    }
}

impl HasMul for MultiplicativeGroup {
    open spec fn can_multiply(&self) -> bool {
        self.modulus() != 0
    }

    open spec fn product(&self, outer: MultiplicativeGroup, a: int, b: int) -> int {
        outer.representation_of((a * b) % self.modulus())
    }

    open spec fn power_of(&self, outer: MultiplicativeGroup, a: int, e: int) -> int {
        outer.representation_of(power(a, e) % self.modulus())
    }

    fn mul(&self, a: &Element<MultiplicativeGroup>, b: &Element<MultiplicativeGroup>) -> (r:
        Element<MultiplicativeGroup>) {
        Element::new(
            a.get_outer_structure(),
            integer_div_rem_euc(&integer_mul(a.get_rep(), b.get_rep()), self.mod_num()).1,
        )
    }

    fn pow(&self, a: &Element<Self>, b: &Integer) -> (r: Element<Self>) {
        Element::new(a.get_outer_structure(), pow_rug(a.get_rep(), b, self.mod_num()))
    }
}

impl MultiplicativeGroup {
    /// The modulus of the group, as mathematics.
    pub closed spec fn modulus(&self) -> int {
        integer_value(self.mod_num)
    }

    /// The group by the given modulus.
    pub fn new(mod_num: Integer) -> (r: MultiplicativeGroup)
        ensures
            r.modulus() == integer_value(mod_num),
    {
        MultiplicativeGroup { mod_num }
    }

    /// The group of the units of a field.
    pub fn from_finite_field(finite_field: &FiniteField) -> (r: MultiplicativeGroup)
        ensures
            r.modulus() == finite_field.modulus(),
    {
        let mod_num = finite_field.mod_num().clone();
        MultiplicativeGroup { mod_num }
    }

    /// The modulus of the group.
    pub fn mod_num(&self) -> (r: &Integer)
        ensures
            integer_value(*r) == self.modulus(),
    {
        &self.mod_num
    }

    /// The number of elements of the group by a prime modulus: the modulus
    /// less one.
    pub fn get_size(&self) -> (r: Integer)
        ensures
            integer_value(r) == self.modulus() - 1,
    {
        integer_sub(self.mod_num(), &integer_from_i64(1))
    }
}

impl HasMulInv for MultiplicativeGroup {
    open spec fn can_invert(&self) -> bool {
        true
    }

    open spec fn inverse(&self, outer: MultiplicativeGroup, a: int) -> int {
        outer.representation_of(bezout(self.modulus(), a).2)
    }

    fn inv(&self, a: &Element<Self>) -> (r: Element<Self>) {
        let (_, _, y) = extended_euclidean_ordered(self.mod_num(), a.get_rep());
        Element::new(a.get_outer_structure(), y)
    }
}

} // verus!
