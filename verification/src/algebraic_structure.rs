//! Algebraic structures and their elements. A structure says how an integer
//! stands for one of its elements and how elements are combined; an element
//! holds its structure and the integer that stands for it.

use crate::number::{integer_value, share};
use rug::Integer;
use std::sync::Arc;
use vstd::prelude::*;

pub mod finite_field;

verus! {

/// A structure whose elements are written as integers.
pub trait HasRepresentation {
    /// The structure can represent: its operations are defined.
    spec fn valid(&self) -> bool;

    /// The integer that stands for the element that `v` names.
    spec fn representation_of(&self, v: int) -> int;

    /// The integer that stands for the element that `repr` names.
    fn make_representation(&self, repr: Integer) -> (r: Integer)
        requires
            self.valid(),
        ensures
            integer_value(r) == self.representation_of(integer_value(repr)),
    ;
}

/// An element of the structure `T`.
#[derive(Debug, Clone)]
pub struct Element<T: HasRepresentation + Clone> {
    outer_structure: Arc<T>,
    representation: Integer,
}

/// A structure with a multiplication.
pub trait HasMul<T: HasRepresentation + Clone = Self> {
    /// The structure can multiply.
    spec fn can_multiply(&self) -> bool;

    /// The integer that stands for the product of the elements of `outer`
    /// that `a` and `b` stand for.
    spec fn product(&self, outer: T, a: int, b: int) -> int;

    /// The integer that stands for the power `e` of the element of `outer`
    /// that `a` stands for.
    spec fn power_of(&self, outer: T, a: int, e: int) -> int;

    /// The product of `a` and `b`, an element of the structure of `a`.
    fn mul(&self, a: &Element<T>, b: &Element<T>) -> (r: Element<T>)
        requires
            self.can_multiply(),
            a.structure().valid(),
        ensures
            r.structure() == a.structure(),
            r.value() == self.product(a.structure(), a.value(), b.value()),
    ;

    /// `a` to the power `b`, an element of the structure of `a`.
    fn pow(&self, a: &Element<T>, b: &Integer) -> (r: Element<T>)
        requires
            self.can_multiply(),
            a.structure().valid(),
        ensures
            r.structure() == a.structure(),
            r.value() == self.power_of(a.structure(), a.value(), integer_value(*b)),
    ;
}

/// A structure with an addition.
pub trait HasAdd<T: HasRepresentation + Clone = Self> {
    /// The structure can add.
    spec fn can_add(&self) -> bool;

    /// The integer that stands for the sum of the elements of `outer` that
    /// `a` and `b` stand for.
    spec fn sum(&self, outer: T, a: int, b: int) -> int;

    /// The sum of `a` and `b`, an element of the structure of `a`.
    fn add(&self, a: &Element<T>, b: &Element<T>) -> (r: Element<T>)
        requires
            self.can_add(),
            a.structure().valid(),
        ensures
            r.structure() == a.structure(),
            r.value() == self.sum(a.structure(), a.value(), b.value()),
    ;
}

/// A structure with inverses for its multiplication.
pub trait HasMulInv<T: HasRepresentation + HasMul + Clone = Self> {
    /// The structure can invert.
    spec fn can_invert(&self) -> bool;

    /// The integer that stands for the inverse of the element of `outer`
    /// that `a` stands for.
    spec fn inverse(&self, outer: T, a: int) -> int;

    /// The inverse of `a`, an element of the structure of `a`.
    fn inv(&self, a: &Element<T>) -> (r: Element<T>)
        requires
            self.can_invert(),
            a.structure().valid(),
        ensures
            r.structure() == a.structure(),
            r.value() == self.inverse(a.structure(), a.value()),
    ;
}

impl<T: HasRepresentation + Clone> Element<T> {
    /// The structure that the element belongs to.
    pub closed spec fn structure(&self) -> T {
        *self.outer_structure
    }

    /// The integer that stands for the element.
    pub closed spec fn value(&self) -> int {
        integer_value(self.representation)
    }

    /// The element of `outer_structure` that `repr` names.
    pub fn new(outer_structure: Arc<T>, repr: Integer) -> (e: Element<T>)
        requires
            outer_structure.valid(),
        ensures
            e.structure() == *outer_structure,
            e.value() == outer_structure.representation_of(integer_value(repr)),
    {
        let representation: Integer = outer_structure.make_representation(repr);
        Element { outer_structure, representation }
    }

    /// The structure that the element belongs to.
    pub fn get_outer_structure(&self) -> (r: Arc<T>)
        ensures
            *r == self.structure(),
    {
        share(&self.outer_structure)
    }

    /// The integer that stands for the element.
    pub fn get_rep(&self) -> (r: &Integer)
        ensures
            integer_value(*r) == self.value(),
    {
        &self.representation
    }
}

impl<T: HasMul + HasRepresentation + Clone> Element<T> {
    /// The product of this element and `_rhs`, by the multiplication of this
    /// element's structure.
    pub fn mul_ref(&self, _rhs: &Element<T>) -> (r: Element<T>)
        requires
            self.structure().can_multiply(),
            self.structure().valid(),
        ensures
            r.structure() == self.structure(),
            r.value() == self.structure().product(self.structure(), self.value(), _rhs.value()),
    {
        self.outer_structure.mul(&self, _rhs)
    }
}

impl<T: HasMul + HasRepresentation + Clone> Element<T> {
    /// This element to the power `a`.
    pub fn pow(&self, a: &Integer) -> (r: Element<T>)
        requires
            self.structure().can_multiply(),
            self.structure().valid(),
        ensures
            r.structure() == self.structure(),
            r.value() == self.structure().power_of(
                self.structure(),
                self.value(),
                integer_value(*a),
            ),
    {
        self.get_outer_structure().pow(self, a)
    }
}

impl<T: HasAdd + HasRepresentation + Clone> Element<T> {
    /// The sum of this element and `_rhs`, by the addition of this element's
    /// structure.
    pub fn add_ref(&self, _rhs: &Element<T>) -> (r: Element<T>)
        requires
            self.structure().can_add(),
            self.structure().valid(),
        ensures
            r.structure() == self.structure(),
            r.value() == self.structure().sum(self.structure(), self.value(), _rhs.value()),
    {
        self.outer_structure.add(&self, _rhs)
    }
}

impl<T: HasMulInv + HasMul + HasRepresentation + Clone> Element<T> {
    /// The inverse of this element.
    pub fn inv(&self) -> (r: Element<T>)
        requires
            self.structure().can_invert(),
            self.structure().valid(),
        ensures
            r.structure() == self.structure(),
            r.value() == self.structure().inverse(self.structure(), self.value()),
    {
        self.outer_structure.inv(&self)
    }

    /// This element divided by `_rhs`: its product with the inverse of
    /// `_rhs`, which must not be zero.
    pub fn div_ref(&self, _rhs: &Element<T>) -> (r: Element<T>)
        requires
            self.structure().can_invert(),
            self.structure().can_multiply(),
            self.structure().valid(),
            _rhs.structure().can_invert(),
            _rhs.structure().valid(),
            _rhs.value() != 0,
        ensures
            r.structure() == self.structure(),
            r.value() == self.structure().product(
                self.structure(),
                self.value(),
                _rhs.structure().inverse(_rhs.structure(), _rhs.value()),
            ),
    {
        let inverse = _rhs.inv();
        self.mul_ref(&inverse)
    }
}

} // verus!
