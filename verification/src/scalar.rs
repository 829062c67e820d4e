//! What the library asks of the scalar type of a coordinate or an angle.
//!
//! The numeric code of this library is generic in its scalar type `T`. It
//! runs on any type with the four arithmetic operators and an order, and
//! asks that the operators accept the operands they are given. What it
//! computes is stated twice: as a relation over what the operators of `T`
//! return, which holds for every `T`, and as a function over the
//! specification that `T` gives those operators, which holds for every `T`
//! whose operators follow it.

use std::ops::{Add, Div, Mul, Sub};
use vstd::prelude::*;
use vstd::std_specs::cmp::{PartialEqSpec, PartialOrdIs, PartialOrdSpec};
use vstd::std_specs::ops::{AddSpec, DivSpec, MulSpec, SubSpec};

verus! {

/// Whether comparing two values of `T` returns what the specification of
/// the order on `T` says.
pub open spec fn order_is_specified<T: PartialOrd>() -> bool {
    T::obeys_partial_cmp_spec()
}

/// `a` is greater than `b` in the order on `T`.
pub open spec fn exceeds<T: PartialOrd>(a: T, b: T) -> bool {
    a.is_gt(&b)
}

/// `a` is less than `b` in the order on `T`.
pub open spec fn below<T: PartialOrd>(a: T, b: T) -> bool {
    a.is_lt(&b)
}

/// `a` is less than or equal to `b` in the order on `T`.
pub open spec fn at_most<T: PartialOrd>(a: T, b: T) -> bool {
    a.is_le(&b)
}

/// `sum` is what `+` on `T` returns for `a` and `b`.
pub open spec fn is_sum<T: Add<Output = T>>(a: T, b: T, sum: T) -> bool {
    call_ensures(<T as Add>::add, (a, b), sum)
}

/// `difference` is what `-` on `T` returns for `a` and `b`.
pub open spec fn is_difference<T: Sub<Output = T>>(a: T, b: T, difference: T) -> bool {
    call_ensures(<T as Sub>::sub, (a, b), difference)
}

/// `product` is what `*` returns for `a` and the scalar `b`.
pub open spec fn is_product<T: Mul<U, Output = T>, U>(a: T, b: U, product: T) -> bool {
    call_ensures(<T as Mul<U>>::mul, (a, b), product)
}

/// `quotient` is what `/` on `T` returns for `a` and `b`.
pub open spec fn is_quotient<T: Div<Output = T>>(a: T, b: T, quotient: T) -> bool {
    call_ensures(<T as Div>::div, (a, b), quotient)
}

/// `yes` is what `>` on `T` returns for `a` and `b`.
pub open spec fn is_greater<T: PartialOrd>(a: T, b: T, yes: bool) -> bool {
    call_ensures(<T as PartialOrd>::gt, (&a, &b), yes)
}

/// `yes` is what `<` on `T` returns for `a` and `b`.
pub open spec fn is_less<T: PartialOrd>(a: T, b: T, yes: bool) -> bool {
    call_ensures(<T as PartialOrd>::lt, (&a, &b), yes)
}

/// `yes` is what `==` on `T` returns for `a` and `b`.
pub open spec fn is_equal<T: PartialEq>(a: T, b: T, yes: bool) -> bool {
    call_ensures(<T as PartialEq>::eq, (&a, &b), yes)
}

/// `+` on `T` accepts the operands `a` and `b`.
pub open spec fn accepts_sum<T: Add<Output = T>>(a: T, b: T) -> bool {
    call_requires(<T as Add>::add, (a, b))
}

/// `-` on `T` accepts the operands `a` and `b`.
pub open spec fn accepts_difference<T: Sub<Output = T>>(a: T, b: T) -> bool {
    call_requires(<T as Sub>::sub, (a, b))
}

/// `*` accepts the operand `a` and the scalar `b`.
pub open spec fn accepts_product<T: Mul<U, Output = T>, U>(a: T, b: U) -> bool {
    call_requires(<T as Mul<U>>::mul, (a, b))
}

/// `/` on `T` accepts the operands `a` and `b`.
pub open spec fn accepts_quotient<T: Div<Output = T>>(a: T, b: T) -> bool {
    call_requires(<T as Div>::div, (a, b))
}

/// Whether the four arithmetic operators of `T` accept every pair of
/// operands.
pub open spec fn arithmetic_is_total<T>() -> bool where
    T: Add<Output = T> + Sub<Output = T> + Mul<Output = T> + Div<Output = T>,
 {
    &&& forall|a: T, b: T| #[trigger] accepts_sum(a, b)
    &&& forall|a: T, b: T| #[trigger] accepts_difference(a, b)
    &&& forall|a: T, b: T| #[trigger] accepts_product(a, b)
    &&& forall|a: T, b: T| #[trigger] accepts_quotient(a, b)
}

/// Whether the four arithmetic operators of `T` return what their
/// specification says.
pub open spec fn operators_are_specified<T>() -> bool where
    T: Add<Output = T> + Sub<Output = T> + Mul<Output = T> + Div<Output = T>,
 {
    &&& <T as AddSpec>::obeys_add_spec()
    &&& <T as SubSpec>::obeys_sub_spec()
    &&& <T as MulSpec>::obeys_mul_spec()
    &&& <T as DivSpec>::obeys_div_spec()
}

/// Whether the arithmetic operators, the equality and the order of `T`
/// return what their specification says.
pub open spec fn arithmetic_is_specified<T>() -> bool where
    T: PartialOrd + Add<Output = T> + Sub<Output = T> + Mul<Output = T> + Div<Output = T>,
 {
    &&& operators_are_specified::<T>()
    &&& order_is_specified::<T>()
    &&& T::obeys_eq_spec()
}

/// The order on `T` is total and transitive on the values of `s`: of any
/// two of them one is at most the other, and never also above it.
pub open spec fn totally_ordered<T: PartialOrd>(s: Seq<T>) -> bool {
    &&& forall|a: T, b: T|
        #![trigger s.contains(a), s.contains(b)]
        s.contains(a) && s.contains(b) ==> (at_most(a, b) <==> !exceeds(a, b))
    &&& forall|a: T, b: T|
        #![trigger s.contains(a), s.contains(b)]
        s.contains(a) && s.contains(b) ==> (exceeds(a, b) <==> below(b, a))
    &&& forall|a: T, b: T|
        #![trigger s.contains(a), s.contains(b)]
        s.contains(a) && s.contains(b) ==> (exceeds(a, b) ==> at_most(b, a))
    &&& forall|a: T, b: T, c: T|
        #![trigger at_most(a, b), at_most(b, c), s.contains(a)]
        s.contains(a) && s.contains(b) && s.contains(c) && at_most(a, b) && at_most(b, c)
            ==> at_most(a, c)
}

/// An order that is total and transitive on the values of a sequence is so
/// on the values of any sequence that holds no other values.
pub proof fn lemma_order_of_part<T: PartialOrd>(whole: Seq<T>, part: Seq<T>)
    requires
        totally_ordered(whole),
        forall|i: int| 0 <= i < part.len() ==> whole.contains(#[trigger] part[i]),
    ensures
        totally_ordered(part),
{
    assert forall|a: T| part.contains(a) implies whole.contains(a) by {
        let i = choose|i: int| 0 <= i < part.len() && part[i] == a;
        assert(whole.contains(part[i]));
    }
}

} // verus!
