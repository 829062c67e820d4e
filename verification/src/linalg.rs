//! Fixed-size numeric vectors.
//!
//! A `Vector` is generic in its component type. Each component of a result
//! is stated to be what the operator of the component type returns, and,
//! for a type whose operators follow their specification, to be the value
//! that the specification gives.

use crate::scalar::{
    accepts_difference, accepts_product, accepts_sum, at_most, exceeds, is_difference, is_greater,
    is_product, is_sum, lemma_order_of_part, order_is_specified, totally_ordered,
};
use std::ops::{Add, Mul, Sub};
use vstd::prelude::*;
use vstd::std_specs::ops::{AddSpec, MulSpec, SubSpec};

verus! {

/// A vector of `SIZE` components.
#[derive(Clone, Copy, Debug, PartialEq, Eq, PartialOrd, Ord)]
pub struct Vector<T, const SIZE: usize>(pub [T; SIZE]);

/// A vector of three components.
pub type Vec3<T> = Vector<T, 3>;

impl<T, const SIZE: usize> View for Vector<T, SIZE> {
    type V = Seq<T>;

    open spec fn view(&self) -> Seq<T> {
        self.0@
    }
}

/// The greatest of the values of a non-empty sequence: the first of them
/// that none of the later ones exceeds.
pub open spec fn max_of<T: PartialOrd>(s: Seq<T>) -> T
    recommends
        s.len() > 0,
    decreases s.len(),
{
    if s.len() <= 1 {
        s[0]
    } else {
        let before = max_of(s.drop_last());
        if exceeds(s.last(), before) {
            s.last()
        } else {
            before
        }
    }
}

/// Whether `m` is the greatest of the values of a non-empty sequence as
/// `>` on `T` decides it: the first value, replaced in turn by each later
/// one for which `>` says that it is greater than what was found before it.
pub open spec fn tracks_greatest<T: PartialOrd>(s: Seq<T>, m: T) -> bool
    decreases s.len(),
{
    if s.len() <= 1 {
        s.len() == 1 && m == s[0]
    } else {
        exists|before: T, yes: bool|
            {
                &&& tracks_greatest(s.drop_last(), before)
                &&& #[trigger] is_greater(s.last(), before, yes)
                &&& m == (if yes {
                    s.last()
                } else {
                    before
                })
            }
    }
}

/// The greatest value of a non-empty sequence is one of its values.
pub proof fn lemma_max_of_is_member<T: PartialOrd>(s: Seq<T>)
    requires
        s.len() > 0,
    ensures
        exists|i: int| 0 <= i < s.len() && max_of(s) == s[i],
    decreases s.len(),
{
    if s.len() <= 1 {
        assert(max_of(s) == s[0]);
    } else {
        lemma_max_of_is_member(s.drop_last());
        let i = choose|i: int| 0 <= i < s.len() - 1 && max_of(s.drop_last()) == s.drop_last()[i];
        if exceeds(s.last(), max_of(s.drop_last())) {
            assert(max_of(s) == s[s.len() - 1]);
        } else {
            assert(max_of(s) == s[i]);
        }
    }
}

/// Where the order is total and transitive on the values of a sequence, no
/// value of the sequence exceeds its greatest value.
pub proof fn lemma_max_of_is_upper_bound<T: PartialOrd>(s: Seq<T>, j: int)
    requires
        totally_ordered(s),
        0 <= j < s.len(),
    ensures
        at_most(s[j], max_of(s)),
    decreases s.len(),
{
    assert(s.contains(s[j]));
    if s.len() > 1 {
        let front = s.drop_last();
        lemma_order_of_part(s, front);
        lemma_max_of_is_member(front);
        let before = choose|i: int| 0 <= i < front.len() && max_of(front) == front[i];
        assert(s.contains(s[before]));
        assert(s.contains(s.last()));
        if j < s.len() - 1 {
            lemma_max_of_is_upper_bound(front, j);
        }
    }
}

impl<T: Copy, const SIZE: usize> Vector<T, SIZE> {
    /// The vector whose components all are `value`.
    pub fn new(value: T) -> (v: Self)
        ensures
            v@ == Seq::new(SIZE as nat, |i: int| value),
    {
        let v = Self([value;SIZE]);
        assert(v@ =~= Seq::new(SIZE as nat, |i: int| value));
        v
    }

    /// The component at `idx`, or nothing where `idx` is out of range.
    pub fn get(&self, idx: usize) -> (r: Option<&T>)
        ensures
            idx < SIZE ==> r == Some(&self@[idx as int]),
            idx >= SIZE ==> r is None,
    {
        if idx < SIZE {
            Some(&self.0[idx])
        } else {
            None
        }
    }

    /// A place to write the component at `idx`, or nothing where `idx` is
    /// out of range. Writing there changes that component and no other.
    pub fn get_mut(&mut self, idx: usize) -> (r: Option<&mut T>)
        ensures
            idx >= SIZE ==> r is None && *final(self) == *old(self),
            idx < SIZE ==> r is Some && *r.unwrap() == old(self)@[idx as int] && final(self)@
                == old(self)@.update(idx as int, *final(r.unwrap())),
    {
        if idx < SIZE {
            Some(&mut self.0[idx])
        } else {
            None
        }
    }
}

impl<T: Copy + PartialOrd, const SIZE: usize> Vector<T, SIZE> {
    /// The greatest component.
    pub fn get_max(&self) -> (m: T)
        requires
            SIZE > 0,
        ensures
            tracks_greatest(self@, m),
            order_is_specified::<T>() ==> m == max_of(self@),
            exists|i: int| 0 <= i < SIZE && m == self@[i],
    {
        let mut best: T = self.0[0];
        let ghost mut at: int = 0;
        let mut i: usize = 1;
        proof {
            assert(self@.take(1).len() == 1);
            assert(max_of(self@.take(1)) == self@[0]);
        }
        while i < SIZE
            invariant
                1 <= i <= SIZE,
                0 <= at < SIZE,
                best == self@[at],
                tracks_greatest(self@.take(i as int), best),
                order_is_specified::<T>() ==> best == max_of(self@.take(i as int)),
            decreases SIZE - i,
        {
            let ghost before = best;
            proof {
                assert(self@.take(i + 1).drop_last() =~= self@.take(i as int));
                assert(self@.take(i + 1).last() == self@[i as int]);
            }
            let above: bool = self.0[i] > best;
            if above {
                best = self.0[i];
                proof {
                    at = i as int;
                }
            }
            proof {
                assert(tracks_greatest(self@.take(i + 1).drop_last(), before));
                assert(is_greater(self@.take(i + 1).last(), before, above));
            }
            i += 1;
        }
        assert(self@.take(i as int) =~= self@);
        best
    }
}

/// Whether the components of `sum` are the sums of the components of `a`
/// and `b`, as the specification of `+` on `T` gives them.
pub open spec fn holds_sums<T: Add<Output = T>, const SIZE: usize>(
    a: Vector<T, SIZE>,
    b: Vector<T, SIZE>,
    sum: Vector<T, SIZE>,
) -> bool {
    forall|i: int| 0 <= i < SIZE ==> #[trigger] sum@[i] == a@[i].add_spec(b@[i])
}

/// The vector that holds the sums of the components of `a` and `b`.
pub open spec fn sum_of<T: Add<Output = T>, const SIZE: usize>(
    a: Vector<T, SIZE>,
    b: Vector<T, SIZE>,
) -> Vector<T, SIZE> {
    choose|sum: Vector<T, SIZE>| holds_sums(a, b, sum)
}

/// Whether the components of `difference` are the differences of the
/// components of `a` and `b`, as the specification of `-` on `T` gives
/// them.
pub open spec fn holds_differences<T: Sub<Output = T>, const SIZE: usize>(
    a: Vector<T, SIZE>,
    b: Vector<T, SIZE>,
    difference: Vector<T, SIZE>,
) -> bool {
    forall|i: int| 0 <= i < SIZE ==> #[trigger] difference@[i] == a@[i].sub_spec(b@[i])
}

/// The vector that holds the differences of the components of `a` and `b`.
pub open spec fn difference_of<T: Sub<Output = T>, const SIZE: usize>(
    a: Vector<T, SIZE>,
    b: Vector<T, SIZE>,
) -> Vector<T, SIZE> {
    choose|difference: Vector<T, SIZE>| holds_differences(a, b, difference)
}

impl<T: Copy + Add<Output = T>, const SIZE: usize> vstd::std_specs::ops::AddSpecImpl for Vector<T, SIZE> {
    /// The sum of two vectors follows its specification where the sum of
    /// two components does.
    open spec fn obeys_add_spec() -> bool {
        T::obeys_add_spec()
    }

    /// Two vectors can be added where `+` on `T` accepts each pair of
    /// their components.
    open spec fn add_req(self, rhs: Self) -> bool {
        forall|i: int| 0 <= i < SIZE ==> accepts_sum(#[trigger] self@[i], rhs@[i])
    }

    /// The vector of the sums of the components.
    open spec fn add_spec(self, rhs: Self) -> Self {
        sum_of(self, rhs)
    }
}

impl<T: Copy + Add<Output = T>, const SIZE: usize> Add for Vector<T, SIZE> {
    type Output = Self;

    /// The component-wise sum.
    fn add(self, rhs: Self) -> (sum: Self)
        ensures
            forall|i: int| 0 <= i < SIZE ==> is_sum(self@[i], rhs@[i], #[trigger] sum@[i]),
            T::obeys_add_spec() ==> holds_sums(self, rhs, sum),
    {
        let mut res = self.0;
        let mut i: usize = 0;
        while i < SIZE
            invariant
                i <= SIZE,
                forall|j: int| 0 <= j < SIZE ==> accepts_sum(#[trigger] self@[j], rhs@[j]),
                forall|j: int| i <= j < SIZE ==> res@[j] == self@[j],
                forall|j: int| 0 <= j < i ==> is_sum(self@[j], rhs@[j], #[trigger] res@[j]),
                T::obeys_add_spec() ==> forall|j: int|
                    0 <= j < i ==> #[trigger] res@[j] == self@[j].add_spec(rhs@[j]),
            decreases SIZE - i,
        {
            res[i] = res[i] + rhs.0[i];
            i += 1;
        }
        let sum = Self(res);
        proof {
            if T::obeys_add_spec() {
                let chosen = sum_of(self, rhs);
                assert(holds_sums(self, rhs, sum));
                assert(chosen@ =~= sum@);
                assert(chosen.0 =~= sum.0);
            }
        }
        sum
    }
}

impl<T: Copy + Sub<Output = T>, const SIZE: usize> vstd::std_specs::ops::SubSpecImpl for Vector<T, SIZE> {
    /// The difference of two vectors follows its specification where the
    /// difference of two components does.
    open spec fn obeys_sub_spec() -> bool {
        T::obeys_sub_spec()
    }

    /// Two vectors can be subtracted where `-` on `T` accepts each pair of
    /// their components.
    open spec fn sub_req(self, rhs: Self) -> bool {
        forall|i: int| 0 <= i < SIZE ==> accepts_difference(#[trigger] self@[i], rhs@[i])
    }

    /// The vector of the differences of the components.
    open spec fn sub_spec(self, rhs: Self) -> Self {
        difference_of(self, rhs)
    }
}

impl<T: Copy + Sub<Output = T>, const SIZE: usize> Sub for Vector<T, SIZE> {
    type Output = Self;

    /// The component-wise difference.
    fn sub(self, rhs: Self) -> (difference: Self)
        ensures
            forall|i: int|
                0 <= i < SIZE ==> is_difference(self@[i], rhs@[i], #[trigger] difference@[i]),
            T::obeys_sub_spec() ==> holds_differences(self, rhs, difference),
    {
        let mut res = self.0;
        let mut i: usize = 0;
        while i < SIZE
            invariant
                i <= SIZE,
                forall|j: int| 0 <= j < SIZE ==> accepts_difference(#[trigger] self@[j], rhs@[j]),
                forall|j: int| i <= j < SIZE ==> res@[j] == self@[j],
                forall|j: int| 0 <= j < i ==> is_difference(self@[j], rhs@[j], #[trigger] res@[j]),
                T::obeys_sub_spec() ==> forall|j: int|
                    0 <= j < i ==> #[trigger] res@[j] == self@[j].sub_spec(rhs@[j]),
            decreases SIZE - i,
        {
            res[i] = res[i] - rhs.0[i];
            i += 1;
        }
        let difference = Self(res);
        proof {
            if T::obeys_sub_spec() {
                let chosen = difference_of(self, rhs);
                assert(holds_differences(self, rhs, difference));
                assert(chosen@ =~= difference@);
                assert(chosen.0 =~= difference.0);
            }
        }
        difference
    }
}

/// Moving a vector by another, and scaling it by a scalar of type `U`.
pub trait VecOps<U>: Sized {
    /// Whether `self` can be moved by `op`.
    spec fn can_translate(self, op: &Self) -> bool;

    /// Whether `moved` is `self` moved by `op`.
    spec fn is_translated(self, op: &Self, moved: Self) -> bool;

    /// Whether `self` can be scaled by `scalar`.
    spec fn can_scale(self, scalar: U) -> bool;

    /// Whether `scaled` is `self` scaled by `scalar`.
    spec fn is_scaled(self, scalar: U, scaled: Self) -> bool;

    /// Adds `op` to `self`, component by component.
    fn translate(self, op: &Self) -> (moved: Self)
        requires
            self.can_translate(op),
        ensures
            self.is_translated(op, moved),
    ;

    /// Multiplies every component of `self` by `scalar`.
    fn scale(self, scalar: U) -> (scaled: Self)
        requires
            self.can_scale(scalar),
        ensures
            self.is_scaled(scalar, scaled),
    ;
}

impl<T, U, const SIZE: usize> VecOps<U> for Vector<T, SIZE> where
    U: Copy,
    T: Copy + Add<Output = T> + Mul<U, Output = T>,
 {
    open spec fn can_translate(self, op: &Self) -> bool {
        forall|i: int| 0 <= i < SIZE ==> accepts_sum(#[trigger] self@[i], op@[i])
    }

    open spec fn is_translated(self, op: &Self, moved: Self) -> bool {
        &&& forall|i: int| 0 <= i < SIZE ==> is_sum(self@[i], op@[i], #[trigger] moved@[i])
        &&& T::obeys_add_spec() ==> forall|i: int|
            0 <= i < SIZE ==> #[trigger] moved@[i] == self@[i].add_spec(op@[i])
    }

    open spec fn can_scale(self, scalar: U) -> bool {
        forall|i: int| 0 <= i < SIZE ==> accepts_product(#[trigger] self@[i], scalar)
    }

    open spec fn is_scaled(self, scalar: U, scaled: Self) -> bool {
        &&& forall|i: int| 0 <= i < SIZE ==> is_product(self@[i], scalar, #[trigger] scaled@[i])
        &&& <T as MulSpec<U>>::obeys_mul_spec() ==> forall|i: int|
            0 <= i < SIZE ==> #[trigger] scaled@[i] == self@[i].mul_spec(scalar)
    }

    fn translate(self, op: &Self) -> (moved: Self) {
        let mut res = self.0;
        let mut i: usize = 0;
        while i < SIZE
            invariant
                i <= SIZE,
                self.can_translate(op),
                forall|j: int| i <= j < SIZE ==> res@[j] == self@[j],
                forall|j: int| 0 <= j < i ==> is_sum(self@[j], op@[j], #[trigger] res@[j]),
                T::obeys_add_spec() ==> forall|j: int|
                    0 <= j < i ==> #[trigger] res@[j] == self@[j].add_spec(op@[j]),
            decreases SIZE - i,
        {
            res[i] = res[i] + op.0[i];
            i += 1;
        }
        Self(res)
    }

    fn scale(self, scalar: U) -> (scaled: Self) {
        let mut res = self.0;
        let mut i: usize = 0;
        while i < SIZE
            invariant
                i <= SIZE,
                self.can_scale(scalar),
                forall|j: int| i <= j < SIZE ==> res@[j] == self@[j],
                forall|j: int| 0 <= j < i ==> is_product(self@[j], scalar, #[trigger] res@[j]),
                <T as MulSpec<U>>::obeys_mul_spec() ==> forall|j: int|
                    0 <= j < i ==> #[trigger] res@[j] == self@[j].mul_spec(scalar),
            decreases SIZE - i,
        {
            res[i] = res[i] * scalar;
            i += 1;
        }
        Self(res)
    }
}

} // verus!
