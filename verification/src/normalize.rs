//! Bounding extent of a mesh and rescaling into the viewing volume.
//!
//! The vertex components of a mesh come as one flat sequence, three for each
//! vertex, and the component with index `k` lies on axis `k % 3`. The mesh
//! is moved so that the middle of its bounding box comes to lie at the
//! origin, and shrunk by the largest half-length of that box.
//!
//! The code is generic in the scalar type `T` of a coordinate, and its
//! contracts are stated over the specification of the operators of `T`. The
//! caller supplies the constants of `T` that the arithmetic needs.

use crate::linalg::{max_of, tracks_greatest, Vec3, VecOps, Vector};
use crate::scalar::{
    accepts_difference, accepts_product, accepts_quotient, accepts_sum, arithmetic_is_specified,
    arithmetic_is_total, at_most, below, exceeds, is_difference, is_equal, is_greater, is_less,
    is_product, is_quotient, is_sum, lemma_order_of_part, order_is_specified, totally_ordered,
};
use crate::stl::{FormatErrorKind, InvalidFileContentError};
use std::ops::{Add, Div, Mul, Sub};
use vstd::prelude::*;
use vstd::std_specs::cmp::PartialEqSpec;
use vstd::std_specs::ops::{AddSpec, DivSpec, MulSpec, SubSpec};

verus! {

/// The constants of a scalar type that decoding a mesh needs.
#[derive(Clone, Copy, Debug, PartialEq)]
pub struct Scalars<T> {
    /// The additive identity: a mesh whose scale factor equals it is
    /// degenerate.
    pub zero: T,
    /// One half, by which the lengths of the bounding box are multiplied.
    pub half: T,
    /// A value that no coordinate is less than: the running maximum starts
    /// from it.
    pub lowest: T,
    /// A value that no coordinate is greater than: the running minimum
    /// starts from it.
    pub highest: T,
}

/// The least and the greatest coordinate of a mesh on each axis.
#[derive(Clone, Copy, Debug, PartialEq)]
pub struct BoundingExtent<T> {
    pub min: Vec3<T>,
    pub max: Vec3<T>,
}

/// The running maximum on one axis: `lowest`, replaced in turn by each
/// component on that axis that exceeds what was found before it.
pub open spec fn axis_max<T: PartialOrd>(values: Seq<T>, axis: int, lowest: T) -> T
    decreases values.len(),
{
    if values.len() == 0 {
        lowest
    } else {
        let before = axis_max(values.drop_last(), axis, lowest);
        if (values.len() - 1) % 3 == axis && exceeds(values.last(), before) {
            values.last()
        } else {
            before
        }
    }
}

/// The running minimum on one axis: `highest`, replaced in turn by each
/// component on that axis that is below what was found before it.
pub open spec fn axis_min<T: PartialOrd>(values: Seq<T>, axis: int, highest: T) -> T
    decreases values.len(),
{
    if values.len() == 0 {
        highest
    } else {
        let before = axis_min(values.drop_last(), axis, highest);
        if (values.len() - 1) % 3 == axis && below(values.last(), before) {
            values.last()
        } else {
            before
        }
    }
}

/// Whether `m` is the running maximum on one axis as `>` on `T` decides it:
/// `lowest`, replaced in turn by each component on that axis for which `>`
/// says that it is greater than what was found before it.
pub open spec fn tracks_max<T: PartialOrd>(values: Seq<T>, axis: int, lowest: T, m: T) -> bool
    decreases values.len(),
{
    if values.len() == 0 {
        m == lowest
    } else if (values.len() - 1) % 3 != axis {
        tracks_max(values.drop_last(), axis, lowest, m)
    } else {
        exists|before: T, yes: bool|
            {
                &&& tracks_max(values.drop_last(), axis, lowest, before)
                &&& #[trigger] is_greater(values.last(), before, yes)
                &&& m == (if yes {
                    values.last()
                } else {
                    before
                })
            }
    }
}

/// Whether `m` is the running minimum on one axis as `<` on `T` decides it:
/// `highest`, replaced in turn by each component on that axis for which `<`
/// says that it is less than what was found before it.
pub open spec fn tracks_min<T: PartialOrd>(values: Seq<T>, axis: int, highest: T, m: T) -> bool
    decreases values.len(),
{
    if values.len() == 0 {
        m == highest
    } else if (values.len() - 1) % 3 != axis {
        tracks_min(values.drop_last(), axis, highest, m)
    } else {
        exists|before: T, yes: bool|
            {
                &&& tracks_min(values.drop_last(), axis, highest, before)
                &&& #[trigger] is_less(values.last(), before, yes)
                &&& m == (if yes {
                    values.last()
                } else {
                    before
                })
            }
    }
}

/// Whether `v` is the starting value `start` or one of the components of
/// `values` on the axis `axis`.
pub open spec fn found_on_axis<T>(v: T, values: Seq<T>, axis: int, start: T) -> bool {
    v == start || exists|k: int| 0 <= k < values.len() && k % 3 == axis && #[trigger] values[k] == v
}

/// The running maximum on an axis is the starting value or one of the
/// components on that axis.
pub proof fn lemma_axis_max_is_found<T: PartialOrd>(values: Seq<T>, axis: int, lowest: T)
    ensures
        found_on_axis(axis_max(values, axis, lowest), values, axis, lowest),
    decreases values.len(),
{
    if values.len() > 0 {
        let front = values.drop_last();
        lemma_axis_max_is_found(front, axis, lowest);
        let last = values.len() - 1;
        if last % 3 == axis && exceeds(values.last(), axis_max(front, axis, lowest)) {
            assert(axis_max(values, axis, lowest) == values[last]);
        } else if axis_max(front, axis, lowest) != lowest {
            let k = choose|k: int|
                0 <= k < front.len() && k % 3 == axis && front[k] == axis_max(front, axis, lowest);
            assert(values[k] == axis_max(values, axis, lowest));
        }
    }
}

/// The running minimum on an axis is the starting value or one of the
/// components on that axis.
pub proof fn lemma_axis_min_is_found<T: PartialOrd>(values: Seq<T>, axis: int, highest: T)
    ensures
        found_on_axis(axis_min(values, axis, highest), values, axis, highest),
    decreases values.len(),
{
    if values.len() > 0 {
        let front = values.drop_last();
        lemma_axis_min_is_found(front, axis, highest);
        let last = values.len() - 1;
        if last % 3 == axis && below(values.last(), axis_min(front, axis, highest)) {
            assert(axis_min(values, axis, highest) == values[last]);
        } else if axis_min(front, axis, highest) != highest {
            let k = choose|k: int|
                0 <= k < front.len() && k % 3 == axis && front[k] == axis_min(front, axis, highest);
            assert(values[k] == axis_min(values, axis, highest));
        }
    }
}

/// The least component on each axis.
pub open spec fn least_of<T: PartialOrd>(values: Seq<T>, highest: T) -> Seq<T> {
    seq![axis_min(values, 0, highest), axis_min(values, 1, highest), axis_min(values, 2, highest)]
}

/// The greatest component on each axis.
pub open spec fn greatest_of<T: PartialOrd>(values: Seq<T>, lowest: T) -> Seq<T> {
    seq![axis_max(values, 0, lowest), axis_max(values, 1, lowest), axis_max(values, 2, lowest)]
}

/// Whether `least` and `greatest` hold the running minimum and maximum of
/// `values` on each of the three axes: as the comparisons of `T` decide
/// them and, where the order on `T` follows its specification, as that
/// specification gives them.
pub open spec fn bounds<T: PartialOrd>(
    values: Seq<T>,
    lowest: T,
    highest: T,
    least: Seq<T>,
    greatest: Seq<T>,
) -> bool {
    &&& least.len() == 3
    &&& greatest.len() == 3
    &&& forall|axis: int|
        0 <= axis < 3 ==> tracks_max(values, axis, lowest, #[trigger] greatest[axis])
    &&& forall|axis: int|
        0 <= axis < 3 ==> tracks_min(values, axis, highest, #[trigger] least[axis])
    &&& order_is_specified::<T>() ==> least =~= least_of(values, highest) && greatest
        =~= greatest_of(values, lowest)
}

/// What was found on an axis among the first components is found there
/// among more of them.
proof fn lemma_found_among_more<T>(v: T, values: Seq<T>, n: int, axis: int, start: T)
    requires
        0 <= n < values.len(),
        found_on_axis(v, values.take(n), axis, start),
    ensures
        found_on_axis(v, values.take(n + 1), axis, start),
{
    if v != start {
        let k = choose|k: int| 0 <= k < n && k % 3 == axis && values.take(n)[k] == v;
        assert(values.take(n + 1)[k] == v);
    }
}

/// Accumulates the least and the greatest component on each of the three
/// axes, in one pass over the components. Each bound is the value it
/// started from or a component on its axis.
pub fn bounding_extent<T: Copy + PartialOrd>(values: &[T], lowest: T, highest: T) -> (extent:
    BoundingExtent<T>)
    ensures
        bounds(values@, lowest, highest, extent.min@, extent.max@),
        forall|axis: int|
            0 <= axis < 3 ==> found_on_axis(#[trigger] extent.max@[axis], values@, axis, lowest),
        forall|axis: int|
            0 <= axis < 3 ==> found_on_axis(#[trigger] extent.min@[axis], values@, axis, highest),
{
    let mut least: [T; 3] = [highest;3];
    let mut greatest: [T; 3] = [lowest;3];
    let mut k: usize = 0;
    proof {
        assert(values@.take(0).len() == 0);
    }
    while k < values.len()
        invariant
            k <= values@.len(),
            bounds(values@.take(k as int), lowest, highest, least@, greatest@),
            forall|axis: int|
                0 <= axis < 3 ==> found_on_axis(
                    #[trigger] greatest@[axis],
                    values@.take(k as int),
                    axis,
                    lowest,
                ),
            forall|axis: int|
                0 <= axis < 3 ==> found_on_axis(
                    #[trigger] least@[axis],
                    values@.take(k as int),
                    axis,
                    highest,
                ),
        decreases values@.len() - k,
    {
        let axis: usize = k % 3;
        let value: T = values[k];
        let ghost least_before = least@;
        let ghost greatest_before = greatest@;
        let ghost more = values@.take(k + 1);
        proof {
            assert(more.drop_last() =~= values@.take(k as int));
            assert(more.last() == value);
            assert(more.len() - 1 == k);
            assert forall|a: int| 0 <= a < 3 implies found_on_axis(
                #[trigger] greatest@[a],
                more,
                a,
                lowest,
            ) && found_on_axis(#[trigger] least@[a], more, a, highest) by {
                lemma_found_among_more(greatest@[a], values@, k as int, a, lowest);
                lemma_found_among_more(least@[a], values@, k as int, a, highest);
            }
            assert(more[k as int] == value);
        }
        let above: bool = value > greatest[axis];
        if above {
            greatest[axis] = value;
        }
        let under: bool = value < least[axis];
        if under {
            least[axis] = value;
        }
        proof {
            assert(tracks_max(more.drop_last(), axis as int, lowest, greatest_before[axis as int]));
            assert(is_greater(more.last(), greatest_before[axis as int], above));
            assert(tracks_min(more.drop_last(), axis as int, highest, least_before[axis as int]));
            assert(is_less(more.last(), least_before[axis as int], under));
            assert forall|a: int| 0 <= a < 3 implies tracks_max(
                more,
                a,
                lowest,
                #[trigger] greatest@[a],
            ) by {
                if a != axis {
                    assert(greatest@[a] == greatest_before[a]);
                }
            }
            assert forall|a: int| 0 <= a < 3 implies tracks_min(
                more,
                a,
                highest,
                #[trigger] least@[a],
            ) by {
                if a != axis {
                    assert(least@[a] == least_before[a]);
                }
            }
        }
        k += 1;
    }
    assert(values@.take(k as int) =~= values@);
    BoundingExtent { min: Vector(least), max: Vector(greatest) }
}

/// Half the length of the bounding box on each axis.
pub open spec fn half_lengths<T>(least: Seq<T>, greatest: Seq<T>, half: T) -> Seq<T> where
    T: Sub<Output = T> + Mul<Output = T>,
 {
    Seq::new(3, |axis: int| greatest[axis].sub_spec(least[axis]).mul_spec(half))
}

/// What is added to a coordinate on each axis, so that the middle of the
/// bounding box comes to lie at the origin.
pub open spec fn translations<T>(least: Seq<T>, greatest: Seq<T>, half: T) -> Seq<T> where
    T: Sub<Output = T> + Mul<Output = T>,
 {
    Seq::new(3, |axis: int| half_lengths(least, greatest, half)[axis].sub_spec(greatest[axis]))
}

/// The factor by which the moved mesh is shrunk: the greatest half-length
/// of its bounding box.
pub open spec fn scale_factor<T>(least: Seq<T>, greatest: Seq<T>, half: T) -> T where
    T: PartialOrd + Sub<Output = T> + Mul<Output = T>,
 {
    max_of(half_lengths(least, greatest, half))
}

/// Whether a mesh with this bounding box has no extent to scale by.
pub open spec fn is_degenerate<T>(least: Seq<T>, greatest: Seq<T>, half: T, zero: T) -> bool where
    T: PartialOrd + Sub<Output = T> + Mul<Output = T>,
 {
    scale_factor(least, greatest, half).eq_spec(&zero)
}

/// The components of a mesh after it was moved and shrunk.
pub open spec fn normalized<T>(values: Seq<T>, least: Seq<T>, greatest: Seq<T>, half: T) -> Seq<
    T,
> where T: PartialOrd + Add<Output = T> + Sub<Output = T> + Mul<Output = T> + Div<Output = T> {
    Seq::new(
        values.len(),
        |k: int|
            values[k].add_spec(translations(least, greatest, half)[k % 3]).div_spec(
                scale_factor(least, greatest, half),
            ),
    )
}

/// The values that rescaling a mesh computes on the way.
pub struct Rescaling<T> {
    /// The length of the bounding box on each axis.
    pub differences: Seq<T>,
    /// Half of each length.
    pub lengths: Seq<T>,
    /// What is added to a coordinate on each axis.
    pub shifts: Seq<T>,
    /// The factor by which the moved mesh is shrunk.
    pub scale: T,
    /// Each component after it was moved, before it is shrunk.
    pub moved: Seq<T>,
}

impl<T> Rescaling<T> where
    T: PartialOrd + Add<Output = T> + Sub<Output = T> + Mul<Output = T> + Div<Output = T>,
 {
    /// Whether these are the lengths, the translations and the scale factor
    /// of the bounding box as the operators of `T` compute them.
    pub open spec fn measures(self, least: Seq<T>, greatest: Seq<T>, half: T) -> bool {
        &&& self.differences.len() == 3
        &&& self.lengths.len() == 3
        &&& self.shifts.len() == 3
        &&& forall|axis: int|
            0 <= axis < 3 ==> {
                &&& is_difference(greatest[axis], least[axis], #[trigger] self.differences[axis])
                &&& is_product(self.differences[axis], half, self.lengths[axis])
                &&& is_difference(self.lengths[axis], greatest[axis], self.shifts[axis])
            }
        &&& tracks_greatest(self.lengths, self.scale)
    }

    /// Whether `out` holds each component of `values` moved by the
    /// translation of its axis and then divided by the scale factor, as the
    /// operators of `T` compute it.
    pub open spec fn rescales(self, values: Seq<T>, out: Seq<T>) -> bool {
        &&& self.moved.len() == values.len()
        &&& out.len() == values.len()
        &&& forall|k: int|
            0 <= k < values.len() ==> {
                &&& is_sum(values[k], self.shifts[k % 3], #[trigger] self.moved[k])
                &&& is_quotient(self.moved[k], self.scale, out[k])
            }
    }
}

/// Whether the operators of `T` accept what measuring one axis of the
/// bounding box hands them: the difference, the product with whatever the
/// difference comes to, and the difference with whatever that comes to.
pub open spec fn can_measure<T>(least: T, greatest: T, half: T) -> bool where
    T: Sub<Output = T> + Mul<Output = T>,
 {
    &&& accepts_difference(greatest, least)
    &&& forall|length: T| #[trigger]
        is_difference(greatest, least, length) ==> {
            &&& accepts_product(length, half)
            &&& forall|halved: T| #[trigger]
                is_product(length, half, halved) ==> accepts_difference(halved, greatest)
        }
}

/// Whether the operators of `T` accept what rescaling one component hands
/// them: the sum, and the quotient of whatever the sum comes to.
pub open spec fn can_rescale<T>(value: T, shift: T, scale: T) -> bool where
    T: Add<Output = T> + Div<Output = T>,
 {
    &&& accepts_sum(value, shift)
    &&& forall|moved: T| #[trigger] is_sum(value, shift, moved) ==> accepts_quotient(moved, scale)
}

/// Whether the operators of `T` accept what rescaling a mesh hands them:
/// the measuring of each axis and, whatever the measures come to, unless
/// the scale factor equals `zero`, the rescaling of each component.
pub open spec fn can_normalize<T>(
    values: Seq<T>,
    least: Seq<T>,
    greatest: Seq<T>,
    half: T,
    zero: T,
) -> bool where
    T: PartialOrd + Add<Output = T> + Sub<Output = T> + Mul<Output = T> + Div<Output = T>,
 {
    &&& forall|axis: int|
        0 <= axis < 3 ==> can_measure(#[trigger] least[axis], greatest[axis], half)
    &&& forall|w: Rescaling<T>|
        #[trigger] w.measures(least, greatest, half) && is_equal(w.scale, zero, false)
            ==> forall|k: int|
            0 <= k < values.len() ==> can_rescale(#[trigger] values[k], w.shifts[k % 3], w.scale)
}

/// Where the operators of `T` accept every pair of operands, every mesh
/// can be rescaled.
pub proof fn lemma_total_arithmetic_normalizes_all<T>(
    values: Seq<T>,
    least: Seq<T>,
    greatest: Seq<T>,
    half: T,
    zero: T,
) where T: PartialOrd + Add<Output = T> + Sub<Output = T> + Mul<Output = T> + Div<Output = T>
    requires
        arithmetic_is_total::<T>(),
    ensures
        can_normalize(values, least, greatest, half, zero),
{
}

/// What rescaling makes of the components `values` of a mesh with the
/// bounding box from `least` to `greatest`: nothing, where the scale factor
/// equals `zero`, else the rescaled components. It is stated over what the
/// operators of `T` return and, where they follow their specification,
/// over that specification.
pub open spec fn rescaled<T>(
    values: Seq<T>,
    least: Seq<T>,
    greatest: Seq<T>,
    half: T,
    zero: T,
    outcome: Option<Seq<T>>,
) -> bool where
    T: PartialOrd + Add<Output = T> + Sub<Output = T> + Mul<Output = T> + Div<Output = T>,
 {
    &&& exists|w: Rescaling<T>|
        {
            &&& #[trigger] w.measures(least, greatest, half)
            &&& match outcome {
                None => is_equal(w.scale, zero, true),
                Some(out) => is_equal(w.scale, zero, false) && w.rescales(values, out),
            }
        }
    &&& arithmetic_is_specified::<T>() ==> match outcome {
        None => is_degenerate(least, greatest, half, zero),
        Some(out) => !is_degenerate(least, greatest, half, zero) && out == normalized(
            values,
            least,
            greatest,
            half,
        ),
    }
}

/// The rescaled components of an outcome, if it has any.
pub open spec fn components_of<T>(r: Result<Vec<T>, InvalidFileContentError>) -> Option<Seq<T>> {
    match r {
        Ok(out) => Some(out@),
        Err(_) => None,
    }
}

/// Moves every component by the translation of its axis, then divides it by
/// the scale factor. A mesh whose scale factor equals `zero` is refused.
pub fn normalize<T>(values: &[T], extent: &BoundingExtent<T>, half: T, zero: T) -> (r: Result<
    Vec<T>,
    InvalidFileContentError,
>) where T: Copy + PartialOrd + Add<Output = T> + Sub<Output = T> + Mul<Output = T> + Div<Output = T>
    requires
        can_normalize(values@, extent.min@, extent.max@, half, zero),
    ensures
        r matches Err(error) ==> error.kind == FormatErrorKind::DegenerateMesh,
        rescaled(values@, extent.min@, extent.max@, half, zero, components_of(r)),
{
    proof {
        assert forall|axis: int| 0 <= axis < 3 implies accepts_difference(
            #[trigger] extent.max@[axis],
            extent.min@[axis],
        ) by {
            assert(can_measure(extent.min@[axis], extent.max@[axis], half));
        }
    }
    let differences = extent.max - extent.min;
    proof {
        assert forall|axis: int| 0 <= axis < 3 implies accepts_product(
            #[trigger] differences@[axis],
            half,
        ) by {
            assert(can_measure(extent.min@[axis], extent.max@[axis], half));
            assert(is_difference(extent.max@[axis], extent.min@[axis], differences@[axis]));
        }
        if arithmetic_is_specified::<T>() {
            assert forall|axis: int| 0 <= axis < 3 implies differences@[axis]
                == extent.max@[axis].sub_spec(extent.min@[axis]) by {}
        }
    }
    let lengths = differences.scale(half);
    proof {
        assert forall|axis: int| 0 <= axis < 3 implies accepts_difference(
            #[trigger] lengths@[axis],
            extent.max@[axis],
        ) by {
            assert(can_measure(extent.min@[axis], extent.max@[axis], half));
            assert(is_difference(extent.max@[axis], extent.min@[axis], differences@[axis]));
            assert(is_product(differences@[axis], half, lengths@[axis]));
        }
        if arithmetic_is_specified::<T>() {
            assert(lengths@ =~= half_lengths(extent.min@, extent.max@, half));
        }
    }
    let shifts = lengths - extent.max;
    let scale = lengths.get_max();
    proof {
        if arithmetic_is_specified::<T>() {
            assert(shifts@ =~= translations(extent.min@, extent.max@, half));
        }
    }
    let ghost measured = Rescaling {
        differences: differences@,
        lengths: lengths@,
        shifts: shifts@,
        scale,
        moved: Seq::<T>::empty(),
    };
    proof {
        assert(measured.measures(extent.min@, extent.max@, half));
    }
    let degenerate: bool = scale == zero;
    if degenerate {
        let r = Err(InvalidFileContentError::new(FormatErrorKind::DegenerateMesh));
        assert(components_of::<T>(r) is None);
        return r;
    }
    assert(measured.measures(extent.min@, extent.max@, half) && is_equal(
        measured.scale,
        zero,
        false,
    ));
    let mut out: Vec<T> = Vec::new();
    let ghost mut moved: Seq<T> = Seq::empty();
    let mut k: usize = 0;
    while k < values.len()
        invariant
            k <= values@.len(),
            out@.len() == k,
            moved.len() == k,
            forall|j: int|
                0 <= j < values@.len() ==> can_rescale(
                    #[trigger] values@[j],
                    shifts@[j % 3],
                    scale,
                ),
            arithmetic_is_specified::<T>() ==> shifts@ == translations(
                extent.min@,
                extent.max@,
                half,
            ) && scale == scale_factor(extent.min@, extent.max@, half),
            arithmetic_is_specified::<T>() ==> forall|j: int|
                0 <= j < k ==> out@[j] == normalized(values@, extent.min@, extent.max@, half)[j],
            forall|j: int|
                0 <= j < k ==> {
                    &&& is_sum(values@[j], shifts@[j % 3], #[trigger] moved[j])
                    &&& is_quotient(moved[j], scale, out@[j])
                },
        decreases values@.len() - k,
    {
        assert(can_rescale(values@[k as int], shifts@[k as int % 3], scale));
        let sum: T = values[k] + shifts.0[k % 3];
        assert(is_sum(values@[k as int], shifts@[k as int % 3], sum));
        out.push(sum / scale);
        proof {
            moved = moved.push(sum);
        }
        k += 1;
    }
    proof {
        if arithmetic_is_specified::<T>() {
            assert(out@ =~= normalized(values@, extent.min@, extent.max@, half));
        }
        let w = Rescaling { moved, ..measured };
        assert(w.measures(extent.min@, extent.max@, half));
        assert(w.rescales(values@, out@));
    }
    Ok(out)
}

/// Where all components on an axis are the same value `p`, which the
/// starting value is below and which does not exceed itself, the running
/// maximum on that axis is `p` as soon as the axis has a component.
pub proof fn lemma_axis_max_of_coinciding<T: PartialOrd>(
    values: Seq<T>,
    axis: int,
    lowest: T,
    p: T,
)
    requires
        0 <= axis < 3,
        forall|k: int| 0 <= k < values.len() && k % 3 == axis ==> values[k] == p,
        exceeds(p, lowest),
        !exceeds(p, p),
    ensures
        axis_max(values, axis, lowest) == (if values.len() > axis {
            p
        } else {
            lowest
        }),
    decreases values.len(),
{
    if values.len() > 0 {
        lemma_axis_max_of_coinciding(values.drop_last(), axis, lowest, p);
    }
}

/// Where all components on an axis are the same value `p`, which is below
/// the starting value and not below itself, the running minimum on that
/// axis is `p` as soon as the axis has a component.
pub proof fn lemma_axis_min_of_coinciding<T: PartialOrd>(
    values: Seq<T>,
    axis: int,
    highest: T,
    p: T,
)
    requires
        0 <= axis < 3,
        forall|k: int| 0 <= k < values.len() && k % 3 == axis ==> values[k] == p,
        below(p, highest),
        !below(p, p),
    ensures
        axis_min(values, axis, highest) == (if values.len() > axis {
            p
        } else {
            highest
        }),
    decreases values.len(),
{
    if values.len() > 0 {
        lemma_axis_min_of_coinciding(values.drop_last(), axis, highest, p);
    }
}

/// Whether the scalars behave on the coordinate `p` as numbers do: `p`
/// lies strictly between the starting values of the bounding box, is
/// neither above nor below itself, and a box from `p` to `p` has the
/// half-length `zero`.
pub open spec fn is_plain_coordinate<T>(p: T, scalars: Scalars<T>) -> bool where
    T: PartialOrd + Sub<Output = T> + Mul<Output = T>,
 {
    &&& exceeds(p, scalars.lowest)
    &&& below(p, scalars.highest)
    &&& !exceeds(p, p)
    &&& !below(p, p)
    &&& p.sub_spec(p).mul_spec(scalars.half) == scalars.zero
}

/// A mesh whose vertices all lie in one point is degenerate: where the
/// point has plain coordinates, and `zero` equals itself and does not
/// exceed itself, the scale factor of the mesh equals `zero`.
pub proof fn lemma_coinciding_vertices_are_degenerate<T>(
    values: Seq<T>,
    point: Seq<T>,
    scalars: Scalars<T>,
) where T: PartialOrd + Sub<Output = T> + Mul<Output = T>
    requires
        values.len() >= 3,
        point.len() == 3,
        forall|k: int| 0 <= k < values.len() ==> values[k] == point[k % 3],
        forall|axis: int| 0 <= axis < 3 ==> is_plain_coordinate(#[trigger] point[axis], scalars),
        scalars.zero.eq_spec(&scalars.zero),
        !exceeds(scalars.zero, scalars.zero),
    ensures
        is_degenerate(
            least_of(values, scalars.highest),
            greatest_of(values, scalars.lowest),
            scalars.half,
            scalars.zero,
        ),
{
    let least = least_of(values, scalars.highest);
    let greatest = greatest_of(values, scalars.lowest);
    assert forall|axis: int| 0 <= axis < 3 implies least[axis] == point[axis] && greatest[axis]
        == point[axis] by {
        assert(is_plain_coordinate(point[axis], scalars));
        lemma_axis_max_of_coinciding(values, axis, scalars.lowest, point[axis]);
        lemma_axis_min_of_coinciding(values, axis, scalars.highest, point[axis]);
    }
    let lengths = half_lengths(least, greatest, scalars.half);
    assert forall|axis: int| 0 <= axis < 3 implies lengths[axis] == scalars.zero by {
        assert(is_plain_coordinate(point[axis], scalars));
    }
    assert(lengths.len() == 3);
    assert(lengths.drop_last().len() == 2);
    assert(lengths.drop_last().drop_last().len() == 1);
    assert(max_of(lengths.drop_last().drop_last()) == scalars.zero);
    assert(lengths.drop_last().last() == scalars.zero);
    assert(max_of(lengths.drop_last()) == scalars.zero);
    assert(lengths.last() == scalars.zero);
    assert(max_of(lengths) == scalars.zero);
}

/// A mesh whose bounding box has the same half-length `s` on every axis is
/// shrunk by `s`: where `s` does not exceed itself, each component is moved
/// by `s` less the greatest coordinate on its axis, and divided by `s`.
pub proof fn lemma_equal_sides_scale_by_half_side<T>(
    values: Seq<T>,
    least: Seq<T>,
    greatest: Seq<T>,
    half: T,
    s: T,
    k: int,
) where T: PartialOrd + Add<Output = T> + Sub<Output = T> + Mul<Output = T> + Div<Output = T>
    requires
        forall|axis: int| 0 <= axis < 3 ==> #[trigger] half_lengths(least, greatest, half)[axis] == s,
        !exceeds(s, s),
        0 <= k < values.len(),
    ensures
        scale_factor(least, greatest, half) == s,
        normalized(values, least, greatest, half)[k] == values[k].add_spec(
            s.sub_spec(greatest[k % 3]),
        ).div_spec(s),
{
    let lengths = half_lengths(least, greatest, half);
    assert(lengths[0] == s && lengths[1] == s && lengths[2] == s);
    assert(lengths.drop_last().len() == 2);
    assert(lengths.drop_last().drop_last().len() == 1);
    assert(max_of(lengths.drop_last().drop_last()) == s);
    assert(max_of(lengths.drop_last()) == s);
    assert(max_of(lengths) == s);
    assert(lengths[k % 3] == s);
}

/// Where the order is total and transitive on the components and the
/// starting value, no component on an axis exceeds the running maximum on
/// that axis.
pub proof fn lemma_axis_max_is_upper_bound<T: PartialOrd>(
    values: Seq<T>,
    axis: int,
    lowest: T,
    j: int,
)
    requires
        totally_ordered(values.push(lowest)),
        0 <= j < values.len(),
        j % 3 == axis,
    ensures
        at_most(values[j], axis_max(values, axis, lowest)),
    decreases values.len(),
{
    let all = values.push(lowest);
    let front = values.drop_last();
    let last = values.len() - 1;
    assert forall|i: int| 0 <= i < values.len() implies all.contains(#[trigger] values[i]) by {
        assert(all[i] == values[i]);
    }
    assert(all[values.len() as int] == lowest);
    assert(all.contains(lowest));
    assert forall|i: int| 0 <= i < front.push(lowest).len() implies all.contains(
        #[trigger] front.push(lowest)[i],
    ) by {
        if i < front.len() {
            assert(front.push(lowest)[i] == values[i]);
        }
    }
    lemma_order_of_part(all, front.push(lowest));
    lemma_axis_max_is_found(front, axis, lowest);
    let before = axis_max(front, axis, lowest);
    assert(all.contains(before)) by {
        if before != lowest {
            let k = choose|k: int| 0 <= k < front.len() && k % 3 == axis && front[k] == before;
            assert(before == values[k]);
        }
    }
    assert(all.contains(values[last]));
    assert(all.contains(values[j]));
    if j < last {
        lemma_axis_max_is_upper_bound(front, axis, lowest, j);
    }
}

/// Where the order is total and transitive on the components and the
/// starting value, no component on an axis is below the running minimum on
/// that axis.
pub proof fn lemma_axis_min_is_lower_bound<T: PartialOrd>(
    values: Seq<T>,
    axis: int,
    highest: T,
    j: int,
)
    requires
        totally_ordered(values.push(highest)),
        0 <= j < values.len(),
        j % 3 == axis,
    ensures
        at_most(axis_min(values, axis, highest), values[j]),
    decreases values.len(),
{
    let all = values.push(highest);
    let front = values.drop_last();
    let last = values.len() - 1;
    assert forall|i: int| 0 <= i < values.len() implies all.contains(#[trigger] values[i]) by {
        assert(all[i] == values[i]);
    }
    assert(all[values.len() as int] == highest);
    assert(all.contains(highest));
    assert forall|i: int| 0 <= i < front.push(highest).len() implies all.contains(
        #[trigger] front.push(highest)[i],
    ) by {
        if i < front.len() {
            assert(front.push(highest)[i] == values[i]);
        }
    }
    lemma_order_of_part(all, front.push(highest));
    lemma_axis_min_is_found(front, axis, highest);
    let before = axis_min(front, axis, highest);
    assert(all.contains(before)) by {
        if before != highest {
            let k = choose|k: int| 0 <= k < front.len() && k % 3 == axis && front[k] == before;
            assert(before == values[k]);
        }
    }
    assert(all.contains(values[last]));
    assert(all.contains(values[j]));
    if j < last {
        lemma_axis_min_is_lower_bound(front, axis, highest, j);
    }
}

} // verus!
