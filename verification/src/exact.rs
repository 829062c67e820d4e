//! What rescaling gives where the arithmetic of the scalars is exact.
//!
//! Exactness is stated through a measure: a map from the scalars to the
//! integers, such as the number of steps of a fixed resolution that a
//! scalar stands for. Where sums, differences and the order of the scalars
//! are those of their measures, the rescaled components lie between minus
//! one and one, and a mesh in a box of equal sides is moved by the centre
//! of the box and divided by half its side.

use crate::linalg::{lemma_max_of_is_member, lemma_max_of_is_upper_bound, max_of};
use crate::normalize::{
    axis_max, axis_min, bounds, found_on_axis, greatest_of, half_lengths, is_degenerate,
    is_plain_coordinate, least_of, lemma_axis_max_is_found, lemma_axis_max_is_upper_bound,
    lemma_axis_max_of_coinciding, lemma_axis_min_is_found, lemma_axis_min_is_lower_bound,
    lemma_axis_min_of_coinciding, lemma_equal_sides_scale_by_half_side, normalized, rescaled,
    scale_factor, translations, Scalars,
};
use crate::scalar::{arithmetic_is_specified, at_most, below, exceeds, totally_ordered};
use crate::stl::{decodes_to, lemma_coinciding_vertices_are_refused, InvalidFileContentError};
use std::ops::{Add, Div, Mul, Sub};
use vstd::prelude::*;
use vstd::std_specs::cmp::PartialEqSpec;
use vstd::std_specs::ops::{AddSpec, DivSpec, MulSpec, SubSpec};

verus! {

/// Whether `val` measures the scalars exactly: `zero` measures nothing, the
/// measure of a sum or a difference is the sum or the difference of the
/// measures, the order and the equality of scalars are those of their
/// measures, and no two scalars have the same measure.
pub open spec fn measures_exactly<T>(val: spec_fn(T) -> int, zero: T) -> bool where
    T: PartialOrd + Add<Output = T> + Sub<Output = T>,
 {
    &&& val(zero) == 0
    &&& forall|a: T, b: T| #[trigger] val(a.add_spec(b)) == val(a) + val(b)
    &&& forall|a: T, b: T| #[trigger] val(a.sub_spec(b)) == val(a) - val(b)
    &&& forall|a: T, b: T| #[trigger] exceeds(a, b) <==> val(a) > val(b)
    &&& forall|a: T, b: T| #[trigger] below(a, b) <==> val(a) < val(b)
    &&& forall|a: T, b: T| #[trigger] at_most(a, b) <==> val(a) <= val(b)
    &&& forall|a: T, b: T| #[trigger] a.eq_spec(&b) <==> val(a) == val(b)
    &&& forall|a: T, b: T| #![trigger val(a), val(b)] val(a) == val(b) ==> a == b
}

/// Whether halving the length of the bounding box is exact on each axis:
/// twice the measure of the half-length is the measure of the length.
pub open spec fn halves_exactly<T>(
    val: spec_fn(T) -> int,
    least: Seq<T>,
    greatest: Seq<T>,
    half: T,
) -> bool where T: Sub<Output = T> + Mul<Output = T> {
    forall|axis: int|
        0 <= axis < 3 ==> 2 * val(#[trigger] half_lengths(least, greatest, half)[axis]) == val(
            greatest[axis].sub_spec(least[axis]),
        )
}

/// Scalars that are measured exactly are totally ordered.
pub proof fn lemma_measured_scalars_are_ordered<T>(val: spec_fn(T) -> int, zero: T, s: Seq<T>) where
    T: PartialOrd + Add<Output = T> + Sub<Output = T>,

    requires
        measures_exactly(val, zero),
    ensures
        totally_ordered(s),
{
    assert forall|a: T, b: T| (at_most(a, b) <==> !exceeds(a, b)) && (exceeds(a, b) <==> below(
        b,
        a,
    )) && (exceeds(a, b) ==> at_most(b, a)) by {
        assert(exceeds(a, b) <==> val(a) > val(b));
        assert(at_most(a, b) <==> val(a) <= val(b));
        assert(below(b, a) <==> val(b) < val(a));
        assert(at_most(b, a) <==> val(b) <= val(a));
    }
    assert forall|a: T, b: T, c: T| at_most(a, b) && at_most(b, c) implies at_most(a, c) by {
        assert(at_most(a, b) <==> val(a) <= val(b));
        assert(at_most(b, c) <==> val(b) <= val(c));
        assert(at_most(a, c) <==> val(a) <= val(c));
    }
}

/// A mesh whose bounding box has the centre `centre` and the same half-side
/// `s` on every axis is moved by the centre and divided by the half-side:
/// where the arithmetic is exact, each component is its coordinate less
/// the centre on its axis, divided by `s`.
pub proof fn lemma_box_is_recentred_and_divided_by_half_side<T>(
    val: spec_fn(T) -> int,
    zero: T,
    values: Seq<T>,
    least: Seq<T>,
    greatest: Seq<T>,
    half: T,
    centre: Seq<T>,
    s: T,
    k: int,
) where T: PartialOrd + Add<Output = T> + Sub<Output = T> + Mul<Output = T> + Div<Output = T>
    requires
        measures_exactly(val, zero),
        halves_exactly(val, least, greatest, half),
        least.len() == 3,
        greatest.len() == 3,
        centre.len() == 3,
        forall|axis: int| 0 <= axis < 3 ==> #[trigger] least[axis] == centre[axis].sub_spec(s),
        forall|axis: int| 0 <= axis < 3 ==> #[trigger] greatest[axis] == centre[axis].add_spec(s),
        0 <= k < values.len(),
    ensures
        scale_factor(least, greatest, half) == s,
        normalized(values, least, greatest, half)[k] == values[k].sub_spec(centre[k % 3]).div_spec(
            s,
        ),
{
    let lengths = half_lengths(least, greatest, half);
    assert forall|axis: int| 0 <= axis < 3 implies #[trigger] lengths[axis] == s by {
        assert(least[axis] == centre[axis].sub_spec(s));
        assert(greatest[axis] == centre[axis].add_spec(s));
        assert(val(greatest[axis].sub_spec(least[axis])) == val(greatest[axis]) - val(least[axis]));
        assert(val(centre[axis].add_spec(s)) == val(centre[axis]) + val(s));
        assert(val(centre[axis].sub_spec(s)) == val(centre[axis]) - val(s));
        assert(2 * val(lengths[axis]) == val(greatest[axis].sub_spec(least[axis])));
        assert(val(lengths[axis]) == val(s));
    }
    assert(exceeds(s, s) <==> val(s) > val(s));
    lemma_equal_sides_scale_by_half_side(values, least, greatest, half, s, k);
    let axis = k % 3;
    let moved = values[k].add_spec(s.sub_spec(greatest[axis]));
    let plain = values[k].sub_spec(centre[axis]);
    assert(greatest[axis] == centre[axis].add_spec(s));
    assert(val(centre[axis].add_spec(s)) == val(centre[axis]) + val(s));
    assert(val(s.sub_spec(greatest[axis])) == val(s) - val(greatest[axis]));
    assert(val(moved) == val(values[k]) + val(s.sub_spec(greatest[axis])));
    assert(val(plain) == val(values[k]) - val(centre[axis]));
    assert(val(moved) == val(plain));
    assert(moved == plain);
}

/// Whether every coordinate lies strictly between the values that the
/// bounding box starts from.
pub open spec fn lies_within<T>(val: spec_fn(T) -> int, values: Seq<T>, lowest: T, highest: T) -> bool {
    forall|k: int|
        0 <= k < values.len() ==> val(lowest) < val(#[trigger] values[k]) && val(values[k]) < val(
            highest,
        )
}

/// Whether dividing each moved component by the scale factor is exact: the
/// measure of the quotient times the measure of the scale factor is the
/// measure of the moved component times the measure of `one`.
pub open spec fn divides_exactly<T>(
    val: spec_fn(T) -> int,
    values: Seq<T>,
    least: Seq<T>,
    greatest: Seq<T>,
    half: T,
    one: T,
) -> bool where
    T: PartialOrd + Add<Output = T> + Sub<Output = T> + Mul<Output = T> + Div<Output = T>,
 {
    forall|k: int|
        0 <= k < values.len() ==> val(#[trigger] normalized(values, least, greatest, half)[k])
            * val(scale_factor(least, greatest, half)) == val(
            values[k].add_spec(translations(least, greatest, half)[k % 3]),
        ) * val(one)
}

/// Whether the arithmetic of rescaling the mesh `values` is exact: the
/// scalars are measured exactly, `one` measures more than nothing, every
/// coordinate lies within the starting values of the bounding box, and
/// halving the lengths of the box and dividing by the scale factor are
/// exact.
pub open spec fn rescales_exactly<T>(
    val: spec_fn(T) -> int,
    values: Seq<T>,
    zero: T,
    one: T,
    half: T,
    lowest: T,
    highest: T,
) -> bool where
    T: PartialOrd + Add<Output = T> + Sub<Output = T> + Mul<Output = T> + Div<Output = T>,
 {
    let least = least_of(values, highest);
    let greatest = greatest_of(values, lowest);
    &&& measures_exactly(val, zero)
    &&& val(one) > 0
    &&& lies_within(val, values, lowest, highest)
    &&& halves_exactly(val, least, greatest, half)
    &&& divides_exactly(val, values, least, greatest, half, one)
}

/// Where the scalars are measured exactly, the bounds of a mesh on an axis
/// enclose every coordinate on that axis, and each bound is one of them.
pub proof fn lemma_measured_extent<T>(
    val: spec_fn(T) -> int,
    zero: T,
    values: Seq<T>,
    lowest: T,
    highest: T,
    axis: int,
) where T: PartialOrd + Add<Output = T> + Sub<Output = T>
    requires
        measures_exactly(val, zero),
        lies_within(val, values, lowest, highest),
        values.len() >= 3,
        0 <= axis < 3,
    ensures
        forall|j: int|
            0 <= j < values.len() && j % 3 == axis ==> val(axis_min(values, axis, highest)) <= val(
                #[trigger] values[j],
            ) && val(values[j]) <= val(axis_max(values, axis, lowest)),
        exists|j: int|
            0 <= j < values.len() && j % 3 == axis && #[trigger] values[j] == axis_max(
                values,
                axis,
                lowest,
            ),
        exists|j: int|
            0 <= j < values.len() && j % 3 == axis && #[trigger] values[j] == axis_min(
                values,
                axis,
                highest,
            ),
{
    lemma_measured_scalars_are_ordered(val, zero, values.push(lowest));
    lemma_measured_scalars_are_ordered(val, zero, values.push(highest));
    let top = axis_max(values, axis, lowest);
    let bottom = axis_min(values, axis, highest);
    assert forall|j: int| 0 <= j < values.len() && j % 3 == axis implies val(bottom) <= val(
        #[trigger] values[j],
    ) && val(values[j]) <= val(top) by {
        lemma_axis_max_is_upper_bound(values, axis, lowest, j);
        lemma_axis_min_is_lower_bound(values, axis, highest, j);
        assert(at_most(values[j], top) <==> val(values[j]) <= val(top));
        assert(at_most(bottom, values[j]) <==> val(bottom) <= val(values[j]));
    }
    assert(val(lowest) < val(values[axis]) && val(values[axis]) < val(highest));
    assert(val(bottom) <= val(values[axis]) && val(values[axis]) <= val(top));
    lemma_axis_max_is_found(values, axis, lowest);
    lemma_axis_min_is_found(values, axis, highest);
    assert(found_on_axis(top, values, axis, lowest));
    assert(found_on_axis(bottom, values, axis, highest));
}

/// Where the scalars are measured exactly, the scale factor is the
/// half-length of one axis, and no half-length measures more.
pub proof fn lemma_measured_scale<T>(
    val: spec_fn(T) -> int,
    zero: T,
    least: Seq<T>,
    greatest: Seq<T>,
    half: T,
) where T: PartialOrd + Add<Output = T> + Sub<Output = T> + Mul<Output = T>
    requires
        measures_exactly(val, zero),
    ensures
        forall|axis: int|
            0 <= axis < 3 ==> val(#[trigger] half_lengths(least, greatest, half)[axis]) <= val(
                scale_factor(least, greatest, half),
            ),
        exists|axis: int|
            0 <= axis < 3 && #[trigger] half_lengths(least, greatest, half)[axis] == scale_factor(
                least,
                greatest,
                half,
            ),
{
    let lengths = half_lengths(least, greatest, half);
    lemma_measured_scalars_are_ordered(val, zero, lengths);
    lemma_max_of_is_member(lengths);
    assert forall|axis: int| 0 <= axis < 3 implies val(#[trigger] lengths[axis]) <= val(
        max_of(lengths),
    ) by {
        lemma_max_of_is_upper_bound(lengths, axis);
        assert(at_most(lengths[axis], max_of(lengths)) <==> val(lengths[axis]) <= val(
            max_of(lengths),
        ));
    }
}

/// Where the arithmetic is exact, a moved component measures no more than
/// the scale factor, in either direction, and the scale factor of a mesh
/// that is not degenerate measures more than nothing.
pub proof fn lemma_moved_component_is_within_scale<T>(
    val: spec_fn(T) -> int,
    values: Seq<T>,
    zero: T,
    one: T,
    half: T,
    lowest: T,
    highest: T,
    k: int,
) where T: PartialOrd + Add<Output = T> + Sub<Output = T> + Mul<Output = T> + Div<Output = T>
    requires
        rescales_exactly(val, values, zero, one, half, lowest, highest),
        values.len() >= 3,
        !scale_factor(least_of(values, highest), greatest_of(values, lowest), half).eq_spec(&zero),
        0 <= k < values.len(),
    ensures
        ({
            let least = least_of(values, highest);
            let greatest = greatest_of(values, lowest);
            let scale = val(scale_factor(least, greatest, half));
            let moved = val(values[k].add_spec(translations(least, greatest, half)[k % 3]));
            let length = val(half_lengths(least, greatest, half)[k % 3]);
            &&& scale > 0
            &&& 0 <= length <= scale
            &&& -length <= moved <= length
            &&& moved == val(values[k]) + length - val(greatest[k % 3])
            &&& 2 * length == val(greatest[k % 3]) - val(least[k % 3])
        }),
{
    let least = least_of(values, highest);
    let greatest = greatest_of(values, lowest);
    let axis = k % 3;
    let lengths = half_lengths(least, greatest, half);
    let shifts = translations(least, greatest, half);
    let scale = scale_factor(least, greatest, half);
    lemma_measured_extent(val, zero, values, lowest, highest, axis);
    lemma_measured_scale(val, zero, least, greatest, half);
    assert(greatest[axis] == axis_max(values, axis, lowest));
    assert(least[axis] == axis_min(values, axis, highest));
    assert(val(least[axis]) <= val(values[k]) && val(values[k]) <= val(greatest[axis]));
    assert(val(greatest[axis].sub_spec(least[axis])) == val(greatest[axis]) - val(least[axis]));
    assert(2 * val(lengths[axis]) == val(greatest[axis].sub_spec(least[axis])));
    assert(shifts[axis] == lengths[axis].sub_spec(greatest[axis]));
    assert(val(lengths[axis].sub_spec(greatest[axis])) == val(lengths[axis]) - val(greatest[axis]));
    assert(val(values[k].add_spec(shifts[axis])) == val(values[k]) + val(shifts[axis]));
    assert(val(lengths[axis]) <= val(scale));
    assert(scale.eq_spec(&zero) <==> val(scale) == val(zero));
}

/// Every rescaled component lies between minus one and one, where the
/// arithmetic is exact and the mesh is not degenerate.
pub proof fn lemma_exact_components_lie_in_unit_cube<T>(
    val: spec_fn(T) -> int,
    values: Seq<T>,
    zero: T,
    one: T,
    half: T,
    lowest: T,
    highest: T,
    k: int,
) where T: PartialOrd + Add<Output = T> + Sub<Output = T> + Mul<Output = T> + Div<Output = T>
    requires
        rescales_exactly(val, values, zero, one, half, lowest, highest),
        values.len() >= 3,
        !scale_factor(least_of(values, highest), greatest_of(values, lowest), half).eq_spec(&zero),
        0 <= k < values.len(),
    ensures
        at_most(
            normalized(values, least_of(values, highest), greatest_of(values, lowest), half)[k],
            one,
        ),
        at_most(
            zero.sub_spec(one),
            normalized(values, least_of(values, highest), greatest_of(values, lowest), half)[k],
        ),
{
    let least = least_of(values, highest);
    let greatest = greatest_of(values, lowest);
    let out = normalized(values, least, greatest, half)[k];
    let scale = val(scale_factor(least, greatest, half));
    let moved = val(values[k].add_spec(translations(least, greatest, half)[k % 3]));
    let unit = val(one);
    let q = val(out);
    lemma_moved_component_is_within_scale(val, values, zero, one, half, lowest, highest, k);
    assert(q * scale == moved * unit);
    assert(-unit <= q && q <= unit) by (nonlinear_arith)
        requires
            q * scale == moved * unit,
            scale > 0,
            unit > 0,
            -scale <= moved,
            moved <= scale,
    ;
    assert(at_most(out, one) <==> val(out) <= val(one));
    assert(val(zero.sub_spec(one)) == val(zero) - val(one));
    assert(at_most(zero.sub_spec(one), out) <==> val(zero.sub_spec(one)) <= val(out));
}

/// Some rescaled component is one and some is minus one, where the
/// arithmetic is exact and the mesh is not degenerate: the rescaled mesh
/// touches the unit cube on both sides of its longest axis.
pub proof fn lemma_exact_components_touch_unit_cube<T>(
    val: spec_fn(T) -> int,
    values: Seq<T>,
    zero: T,
    one: T,
    half: T,
    lowest: T,
    highest: T,
) where T: PartialOrd + Add<Output = T> + Sub<Output = T> + Mul<Output = T> + Div<Output = T>
    requires
        rescales_exactly(val, values, zero, one, half, lowest, highest),
        values.len() >= 3,
        !scale_factor(least_of(values, highest), greatest_of(values, lowest), half).eq_spec(&zero),
    ensures
        exists|i: int|
            0 <= i < values.len() && #[trigger] normalized(
                values,
                least_of(values, highest),
                greatest_of(values, lowest),
                half,
            )[i] == one,
        exists|j: int|
            0 <= j < values.len() && #[trigger] normalized(
                values,
                least_of(values, highest),
                greatest_of(values, lowest),
                half,
            )[j] == zero.sub_spec(one),
{
    let least = least_of(values, highest);
    let greatest = greatest_of(values, lowest);
    let out = normalized(values, least, greatest, half);
    let lengths = half_lengths(least, greatest, half);
    let scale = val(scale_factor(least, greatest, half));
    let unit = val(one);
    lemma_measured_scale(val, zero, least, greatest, half);
    let axis = choose|axis: int|
        0 <= axis < 3 && #[trigger] lengths[axis] == scale_factor(least, greatest, half);
    lemma_measured_extent(val, zero, values, lowest, highest, axis);
    assert(greatest[axis] == axis_max(values, axis, lowest));
    assert(least[axis] == axis_min(values, axis, highest));
    let i = choose|i: int|
        0 <= i < values.len() && i % 3 == axis && #[trigger] values[i] == axis_max(
            values,
            axis,
            lowest,
        );
    let j = choose|j: int|
        0 <= j < values.len() && j % 3 == axis && #[trigger] values[j] == axis_min(
            values,
            axis,
            highest,
        );
    lemma_moved_component_is_within_scale(val, values, zero, one, half, lowest, highest, i);
    lemma_moved_component_is_within_scale(val, values, zero, one, half, lowest, highest, j);
    let up = val(values[i].add_spec(translations(least, greatest, half)[i % 3]));
    let down = val(values[j].add_spec(translations(least, greatest, half)[j % 3]));
    assert(up == scale);
    assert(down == -scale);
    let qi = val(out[i]);
    let qj = val(out[j]);
    assert(qi * scale == up * unit);
    assert(qj * scale == down * unit);
    assert(qi == unit) by (nonlinear_arith)
        requires
            qi * scale == up * unit,
            up == scale,
            scale > 0,
    ;
    assert(qj == -unit) by (nonlinear_arith)
        requires
            qj * scale == down * unit,
            down == -scale,
            scale > 0,
    ;
    assert(val(zero.sub_spec(one)) == val(zero) - val(one));
    assert(out[i] == one);
    assert(out[j] == zero.sub_spec(one));
}

/// What decoding returns for scalars whose operators follow their
/// specification: the error where the mesh is degenerate, else the
/// components rescaled with the bounding box of the mesh.
pub proof fn lemma_decoded_components<T>(
    values: Seq<T>,
    scalars: Scalars<T>,
    r: Result<(Vec<T>, u32), InvalidFileContentError>,
) where T: PartialOrd + Add<Output = T> + Sub<Output = T> + Mul<Output = T> + Div<Output = T>
    requires
        arithmetic_is_specified::<T>(),
        decodes_to(values, scalars, r),
    ensures
        r is Err <==> is_degenerate(
            least_of(values, scalars.highest),
            greatest_of(values, scalars.lowest),
            scalars.half,
            scalars.zero,
        ),
        r matches Ok(mesh) ==> mesh.0@ == normalized(
            values,
            least_of(values, scalars.highest),
            greatest_of(values, scalars.lowest),
            scalars.half,
        ),
{
    let (least, greatest) = choose|least: Seq<T>, greatest: Seq<T>|
        {
            &&& #[trigger] bounds(values, scalars.lowest, scalars.highest, least, greatest)
            &&& rescaled(
                values,
                least,
                greatest,
                scalars.half,
                scalars.zero,
                match r {
                    Ok(mesh) => Some(mesh.0@),
                    Err(_) => None,
                },
            )
        };
    assert(least == least_of(values, scalars.highest));
    assert(greatest == greatest_of(values, scalars.lowest));
}

/// Decoding a mesh with exact arithmetic fills the unit cube: every
/// component that it returns lies between minus one and one, one of them is
/// one and one of them is minus one.
pub proof fn lemma_exact_decoding_fills_unit_cube<T>(
    val: spec_fn(T) -> int,
    values: Seq<T>,
    scalars: Scalars<T>,
    one: T,
    r: Result<(Vec<T>, u32), InvalidFileContentError>,
) where T: PartialOrd + Add<Output = T> + Sub<Output = T> + Mul<Output = T> + Div<Output = T>
    requires
        arithmetic_is_specified::<T>(),
        rescales_exactly(
            val,
            values,
            scalars.zero,
            one,
            scalars.half,
            scalars.lowest,
            scalars.highest,
        ),
        values.len() >= 3,
        decodes_to(values, scalars, r),
        r is Ok,
    ensures
        r matches Ok(mesh) && {
            &&& mesh.0@.len() == values.len()
            &&& forall|k: int|
                0 <= k < mesh.0@.len() ==> at_most(#[trigger] mesh.0@[k], one) && at_most(
                    scalars.zero.sub_spec(one),
                    mesh.0@[k],
                )
            &&& exists|i: int| 0 <= i < mesh.0@.len() && #[trigger] mesh.0@[i] == one
            &&& exists|j: int|
                0 <= j < mesh.0@.len() && #[trigger] mesh.0@[j] == scalars.zero.sub_spec(one)
        },
{
    lemma_decoded_components(values, scalars, r);
    let out = normalized(
        values,
        least_of(values, scalars.highest),
        greatest_of(values, scalars.lowest),
        scalars.half,
    );
    assert forall|k: int| 0 <= k < out.len() implies at_most(#[trigger] out[k], one) && at_most(
        scalars.zero.sub_spec(one),
        out[k],
    ) by {
        lemma_exact_components_lie_in_unit_cube(
            val,
            values,
            scalars.zero,
            one,
            scalars.half,
            scalars.lowest,
            scalars.highest,
            k,
        );
    }
    lemma_exact_components_touch_unit_cube(
        val,
        values,
        scalars.zero,
        one,
        scalars.half,
        scalars.lowest,
        scalars.highest,
    );
    let i = choose|i: int| 0 <= i < values.len() && #[trigger] out[i] == one;
    let j = choose|j: int| 0 <= j < values.len() && #[trigger] out[j] == scalars.zero.sub_spec(one);
    match r {
        Ok(mesh) => {
            assert(mesh.0@ == out);
            assert(mesh.0@[i] == one);
            assert(mesh.0@[j] == scalars.zero.sub_spec(one));
        },
        Err(_) => {},
    }
}

/// Decoding with exact arithmetic refuses a mesh whose vertices all lie in
/// one point as degenerate.
pub proof fn lemma_exact_decoding_refuses_coinciding_vertices<T>(
    val: spec_fn(T) -> int,
    values: Seq<T>,
    point: Seq<T>,
    scalars: Scalars<T>,
    r: Result<(Vec<T>, u32), InvalidFileContentError>,
) where T: PartialOrd + Add<Output = T> + Sub<Output = T> + Mul<Output = T> + Div<Output = T>
    requires
        arithmetic_is_specified::<T>(),
        measures_exactly(val, scalars.zero),
        lies_within(val, values, scalars.lowest, scalars.highest),
        halves_exactly(
            val,
            least_of(values, scalars.highest),
            greatest_of(values, scalars.lowest),
            scalars.half,
        ),
        values.len() >= 3,
        point.len() == 3,
        forall|k: int| 0 <= k < values.len() ==> values[k] == point[k % 3],
        decodes_to(values, scalars, r),
    ensures
        r matches Err(error) && error.kind == crate::stl::FormatErrorKind::DegenerateMesh,
{
    let least = least_of(values, scalars.highest);
    let greatest = greatest_of(values, scalars.lowest);
    assert forall|axis: int| 0 <= axis < 3 implies is_plain_coordinate(
        #[trigger] point[axis],
        scalars,
    ) by {
        let p = point[axis];
        assert(values[axis] == p);
        assert(val(scalars.lowest) < val(values[axis]) && val(values[axis]) < val(scalars.highest));
        assert(exceeds(p, scalars.lowest) <==> val(p) > val(scalars.lowest));
        assert(below(p, scalars.highest) <==> val(p) < val(scalars.highest));
        assert(exceeds(p, p) <==> val(p) > val(p));
        assert(below(p, p) <==> val(p) < val(p));
        lemma_axis_max_of_coinciding(values, axis, scalars.lowest, p);
        lemma_axis_min_of_coinciding(values, axis, scalars.highest, p);
        assert(greatest[axis] == p);
        assert(least[axis] == p);
        let length = half_lengths(least, greatest, scalars.half)[axis];
        assert(length == p.sub_spec(p).mul_spec(scalars.half));
        assert(2 * val(length) == val(greatest[axis].sub_spec(least[axis])));
        assert(val(p.sub_spec(p)) == val(p) - val(p));
        assert(val(length) == val(scalars.zero));
    }
    assert(scalars.zero.eq_spec(&scalars.zero) <==> val(scalars.zero) == val(scalars.zero));
    assert(exceeds(scalars.zero, scalars.zero) <==> val(scalars.zero) > val(scalars.zero));
    lemma_coinciding_vertices_are_refused(values, point, scalars, r);
}

} // verus!
