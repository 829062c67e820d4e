//! The two matrices of a frame: the projection onto the render surface and
//! the model-view matrix of the camera.
//!
//! The matrix routines themselves are the caller's: the library fixes what
//! they are applied to, from the identity on, and in which order.

use crate::camera::CameraState;
use crate::scalar::{accepts_quotient, is_quotient};
use crate::scene::Viewport;
use std::ops::Div;
use vstd::prelude::*;

verus! {

/// The entries of the identity matrix: `one` on the diagonal, at every
/// fifth entry from the first on, and `zero` elsewhere.
pub open spec fn identity_entries<T>(zero: T, one: T) -> Seq<T> {
    Seq::new(
        16,
        |i: int|
            if i % 5 == 0 {
                one
            } else {
                zero
            },
    )
}

/// The identity matrix over the scalars `zero` and `one`.
pub fn identity<T: Copy>(zero: T, one: T) -> (matrix: [T; 16])
    ensures
        matrix@ == identity_entries(zero, one),
{
    let matrix = [
        one,
        zero,
        zero,
        zero,
        zero,
        one,
        zero,
        zero,
        zero,
        zero,
        one,
        zero,
        zero,
        zero,
        zero,
        one,
    ];
    assert(matrix@ =~= identity_entries(zero, one));
    matrix
}

/// Whether `matrix` is the model-view matrix of `camera` as the three
/// routines compute it: the identity moved along the view axis by the zoom
/// distance, the result turned about the X axis by `phi`, and that result
/// turned about the Y axis by `theta`.
pub open spec fn is_model_view<T, Tr, Rx, Ry>(
    camera: CameraState<T>,
    zero: T,
    one: T,
    translate: Tr,
    rotate_x: Rx,
    rotate_y: Ry,
    matrix: [T; 16],
) -> bool where
    Tr: Fn([T; 16], [T; 3]) -> [T; 16],
    Rx: Fn([T; 16], T) -> [T; 16],
    Ry: Fn([T; 16], T) -> [T; 16],
 {
    exists|start: [T; 16], by: [T; 3], moved: [T; 16], tilted: [T; 16]|
        {
            &&& start@ == identity_entries(zero, one)
            &&& by@ == seq![zero, zero, camera.zoom]
            &&& #[trigger] translate.ensures((start, by), moved)
            &&& #[trigger] rotate_x.ensures((moved, camera.phi), tilted)
            &&& rotate_y.ensures((tilted, camera.theta), matrix)
        }
}

/// Builds the model-view matrix of the camera: starting from the identity,
/// a translation by `(0, 0, zoom)`, then a rotation by `phi` about the X
/// axis, then a rotation by `theta` about the Y axis.
pub fn model_view_matrix<T: Copy, Tr, Rx, Ry>(
    camera: &CameraState<T>,
    zero: T,
    one: T,
    translate: Tr,
    rotate_x: Rx,
    rotate_y: Ry,
) -> (matrix: [T; 16]) where
    Tr: Fn([T; 16], [T; 3]) -> [T; 16],
    Rx: Fn([T; 16], T) -> [T; 16],
    Ry: Fn([T; 16], T) -> [T; 16],

    requires
        forall|m: [T; 16], by: [T; 3]| translate.requires((m, by)),
        forall|m: [T; 16], angle: T| rotate_x.requires((m, angle)),
        forall|m: [T; 16], angle: T| rotate_y.requires((m, angle)),
    ensures
        is_model_view(*camera, zero, one, translate, rotate_x, rotate_y, matrix),
{
    let start = identity(zero, one);
    let by = [zero, zero, camera.zoom];
    assert(by@ =~= seq![zero, zero, camera.zoom]);
    let moved = translate(start, by);
    let tilted = rotate_x(moved, camera.phi);
    rotate_y(tilted, camera.theta)
}

/// Whether `matrix` is the projection onto `viewport` as the routines
/// compute it: a perspective with the aspect ratio that dividing the width
/// of the surface by its height gives.
pub open spec fn is_projection<T: Div<Output = T>, S, P>(
    viewport: Viewport,
    fov: T,
    near: T,
    far: T,
    to_scalar: S,
    perspective: P,
    matrix: [T; 16],
) -> bool where S: Fn(u32) -> T, P: Fn(T, T, T, T) -> [T; 16] {
    exists|width: T, height: T, aspect: T|
        {
            &&& #[trigger] to_scalar.ensures((viewport.width,), width)
            &&& #[trigger] to_scalar.ensures((viewport.height,), height)
            &&& #[trigger] is_quotient(width, height, aspect)
            &&& perspective.ensures((fov, aspect, near, far), matrix)
        }
}

/// Whether `/` on `T` accepts the sides of the surface, whatever scalars
/// they are turned into.
pub open spec fn can_project<T: Div<Output = T>, S: Fn(u32) -> T>(
    viewport: Viewport,
    to_scalar: S,
) -> bool {
    forall|width: T, height: T|
        #![trigger to_scalar.ensures((viewport.width,), width), to_scalar.ensures((viewport.height,), height)]
        to_scalar.ensures((viewport.width,), width) && to_scalar.ensures(
            (viewport.height,),
            height,
        ) ==> accepts_quotient(width, height)
}

/// Builds the perspective projection for a surface with the field of view
/// `fov` and the planes `near` and `far`. A surface without area gets none.
pub fn projection_matrix<T: Copy + Div<Output = T>, S, P>(
    viewport: &Viewport,
    fov: T,
    near: T,
    far: T,
    to_scalar: S,
    perspective: P,
) -> (matrix: Option<[T; 16]>) where S: Fn(u32) -> T, P: Fn(T, T, T, T) -> [T; 16]
    requires
        forall|side: u32| to_scalar.requires((side,)),
        forall|a: T, b: T, c: T, d: T| perspective.requires((a, b, c, d)),
        viewport.drawable() ==> can_project(*viewport, to_scalar),
    ensures
        matrix is Some <==> viewport.drawable(),
        matrix matches Some(m) ==> is_projection(
            *viewport,
            fov,
            near,
            far,
            to_scalar,
            perspective,
            m,
        ),
{
    if !viewport.is_drawable() {
        return None;
    }
    let width: T = to_scalar(viewport.width);
    let height: T = to_scalar(viewport.height);
    let aspect: T = width / height;
    assert(is_quotient(width, height, aspect));
    let m = perspective(fov, aspect, near, far);
    Some(m)
}

} // verus!
