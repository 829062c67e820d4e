//! State of the orbit camera, and how input and the passing of frames
//! change it.
//!
//! The camera looks at the mesh from a distance `zoom` along the view axis
//! and is turned by the angles `theta` and `phi`. Dragging turns it; once a
//! drag is released it coasts on with the last angular velocity, which
//! decays from frame to frame.

use crate::scalar::{
    accepts_product, accepts_quotient, accepts_sum, arithmetic_is_total, is_product, is_quotient,
    is_sum, operators_are_specified,
};
use std::ops::{Add, Div, Mul, Sub};
use vstd::prelude::*;
use vstd::std_specs::ops::{AddSpec, DivSpec, MulSpec};

verus! {

/// The state of the camera over scalars of type `T`.
#[derive(Clone, Copy, Debug, PartialEq)]
pub struct CameraState<T> {
    /// Distance along the view axis. It is not clamped.
    pub zoom: T,
    /// Azimuth, in radians. It accumulates without wrapping.
    pub theta: T,
    /// Elevation, in radians. It accumulates without wrapping.
    pub phi: T,
    /// Angular velocity of the azimuth, in radians per frame.
    pub dx: T,
    /// Angular velocity of the elevation, in radians per frame.
    pub dy: T,
    /// Whether a drag is going on.
    pub drag: bool,
}

impl<T> CameraState<T> where
    T: Copy + Add<Output = T> + Sub<Output = T> + Mul<Output = T> + Div<Output = T>,
 {
    /// A camera at distance `zoom` that is at rest, with all angles and
    /// velocities at `rest`, and not dragged.
    pub fn new(zoom: T, rest: T) -> (camera: Self)
        ensures
            camera == (CameraState { zoom, theta: rest, phi: rest, dx: rest, dy: rest, drag: false }),
    {
        CameraState { zoom, theta: rest, phi: rest, dx: rest, dy: rest, drag: false }
    }

    /// The angular velocity that a pointer movement of `movement` pixels
    /// gives on a surface `extent` pixels wide or high, where `turn` is a
    /// whole turn in radians.
    pub open spec fn velocity_of(movement: T, turn: T, extent: T) -> T {
        movement.mul_spec(turn).div_spec(extent)
    }

    /// The camera after the wheel was turned by `delta`.
    pub open spec fn after_wheel(self, delta: T, wheel_drag: T) -> Self {
        CameraState { zoom: self.zoom.add_spec(delta.div_spec(wheel_drag)), ..self }
    }

    /// The camera after the pointer moved.
    pub open spec fn after_pointer_move(
        self,
        movement_x: T,
        movement_y: T,
        turn: T,
        width: T,
        height: T,
    ) -> Self {
        if self.drag {
            let dx = Self::velocity_of(movement_x, turn, width);
            let dy = Self::velocity_of(movement_y, turn, height);
            CameraState {
                dx,
                dy,
                theta: self.theta.add_spec(dx),
                phi: self.phi.add_spec(dy),
                ..self
            }
        } else {
            self
        }
    }

    /// The camera one frame later.
    pub open spec fn after_frame(self, amortization: T) -> Self {
        if self.drag {
            self
        } else {
            let dx = self.dx.mul_spec(amortization);
            let dy = self.dy.mul_spec(amortization);
            CameraState {
                dx,
                dy,
                theta: self.theta.add_spec(dx),
                phi: self.phi.add_spec(dy),
                ..self
            }
        }
    }

    /// Whether the operators of `T` accept what a wheel turn hands them:
    /// the quotient, and the sum with whatever the quotient comes to.
    pub open spec fn can_wheel(self, delta: T, wheel_drag: T) -> bool {
        &&& accepts_quotient(delta, wheel_drag)
        &&& forall|step: T| #[trigger]
            is_quotient(delta, wheel_drag, step) ==> accepts_sum(self.zoom, step)
    }

    /// Whether the operators of `T` accept what turning an angle by a
    /// pointer movement hands them: the product, the quotient of whatever
    /// the product comes to, and the sum with whatever that comes to.
    pub open spec fn can_turn(angle: T, movement: T, turn: T, extent: T) -> bool {
        &&& accepts_product(movement, turn)
        &&& forall|along: T| #[trigger]
            is_product(movement, turn, along) ==> {
                &&& accepts_quotient(along, extent)
                &&& forall|velocity: T| #[trigger]
                    is_quotient(along, extent, velocity) ==> accepts_sum(angle, velocity)
            }
    }

    /// Whether the operators of `T` accept what a pointer movement hands
    /// them. Outside a drag that is nothing.
    pub open spec fn can_pointer_move(
        self,
        movement_x: T,
        movement_y: T,
        turn: T,
        width: T,
        height: T,
    ) -> bool {
        self.drag ==> {
            &&& Self::can_turn(self.theta, movement_x, turn, width)
            &&& Self::can_turn(self.phi, movement_y, turn, height)
        }
    }

    /// Whether the operators of `T` accept what letting a velocity decay
    /// and turning an angle by it hands them: the product, and the sum with
    /// whatever the product comes to.
    pub open spec fn can_coast(angle: T, velocity: T, amortization: T) -> bool {
        &&& accepts_product(velocity, amortization)
        &&& forall|left: T| #[trigger]
            is_product(velocity, amortization, left) ==> accepts_sum(angle, left)
    }

    /// Whether the operators of `T` accept what a frame hands them. During
    /// a drag that is nothing.
    pub open spec fn can_frame(self, amortization: T) -> bool {
        !self.drag ==> {
            &&& Self::can_coast(self.theta, self.dx, amortization)
            &&& Self::can_coast(self.phi, self.dy, amortization)
        }
    }

    /// The camera `frames` frames later, with no input in between.
    pub open spec fn after_frames(self, amortization: T, frames: nat) -> Self
        decreases frames,
    {
        if frames == 0 {
            self
        } else {
            self.after_frames(amortization, (frames - 1) as nat).after_frame(amortization)
        }
    }

    /// A velocity after it decayed over `frames` frames: multiplied by
    /// `amortization` once for each of them.
    pub open spec fn decayed(velocity: T, amortization: T, frames: nat) -> T
        decreases frames,
    {
        if frames == 0 {
            velocity
        } else {
            Self::decayed(velocity, amortization, (frames - 1) as nat).mul_spec(amortization)
        }
    }

    /// Where the operators of `T` accept every pair of operands, every
    /// input and every frame can be handled, whatever the state.
    pub proof fn lemma_total_arithmetic_handles_all(
        self,
        a: T,
        b: T,
        turn: T,
        width: T,
        height: T,
    )
        requires
            arithmetic_is_total::<T>(),
        ensures
            self.can_wheel(a, b),
            self.can_pointer_move(a, b, turn, width, height),
            self.can_frame(a),
    {
    }

    /// Outside a drag, one frame multiplies both angular velocities by
    /// `amortization` and adds what is left of them to the angles.
    pub proof fn lemma_frame_decays_velocity(self, amortization: T)
        requires
            !self.drag,
        ensures
            self.after_frame(amortization).dx == self.dx.mul_spec(amortization),
            self.after_frame(amortization).dy == self.dy.mul_spec(amortization),
            self.after_frame(amortization).theta == self.theta.add_spec(
                self.dx.mul_spec(amortization),
            ),
            self.after_frame(amortization).phi == self.phi.add_spec(
                self.dy.mul_spec(amortization),
            ),
            self.after_frame(amortization).zoom == self.zoom,
            !self.after_frame(amortization).drag,
    {
    }

    /// Outside a drag, any number of frames multiplies both angular
    /// velocities by `amortization` once for each frame, and leaves the
    /// distance of the camera as it was.
    pub proof fn lemma_frames_decay_velocity(self, amortization: T, frames: nat)
        requires
            !self.drag,
        ensures
            self.after_frames(amortization, frames).dx == Self::decayed(
                self.dx,
                amortization,
                frames,
            ),
            self.after_frames(amortization, frames).dy == Self::decayed(
                self.dy,
                amortization,
                frames,
            ),
            self.after_frames(amortization, frames).zoom == self.zoom,
            !self.after_frames(amortization, frames).drag,
        decreases frames,
    {
        if frames > 0 {
            self.lemma_frames_decay_velocity(amortization, (frames - 1) as nat);
        }
    }

    /// Whether multiplying by `amortization` damps: the product lies
    /// between nothing and the velocity, by the measure `val` of the
    /// scalars in whole steps.
    pub open spec fn damps(val: spec_fn(T) -> int, amortization: T) -> bool {
        forall|velocity: T|
            #![trigger val(velocity.mul_spec(amortization))]
            {
                &&& val(velocity) >= 0 ==> 0 <= val(velocity.mul_spec(amortization)) <= val(
                    velocity,
                )
                &&& val(velocity) <= 0 ==> val(velocity) <= val(velocity.mul_spec(amortization))
                    <= 0
            }
    }

    /// Whether multiplying by `amortization` damps every velocity that is
    /// not at rest by at least one step.
    pub open spec fn damps_strictly(val: spec_fn(T) -> int, amortization: T) -> bool {
        &&& Self::damps(val, amortization)
        &&& forall|velocity: T|
            #![trigger val(velocity.mul_spec(amortization))]
            val(velocity) != 0 ==> val(velocity.mul_spec(amortization)) != val(velocity)
    }

    /// How far a velocity is from rest, in steps.
    pub open spec fn speed(val: spec_fn(T) -> int, velocity: T) -> int {
        if val(velocity) < 0 {
            -val(velocity)
        } else {
            val(velocity)
        }
    }

    /// Where the amortization damps, a velocity never gets faster from one
    /// frame to the next, nor faster than it was at first.
    pub proof fn lemma_velocity_never_grows(
        val: spec_fn(T) -> int,
        velocity: T,
        amortization: T,
        frames: nat,
    )
        requires
            Self::damps(val, amortization),
        ensures
            Self::speed(val, Self::decayed(velocity, amortization, frames + 1)) <= Self::speed(
                val,
                Self::decayed(velocity, amortization, frames),
            ),
            Self::speed(val, Self::decayed(velocity, amortization, frames)) <= Self::speed(
                val,
                velocity,
            ),
        decreases frames,
    {
        let now = Self::decayed(velocity, amortization, frames);
        assert(Self::decayed(velocity, amortization, frames + 1) == now.mul_spec(amortization));
        if frames > 0 {
            Self::lemma_velocity_never_grows(val, velocity, amortization, (frames - 1) as nat);
        }
    }

    /// Where the amortization damps every velocity that is not at rest by
    /// at least one step, a velocity loses a step with each frame until it
    /// is at rest: after as many frames as it had steps it measures
    /// nothing, and stays so.
    pub proof fn lemma_velocity_comes_to_rest(
        val: spec_fn(T) -> int,
        velocity: T,
        amortization: T,
        frames: nat,
    )
        requires
            Self::damps_strictly(val, amortization),
        ensures
            Self::speed(val, Self::decayed(velocity, amortization, frames)) + frames <= Self::speed(
                val,
                velocity,
            ) || val(Self::decayed(velocity, amortization, frames)) == 0,
            frames >= Self::speed(val, velocity) ==> val(
                Self::decayed(velocity, amortization, frames),
            ) == 0,
        decreases frames,
    {
        if frames > 0 {
            let before = Self::decayed(velocity, amortization, (frames - 1) as nat);
            Self::lemma_velocity_comes_to_rest(val, velocity, amortization, (frames - 1) as nat);
            assert(Self::decayed(velocity, amortization, frames) == before.mul_spec(amortization));
        }
    }

    /// During a drag, frames leave the camera as it is.
    pub proof fn lemma_drag_holds_camera(self, amortization: T, frames: nat)
        requires
            self.drag,
        ensures
            self.after_frames(amortization, frames) == self,
        decreases frames,
    {
        if frames > 0 {
            self.lemma_drag_holds_camera(amortization, (frames - 1) as nat);
        }
    }

    /// The wheel was turned by `delta`: the camera moves along the view
    /// axis by `delta / wheel_drag`.
    pub fn on_wheel(&mut self, delta: T, wheel_drag: T)
        requires
            old(self).can_wheel(delta, wheel_drag),
        ensures
            final(self).theta == old(self).theta,
            final(self).phi == old(self).phi,
            final(self).dx == old(self).dx,
            final(self).dy == old(self).dy,
            final(self).drag == old(self).drag,
            exists|step: T|
                is_quotient(delta, wheel_drag, step) && #[trigger] is_sum(
                    old(self).zoom,
                    step,
                    final(self).zoom,
                ),
            operators_are_specified::<T>() ==> *final(self) == old(self).after_wheel(
                delta,
                wheel_drag,
            ),
    {
        let step: T = delta / wheel_drag;
        assert(is_quotient(delta, wheel_drag, step));
        self.zoom = self.zoom + step;
        assert(is_sum(old(self).zoom, step, self.zoom));
    }

    /// A drag begins.
    pub fn on_drag_start(&mut self)
        ensures
            *final(self) == (CameraState { drag: true, ..*old(self) }),
    {
        self.drag = true;
    }

    /// A drag ends, by release or because the pointer left the surface.
    pub fn on_drag_end(&mut self)
        ensures
            *final(self) == (CameraState { drag: false, ..*old(self) }),
    {
        self.drag = false;
    }

    /// The pointer moved by `movement_x` and `movement_y` pixels over a
    /// surface of `width` by `height` pixels. During a drag this sets the
    /// angular velocity and turns the camera by it; otherwise nothing
    /// changes.
    pub fn on_pointer_move(&mut self, movement_x: T, movement_y: T, turn: T, width: T, height: T)
        requires
            old(self).can_pointer_move(movement_x, movement_y, turn, width, height),
        ensures
            final(self).zoom == old(self).zoom,
            final(self).drag == old(self).drag,
            !old(self).drag ==> *final(self) == *old(self),
            old(self).drag ==> {
                &&& exists|across: T|
                    is_product(movement_x, turn, across) && #[trigger] is_quotient(
                        across,
                        width,
                        final(self).dx,
                    )
                &&& exists|down: T|
                    is_product(movement_y, turn, down) && #[trigger] is_quotient(
                        down,
                        height,
                        final(self).dy,
                    )
                &&& is_sum(old(self).theta, final(self).dx, final(self).theta)
                &&& is_sum(old(self).phi, final(self).dy, final(self).phi)
            },
            operators_are_specified::<T>() ==> *final(self) == old(self).after_pointer_move(
                movement_x,
                movement_y,
                turn,
                width,
                height,
            ),
    {
        if self.drag {
            let across: T = movement_x * turn;
            assert(is_product(movement_x, turn, across));
            let down: T = movement_y * turn;
            assert(is_product(movement_y, turn, down));
            self.dx = across / width;
            assert(is_quotient(across, width, self.dx));
            self.dy = down / height;
            assert(is_quotient(down, height, self.dy));
            self.theta = self.theta + self.dx;
            self.phi = self.phi + self.dy;
        }
    }

    /// One frame passes. Outside a drag the angular velocity decays by the
    /// factor `amortization`, and the camera turns by what is left of it;
    /// during a drag nothing changes.
    pub fn on_frame(&mut self, amortization: T)
        requires
            old(self).can_frame(amortization),
        ensures
            final(self).zoom == old(self).zoom,
            final(self).drag == old(self).drag,
            old(self).drag ==> *final(self) == *old(self),
            !old(self).drag ==> {
                &&& is_product(old(self).dx, amortization, final(self).dx)
                &&& is_product(old(self).dy, amortization, final(self).dy)
                &&& is_sum(old(self).theta, final(self).dx, final(self).theta)
                &&& is_sum(old(self).phi, final(self).dy, final(self).phi)
            },
            operators_are_specified::<T>() ==> *final(self) == old(self).after_frame(amortization),
    {
        if !self.drag {
            self.dx = self.dx * amortization;
            assert(is_product(old(self).dx, amortization, self.dx));
            self.dy = self.dy * amortization;
            assert(is_product(old(self).dy, amortization, self.dy));
            self.theta = self.theta + self.dx;
            self.phi = self.phi + self.dy;
        }
    }
}

} // verus!
