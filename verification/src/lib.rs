//! Binary triangle-mesh decoding, vector arithmetic, orbit-camera state and
//! the matrices of a frame, for a mesh viewer, with the laws that hold of
//! them where the arithmetic is exact.

pub mod camera;
pub mod exact;
pub mod linalg;
pub mod normalize;
pub mod scalar;
pub mod scene;
pub mod stl;
pub mod transform;
