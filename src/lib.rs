//! The integer side of a Monte-Carlo path tracer for scenes of spheres: the
//! shape of the bounding volume hierarchy and the order keys it is sorted by,
//! the bounce-budget decisions of the path integrator, and the pixel-buffer
//! layout of the rendered image.

pub mod bvh;
pub mod image;
pub mod path;
pub mod sort_key;
