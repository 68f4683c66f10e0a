//! A verified ray caster: a scene of primitives (an infinite checkerboard
//! ground plane and reflective spheres), a recursive caster that resolves the
//! nearest hit along a ray and follows reflections to a bounded depth, and
//! the fixed-point vector algebra the geometry is built on.

pub mod math;
pub mod objects;
pub mod rays;
pub mod scene;
