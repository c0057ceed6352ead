//! A verified Monte-Carlo path tracer core.
//!
//! The library covers the rendering engine: fixed-point scalar and vector
//! arithmetic, a bounding-volume hierarchy with an allocation-free
//! traversal, the scene closest-hit query, the recursive integrator, and
//! the block scheduler that partitions an image for a worker pool. All
//! arithmetic is integer fixed point, so every function is a pure,
//! deterministic, verified computation; the unverified shell around the
//! library only moves blocks to a channel, a window or an image file.

pub mod aabb;
pub mod bvh;
pub mod bvhiter;
pub mod camera;
pub mod fixed;
pub mod material;
pub mod object;
pub mod render;
pub mod rng;
pub mod scene;
pub mod shared;
