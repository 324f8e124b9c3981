//! A minimal ray tracer with a verified core: fixed-point vector geometry,
//! analytic ray-sphere intersection, closest-hit aggregation over a scene,
//! and a deterministic sampling camera that fills an RGB pixel buffer.
//!
//! Scalars throughout are fixed-point numbers: an `i128` holding [`num::SCALE`]
//! times the value it stands for.

pub mod camera;
pub mod hittable;
pub mod interval;
pub mod num;
pub mod ray;
pub mod sampler;
pub mod vec3;
