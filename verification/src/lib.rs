//! A recursive, stochastic ray-tracing renderer verified with Verus.
//!
//! All geometry and color arithmetic is carried out in a fixed-point
//! representation: a quantity is stored as a signed 64-bit integer holding
//! the real value times `fixed::SCALE`. Every operation of the rendering
//! core states its result exactly, as an integer formula, and is proved
//! free of overflow.

pub mod camera;
pub mod color;
pub mod fixed;
pub mod hittable;
pub mod interval;
pub mod material;
pub mod ray;
pub mod rng;
pub mod vec3;
