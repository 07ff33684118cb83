//! Projection and sampling of an arbitrary-dimensional lattice into 3-space.
//!
//! The library works in fixed-point arithmetic: a world coordinate is an
//! `i64` counting multiples of `1 / SCALE` of a world unit, so basis
//! generation, projection, lattice topology, field-sample placement and
//! point-cloud seeding are exact integer computations with proved contracts.
//! A renderer converts the fixed-point output to its own number format.

pub mod cloud;
pub mod geom;
pub mod lattice;
pub mod projection;
pub mod rng;
pub mod sampler;
pub mod scene;
