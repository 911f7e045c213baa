//! A small ray-casting core: a projective camera that turns a pixel grid
//! into rays, an octree over scene vertices, and a tiled renderer that
//! colors pixels from ray-hit normals.
//!
//! All geometry is carried in signed 64-bit fixed-point scalars with
//! `FP_ONE` as the unit, so every arithmetic step has an exact contract.
//! Callers that live in floating point convert at the boundary.

#![allow(non_snake_case)]

pub mod acceleration;
pub mod camera;
pub mod renderer;
pub mod vec_ops;
pub mod fixed;
pub mod objloader;
pub mod venom_core;
