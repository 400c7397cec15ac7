//! Physics integration layer of an interactive 3D engine.
//!
//! This crate owns a rigid-body/collider/joint world, hands out stable engine
//! handles for volatile solver handles, and bridges the live world to a
//! serialization-safe descriptor set.  Numerical work (integration, ray/shape
//! intersection, transform baking) is the business of an external solver and
//! of the scene graph; this layer receives and hands back plain values, and
//! every real number is carried as its 32-bit IEEE-754 bit pattern, never
//! operated on arithmetically here.

pub mod binder;
pub mod codec;
pub mod debug;
pub mod desc;
pub mod entities;
pub mod handles;
pub mod link;
pub mod log;
pub mod math;
pub mod pool;
pub mod ray;
pub mod scene;
pub mod shape;
pub mod stats;
pub mod table;
pub mod texture;
pub mod trimesh;
pub mod visitor;
pub mod world;

use vstd::prelude::*;

verus! {

} // verus!
