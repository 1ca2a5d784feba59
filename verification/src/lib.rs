//! A Monte Carlo path tracer core: bounding-volume-hierarchy accelerated
//! ray-scene intersection, physically based scattering, and the render
//! driver's bookkeeping, all on exact integer arithmetic.

pub mod bsdf;
pub mod bvh;
pub mod color;
pub mod fx;
pub mod material;
pub mod mesh;
pub mod renderer;
pub mod rng;
pub mod scene;
pub mod slab;
pub mod triangle;
pub mod vector;
