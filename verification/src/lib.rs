//! A path-tracing engine over an exact fixed-point scalar model.
//!
//! Scalars are `i64` raw values denoting `raw / SCALE` with `SCALE = 1024`.
//! All geometric decisions (slab tests, bounding-volume traversal, sphere
//! intersection) are made with exact integer arithmetic, so their contracts
//! can state precisely what is computed.

pub mod util;
pub mod ray;
pub mod aabb;
pub mod texture;
pub mod material;
pub mod renderable;
pub mod sphere;
pub mod camera;
pub mod scene;
pub mod scene_builder;
pub mod render;
