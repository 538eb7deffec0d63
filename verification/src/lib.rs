//! A minimal offline ray caster over fixed-point coordinates.
//!
//! A pinhole camera maps each pixel of a discrete grid to a ray, every ray is
//! tested against every sphere of a scene, and the renderer writes a flat
//! binary hit/miss pixel buffer.  All coordinates are fixed-point numbers:
//! an `i64` counts ticks of `1 / fx::SCALE`, so the geometry is exact integer
//! arithmetic and every function carries a proved contract.

pub mod fx;
pub mod vec3;
pub mod ray;
pub mod geom;
pub mod sphere;
pub mod scene;
pub mod camera;
pub mod render;
