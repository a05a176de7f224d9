//! Core of a CPU path tracer over exact fixed-point grid coordinates.
//!
//! Scene geometry lives on an integer grid (a coordinate is a multiple of a
//! caller-chosen fixed-point unit), ray parameters are exact rationals, and
//! every intersection routine carries a contract that pins its result down
//! exactly: the slab test returns precisely the admissible parameter
//! interval, and the bounding volume hierarchy returns precisely the nearest
//! hit that a linear scan over its triangles would.

pub mod aabb;
pub mod bounds;
pub mod camera;
pub mod color;
pub mod hit_result;
pub mod hittable;
pub mod interval;
pub mod material;
pub mod mesh;
pub mod rat;
pub mod ray;
pub mod sphere;
pub mod tri;
pub mod vec3;
