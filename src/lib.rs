//! Tessellation core of a solid-modeling kernel.
//!
//! The generators here decide which points form which triangle, and in what
//! order, for boxes, cylinders, cones and spheres; the encoder lays a mesh out
//! as binary STL; scoped settings carry build options such as the angular
//! precision down a tree of nested builds. The generators are generic over the
//! vertex type, so that the coordinate arithmetic stays with the caller.

pub mod build_env;
pub mod cone;
pub mod cube;
pub mod cylinder;
pub mod mesh;
pub mod operators;
pub mod sphere;
pub mod stl;
pub mod unit;
