//! Indexed triangle meshes, three reference polyhedra, and midpoint
//! subdivision that shares one new vertex between the triangles on either
//! side of an edge.
//!
//! Coordinates are carried as the bit patterns of IEEE 754 single-precision
//! numbers. The library stores and copies them and never computes with them:
//! the one place where two coordinates are combined, the midpoint of an edge,
//! is a function that the caller hands to [`Mesh::subdivide`].

pub mod edges;
pub mod mesh;
pub mod operations;
pub mod primitives;
pub mod surface;

pub use mesh::{Mesh, MeshError, MeshView, PrimitiveType, MAX_VERTICES};
pub use operations::subdivide::SubdivideError;
