//! What can be done to a mesh.

pub mod subdivide;
