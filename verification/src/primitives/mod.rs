//! The reference polyhedra: fixed tables of positions and triangles, each a
//! closed surface wound counter-clockwise seen from outside.

pub mod cube;
pub mod octahedron;
pub mod tetrahedron;

pub use cube::create_cube;
pub use octahedron::create_octahedron;
pub use tetrahedron::create_tetrahedron;

use vstd::prelude::*;
use crate::mesh::{MeshView, PrimitiveType};
use cube::cube;
use octahedron::octahedron;
use tetrahedron::tetrahedron;

verus! {

/// The mesh that stands for each kind of polyhedron.
pub open spec fn primitive(kind: PrimitiveType) -> MeshView {
    match kind {
        PrimitiveType::Cube => cube(),
        PrimitiveType::Tetrahedron => tetrahedron(),
        PrimitiveType::Octahedron => octahedron(),
    }
}

/// The single-precision bit pattern of `0.0`.
pub const ZERO: u32 = 0x0000_0000;

/// The single-precision bit pattern of `1.0`.
pub const ONE: u32 = 0x3F80_0000;

/// The single-precision bit pattern of `-1.0`.
pub const MINUS_ONE: u32 = 0xBF80_0000;

} // verus!
