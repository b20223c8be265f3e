//! The mesh: a buffer of positions and a buffer of triangle indices that
//! only ever name vertices the mesh has.

use vstd::prelude::*;
use crate::operations::subdivide::{
    is_subdivision, subdivide, subdivided_vertex_count, SubdivideError,
};
use crate::primitives::{create_cube, create_octahedron, create_tetrahedron, primitive};
use crate::surface::is_closed_surface;

verus! {

/// The largest number of vertices a mesh may hold while every one of them
/// can still be named by a 16-bit index.
pub const MAX_VERTICES: usize = 65536;

/// The reference polyhedra.
#[derive(Clone, Copy, Debug, PartialEq, Eq)]
pub enum PrimitiveType {
    Cube,
    Tetrahedron,
    Octahedron,
}

/// Why a pair of buffers is not a mesh.
#[derive(Clone, Copy, Debug, PartialEq, Eq)]
pub enum MeshError {
    /// The positions do not come in groups of three coordinates.
    RaggedPositions,
    /// The indices do not come in groups of three corners.
    RaggedIndices,
    /// An index names a vertex that the positions do not hold.
    IndexOutOfBounds,
}

/// What a mesh is to a specification: its two buffers as sequences.
///
/// Vertex `v` has the coordinates `positions[3 v]`, `positions[3 v + 1]` and
/// `positions[3 v + 2]`, each the bit pattern of a single-precision number.
/// Triangle `t` has the corners `indices[3 t]`, `indices[3 t + 1]` and
/// `indices[3 t + 2]`.
pub struct MeshView {
    pub positions: Seq<u32>,
    pub indices: Seq<u16>,
}

impl MeshView {
    /// How many vertices the positions hold.
    pub open spec fn vertex_count(self) -> int {
        self.positions.len() as int / 3
    }

    /// How many triangles the indices hold.
    pub open spec fn triangle_count(self) -> int {
        self.indices.len() as int / 3
    }

    /// Coordinate `axis` (0, 1 or 2) of vertex `vertex`.
    pub open spec fn coordinate(self, vertex: int, axis: int) -> u32 {
        self.positions[3 * vertex + axis]
    }

    /// Both buffers come in whole triples and every index names a vertex
    /// that is there.
    pub open spec fn well_formed(self) -> bool {
        &&& self.positions.len() % 3 == 0
        &&& self.indices.len() % 3 == 0
        &&& indices_below(self.indices, self.vertex_count())
    }
}

/// Every index of `indices` is less than `bound`.
pub open spec fn indices_below(indices: Seq<u16>, bound: int) -> bool {
    forall|i: int| 0 <= i < indices.len() ==> (#[trigger] indices[i]) < bound
}

/// An indexed triangle mesh. Every value of this type is well formed.
pub struct Mesh {
    pub(crate) vertices: Vec<u32>,
    pub(crate) indices: Vec<u16>,
}

impl View for Mesh {
    type V = MeshView;

    open(crate) spec fn view(&self) -> MeshView {
        MeshView { positions: self.vertices@, indices: self.indices@ }
    }
}

/// Tells whether every index of `indices` is less than `vertex_count`.
pub fn indices_in_bounds(indices: &Vec<u16>, vertex_count: usize) -> (ok: bool)
    ensures
        ok == indices_below(indices@, vertex_count as int),
{
    let mut i: usize = 0;
    while i < indices.len()
        invariant
            i <= indices.len(),
            indices_below(indices@.take(i as int), vertex_count as int),
        decreases indices.len() - i,
    {
        if indices[i] as usize >= vertex_count {
            return false;
        }
        i += 1;
    }
    assert(indices@.take(i as int) == indices@);
    true
}

impl Mesh {
    #[verifier::type_invariant]
    pub(crate) open spec fn inv(&self) -> bool {
        self@.well_formed()
    }

    /// The mesh without vertices or triangles.
    pub fn new() -> (mesh: Mesh)
        ensures
            mesh@.positions.len() == 0,
            mesh@.indices.len() == 0,
            mesh@.well_formed(),
    {
        Mesh { vertices: Vec::new(), indices: Vec::new() }
    }

    /// The reference polyhedron of the given kind.
    pub fn from_primitive(primitive_type: PrimitiveType) -> (mesh: Mesh)
        ensures
            mesh@ == primitive(primitive_type),
            mesh@.well_formed(),
            is_closed_surface(mesh@.indices),
    {
        match primitive_type {
            PrimitiveType::Cube => create_cube(),
            PrimitiveType::Tetrahedron => create_tetrahedron(),
            PrimitiveType::Octahedron => create_octahedron(),
        }
    }

    /// Makes a mesh of buffers built elsewhere, if they are well formed.
    ///
    /// The positions are looked at first, then the length of the indices, then
    /// their values; the first fault found is the one reported.
    pub fn from_buffers(positions: Vec<u32>, indices: Vec<u16>) -> (made: Result<Mesh, MeshError>)
        ensures
            match made {
                Ok(mesh) => {
                    &&& mesh@.positions == positions@
                    &&& mesh@.indices == indices@
                    &&& mesh@.well_formed()
                },
                Err(MeshError::RaggedPositions) => positions@.len() % 3 != 0,
                Err(MeshError::RaggedIndices) => {
                    &&& positions@.len() % 3 == 0
                    &&& indices@.len() % 3 != 0
                },
                Err(MeshError::IndexOutOfBounds) => {
                    &&& positions@.len() % 3 == 0
                    &&& indices@.len() % 3 == 0
                    &&& !indices_below(indices@, positions@.len() as int / 3)
                },
            },
    {
        if positions.len() % 3 != 0 {
            return Err(MeshError::RaggedPositions);
        }
        if indices.len() % 3 != 0 {
            return Err(MeshError::RaggedIndices);
        }
        if !indices_in_bounds(&indices, positions.len() / 3) {
            return Err(MeshError::IndexOutOfBounds);
        }
        Ok(Mesh { vertices: positions, indices })
    }

    /// The positions, three coordinates to a vertex.
    pub fn get_vertices(&self) -> (positions: &Vec<u32>)
        ensures
            positions@ == self@.positions,
    {
        &self.vertices
    }

    /// A copy of the triangle indices, three corners to a triangle.
    pub fn get_indices(&self) -> (indices: Vec<u16>)
        ensures
            indices@ == self@.indices,
    {
        self.indices.clone()
    }

    /// Subdivides the mesh once, in place: see
    /// [`subdivide`](crate::operations::subdivide::subdivide).
    pub fn subdivide<F: Fn(u32, u32) -> u32>(&mut self, average: F) -> (done: Result<
        (),
        SubdivideError,
    >)
        requires
            forall|x: u32, y: u32| call_requires(average, (x, y)),
        ensures
            match done {
                Ok(()) => {
                    &&& subdivided_vertex_count(old(self)@) <= MAX_VERTICES
                    &&& is_subdivision(old(self)@, final(self)@, average)
                    &&& final(self)@.well_formed()
                },
                Err(e) => {
                    &&& e == SubdivideError::IndexOverflow
                    &&& subdivided_vertex_count(old(self)@) > MAX_VERTICES
                    &&& final(self)@ == old(self)@
                },
            },
    {
        subdivide(self, average)
    }
}

} // verus!
