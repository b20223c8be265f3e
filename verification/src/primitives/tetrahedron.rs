use vstd::prelude::*;
use crate::edges::unique_edges;
use crate::mesh::{Mesh, MeshView};
use crate::primitives::{MINUS_ONE, ONE};
use crate::surface::{
    is_closed_surface, lemma_closed_surface_by_table, lemma_closed_surface_edge_count, walks,
};

verus! {

/// The regular tetrahedron on four corners of the cube `(±1, ±1, ±1)` that no
/// edge of the cube joins: four vertices, and one triangle to each face.
pub open spec fn tetrahedron() -> MeshView {
    MeshView {
        positions: seq![
            ONE, ONE, ONE,
            ONE, MINUS_ONE, MINUS_ONE,
            MINUS_ONE, ONE, MINUS_ONE,
            MINUS_ONE, MINUS_ONE, ONE,
        ],
        indices: seq![
            0, 1, 2,
            0, 3, 1,
            0, 2, 3,
            1, 3, 2,
        ],
    }
}

/// Makes the tetrahedron.
pub fn create_tetrahedron() -> (mesh: Mesh)
    ensures
        mesh@ == tetrahedron(),
        mesh@.well_formed(),
        mesh@.vertex_count() == 4,
        mesh@.triangle_count() == 4,
        is_closed_surface(mesh@.indices),
{
    let vertices: Vec<u32> = vec![
        ONE, ONE, ONE,
        ONE, MINUS_ONE, MINUS_ONE,
        MINUS_ONE, ONE, MINUS_ONE,
        MINUS_ONE, MINUS_ONE, ONE,
    ];
    let indices: Vec<u16> = vec![
        // the face away from vertex 3, then those away from 2, 1 and 0
        0, 1, 2,
        0, 3, 1,
        0, 2, 3,
        1, 3, 2,
    ];
    proof {
        lemma_tetrahedron_is_closed();
    }
    Mesh { vertices, indices }
}

/// The tetrahedron is a closed surface, and its vertices, edges and faces
/// number as those of a solid without holes do: `V - E + F = 2`.
pub proof fn lemma_tetrahedron_is_closed()
    ensures
        is_closed_surface(tetrahedron().indices),
        unique_edges(tetrahedron().indices).len() == 6,
        tetrahedron().vertex_count() - unique_edges(tetrahedron().indices).len()
            + tetrahedron().triangle_count() == 2,
{
    let indices = tetrahedron().indices;
    // row a, column b: the slot that walks from vertex a to vertex b
    let slot_of: Seq<int> = seq![
        0, 0, 6, 3,
        5, 0, 1, 9,
        2, 11, 0, 7,
        8, 4, 10, 0,
    ];
    assert forall|s: int| 0 <= s < indices.len() implies walks(indices, 4, slot_of, s) by {}
    lemma_closed_surface_by_table(indices, 4, slot_of);
    lemma_closed_surface_edge_count(indices);
}

} // verus!
