use vstd::prelude::*;
use crate::edges::unique_edges;
use crate::mesh::{Mesh, MeshView};
use crate::primitives::{MINUS_ONE, ONE, ZERO};
use crate::surface::{
    is_closed_surface, lemma_closed_surface_by_table, lemma_closed_surface_edge_count, walks,
};

verus! {

/// The octahedron with a pair of vertices on each axis, at distance one from
/// the origin: six vertices, and one triangle to each of the eight faces.
pub open spec fn octahedron() -> MeshView {
    MeshView {
        positions: seq![
            ZERO, ZERO, ONE,
            ONE, ZERO, ZERO,
            ZERO, ZERO, MINUS_ONE,
            MINUS_ONE, ZERO, ZERO,
            ZERO, ONE, ZERO,
            ZERO, MINUS_ONE, ZERO,
        ],
        indices: seq![
            0, 1, 4, 0, 4, 3, 0, 3, 5, 0, 5, 1,
            2, 4, 1, 2, 1, 5, 2, 5, 3, 2, 3, 4,
        ],
    }
}

/// Makes the octahedron.
pub fn create_octahedron() -> (mesh: Mesh)
    ensures
        mesh@ == octahedron(),
        mesh@.well_formed(),
        mesh@.vertex_count() == 6,
        mesh@.triangle_count() == 8,
        is_closed_surface(mesh@.indices),
{
    let vertices: Vec<u32> = vec![
        ZERO, ZERO, ONE,
        ONE, ZERO, ZERO,
        ZERO, ZERO, MINUS_ONE,
        MINUS_ONE, ZERO, ZERO,
        ZERO, ONE, ZERO,
        ZERO, MINUS_ONE, ZERO,
    ];
    let indices: Vec<u16> = vec![
        // the four faces round vertex 0
        0, 1, 4, 0, 4, 3, 0, 3, 5, 0, 5, 1,
        // the four faces round vertex 2
        2, 4, 1, 2, 1, 5, 2, 5, 3, 2, 3, 4,
    ];
    proof {
        lemma_octahedron_is_closed();
    }
    Mesh { vertices, indices }
}

/// The octahedron is a closed surface, and its vertices, edges and faces
/// number as those of a solid without holes do: `V - E + F = 2`.
pub proof fn lemma_octahedron_is_closed()
    ensures
        is_closed_surface(octahedron().indices),
        unique_edges(octahedron().indices).len() == 12,
        octahedron().vertex_count() - unique_edges(octahedron().indices).len()
            + octahedron().triangle_count() == 2,
{
    let indices = octahedron().indices;
    // row a, column b: the slot that walks from vertex a to vertex b
    let slot_of: Seq<int> = seq![
        0, 0, 0, 6, 3, 9,
        11, 0, 14, 0, 1, 16,
        0, 15, 0, 21, 12, 18,
        5, 0, 20, 0, 22, 7,
        2, 13, 23, 4, 0, 0,
        8, 10, 17, 19, 0, 0,
    ];
    assert forall|s: int| 0 <= s < indices.len() implies walks(indices, 6, slot_of, s) by {}
    lemma_closed_surface_by_table(indices, 6, slot_of);
    lemma_closed_surface_edge_count(indices);
}

} // verus!
