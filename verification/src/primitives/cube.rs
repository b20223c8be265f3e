use vstd::prelude::*;
use crate::edges::unique_edges;
use crate::mesh::{Mesh, MeshView};
use crate::primitives::{MINUS_ONE, ONE};
use crate::surface::{
    is_closed_surface, lemma_closed_surface_by_table, lemma_closed_surface_edge_count, walks,
};

verus! {

/// The cube with corners at `(±1, ±1, ±1)`: eight vertices, and two
/// triangles to each of the six faces.
pub open spec fn cube() -> MeshView {
    MeshView {
        positions: seq![
            MINUS_ONE, MINUS_ONE, ONE,
            ONE, MINUS_ONE, ONE,
            ONE, ONE, ONE,
            MINUS_ONE, ONE, ONE,
            MINUS_ONE, MINUS_ONE, MINUS_ONE,
            ONE, MINUS_ONE, MINUS_ONE,
            ONE, ONE, MINUS_ONE,
            MINUS_ONE, ONE, MINUS_ONE,
        ],
        indices: seq![
            0, 1, 2, 0, 2, 3,
            1, 5, 6, 1, 6, 2,
            5, 4, 7, 5, 7, 6,
            4, 0, 3, 4, 3, 7,
            3, 2, 6, 3, 6, 7,
            4, 5, 1, 4, 1, 0,
        ],
    }
}

/// Makes the cube.
pub fn create_cube() -> (mesh: Mesh)
    ensures
        mesh@ == cube(),
        mesh@.well_formed(),
        mesh@.vertex_count() == 8,
        mesh@.triangle_count() == 12,
        is_closed_surface(mesh@.indices),
{
    let vertices: Vec<u32> = vec![
        // front face
        MINUS_ONE, MINUS_ONE, ONE,
        ONE, MINUS_ONE, ONE,
        ONE, ONE, ONE,
        MINUS_ONE, ONE, ONE,
        // back face
        MINUS_ONE, MINUS_ONE, MINUS_ONE,
        ONE, MINUS_ONE, MINUS_ONE,
        ONE, ONE, MINUS_ONE,
        MINUS_ONE, ONE, MINUS_ONE,
    ];
    let indices: Vec<u16> = vec![
        // front
        0, 1, 2, 0, 2, 3,
        // right
        1, 5, 6, 1, 6, 2,
        // back
        5, 4, 7, 5, 7, 6,
        // left
        4, 0, 3, 4, 3, 7,
        // top
        3, 2, 6, 3, 6, 7,
        // bottom
        4, 5, 1, 4, 1, 0,
    ];
    proof {
        lemma_cube_is_closed();
    }
    Mesh { vertices, indices }
}

/// The cube is a closed surface, and its vertices, edges and faces
/// number as those of a solid without holes do: `V - E + F = 2`.
pub proof fn lemma_cube_is_closed()
    ensures
        is_closed_surface(cube().indices),
        unique_edges(cube().indices).len() == 18,
        cube().vertex_count() - unique_edges(cube().indices).len()
            + cube().triangle_count() == 2,
{
    let indices = cube().indices;
    // row a, column b: the slot that walks from vertex a to vertex b
    let slot_of: Seq<int> = seq![
        0, 0, 3, 19, 35, 0, 0, 0,
        34, 0, 1, 0, 32, 6, 9, 0,
        2, 11, 0, 4, 0, 0, 25, 0,
        5, 0, 24, 0, 20, 0, 27, 22,
        18, 33, 0, 21, 0, 30, 0, 13,
        0, 31, 0, 0, 12, 0, 7, 15,
        0, 8, 10, 26, 0, 17, 0, 28,
        0, 0, 0, 29, 23, 14, 16, 0,
    ];
    assert forall|s: int| 0 <= s < indices.len() implies walks(indices, 8, slot_of, s) by {}
    lemma_closed_surface_by_table(indices, 8, slot_of);
    lemma_closed_surface_edge_count(indices);
}

} // verus!
