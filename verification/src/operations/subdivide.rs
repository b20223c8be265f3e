//! Midpoint subdivision: every triangle becomes four, and every edge gets one
//! new vertex, whichever of its triangles asks for it first.

use std::collections::HashMap;
use vstd::prelude::*;
use vstd::seq_lib::lemma_seq_contains_after_push;
use vstd::std_specs::hash::*;
use crate::edges::{
    edge_at, edge_key, edge_set, edge_slots, first_occurrences, lemma_first_occurrences,
    lemma_first_occurrences_index, lemma_first_occurrences_prefix, lemma_unique_edges_count,
    unique_edges,
};
use crate::mesh::{indices_below, indices_in_bounds, Mesh, MeshView, MAX_VERTICES};

verus! {

/// Why a mesh was not subdivided.
#[derive(Clone, Copy, Debug, PartialEq, Eq)]
pub enum SubdivideError {
    /// The subdivided mesh would hold more vertices than 16-bit indices can
    /// name.
    IndexOverflow,
    /// The new index buffer names a vertex that the new positions do not
    /// hold. No mesh makes subdivision report this.
    InvalidIndex,
}

/// The number of vertices of the subdivision of `mesh`: those it has, and one
/// for each of its distinct edges.
pub open spec fn subdivided_vertex_count(mesh: MeshView) -> int {
    mesh.vertex_count() + unique_edges(mesh.indices).len()
}

/// The vertex that subdivision puts on the edge in slot `slot` of `mesh`.
/// The new vertices follow the old ones, in the order in which the slots
/// meet their edges.
pub open spec fn midpoint_index(mesh: MeshView, slot: int) -> int {
    mesh.vertex_count() + unique_edges(mesh.indices).index_of(edge_at(mesh.indices, slot))
}

/// The twelve indices that take the place of triangle `t` of `mesh`: with
/// corners `v1 v2 v3` and midpoints `m1` on `v1 v2`, `m2` on `v2 v3` and `m3`
/// on `v3 v1`, the three corner triangles and the one in the middle, all
/// wound as the triangle was.
pub open spec fn subdivided_triangle(mesh: MeshView, t: int) -> Seq<int> {
    let v1 = mesh.indices[3 * t] as int;
    let v2 = mesh.indices[3 * t + 1] as int;
    let v3 = mesh.indices[3 * t + 2] as int;
    let m1 = midpoint_index(mesh, 3 * t);
    let m2 = midpoint_index(mesh, 3 * t + 1);
    let m3 = midpoint_index(mesh, 3 * t + 2);
    seq![v1, m1, m3, m1, v2, m2, m3, m2, v3, m1, m2, m3]
}

/// Index `j` of the subdivision of `mesh`.
pub open spec fn subdivided_index(mesh: MeshView, j: int) -> int {
    subdivided_triangle(mesh, j / 12)[j % 12]
}

/// `after` is `before` subdivided once, with new coordinates that `average`
/// can return for the coordinates of the two ends of their edge, the end with
/// the smaller index given first.
pub open spec fn is_subdivision<F: Fn(u32, u32) -> u32>(
    before: MeshView,
    after: MeshView,
    average: F,
) -> bool {
    let edges = unique_edges(before.indices);
    &&& after.indices.len() == 4 * before.indices.len()
    &&& forall|j: int|
        0 <= j < after.indices.len() ==> (#[trigger] after.indices[j]) == subdivided_index(
            before,
            j,
        )
    &&& after.positions.len() == before.positions.len() + 3 * edges.len()
    &&& forall|i: int|
        0 <= i < before.positions.len() ==> (#[trigger] after.positions[i]) == before.positions[i]
    &&& forall|v: int, axis: int|
        before.vertex_count() <= v < after.vertex_count() && 0 <= axis < 3 ==> call_ensures(
            average,
            (
                before.coordinate(edges[v - before.vertex_count()].0 as int, axis),
                before.coordinate(edges[v - before.vertex_count()].1 as int, axis),
            ),
            #[trigger] after.coordinate(v, axis),
        )
}

/// The key under which the midpoint of an edge is remembered.
spec fn code(a: u16, b: u16) -> u32 {
    (a * 65536 + b) as u32
}

/// What holds of the new positions and of the remembered midpoints when
/// exactly the edges `seen` have been met.
#[verifier::opaque]
spec fn consistent<F: Fn(u32, u32) -> u32>(
    positions: Seq<u32>,
    average: F,
    seen: Seq<(u16, u16)>,
    new_positions: Seq<u32>,
    cache: Map<u32, u16>,
) -> bool {
    let n = positions.len() as int / 3;
    &&& positions.len() % 3 == 0
    &&& seen.no_duplicates()
    &&& n + seen.len() <= MAX_VERTICES
    &&& new_positions.len() == positions.len() + 3 * seen.len()
    &&& forall|i: int| 0 <= i < positions.len() ==> (#[trigger] new_positions[i]) == positions[i]
    &&& forall|k: int| 0 <= k < seen.len() ==> (#[trigger] seen[k]).0 < n && seen[k].1 < n
    &&& forall|k: int, axis: int|
        #![trigger new_positions[positions.len() + 3 * k + axis]]
        0 <= k < seen.len() && 0 <= axis < 3 ==> call_ensures(
            average,
            (positions[3 * seen[k].0 + axis], positions[3 * seen[k].1 + axis]),
            new_positions[positions.len() + 3 * k + axis],
        )
    &&& forall|a: u16, b: u16| #[trigger] cache.contains_key(code(a, b)) <==> seen.contains((a, b))
    &&& forall|a: u16, b: u16|
        seen.contains((a, b)) ==> (#[trigger] cache[code(a, b)]) == n + seen.index_of((a, b))
}

/// `seen` with `edge` met as well.
spec fn met(seen: Seq<(u16, u16)>, edge: (u16, u16)) -> Seq<(u16, u16)> {
    if seen.contains(edge) {
        seen
    } else {
        seen.push(edge)
    }
}

/// Meeting the edge of slot `k` after the first `k` slots gives the first
/// occurrences among the first `k + 1` slots, and the edge has there the
/// place that it keeps to the end.
proof fn lemma_met_next(slots: Seq<(u16, u16)>, k: int, seen: Seq<(u16, u16)>)
    requires
        0 <= k < slots.len(),
        seen == first_occurrences(slots.take(k)),
    ensures
        met(seen, slots[k]) == first_occurrences(slots.take(k + 1)),
        met(seen, slots[k]).contains(slots[k]),
        met(seen, slots[k]).len() <= first_occurrences(slots).len(),
        first_occurrences(slots).index_of(slots[k]) == met(seen, slots[k]).index_of(slots[k]),
{
    let next = met(seen, slots[k]);
    assert(slots.take(k + 1).drop_last() == slots.take(k));
    if !seen.contains(slots[k]) {
        assert(next[seen.len() as int] == slots[k]);
    }
    lemma_first_occurrences_prefix(slots, k + 1);
    lemma_first_occurrences_index(slots, k + 1, slots[k]);
}

/// Before any edge is met the new positions are the old ones and nothing is
/// remembered.
proof fn lemma_nothing_met<F: Fn(u32, u32) -> u32>(positions: Seq<u32>, average: F)
    requires
        positions.len() % 3 == 0,
        positions.len() / 3 <= MAX_VERTICES,
    ensures
        consistent(positions, average, Seq::empty(), positions, Map::empty()),
{
    reveal(consistent);
}

/// When every edge has been met, the new positions with indices that follow
/// [`subdivided_index`] are a subdivision, and a well-formed one.
proof fn lemma_all_met<F: Fn(u32, u32) -> u32>(
    before: MeshView,
    after: MeshView,
    average: F,
    cache: Map<u32, u16>,
)
    requires
        before.well_formed(),
        consistent(
            before.positions,
            average,
            unique_edges(before.indices),
            after.positions,
            cache,
        ),
        after.indices.len() == 4 * before.indices.len(),
        forall|j: int|
            0 <= j < after.indices.len() ==> (#[trigger] after.indices[j]) == subdivided_index(
                before,
                j,
            ),
    ensures
        subdivided_vertex_count(before) <= MAX_VERTICES,
        is_subdivision(before, after, average),
        after.well_formed(),
{
    reveal(consistent);
    let n = before.vertex_count();
    let edges = unique_edges(before.indices);
    assert forall|v: int, axis: int|
        n <= v < after.vertex_count() && 0 <= axis < 3 implies call_ensures(
        average,
        (
            before.coordinate(edges[v - n].0 as int, axis),
            before.coordinate(edges[v - n].1 as int, axis),
        ),
        #[trigger] after.coordinate(v, axis),
    ) by {
        let k = v - n;
        assert(after.coordinate(v, axis) == after.positions[before.positions.len() + 3 * k + axis]);
    }
    lemma_subdivision_is_well_formed(before, after, average);
}

/// Twelve indices written after those of the triangles before triangle `t`
/// carry on the subdivision, if they are those of triangle `t`.
proof fn lemma_triangle_emitted(before: MeshView, t: int, emitted: Seq<u16>, now: Seq<u16>)
    requires
        emitted.len() == 12 * t,
        forall|j: int|
            0 <= j < emitted.len() ==> (#[trigger] emitted[j]) == subdivided_index(before, j),
        now.len() == emitted.len() + 12,
        forall|j: int| 0 <= j < emitted.len() ==> now[j] == emitted[j],
        forall|r: int|
            0 <= r < 12 ==> now[emitted.len() + r] == (#[trigger] subdivided_triangle(
                before,
                t,
            )[r]),
    ensures
        forall|j: int| 0 <= j < now.len() ==> (#[trigger] now[j]) == subdivided_index(before, j),
{
    assert forall|j: int| 0 <= j < now.len() implies (#[trigger] now[j]) == subdivided_index(
        before,
        j,
    ) by {
        if j < emitted.len() {
            assert(now[j] == emitted[j]);
        } else {
            let r = j - emitted.len();
            assert(j / 12 == t && j % 12 == r);
            assert(now[emitted.len() + r] == subdivided_triangle(before, t)[r]);
        }
    }
}

/// The vertex on the edge between `a` and `b`: the one remembered for it, or
/// else a new one, unless there is no index left to name it.
fn midpoint<F: Fn(u32, u32) -> u32>(
    positions: &Vec<u32>,
    new_positions: &mut Vec<u32>,
    cache: &mut HashMap<u32, u16>,
    a: u16,
    b: u16,
    average: &F,
    Ghost(seen): Ghost<Seq<(u16, u16)>>,
) -> (found: Option<u16>)
    requires
        forall|x: u32, y: u32| call_requires(*average, (x, y)),
        a < positions.len() / 3,
        b < positions.len() / 3,
        consistent(positions@, *average, seen, old(new_positions)@, old(cache)@),
    ensures
        match found {
            Some(m) => {
                &&& consistent(
                    positions@,
                    *average,
                    met(seen, edge_key(a, b)),
                    final(new_positions)@,
                    final(cache)@,
                )
                &&& m == positions.len() / 3 + met(seen, edge_key(a, b)).index_of(edge_key(a, b))
            },
            None => {
                &&& !seen.contains(edge_key(a, b))
                &&& positions.len() / 3 + seen.len() == MAX_VERTICES
                &&& final(new_positions)@ == old(new_positions)@
                &&& final(cache)@ == old(cache)@
            },
        },
{
    broadcast use {group_hash_axioms, lemma_seq_contains_after_push};

    reveal(consistent);
    let lo = if a <= b { a } else { b };
    let hi = if a <= b { b } else { a };
    let key: u32 = lo as u32 * 65536 + hi as u32;
    let remembered: Option<u16> = match cache.get(&key) {
        Some(m) => Some(*m),
        None => None,
    };
    assert(remembered is Some <==> cache@.contains_key(code(lo, hi)));
    if let Some(m) = remembered {
        return Some(m);
    }
    let count = new_positions.len() / 3;
    if count >= MAX_VERTICES {
        return None;
    }
    let at_lo = lo as usize * 3;
    let at_hi = hi as usize * 3;
    let x = average(positions[at_lo], positions[at_hi]);
    let y = average(positions[at_lo + 1], positions[at_hi + 1]);
    let z = average(positions[at_lo + 2], positions[at_hi + 2]);
    new_positions.push(x);
    new_positions.push(y);
    new_positions.push(z);
    cache.insert(key, count as u16);
    proof {
        let now = seen.push((lo, hi));
        assert(now.no_duplicates());
        assert(now[seen.len() as int] == (lo, hi));
        assert forall|p: u16, q: u16| seen.contains((p, q)) implies code(p, q) != code(lo, hi)
            && now.index_of((p, q)) == seen.index_of((p, q)) by {
            assert(now[seen.index_of((p, q))] == (p, q));
        }
    }
    Some(count as u16)
}

/// Subdivides `mesh` once, in place.
///
/// Every triangle is replaced by four and every distinct edge gets one new
/// vertex, whose coordinates are what `average` returns for the coordinates
/// of the edge's two ends, the end with the smaller index given first. The
/// vertices that were there keep their indices and their positions. Where
/// the result would need more than [`MAX_VERTICES`] vertices the mesh is left
/// as it was.
///
/// Before the mesh is touched the new indices are held against the number of
/// new vertices. That test cannot fail: `InvalidIndex` is never returned.
pub fn subdivide<F: Fn(u32, u32) -> u32>(mesh: &mut Mesh, average: F) -> (done: Result<
    (),
    SubdivideError,
>)
    requires
        forall|x: u32, y: u32| call_requires(average, (x, y)),
    ensures
        match done {
            Ok(()) => {
                &&& subdivided_vertex_count(old(mesh)@) <= MAX_VERTICES
                &&& is_subdivision(old(mesh)@, final(mesh)@, average)
                &&& final(mesh)@.well_formed()
            },
            Err(e) => {
                &&& e == SubdivideError::IndexOverflow
                &&& subdivided_vertex_count(old(mesh)@) > MAX_VERTICES
                &&& final(mesh)@ == old(mesh)@
            },
        },
{
    proof {
        use_type_invariant(&*mesh);
    }
    let vertex_count = mesh.vertices.len() / 3;
    if vertex_count > MAX_VERTICES {
        return Err(SubdivideError::IndexOverflow);
    }
    let mut new_vertices = mesh.vertices.clone();
    let mut new_indices: Vec<u16> = Vec::new();
    let mut edge_midpoints: HashMap<u32, u16> = HashMap::new();
    let ghost before = mesh@;
    let ghost slots = edge_slots(before.indices);
    let ghost mut seen: Seq<(u16, u16)> = Seq::empty();
    proof {
        lemma_nothing_met(before.positions, average);
    }
    let mut i: usize = 0;
    while i < mesh.indices.len()
        invariant
            forall|x: u32, y: u32| call_requires(average, (x, y)),
            mesh@ == before,
            before.well_formed(),
            slots == edge_slots(before.indices),
            i % 3 == 0,
            i <= mesh.indices.len(),
            seen == first_occurrences(slots.take(i as int)),
            consistent(before.positions, average, seen, new_vertices@, edge_midpoints@),
            new_indices.len() == 4 * i,
            forall|j: int|
                0 <= j < new_indices.len() ==> (#[trigger] new_indices[j]) == subdivided_index(
                    before,
                    j,
                ),
        decreases mesh.indices.len() - i,
    {
        let v1 = mesh.indices[i];
        let v2 = mesh.indices[i + 1];
        let v3 = mesh.indices[i + 2];
        proof {
            assert(slots[i as int] == edge_key(v1, v2));
            lemma_met_next(slots, i as int, seen);
        }
        let m1 = match midpoint(
            &mesh.vertices,
            &mut new_vertices,
            &mut edge_midpoints,
            v1,
            v2,
            &average,
            Ghost(seen),
        ) {
            Some(m) => m,
            None => {
                assert(seen.len() < unique_edges(before.indices).len());
                return Err(SubdivideError::IndexOverflow);
            },
        };
        proof {
            seen = met(seen, edge_key(v1, v2));
            assert(slots[i + 1] == edge_key(v2, v3));
            lemma_met_next(slots, i + 1, seen);
        }
        let m2 = match midpoint(
            &mesh.vertices,
            &mut new_vertices,
            &mut edge_midpoints,
            v2,
            v3,
            &average,
            Ghost(seen),
        ) {
            Some(m) => m,
            None => {
                assert(seen.len() < unique_edges(before.indices).len());
                return Err(SubdivideError::IndexOverflow);
            },
        };
        proof {
            seen = met(seen, edge_key(v2, v3));
            assert(slots[i + 2] == edge_key(v3, v1));
            lemma_met_next(slots, i + 2, seen);
        }
        let m3 = match midpoint(
            &mesh.vertices,
            &mut new_vertices,
            &mut edge_midpoints,
            v3,
            v1,
            &average,
            Ghost(seen),
        ) {
            Some(m) => m,
            None => {
                assert(seen.len() < unique_edges(before.indices).len());
                return Err(SubdivideError::IndexOverflow);
            },
        };
        proof {
            seen = met(seen, edge_key(v3, v1));
        }
        let ghost emitted = new_indices@;
        new_indices.push(v1);
        new_indices.push(m1);
        new_indices.push(m3);
        new_indices.push(m1);
        new_indices.push(v2);
        new_indices.push(m2);
        new_indices.push(m3);
        new_indices.push(m2);
        new_indices.push(v3);
        new_indices.push(m1);
        new_indices.push(m2);
        new_indices.push(m3);
        proof {
            let t = i as int / 3;
            let twelve = subdivided_triangle(before, t);
            assert(v1 == twelve[0] && v2 == twelve[4] && v3 == twelve[8]);
            assert(m1 == twelve[1] && m2 == twelve[5] && m3 == twelve[2]);
            lemma_triangle_emitted(before, t, emitted, new_indices@);
        }
        i += 3;
    }
    proof {
        assert(slots.take(i as int) == slots);
        lemma_all_met(
            before,
            MeshView { positions: new_vertices@, indices: new_indices@ },
            average,
            edge_midpoints@,
        );
    }
    if !indices_in_bounds(&new_indices, new_vertices.len() / 3) {
        return Err(SubdivideError::InvalidIndex);
    }
    *mesh = Mesh { vertices: new_vertices, indices: new_indices };
    Ok(())
}

/// Every index of a subdivision names an old vertex or the midpoint of one
/// of the distinct edges.
pub proof fn lemma_subdivided_indices_in_bounds(mesh: MeshView)
    requires
        mesh.well_formed(),
    ensures
        forall|j: int|
            0 <= j < 4 * mesh.indices.len() ==> 0 <= #[trigger] subdivided_index(mesh, j)
                < subdivided_vertex_count(mesh),
{
    assert forall|j: int| 0 <= j < 4 * mesh.indices.len() implies 0 <= #[trigger] subdivided_index(
        mesh,
        j,
    ) < subdivided_vertex_count(mesh) by {
        let t = j / 12;
        lemma_midpoint_index_in_bounds(mesh, 3 * t);
        lemma_midpoint_index_in_bounds(mesh, 3 * t + 1);
        lemma_midpoint_index_in_bounds(mesh, 3 * t + 2);
    }
}

/// The midpoint of the edge in a slot is one of the new vertices.
pub proof fn lemma_midpoint_index_in_bounds(mesh: MeshView, slot: int)
    requires
        0 <= slot < mesh.indices.len(),
    ensures
        mesh.vertex_count() <= midpoint_index(mesh, slot) < subdivided_vertex_count(mesh),
        unique_edges(mesh.indices)[midpoint_index(mesh, slot) - mesh.vertex_count()] == edge_at(
            mesh.indices,
            slot,
        ),
{
    let slots = edge_slots(mesh.indices);
    lemma_first_occurrences(slots);
    assert(slots[slot] == edge_at(mesh.indices, slot));
    assert(unique_edges(mesh.indices).contains(edge_at(mesh.indices, slot)));
}

/// A subdivision of a well-formed mesh is well formed, has four times the
/// triangles, and has one vertex more for each distinct edge.
pub proof fn lemma_subdivision_is_well_formed<F: Fn(u32, u32) -> u32>(
    before: MeshView,
    after: MeshView,
    average: F,
)
    requires
        before.well_formed(),
        is_subdivision(before, after, average),
    ensures
        after.well_formed(),
        after.indices.len() == 4 * before.indices.len(),
        after.triangle_count() == 4 * before.triangle_count(),
        after.vertex_count() == subdivided_vertex_count(before),
        after.vertex_count() - before.vertex_count() == edge_set(before.indices).len(),
{
    lemma_subdivided_indices_in_bounds(before);
    lemma_unique_edges_count(before.indices);
    assert forall|j: int| 0 <= j < after.indices.len() implies (#[trigger] after.indices[j])
        < after.vertex_count() by {
        assert(after.indices[j] == subdivided_index(before, j));
    }
}

/// Two slots get the same midpoint exactly when they hold the same edge,
/// in whichever direction each of them walks it: triangles that share an
/// edge share its midpoint, and no two edges share one.
pub proof fn lemma_shared_edge_shares_midpoint(mesh: MeshView, slot: int, other: int)
    requires
        0 <= slot < mesh.indices.len(),
        0 <= other < mesh.indices.len(),
    ensures
        midpoint_index(mesh, slot) == midpoint_index(mesh, other) <==> edge_at(mesh.indices, slot)
            == edge_at(mesh.indices, other),
{
    lemma_midpoint_index_in_bounds(mesh, slot);
    lemma_midpoint_index_in_bounds(mesh, other);
}

/// The place in the subdivided index buffer where the midpoint of the edge
/// in slot `slot` is written first.
pub open spec fn midpoint_place(slot: int) -> int {
    let t = slot / 3;
    if slot % 3 == 0 {
        12 * t + 1
    } else if slot % 3 == 1 {
        12 * t + 5
    } else {
        12 * t + 2
    }
}

/// In a subdivision the four triangles made of one triangle and the four made
/// of another name the same vertex for an edge that the two have in common.
pub proof fn lemma_subdivision_shares_midpoints<F: Fn(u32, u32) -> u32>(
    before: MeshView,
    after: MeshView,
    average: F,
    slot: int,
    other: int,
)
    requires
        before.well_formed(),
        is_subdivision(before, after, average),
        0 <= slot < before.indices.len(),
        0 <= other < before.indices.len(),
        edge_at(before.indices, slot) == edge_at(before.indices, other),
    ensures
        after.indices[midpoint_place(slot)] == midpoint_index(before, slot),
        after.indices[midpoint_place(slot)] == after.indices[midpoint_place(other)],
        after.indices[midpoint_place(slot)] >= before.vertex_count(),
{
    lemma_shared_edge_shares_midpoint(before, slot, other);
    lemma_midpoint_index_in_bounds(before, slot);
    assert(after.indices[midpoint_place(slot)] == subdivided_index(before, midpoint_place(slot)));
    assert(after.indices[midpoint_place(other)] == subdivided_index(
        before,
        midpoint_place(other),
    ));
}

/// Subdivision moves no vertex: every vertex of the mesh is a vertex of its
/// subdivision, under the same index and with the same coordinates.
pub proof fn lemma_subdivision_keeps_vertices<F: Fn(u32, u32) -> u32>(
    before: MeshView,
    after: MeshView,
    average: F,
    vertex: int,
    axis: int,
)
    requires
        before.well_formed(),
        is_subdivision(before, after, average),
        0 <= vertex < before.vertex_count(),
        0 <= axis < 3,
    ensures
        vertex < after.vertex_count(),
        after.coordinate(vertex, axis) == before.coordinate(vertex, axis),
{
}

/// The vertex that a subdivision puts on an edge has, on each axis, a
/// coordinate that `average` returns for the coordinates of the two ends.
pub proof fn lemma_midpoint_is_average<F: Fn(u32, u32) -> u32>(
    before: MeshView,
    after: MeshView,
    average: F,
    slot: int,
    axis: int,
)
    requires
        before.well_formed(),
        is_subdivision(before, after, average),
        0 <= slot < before.indices.len(),
        0 <= axis < 3,
    ensures
        before.vertex_count() <= midpoint_index(before, slot) < after.vertex_count(),
        call_ensures(
            average,
            (
                before.coordinate(edge_at(before.indices, slot).0 as int, axis),
                before.coordinate(edge_at(before.indices, slot).1 as int, axis),
            ),
            after.coordinate(midpoint_index(before, slot), axis),
        ),
{
    lemma_midpoint_index_in_bounds(before, slot);
    lemma_subdivision_is_well_formed(before, after, average);
}

} // verus!
