//! Closed surfaces: triangle lists in which every edge of a triangle is an
//! edge of exactly one other triangle, which walks it the other way.

use vstd::prelude::*;
use vstd::relations::injective_on;
use vstd::set_lib::{lemma_int_range, lemma_map_size, lemma_set_disjoint_lens, set_int_range};
use crate::edges::{
    edge_at, edge_set, edge_slots, lemma_unique_edges_count, next_corner, unique_edges,
};

verus! {

/// The edge of slot `slot` with its direction: from the corner of the slot to
/// the next corner of the triangle.
pub open spec fn directed_edge_at(indices: Seq<u16>, slot: int) -> (u16, u16) {
    (indices[slot], indices[next_corner(slot)])
}

/// An edge walked the other way.
pub open spec fn reversed(edge: (u16, u16)) -> (u16, u16) {
    (edge.1, edge.0)
}

/// Some slot walks the edge of slot `slot` in the other direction.
pub open spec fn has_twin(indices: Seq<u16>, slot: int) -> bool {
    exists|r: int|
        0 <= r < indices.len() && #[trigger] directed_edge_at(indices, r) == reversed(
            directed_edge_at(indices, slot),
        )
}

/// `indices` is a surface without border, wound one way throughout: every
/// slot joins two different vertices, no two slots walk the same edge in the
/// same direction, and to every slot there is one that walks its edge in the
/// other direction.
pub open spec fn is_closed_surface(indices: Seq<u16>) -> bool {
    &&& indices.len() % 3 == 0
    &&& forall|s: int|
        0 <= s < indices.len() ==> (#[trigger] directed_edge_at(indices, s)).0
            != directed_edge_at(indices, s).1
    &&& forall|s: int, r: int|
        0 <= s < indices.len() && 0 <= r < indices.len() && s != r ==> #[trigger] directed_edge_at(
            indices,
            s,
        ) != #[trigger] directed_edge_at(indices, r)
    &&& forall|s: int| 0 <= s < indices.len() ==> #[trigger] has_twin(indices, s)
}

/// Slot `slot` walks from the smaller index to the larger one if `upward`,
/// from the larger to the smaller if not.
pub open spec fn walks_upward(indices: Seq<u16>, slot: int, upward: bool) -> bool {
    if upward {
        indices[slot] < indices[next_corner(slot)]
    } else {
        indices[slot] > indices[next_corner(slot)]
    }
}

/// The slots of `indices` that walk their edge in the given direction.
pub open spec fn slots_walking(indices: Seq<u16>, upward: bool) -> Set<int> {
    set_int_range(0, indices.len() as int).filter(|s: int| walks_upward(indices, s, upward))
}

/// On a closed surface every edge is walked by exactly one slot in each
/// direction: in either direction there are as many slots as edges.
pub proof fn lemma_one_slot_each_way(indices: Seq<u16>, upward: bool)
    requires
        is_closed_surface(indices),
    ensures
        slots_walking(indices, upward).finite(),
        slots_walking(indices, upward).len() == edge_set(indices).len(),
{
    let walking = slots_walking(indices, upward);
    let edge_of = |s: int| edge_at(indices, s);
    let edges = edge_set(indices);
    let slots = edge_slots(indices);
    lemma_int_range(0, indices.len() as int);
    set_int_range(0, indices.len() as int).lemma_len_filter(
        |s: int| walks_upward(indices, s, upward),
    );
    assert(injective_on(edge_of, walking)) by {
        assert forall|s: int, r: int|
            walking.contains(s) && walking.contains(r) && #[trigger] edge_of(s) == #[trigger] edge_of(
                r,
            ) implies s == r by {
            assert(directed_edge_at(indices, s) == directed_edge_at(indices, r));
        }
    }
    assert(walking.map(edge_of) =~= edges) by {
        assert forall|e: (u16, u16)| edges.contains(e) implies walking.map(edge_of).contains(e) by {
            let s = choose|s: int| 0 <= s < slots.len() && slots[s] == e;
            assert(directed_edge_at(indices, s).0 != directed_edge_at(indices, s).1);
            if walking.contains(s) {
                assert(edge_of(s) == e);
            } else {
                assert(has_twin(indices, s));
                let r = choose|r: int|
                    0 <= r < indices.len() && #[trigger] directed_edge_at(indices, r) == reversed(
                        directed_edge_at(indices, s),
                    );
                assert(walking.contains(r) && edge_of(r) == e);
            }
        }
        assert forall|e: (u16, u16)| walking.map(edge_of).contains(e) implies edges.contains(e) by {
            let s = choose|s: int| walking.contains(s) && e == edge_of(s);
            assert(slots[s] == e);
        }
    }
    lemma_map_size(walking, edges, edge_of);
}

/// On a closed surface every edge lies in two slots, so that there are half
/// as many edges as slots: three edges to every two triangles.
pub proof fn lemma_closed_surface_edge_count(indices: Seq<u16>)
    requires
        is_closed_surface(indices),
    ensures
        2 * unique_edges(indices).len() == indices.len(),
{
    let all = set_int_range(0, indices.len() as int);
    let up = slots_walking(indices, true);
    let down = slots_walking(indices, false);
    lemma_one_slot_each_way(indices, true);
    lemma_one_slot_each_way(indices, false);
    assert(up + down =~= all) by {
        assert forall|s: int| all.contains(s) implies (up + down).contains(s) by {
            assert(directed_edge_at(indices, s).0 != directed_edge_at(indices, s).1);
        }
    }
    lemma_set_disjoint_lens(up, down);
    lemma_int_range(0, indices.len() as int);
    lemma_unique_edges_count(indices);
}

/// Slot `s` joins two different vertices, the table holds `s` for the way it
/// walks its edge, and for the other way a slot that does walk it so.
pub open spec fn walks(indices: Seq<u16>, side: int, slot_of: Seq<int>, s: int) -> bool {
    let a = indices[s];
    let b = indices[next_corner(s)];
    let r = slot_of[b * side + a];
    &&& a != b
    &&& slot_of[a * side + b] == s
    &&& 0 <= r < indices.len()
    &&& indices[r] == b
    &&& indices[next_corner(r)] == a
}

/// A triangle list is a closed surface if a table names, for every pair of
/// vertices that a slot joins, the one slot that walks from the first to the
/// second: row `a`, column `b` of `slot_of`, a square table of side `side`
/// laid out row by row. The cells of pairs that no slot joins are not read.
pub proof fn lemma_closed_surface_by_table(indices: Seq<u16>, side: int, slot_of: Seq<int>)
    requires
        indices.len() % 3 == 0,
        forall|s: int| 0 <= s < indices.len() ==> walks(indices, side, slot_of, s),
    ensures
        is_closed_surface(indices),
{
    assert forall|s: int| 0 <= s < indices.len() implies (#[trigger] directed_edge_at(
        indices,
        s,
    )).0 != directed_edge_at(indices, s).1 by {
        assert(walks(indices, side, slot_of, s));
    }
    assert forall|s: int, r: int|
        0 <= s < indices.len() && 0 <= r < indices.len() && s != r implies #[trigger] directed_edge_at(
        indices,
        s,
    ) != #[trigger] directed_edge_at(indices, r) by {
        assert(walks(indices, side, slot_of, s));
        assert(walks(indices, side, slot_of, r));
    }
    assert forall|s: int| 0 <= s < indices.len() implies #[trigger] has_twin(indices, s) by {
        assert(walks(indices, side, slot_of, s));
        let r = slot_of[indices[next_corner(s)] * side + indices[s]];
        assert(directed_edge_at(indices, r) == reversed(directed_edge_at(indices, s)));
    }
}

} // verus!
