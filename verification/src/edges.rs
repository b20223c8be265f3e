//! The undirected edges of an indexed triangle list, as mathematics.
//!
//! A triangle list of `3 t` indices has `3 t` *edge slots*: slot `s` is the
//! edge that leaves corner `s` for the next corner of the same triangle, so
//! that the triangle `(v1, v2, v3)` stored at `3 k` has the slots
//! `3 k: (v1, v2)`, `3 k + 1: (v2, v3)` and `3 k + 2: (v3, v1)`.

use vstd::prelude::*;
use vstd::seq_lib::lemma_seq_contains_after_push;

verus! {

/// The key of the undirected edge between `a` and `b`: the smaller index
/// first, whatever the direction of travel.
pub open spec fn edge_key(a: u16, b: u16) -> (u16, u16) {
    if a <= b {
        (a, b)
    } else {
        (b, a)
    }
}

/// The position in the index buffer of the corner that slot `slot` leads to.
pub open spec fn next_corner(slot: int) -> int {
    if slot % 3 == 2 {
        slot - 2
    } else {
        slot + 1
    }
}

/// The undirected edge held by slot `slot` of the triangle list `indices`.
pub open spec fn edge_at(indices: Seq<u16>, slot: int) -> (u16, u16) {
    edge_key(indices[slot], indices[next_corner(slot)])
}

/// The edges of all slots of `indices`, in the order of the slots.
pub open spec fn edge_slots(indices: Seq<u16>) -> Seq<(u16, u16)> {
    Seq::new(indices.len(), |slot: int| edge_at(indices, slot))
}

/// The values of `s` without repetition, each at the place of its first
/// occurrence.
pub open spec fn first_occurrences<A>(s: Seq<A>) -> Seq<A>
    decreases s.len(),
{
    if s.len() == 0 {
        Seq::empty()
    } else {
        let earlier = first_occurrences(s.drop_last());
        if earlier.contains(s.last()) {
            earlier
        } else {
            earlier.push(s.last())
        }
    }
}

/// The distinct undirected edges of `indices`, in the order in which a walk
/// over the slots meets them first.
pub open spec fn unique_edges(indices: Seq<u16>) -> Seq<(u16, u16)> {
    first_occurrences(edge_slots(indices))
}

/// The set of undirected edges of `indices`.
pub open spec fn edge_set(indices: Seq<u16>) -> Set<(u16, u16)> {
    edge_slots(indices).to_set()
}

/// `first_occurrences(s)` holds exactly the values of `s`, each once.
pub proof fn lemma_first_occurrences<A>(s: Seq<A>)
    ensures
        first_occurrences(s).no_duplicates(),
        first_occurrences(s).len() <= s.len(),
        forall|x: A| #[trigger] first_occurrences(s).contains(x) <==> s.contains(x),
    decreases s.len(),
{
    broadcast use lemma_seq_contains_after_push;

    if s.len() > 0 {
        lemma_first_occurrences(s.drop_last());
        assert(s == s.drop_last().push(s.last()));
    }
}

/// What was met first among the first `k` values stays where it is when the
/// walk goes on: the first occurrences of a prefix are a prefix of the first
/// occurrences of the whole.
pub proof fn lemma_first_occurrences_prefix<A>(s: Seq<A>, k: int)
    requires
        0 <= k <= s.len(),
    ensures
        first_occurrences(s.take(k)).len() <= first_occurrences(s).len(),
        first_occurrences(s.take(k)) == first_occurrences(s).take(
            first_occurrences(s.take(k)).len() as int,
        ),
    decreases s.len() - k,
{
    if k == s.len() {
        assert(s.take(k) == s);
    } else {
        lemma_first_occurrences_prefix(s, k + 1);
        assert(s.take(k + 1).drop_last() == s.take(k));
    }
}

/// The place of a value among the first occurrences of a prefix is its place
/// among the first occurrences of the whole sequence.
pub proof fn lemma_first_occurrences_index<A>(s: Seq<A>, k: int, x: A)
    requires
        0 <= k <= s.len(),
        first_occurrences(s.take(k)).contains(x),
    ensures
        first_occurrences(s).contains(x),
        first_occurrences(s).index_of(x) == first_occurrences(s.take(k)).index_of(x),
{
    let part = first_occurrences(s.take(k));
    let whole = first_occurrences(s);
    lemma_first_occurrences_prefix(s, k);
    lemma_first_occurrences(s);
    assert(whole[part.index_of(x)] == x);
}

/// There are as many unique edges as the set of edges has members: an edge
/// that several triangles share, or that is walked in both directions, is
/// counted once.
pub proof fn lemma_unique_edges_count(indices: Seq<u16>)
    ensures
        unique_edges(indices).no_duplicates(),
        unique_edges(indices).to_set() == edge_set(indices),
        unique_edges(indices).len() == edge_set(indices).len(),
        forall|slot: int|
            0 <= slot < indices.len() ==> unique_edges(indices).contains(
                #[trigger] edge_at(indices, slot),
            ),
{
    let slots = edge_slots(indices);
    lemma_first_occurrences(slots);
    unique_edges(indices).unique_seq_to_set();
    assert forall|slot: int| 0 <= slot < indices.len() implies unique_edges(indices).contains(
        #[trigger] edge_at(indices, slot),
    ) by {
        assert(slots[slot] == edge_at(indices, slot));
    }
}

} // verus!
