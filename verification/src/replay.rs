//! Rebuilding a store from its vertices.
//!
//! The vertices of a store, offered again to an empty store in any order in
//! which each comes after the vertices that it names, give back the same
//! mapping from identifier to vertex, the same children and the same
//! equivocators. Where no validator equivocates they also give back the same
//! latest vertices, and with them the same final batches.

use crate::dag::{
    admissible, agree_around, all_present, children_of, distinct_ids, holds, is_equivocator,
    latest_of, lemma_admissible_agrees, lemma_closed, lemma_latest_is_highest, lemma_position,
    lemma_push_valid, lemma_take_holds, lemma_take_valid, lemma_valid, position, valid_history,
    vertex_map, vertex_of,
};
use crate::finality::{
    descends, is_final, is_path, lemma_children_members, links, support, Weight,
};
use crate::protocol_state::{admission, history_after};
use crate::vertex::{ValidatorId, VertexData, VertexId};
use vstd::prelude::*;

verus! {

/// Each vertex of `r` comes after the vertices that it names.
pub open spec fn respects_dependencies(r: Seq<VertexData>) -> bool {
    forall|k: int| 0 <= k < r.len() ==> all_present(r.take(k), #[trigger] r[k])
}

/// The sequence `r` lists the vertices of the history `h`, each once.
pub open spec fn lists_vertices_of(r: Seq<VertexData>, h: Seq<VertexData>) -> bool {
    &&& distinct_ids(r)
    &&& forall|k: int|
        0 <= k < r.len() ==> holds(h, (#[trigger] r[k]).id) && vertex_of(h, r[k].id) == r[k]
    &&& forall|i: int| 0 <= i < h.len() ==> holds(r, (#[trigger] h[i]).id)
}

/// The history of a store that was empty and to which the vertices of `r`
/// were offered in turn, each with a signature that verifies.
pub open spec fn replayed(r: Seq<VertexData>, capacity: nat) -> Seq<VertexData>
    decreases r.len(),
{
    if r.len() == 0 {
        Seq::empty()
    } else {
        history_after(replayed(r.drop_last(), capacity), capacity, r.last(), true)
    }
}

/// A listing of a history holds exactly what the history holds, with the
/// same content.
pub proof fn lemma_listing_agrees(h: Seq<VertexData>, r: Seq<VertexData>, id: VertexId)
    requires
        distinct_ids(h),
        lists_vertices_of(r, h),
    ensures
        holds(r, id) <==> holds(h, id),
        holds(r, id) ==> vertex_of(r, id) == vertex_of(h, id),
{
    if holds(r, id) {
        let k = position(r, id);
        assert(holds(h, r[k].id));
    }
    if holds(h, id) {
        let i = position(h, id);
        assert(holds(r, h[i].id));
    }
}

/// A vertex that is new, admissible and has room is taken.
pub proof fn lemma_taken(g: Seq<VertexData>, capacity: nat, v: VertexData)
    requires
        admissible(g, v),
        !holds(g, v.id),
        g.len() < capacity,
    ensures
        admission(g, capacity, v, true) is Taken,
        history_after(g, capacity, v, true) == g.push(v),
{
    reveal(admissible);
}

/// What stood before a vertex in the history and what stands before it in a
/// listing that respects the dependencies agree on what the vertex names.
proof fn lemma_replay_agrees(h: Seq<VertexData>, r: Seq<VertexData>, i: int, k: int)
    requires
        valid_history(h),
        valid_history(r.take(k)),
        lists_vertices_of(r, h),
        0 <= i < h.len(),
        0 <= k < r.len(),
        h[i] == r[k],
        all_present(r.take(k), r[k]),
    ensures
        agree_around(h.take(i), r.take(k), r[k]),
{
    let v = r[k];
    let f = h.take(i);
    let g = r.take(k);
    lemma_valid(h);
    lemma_take_valid(h, i);
    assert(admissible(f, v));
    assert(all_present(f, v)) by {
        reveal(admissible);
    }
    assert forall|j: int| 0 <= j < v.parents.len() implies {
        &&& holds(f, (#[trigger] v.parents[j]).vertex)
        &&& holds(g, v.parents[j].vertex)
        &&& vertex_of(f, v.parents[j].vertex) == vertex_of(g, v.parents[j].vertex)
    } by {
        let p = v.parents[j].vertex;
        lemma_take_holds(h, i, p);
        lemma_take_holds(r, k, p);
        lemma_listing_agrees(h, r, p);
    }
    assert forall|j: int, c: int|
        0 <= j < v.parents.len() && 0 <= c < vertex_of(f, v.parents[j].vertex).parents.len() implies {
        let named = (#[trigger] vertex_of(f, v.parents[j].vertex).parents[c]).vertex;
        &&& holds(f, named) <==> holds(g, named)
        &&& holds(f, named) ==> vertex_of(f, named).sequence_number == vertex_of(
            g,
            named,
        ).sequence_number
    } by {
        let p = v.parents[j].vertex;
        assert(holds(f, v.parents[j].vertex));
        let named = vertex_of(f, p).parents[c].vertex;
        lemma_closed(f, p, c);
        lemma_closed(g, p, c);
        lemma_take_holds(h, i, named);
        lemma_take_holds(r, k, named);
        lemma_listing_agrees(h, r, named);
    }
}

/// The beginnings of a listing that respects the dependencies are valid
/// histories, and replaying them gives them back.
pub proof fn lemma_replay_prefix(h: Seq<VertexData>, r: Seq<VertexData>, capacity: nat, k: int)
    requires
        valid_history(h),
        lists_vertices_of(r, h),
        respects_dependencies(r),
        r.len() <= capacity,
        0 <= k <= r.len(),
    ensures
        valid_history(r.take(k)),
        replayed(r.take(k), capacity) == r.take(k),
    decreases k,
{
    if k == 0 {
        assert(r.take(0) == Seq::<VertexData>::empty());
        reveal(valid_history);
    } else {
        lemma_replay_prefix(h, r, capacity, k - 1);
        let g = r.take(k - 1);
        let v = r[k - 1];
        assert(r.take(k).drop_last() == g);
        assert(r.take(k).last() == v);
        assert(g.push(v) == r.take(k));
        lemma_valid(h);
        let i = position(h, v.id);
        assert(holds(h, r[k - 1].id) && vertex_of(h, r[k - 1].id) == r[k - 1]);
        assert(h[i] == v);
        assert(all_present(g, r[k - 1]));
        lemma_replay_agrees(h, r, i, k - 1);
        assert(admissible(h.take(i), h[i]));
        lemma_admissible_agrees(h.take(i), g, v);
        assert(!holds(g, v.id)) by {
            if holds(g, v.id) {
                let a = position(g, v.id);
                assert(g[a] == r[a]);
                assert(r[a].id != r[k - 1].id);
            }
        }
        lemma_taken(g, capacity, v);
        lemma_push_valid(g, v);
    }
}

/// The vertices of a store, offered to an empty store in any order in which
/// each comes after the vertices that it names, and with signatures that
/// verify, are all taken: the rebuilt store has them in the order of the
/// replay, and it maps each identifier to the vertex to which the first store
/// maps it.
pub proof fn replay_rebuilds_the_mapping(h: Seq<VertexData>, r: Seq<VertexData>, capacity: nat)
    requires
        valid_history(h),
        lists_vertices_of(r, h),
        respects_dependencies(r),
        r.len() <= capacity,
    ensures
        replayed(r, capacity) == r,
        valid_history(r),
        vertex_map(r) == vertex_map(h),
{
    lemma_replay_prefix(h, r, capacity, r.len() as int);
    assert(r.take(r.len() as int) == r);
    lemma_valid(h);
    assert forall|id: VertexId| holds(r, id) == holds(h, id) && (holds(r, id) ==> vertex_of(r, id)
        == vertex_of(h, id)) by {
        lemma_listing_agrees(h, r, id);
    }
    assert(vertex_map(r) =~= vertex_map(h));
}

/// The rebuilt store has the same children for every vertex, in whatever
/// order, and flags the same validators as equivocators.
pub proof fn replay_rebuilds_the_indices(
    h: Seq<VertexData>,
    r: Seq<VertexData>,
    id: VertexId,
    validator: ValidatorId,
)
    requires
        valid_history(h),
        lists_vertices_of(r, h),
    ensures
        children_of(r, id).to_set() == children_of(h, id).to_set(),
        is_equivocator(r, validator) == is_equivocator(h, validator),
{
    lemma_valid(h);
    assert forall|c: VertexId| children_of(r, id).contains(c) == children_of(h, id).contains(c) by {
        lemma_children_members(r, id, c);
        lemma_children_members(h, id, c);
        lemma_listing_agrees(h, r, c);
    }
    assert(children_of(r, id).to_set() =~= children_of(h, id).to_set());
    if is_equivocator(h, validator) {
        lemma_same_equivocators(h, r, validator);
    }
    if is_equivocator(r, validator) {
        lemma_same_equivocators_back(h, r, validator);
    }
}

/// Who equivocates in a history equivocates in each listing of it.
proof fn lemma_same_equivocators(h: Seq<VertexData>, r: Seq<VertexData>, validator: ValidatorId)
    requires
        distinct_ids(h),
        lists_vertices_of(r, h),
        is_equivocator(h, validator),
    ensures
        is_equivocator(r, validator),
{
    let (i, j) = choose|i: int, j: int|
        0 <= i < j < h.len() && (#[trigger] h[i]).creator == validator && (#[trigger] h[j]).creator
            == validator && h[i].sequence_number == h[j].sequence_number;
    lemma_position(h, i);
    lemma_position(h, j);
    assert(holds(r, h[i].id) && holds(r, h[j].id));
    lemma_listing_agrees(h, r, h[i].id);
    lemma_listing_agrees(h, r, h[j].id);
    let a = position(r, h[i].id);
    let b = position(r, h[j].id);
    assert(r[a] == h[i] && r[b] == h[j]);
    assert(h[i].id != h[j].id);
    if a < b {
        assert(r[a].creator == validator && r[b].creator == validator);
    } else {
        assert(r[b].creator == validator && r[a].creator == validator);
    }
}

/// Who equivocates in a listing of a history equivocates in the history.
proof fn lemma_same_equivocators_back(h: Seq<VertexData>, r: Seq<VertexData>, validator: ValidatorId)
    requires
        distinct_ids(h),
        lists_vertices_of(r, h),
        is_equivocator(r, validator),
    ensures
        is_equivocator(h, validator),
{
    let (a, b) = choose|a: int, b: int|
        0 <= a < b < r.len() && (#[trigger] r[a]).creator == validator && (#[trigger] r[b]).creator
            == validator && r[a].sequence_number == r[b].sequence_number;
    assert(holds(h, r[a].id) && vertex_of(h, r[a].id) == r[a]);
    assert(holds(h, r[b].id) && vertex_of(h, r[b].id) == r[b]);
    let i = position(h, r[a].id);
    let j = position(h, r[b].id);
    assert(r[a].id != r[b].id);
    if i < j {
        assert(h[i].creator == validator && h[j].creator == validator);
    } else {
        assert(h[j].creator == validator && h[i].creator == validator);
    }
}

/// A listing of a history has the same latest vertex for each validator that
/// does not equivocate.
proof fn lemma_same_latest(h: Seq<VertexData>, r: Seq<VertexData>, validator: ValidatorId)
    requires
        valid_history(h),
        valid_history(r),
        lists_vertices_of(r, h),
        !is_equivocator(h, validator),
    ensures
        latest_of(r, validator) == latest_of(h, validator),
{
    lemma_valid(h);
    lemma_valid(r);
    if is_equivocator(r, validator) {
        lemma_same_equivocators_back(h, r, validator);
    }
    lemma_latest_is_highest(h, validator);
    lemma_latest_is_highest(r, validator);
    match latest_of(h, validator) {
        Some(lh) => {
            let i = position(h, lh);
            assert(holds(r, h[i].id));
            lemma_listing_agrees(h, r, lh);
            let a = position(r, lh);
            assert(r[a] == h[i]);
            match latest_of(r, validator) {
                Some(lr) => {
                    let b = position(r, lr);
                    assert(holds(h, r[b].id) && vertex_of(h, r[b].id) == r[b]);
                    let j = position(h, lr);
                    assert(h[j] == r[b]);
                    assert(h[j].sequence_number <= h[i].sequence_number);
                    assert(r[a].sequence_number <= r[b].sequence_number);
                    if i < j {
                        assert(h[i].creator == validator && h[j].creator == validator);
                    } else if j < i {
                        assert(h[j].creator == validator && h[i].creator == validator);
                    }
                },
                None => {
                    assert(r[a].creator != validator);
                },
            }
        },
        None => {
            match latest_of(r, validator) {
                Some(lr) => {
                    let b = position(r, lr);
                    assert(holds(h, r[b].id) && vertex_of(h, r[b].id) == r[b]);
                    let j = position(h, lr);
                    assert(h[j].creator != validator);
                },
                None => {},
            }
        },
    }
}

/// A path of a history is a path of each listing of it.
proof fn lemma_same_path(h: Seq<VertexData>, r: Seq<VertexData>, path: Seq<VertexId>)
    requires
        distinct_ids(h),
        lists_vertices_of(r, h),
    ensures
        is_path(r, path) == is_path(h, path),
{
    assert forall|i: int| 0 <= i < path.len() implies holds(r, #[trigger] path[i]) == holds(
        h,
        path[i],
    ) by {
        lemma_listing_agrees(h, r, path[i]);
    }
    if is_path(h, path) {
        assert forall|i: int| 0 <= i < path.len() - 1 implies #[trigger] links(r, path, i) by {
            assert(links(h, path, i));
            assert(holds(h, path[i]));
            lemma_listing_agrees(h, r, path[i]);
        }
    }
    if is_path(r, path) {
        assert forall|i: int| 0 <= i < path.len() - 1 implies #[trigger] links(h, path, i) by {
            assert(links(r, path, i));
            assert(holds(r, path[i]));
            lemma_listing_agrees(h, r, path[i]);
        }
    }
}

/// A listing of a history has the same ancestors for each vertex.
proof fn lemma_same_descends(h: Seq<VertexData>, r: Seq<VertexData>, d: VertexId, a: VertexId)
    requires
        distinct_ids(h),
        lists_vertices_of(r, h),
    ensures
        descends(r, d, a) == descends(h, d, a),
{
    if descends(h, d, a) {
        let path = choose|path: Seq<VertexId>| #[trigger]
            is_path(h, path) && path[0] == d && path.last() == a;
        lemma_same_path(h, r, path);
    }
    if descends(r, d, a) {
        let path = choose|path: Seq<VertexId>| #[trigger]
            is_path(r, path) && path[0] == d && path.last() == a;
        lemma_same_path(h, r, path);
    }
}

/// Where no validator with a weight equivocates, a listing of a history
/// gives every vertex the same support.
proof fn lemma_same_support(h: Seq<VertexData>, r: Seq<VertexData>, weights: Seq<Weight>, b: VertexId)
    requires
        valid_history(h),
        valid_history(r),
        lists_vertices_of(r, h),
        forall|k: int| 0 <= k < weights.len() ==> !is_equivocator(h, (#[trigger] weights[k]).validator),
    ensures
        support(r, weights, b) == support(h, weights, b),
    decreases weights.len(),
{
    if weights.len() > 0 {
        let front = weights.drop_last();
        assert forall|k: int| 0 <= k < front.len() implies !is_equivocator(
            h,
            (#[trigger] front[k]).validator,
        ) by {
            assert(front[k] == weights[k]);
        }
        lemma_same_support(h, r, front, b);
        let w = weights.last().validator;
        assert(weights[weights.len() - 1].validator == w);
        lemma_same_latest(h, r, w);
        lemma_valid(h);
        if latest_of(h, w) is Some {
            lemma_same_descends(h, r, latest_of(h, w)->Some_0, b);
        }
    }
}

/// Where no validator equivocates, the rebuilt store has the same latest
/// vertex for every validator, and the same vertices are final in it,
/// whatever the weights and the threshold.
pub proof fn replay_rebuilds_finality(
    h: Seq<VertexData>,
    r: Seq<VertexData>,
    weights: Seq<Weight>,
    threshold: u128,
    validator: ValidatorId,
    b: VertexId,
)
    requires
        valid_history(h),
        lists_vertices_of(r, h),
        respects_dependencies(r),
        forall|w: ValidatorId| !is_equivocator(h, w),
    ensures
        latest_of(r, validator) == latest_of(h, validator),
        support(r, weights, b) == support(h, weights, b),
        is_final(r, weights, threshold, b) == is_final(h, weights, threshold, b),
{
    replay_rebuilds_the_mapping(h, r, r.len());
    lemma_same_latest(h, r, validator);
    lemma_same_support(h, r, weights, b);
    lemma_valid(h);
    lemma_listing_agrees(h, r, b);
}

} // verus!
