//! What the admission rule gives the graph of a store: no cycles, and
//! panoramas that cover all ancestors.

use crate::dag::{
    admissible, all_present, distinct_ids, holds, lemma_cited_is_held, lemma_closed, lemma_seen,
    lemma_take_holds, lemma_take_valid, lemma_valid, misattributed, position, seen_rank, stale,
    valid_history, vertex_of,
};
use crate::finality::{descends, is_path, lemma_ancestor_is_earlier, links};
use crate::vertex::{ValidatorId, VertexData, VertexId};
use vstd::prelude::*;

verus! {

/// The graph of a store has no cycle: a vertex does not descend from a
/// vertex that names it.
pub proof fn no_vertex_is_its_own_ancestor(h: Seq<VertexData>, a: VertexId, b: VertexId)
    requires
        valid_history(h),
        holds(h, a),
        vertex_of(h, a).cites(b),
    ensures
        !descends(h, b, a),
        a != b,
{
    lemma_cited_is_held(h, position(h, a), b);
    if descends(h, b, a) {
        lemma_ancestor_is_earlier(h, b, a);
    }
}

/// Two vertices that descend from each other are one vertex.
pub proof fn mutual_descendants_are_equal(h: Seq<VertexData>, a: VertexId, b: VertexId)
    requires
        valid_history(h),
        descends(h, a, b),
        descends(h, b, a),
    ensures
        a == b,
{
    lemma_ancestor_is_earlier(h, a, b);
    lemma_ancestor_is_earlier(h, b, a);
}

/// How far a vertex has seen a validator does not depend on what came after
/// the vertices that it names.
proof fn lemma_rank_in_prefix(h: Seq<VertexData>, i: int, x: VertexData, w: ValidatorId)
    requires
        distinct_ids(h),
        0 <= i <= h.len(),
        all_present(h.take(i), x),
    ensures
        seen_rank(h.take(i), x, w) == seen_rank(h, x, w),
{
    if x.has_seen(w) {
        let c = choose|c: int| 0 <= c < x.parents.len() && (#[trigger] x.parents[c]).validator == w;
        assert(holds(h.take(i), x.parents[c].vertex));
        lemma_take_holds(h, i, x.seen_of(w));
    }
}

/// What a vertex of a valid history names, the history before it holds, under
/// the right validator, and no vertex that it names has seen further.
proof fn lemma_admitted(h: Seq<VertexData>, i: int)
    requires
        valid_history(h),
        0 <= i < h.len(),
    ensures
        all_present(h.take(i), h[i]),
        !misattributed(h.take(i), h[i]),
        !stale(h.take(i), h[i]),
        h[i].well_formed(),
{
    lemma_valid(h);
    assert(admissible(h.take(i), h[i]));
    reveal(admissible);
}

/// Along a path, the first vertex has seen the creator of the last at least
/// as far as the last.
proof fn lemma_path_is_covered(h: Seq<VertexData>, path: Seq<VertexId>)
    requires
        valid_history(h),
        is_path(h, path),
        path.len() >= 2,
    ensures
        seen_rank(h, vertex_of(h, path[0]), vertex_of(h, path.last()).creator) >= vertex_of(
            h,
            path.last(),
        ).sequence_number,
    decreases path.len(),
{
    lemma_valid(h);
    assert(holds(h, path[0]));
    assert(holds(h, path[1]));
    let i = position(h, path[0]);
    let v = h[i];
    let f = h.take(i);
    let q = path[1];
    assert(links(h, path, 0));
    assert(v.cites(q));
    lemma_admitted(h, i);
    lemma_take_valid(h, i);
    let j = choose|j: int| 0 <= j < v.parents.len() && (#[trigger] v.parents[j]).vertex == q;
    assert(holds(f, v.parents[j].vertex));
    lemma_take_holds(h, i, q);
    let qd = vertex_of(h, q);
    let w = v.parents[j].validator;
    assert(qd.creator == w);
    lemma_seen(v, j);
    assert(seen_rank(h, v, w) == qd.sequence_number);
    if path.len() > 2 {
        let tail = path.subrange(1, path.len() as int);
        assert forall|k: int| 0 <= k < tail.len() implies holds(h, #[trigger] tail[k]) by {
            assert(tail[k] == path[k + 1]);
        }
        assert forall|k: int| 0 <= k < tail.len() - 1 implies #[trigger] links(h, tail, k) by {
            assert(links(h, path, k + 1));
            assert(tail[k] == path[k + 1] && tail[k + 1] == path[k + 2]);
        }
        assert(tail[0] == q && tail.last() == path.last());
        lemma_path_is_covered(h, tail);
        let wa = vertex_of(h, path.last()).creator;
        assert(seen_rank(f, v, wa) >= seen_rank(f, vertex_of(f, v.parents[j].vertex), wa));
        lemma_rank_in_prefix(h, i, v, wa);
        assert(all_present(f, qd)) by {
            assert forall|k: int| 0 <= k < qd.parents.len() implies holds(
                f,
                (#[trigger] qd.parents[k]).vertex,
            ) by {
                lemma_closed(f, q, k);
            }
        }
        lemma_rank_in_prefix(h, i, qd, wa);
    }
}

/// The panorama of a vertex covers its ancestors: of the creator of each
/// ancestor, the vertex names a vertex whose sequence number is at least that
/// of the ancestor. So no vertex of a store names an older vertex of a
/// validator than one that is among its ancestors.
pub proof fn panorama_covers_the_ancestors(h: Seq<VertexData>, d: VertexId, a: VertexId)
    requires
        valid_history(h),
        descends(h, d, a),
        d != a,
    ensures
        seen_rank(h, vertex_of(h, d), vertex_of(h, a).creator) >= vertex_of(h, a).sequence_number,
{
    let path = choose|path: Seq<VertexId>| #[trigger]
        is_path(h, path) && path[0] == d && path.last() == a;
    lemma_path_is_covered(h, path);
}

} // verus!
