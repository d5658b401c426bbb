//! The mathematics of a vertex history: the vertices of a store in the order
//! in which they were accepted.
//!
//! Everything a store answers is a function of its history. The functions
//! here say what those answers are; the store computes them.

use crate::vertex::{is_panorama, Citation, ValidatorId, VertexData, VertexId};
use vstd::prelude::*;

verus! {

/// Whether the history has a vertex with this identifier.
pub open spec fn holds(h: Seq<VertexData>, id: VertexId) -> bool {
    exists|i: int| 0 <= i < h.len() && (#[trigger] h[i]).id == id
}

/// Where the vertex with this identifier stands in the history, if it holds
/// one.
pub open spec fn position(h: Seq<VertexData>, id: VertexId) -> int {
    choose|i: int| 0 <= i < h.len() && (#[trigger] h[i]).id == id
}

/// The vertex with this identifier, if the history holds one.
pub open spec fn vertex_of(h: Seq<VertexData>, id: VertexId) -> VertexData {
    h[position(h, id)]
}

/// No identifier occurs twice.
pub open spec fn distinct_ids(h: Seq<VertexData>) -> bool {
    forall|i: int, j: int| 0 <= i < j < h.len() ==> (#[trigger] h[i]).id != (#[trigger] h[j]).id
}

/// The mapping from identifier to vertex that the history stands for.
pub open spec fn vertex_map(h: Seq<VertexData>) -> Map<VertexId, VertexData> {
    Map::new(|id: VertexId| holds(h, id), |id: VertexId| vertex_of(h, id))
}

/// Every panorama entry of `v` names a vertex of the history.
pub open spec fn all_present(h: Seq<VertexData>, v: VertexData) -> bool {
    forall|j: int| 0 <= j < v.parents.len() ==> holds(h, (#[trigger] v.parents[j]).vertex)
}

/// The vertices that the panorama names and the history lacks, in the order
/// of the panorama.
pub open spec fn missing_of(h: Seq<VertexData>, parents: Seq<Citation>) -> Seq<VertexId>
    decreases parents.len(),
{
    if parents.len() == 0 {
        Seq::empty()
    } else {
        let rest = missing_of(h, parents.drop_last());
        if holds(h, parents.last().vertex) {
            rest
        } else {
            rest.push(parents.last().vertex)
        }
    }
}

/// How far `v` has seen `validator`: the sequence number of the vertex that
/// its panorama names for that validator, or -1 where it names none that the
/// history holds.
pub open spec fn seen_rank(h: Seq<VertexData>, v: VertexData, validator: ValidatorId) -> int {
    if v.has_seen(validator) && holds(h, v.seen_of(validator)) {
        vertex_of(h, v.seen_of(validator)).sequence_number as int
    } else {
        -1
    }
}

/// The sequence number continues the creator's own chain: one more than that
/// of the creator's vertex in the panorama, or 0 where there is none.
pub open spec fn sequence_ok(h: Seq<VertexData>, v: VertexData) -> bool {
    if v.has_seen(v.creator) {
        holds(h, v.seen_of(v.creator)) ==> v.sequence_number == vertex_of(
            h,
            v.seen_of(v.creator),
        ).sequence_number + 1
    } else {
        v.sequence_number == 0
    }
}

/// Some panorama entry names, for a validator, a vertex that another
/// validator made.
pub open spec fn misattributed(h: Seq<VertexData>, v: VertexData) -> bool {
    exists|j: int|
        0 <= j < v.parents.len() && holds(h, (#[trigger] v.parents[j]).vertex) && vertex_of(
            h,
            v.parents[j].vertex,
        ).creator != v.parents[j].validator
}

/// Some vertex that `v` names has seen further of some validator than `v`
/// itself admits: `v` names an older vertex of a validator than one that is
/// already among its ancestors.
pub open spec fn stale(h: Seq<VertexData>, v: VertexData) -> bool {
    exists|j: int, w: ValidatorId|
        0 <= j < v.parents.len() && holds(h, v.parents[j].vertex) && seen_rank(h, v, w)
            < #[trigger] seen_rank(h, vertex_of(h, v.parents[j].vertex), w)
}

/// The history has another vertex of the same creator at the same sequence
/// number: with `v` the creator equivocates.
pub open spec fn conflicts(h: Seq<VertexData>, v: VertexData) -> bool {
    exists|i: int|
        0 <= i < h.len() && (#[trigger] h[i]).creator == v.creator && h[i].sequence_number
            == v.sequence_number && h[i].id != v.id
}

/// What a store asks of a vertex before it takes it, the signature aside.
#[verifier::opaque]
pub open spec fn admissible(h: Seq<VertexData>, v: VertexData) -> bool {
    &&& all_present(h, v)
    &&& sequence_ok(h, v)
    &&& !misattributed(h, v)
    &&& !stale(h, v)
}

/// A history that a store can have: the vertices are well formed, no
/// identifier occurs twice, and each vertex was admissible when it came.
#[verifier::opaque]
pub open spec fn valid_history(h: Seq<VertexData>) -> bool {
    &&& forall|i: int| 0 <= i < h.len() ==> (#[trigger] h[i]).well_formed()
    &&& distinct_ids(h)
    &&& forall|i: int| 0 <= i < h.len() ==> admissible(h.take(i), #[trigger] h[i])
}

/// The vertex of `validator` that came last, if any came.
pub open spec fn latest_of(h: Seq<VertexData>, validator: ValidatorId) -> Option<VertexId>
    decreases h.len(),
{
    if h.len() == 0 {
        None
    } else if h.last().creator == validator {
        Some(h.last().id)
    } else {
        latest_of(h.drop_last(), validator)
    }
}

/// The vertices that name `id` in their panorama, in the order in which they
/// came.
pub open spec fn children_of(h: Seq<VertexData>, id: VertexId) -> Seq<VertexId>
    decreases h.len(),
{
    if h.len() == 0 {
        Seq::empty()
    } else {
        let rest = children_of(h.drop_last(), id);
        if h.last().cites(id) {
            rest.push(h.last().id)
        } else {
            rest
        }
    }
}

/// The validator has made two vertices with one sequence number.
pub open spec fn is_equivocator(h: Seq<VertexData>, validator: ValidatorId) -> bool {
    exists|i: int, j: int|
        0 <= i < j < h.len() && (#[trigger] h[i]).creator == validator && (#[trigger] h[j]).creator
            == validator && h[i].sequence_number == h[j].sequence_number
}

/// In a history without repeated identifiers, the vertex at a position is the
/// one found under its identifier.
pub proof fn lemma_position(h: Seq<VertexData>, i: int)
    requires
        distinct_ids(h),
        0 <= i < h.len(),
    ensures
        holds(h, h[i].id),
        position(h, h[i].id) == i,
        vertex_of(h, h[i].id) == h[i],
{
    let p = position(h, h[i].id);
    assert(0 <= p < h.len() && h[p].id == h[i].id);
    if p < i {
        assert(h[p].id != h[i].id);
    } else if i < p {
        assert(h[i].id != h[p].id);
    }
}

/// A vertex that the history holds stands at its position.
pub proof fn lemma_holds(h: Seq<VertexData>, id: VertexId)
    requires
        holds(h, id),
    ensures
        0 <= position(h, id) < h.len(),
        vertex_of(h, id).id == id,
{
}

/// A panorama names, for each of its validators, the vertex of that entry.
pub proof fn lemma_seen(v: VertexData, j: int)
    requires
        is_panorama(v.parents),
        0 <= j < v.parents.len(),
    ensures
        v.has_seen(v.parents[j].validator),
        v.seen_of(v.parents[j].validator) == v.parents[j].vertex,
        v.cites(v.parents[j].vertex),
{
    let w = v.parents[j].validator;
    let k = choose|k: int| 0 <= k < v.parents.len() && (#[trigger] v.parents[k]).validator == w;
    if k < j {
        assert(v.parents[k].validator.0 < v.parents[j].validator.0);
    } else if j < k {
        assert(v.parents[j].validator.0 < v.parents[k].validator.0);
    }
}

/// After one more vertex, the history holds what it held and the newcomer.
pub proof fn lemma_push_holds(h: Seq<VertexData>, v: VertexData, id: VertexId)
    ensures
        holds(h.push(v), id) <==> holds(h, id) || id == v.id,
{
    let g = h.push(v);
    if holds(h, id) {
        let i = position(h, id);
        assert(g[i].id == id);
    }
    if id == v.id {
        assert(g[h.len() as int].id == id);
    }
    if holds(g, id) {
        let i = position(g, id);
        if i < h.len() {
            assert(h[i].id == id);
        }
    }
}

/// One more vertex leaves every vertex already held as it was.
pub proof fn lemma_push_keeps(h: Seq<VertexData>, v: VertexData, id: VertexId)
    requires
        distinct_ids(h),
        !holds(h, v.id),
        holds(h, id),
    ensures
        holds(h.push(v), id),
        vertex_of(h.push(v), id) == vertex_of(h, id),
        position(h.push(v), id) == position(h, id),
{
    let g = h.push(v);
    lemma_push_distinct(h, v);
    let i = position(h, id);
    assert(g[i] == h[i]);
    lemma_position(g, i);
}

/// A newcomer with a fresh identifier keeps the identifiers distinct.
pub proof fn lemma_push_distinct(h: Seq<VertexData>, v: VertexData)
    requires
        distinct_ids(h),
        !holds(h, v.id),
    ensures
        distinct_ids(h.push(v)),
        vertex_of(h.push(v), v.id) == v,
        position(h.push(v), v.id) == h.len(),
{
    let g = h.push(v);
    assert forall|i: int, j: int| 0 <= i < j < g.len() implies (#[trigger] g[i]).id != (
    #[trigger] g[j]).id by {
        if j == h.len() {
            assert(h[i].id != v.id);
        } else {
            assert(h[i].id != h[j].id);
        }
    }
    lemma_position(g, h.len() as int);
}

/// Whether one of the first `j` panorama entries names `id`.
pub open spec fn cited_before(parents: Seq<Citation>, j: int, id: VertexId) -> bool {
    exists|k: int| 0 <= k < j && k < parents.len() && (#[trigger] parents[k]).vertex == id
}

/// Nothing is missing exactly when every named vertex is present.
pub proof fn lemma_missing_none(h: Seq<VertexData>, parents: Seq<Citation>)
    ensures
        missing_of(h, parents).len() == 0 <==> forall|j: int|
            0 <= j < parents.len() ==> holds(h, (#[trigger] parents[j]).vertex),
    decreases parents.len(),
{
    if parents.len() > 0 {
        let front = parents.drop_last();
        lemma_missing_none(h, front);
        if missing_of(h, parents).len() == 0 {
            assert forall|j: int| 0 <= j < parents.len() implies holds(
                h,
                (#[trigger] parents[j]).vertex,
            ) by {
                if j < front.len() {
                    assert(front[j] == parents[j]);
                }
            }
        }
        if forall|j: int| 0 <= j < parents.len() ==> holds(h, (#[trigger] parents[j]).vertex) {
            assert forall|j: int| 0 <= j < front.len() implies holds(
                h,
                (#[trigger] front[j]).vertex,
            ) by {
                assert(front[j] == parents[j]);
            }
            assert(holds(h, parents[parents.len() - 1].vertex));
        }
    }
}

/// The vertices that are missing are those that the panorama names and the
/// history lacks.
pub proof fn lemma_missing_members(h: Seq<VertexData>, parents: Seq<Citation>, id: VertexId)
    ensures
        missing_of(h, parents).contains(id) <==> !holds(h, id) && cited_before(
            parents,
            parents.len() as int,
            id,
        ),
    decreases parents.len(),
{
    if parents.len() > 0 {
        let front = parents.drop_last();
        let last = parents.last();
        let rest = missing_of(h, front);
        lemma_missing_members(h, front, id);
        if cited_before(front, front.len() as int, id) {
            let k = choose|k: int| 0 <= k < front.len() && (#[trigger] front[k]).vertex == id;
            assert(parents[k].vertex == id);
        }
        if cited_before(parents, parents.len() as int, id) {
            let k = choose|k: int| 0 <= k < parents.len() && (#[trigger] parents[k]).vertex == id;
            if k < front.len() {
                assert(front[k].vertex == id);
            }
        }
        if last.vertex == id {
            assert(parents[parents.len() - 1].vertex == id);
        }
        if !holds(h, last.vertex) {
            let all = rest.push(last.vertex);
            assert(all[rest.len() as int] == last.vertex);
            if rest.contains(id) {
                let k = choose|k: int| 0 <= k < rest.len() && rest[k] == id;
                assert(all[k] == id);
            }
            if all.contains(id) {
                let k = choose|k: int| 0 <= k < all.len() && all[k] == id;
                if k < rest.len() {
                    assert(rest[k] == id);
                }
            }
        }
    }
}

/// A vertex that was admissible extends a valid history to a valid history.
pub proof fn lemma_push_valid(h: Seq<VertexData>, v: VertexData)
    requires
        valid_history(h),
        v.well_formed(),
        !holds(h, v.id),
        admissible(h, v),
    ensures
        valid_history(h.push(v)),
{
    reveal(valid_history);
    let g = h.push(v);
    lemma_push_distinct(h, v);
    assert forall|i: int| 0 <= i < g.len() implies admissible(g.take(i), #[trigger] g[i]) by {
        if i < h.len() {
            assert(g.take(i) == h.take(i));
        } else {
            assert(g.take(i) == h);
        }
    }
}

/// What a valid history offers.
pub proof fn lemma_valid(h: Seq<VertexData>)
    requires
        valid_history(h),
    ensures
        distinct_ids(h),
        forall|i: int| 0 <= i < h.len() ==> (#[trigger] h[i]).well_formed(),
        forall|i: int| 0 <= i < h.len() ==> admissible(h.take(i), #[trigger] h[i]),
{
    reveal(valid_history);
}

/// What a prefix of the history holds, the history holds, and with the same
/// content.
pub proof fn lemma_take_holds(h: Seq<VertexData>, i: int, id: VertexId)
    requires
        distinct_ids(h),
        0 <= i <= h.len(),
        holds(h.take(i), id),
    ensures
        holds(h, id),
        position(h, id) < i,
        position(h.take(i), id) == position(h, id),
        vertex_of(h.take(i), id) == vertex_of(h, id),
{
    let t = h.take(i);
    let p = position(t, id);
    assert(t[p] == h[p]);
    lemma_position(h, p);
    assert forall|a: int, b: int| 0 <= a < b < t.len() implies (#[trigger] t[a]).id != (
    #[trigger] t[b]).id by {
        assert(h[a].id != h[b].id);
    }
    lemma_position(t, p);
}

/// The latest vertex of a validator after one more vertex.
pub proof fn lemma_push_latest(h: Seq<VertexData>, v: VertexData, validator: ValidatorId)
    ensures
        latest_of(h.push(v), validator) == if v.creator == validator {
            Some(v.id)
        } else {
            latest_of(h, validator)
        },
{
    assert(h.push(v).drop_last() == h);
}

/// The children of a vertex after one more vertex.
pub proof fn lemma_push_children(h: Seq<VertexData>, v: VertexData, id: VertexId)
    ensures
        children_of(h.push(v), id) == if v.cites(id) {
            children_of(h, id).push(v.id)
        } else {
            children_of(h, id)
        },
{
    assert(h.push(v).drop_last() == h);
}

/// Who equivocates after one more vertex: who did before, and the creator of
/// the newcomer if the newcomer conflicts.
pub proof fn lemma_push_equivocator(h: Seq<VertexData>, v: VertexData, validator: ValidatorId)
    requires
        !holds(h, v.id),
    ensures
        is_equivocator(h.push(v), validator) <==> is_equivocator(h, validator) || (v.creator
            == validator && conflicts(h, v)),
{
    let g = h.push(v);
    if is_equivocator(h, validator) {
        let (i, j) = choose|i: int, j: int|
            0 <= i < j < h.len() && (#[trigger] h[i]).creator == validator && (
            #[trigger] h[j]).creator == validator && h[i].sequence_number == h[j].sequence_number;
        assert(g[i] == h[i] && g[j] == h[j]);
    }
    if v.creator == validator && conflicts(h, v) {
        let i = choose|i: int|
            0 <= i < h.len() && (#[trigger] h[i]).creator == v.creator && h[i].sequence_number
                == v.sequence_number && h[i].id != v.id;
        assert(g[i] == h[i] && g[h.len() as int] == v);
    }
    if is_equivocator(g, validator) {
        let (i, j) = choose|i: int, j: int|
            0 <= i < j < g.len() && (#[trigger] g[i]).creator == validator && (
            #[trigger] g[j]).creator == validator && g[i].sequence_number == g[j].sequence_number;
        assert(g[i] == h[i]);
        if j < h.len() {
            assert(g[j] == h[j]);
        } else {
            assert(h[i].id != v.id);
        }
    }
}

/// In a valid history, whatever a vertex names came before it.
pub proof fn lemma_cited_is_held(h: Seq<VertexData>, i: int, id: VertexId)
    requires
        valid_history(h),
        0 <= i < h.len(),
        h[i].cites(id),
    ensures
        holds(h, id),
        position(h, id) < i,
{
    lemma_valid(h);
    reveal(admissible);
    assert(admissible(h.take(i), h[i]));
    let j = choose|j: int| 0 <= j < h[i].parents.len() && (#[trigger] h[i].parents[j]).vertex == id;
    assert(holds(h.take(i), h[i].parents[j].vertex));
    lemma_take_holds(h, i, id);
}

/// A vertex that the history lacks has no children in it.
pub proof fn lemma_no_children(h: Seq<VertexData>, id: VertexId)
    requires
        valid_history(h),
        !holds(h, id),
    ensures
        children_of(h, id) == Seq::<VertexId>::empty(),
{
    assert forall|i: int| 0 <= i < h.len() implies !(#[trigger] h[i]).cites(id) by {
        if h[i].cites(id) {
            lemma_cited_is_held(h, i, id);
        }
    }
    lemma_uncited(h, id);
}

/// A vertex that no vertex names has no children.
pub proof fn lemma_uncited(h: Seq<VertexData>, id: VertexId)
    requires
        forall|i: int| 0 <= i < h.len() ==> !(#[trigger] h[i]).cites(id),
    ensures
        children_of(h, id) == Seq::<VertexId>::empty(),
    decreases h.len(),
{
    if h.len() > 0 {
        let front = h.drop_last();
        assert forall|i: int| 0 <= i < front.len() implies !(#[trigger] front[i]).cites(id) by {
            assert(front[i] == h[i]);
        }
        lemma_uncited(front, id);
        assert(!h[h.len() - 1].cites(id));
    }
}

/// In a panorama whose entries are rightly attributed, no vertex is named
/// twice.
pub proof fn lemma_citations_distinct(h: Seq<VertexData>, v: VertexData, k: int, j: int)
    requires
        is_panorama(v.parents),
        all_present(h, v),
        !misattributed(h, v),
        0 <= k < j < v.parents.len(),
    ensures
        v.parents[k].vertex != v.parents[j].vertex,
{
    if v.parents[k].vertex == v.parents[j].vertex {
        assert(holds(h, v.parents[k].vertex));
        assert(holds(h, v.parents[j].vertex));
        assert(vertex_of(h, v.parents[k].vertex).creator == v.parents[k].validator);
        assert(vertex_of(h, v.parents[j].vertex).creator == v.parents[j].validator);
        assert(v.parents[k].validator.0 < v.parents[j].validator.0);
    }
}

/// Two histories agree on what `v` names: both hold each vertex that `v`
/// names, with the same content, and of what those vertices name both hold
/// the same, at the same sequence numbers.
pub open spec fn agree_around(h1: Seq<VertexData>, h2: Seq<VertexData>, v: VertexData) -> bool {
    &&& forall|j: int|
        0 <= j < v.parents.len() ==> {
            &&& holds(h1, (#[trigger] v.parents[j]).vertex)
            &&& holds(h2, v.parents[j].vertex)
            &&& vertex_of(h1, v.parents[j].vertex) == vertex_of(h2, v.parents[j].vertex)
        }
    &&& forall|j: int, k: int|
        0 <= j < v.parents.len() && 0 <= k < vertex_of(h1, v.parents[j].vertex).parents.len() ==> {
            let named = (#[trigger] vertex_of(h1, v.parents[j].vertex).parents[k]).vertex;
            &&& holds(h1, named) <==> holds(h2, named)
            &&& holds(h1, named) ==> vertex_of(h1, named).sequence_number == vertex_of(
                h2,
                named,
            ).sequence_number
        }
}

/// Whether a vertex is admissible depends only on the vertices that it names
/// and on what those name: two histories that agree there admit the same.
pub proof fn lemma_admissible_agrees(h1: Seq<VertexData>, h2: Seq<VertexData>, v: VertexData)
    requires
        agree_around(h1, h2, v),
        admissible(h1, v),
    ensures
        admissible(h2, v),
{
    reveal(admissible);
    assert forall|w: ValidatorId| seen_rank(h1, v, w) == seen_rank(h2, v, w) by {
        if v.has_seen(w) {
            let c = choose|c: int|
                0 <= c < v.parents.len() && (#[trigger] v.parents[c]).validator == w;
            assert(holds(h1, v.parents[c].vertex));
        }
    }
    assert(sequence_ok(h2, v)) by {
        if v.has_seen(v.creator) {
            let c = choose|c: int|
                0 <= c < v.parents.len() && (#[trigger] v.parents[c]).validator == v.creator;
            assert(holds(h1, v.parents[c].vertex));
        }
    }
    assert(!misattributed(h2, v)) by {
        if misattributed(h2, v) {
            let j = choose|j: int|
                0 <= j < v.parents.len() && holds(h2, (#[trigger] v.parents[j]).vertex)
                    && vertex_of(h2, v.parents[j].vertex).creator != v.parents[j].validator;
            assert(holds(h1, v.parents[j].vertex));
        }
    }
    assert(!stale(h2, v)) by {
        if stale(h2, v) {
            let (j, w) = choose|j: int, w: ValidatorId|
                0 <= j < v.parents.len() && holds(h2, v.parents[j].vertex) && seen_rank(h2, v, w)
                    < #[trigger] seen_rank(h2, vertex_of(h2, v.parents[j].vertex), w);
            assert(holds(h1, v.parents[j].vertex));
            let q = vertex_of(h1, v.parents[j].vertex);
            assert(q == vertex_of(h2, v.parents[j].vertex));
            if q.has_seen(w) {
                let k = choose|k: int|
                    0 <= k < q.parents.len() && (#[trigger] q.parents[k]).validator == w;
                let named = vertex_of(h1, v.parents[j].vertex).parents[k].vertex;
                assert(holds(h1, named) <==> holds(h2, named));
            }
            assert(seen_rank(h1, q, w) == seen_rank(h2, q, w));
            assert(seen_rank(h1, v, w) < seen_rank(h1, vertex_of(h1, v.parents[j].vertex), w));
        }
    }
}

/// A valid history holds whatever its vertices name.
pub proof fn lemma_closed(h: Seq<VertexData>, id: VertexId, j: int)
    requires
        valid_history(h),
        holds(h, id),
        0 <= j < vertex_of(h, id).parents.len(),
    ensures
        holds(h, vertex_of(h, id).parents[j].vertex),
        position(h, vertex_of(h, id).parents[j].vertex) < position(h, id),
{
    let i = position(h, id);
    let named = h[i].parents[j].vertex;
    assert(h[i].parents[j].vertex == named);
    assert(h[i].cites(named));
    lemma_cited_is_held(h, i, named);
}

/// A longer history agrees with a valid one on what a vertex names, when the
/// valid one holds all of that and the longer one keeps its vertices.
pub proof fn lemma_extension_agrees(h: Seq<VertexData>, g: Seq<VertexData>, v: VertexData)
    requires
        valid_history(h),
        all_present(h, v),
        forall|id: VertexId| #[trigger]
            holds(h, id) ==> holds(g, id) && vertex_of(g, id) == vertex_of(h, id),
    ensures
        agree_around(h, g, v),
{
    assert forall|j: int, k: int|
        0 <= j < v.parents.len() && 0 <= k < vertex_of(h, v.parents[j].vertex).parents.len() implies {
        let named = (#[trigger] vertex_of(h, v.parents[j].vertex).parents[k]).vertex;
        &&& holds(h, named) <==> holds(g, named)
        &&& holds(h, named) ==> vertex_of(h, named).sequence_number == vertex_of(
            g,
            named,
        ).sequence_number
    } by {
        assert(holds(h, v.parents[j].vertex));
        lemma_closed(h, v.parents[j].vertex, k);
    }
}

/// A vertex that is admissible and not the first of its creator names its
/// creator's vertex before it.
pub proof fn lemma_own_parent(h: Seq<VertexData>, v: VertexData)
    requires
        admissible(h, v),
        v.sequence_number > 0,
    ensures
        v.has_seen(v.creator),
        holds(h, v.seen_of(v.creator)),
        vertex_of(h, v.seen_of(v.creator)).creator == v.creator,
        vertex_of(h, v.seen_of(v.creator)).sequence_number + 1 == v.sequence_number,
{
    assert(sequence_ok(h, v) && all_present(h, v) && !misattributed(h, v)) by {
        reveal(admissible);
    }
    let c = choose|c: int|
        0 <= c < v.parents.len() && (#[trigger] v.parents[c]).validator == v.creator;
    assert(holds(h, v.parents[c].vertex));
    assert(vertex_of(h, v.parents[c].vertex).creator == v.parents[c].validator);
}

/// The beginning of a valid history is a valid history.
pub proof fn lemma_take_valid(h: Seq<VertexData>, i: int)
    requires
        valid_history(h),
        0 <= i <= h.len(),
    ensures
        valid_history(h.take(i)),
{
    lemma_valid(h);
    let t = h.take(i);
    assert forall|a: int, b: int| 0 <= a < b < t.len() implies (#[trigger] t[a]).id != (
    #[trigger] t[b]).id by {
        assert(h[a].id != h[b].id);
    }
    assert forall|j: int| 0 <= j < t.len() implies admissible(t.take(j), #[trigger] t[j]) by {
        assert(t.take(j) == h.take(j));
        assert(admissible(h.take(j), h[j]));
    }
    assert forall|j: int| 0 <= j < t.len() implies (#[trigger] t[j]).well_formed() by {
        assert(h[j].well_formed());
    }
    reveal(valid_history);
}

/// A validator's vertices form a chain: below each of them, the history has
/// a vertex of the same validator at every sequence number.
pub proof fn lemma_chain(h: Seq<VertexData>, i: int, n: int)
    requires
        valid_history(h),
        0 <= i < h.len(),
        0 <= n <= h[i].sequence_number,
    ensures
        exists|j: int|
            0 <= j <= i && (#[trigger] h[j]).creator == h[i].creator && h[j].sequence_number == n,
    decreases i,
{
    let v = h[i];
    if n < v.sequence_number {
        lemma_valid(h);
        let f = h.take(i);
        assert(admissible(f, v));
        lemma_own_parent(f, v);
        let p = v.seen_of(v.creator);
        lemma_take_holds(h, i, p);
        let below = position(h, p);
        lemma_chain(h, below, n);
        let j = choose|j: int|
            0 <= j <= below && (#[trigger] h[j]).creator == h[below].creator
                && h[j].sequence_number == n;
        assert(h[j].creator == v.creator);
    } else {
        assert(h[i].creator == v.creator && h[i].sequence_number == n);
    }
}

/// The latest vertex of a validator that does not equivocate is its vertex
/// with the highest sequence number.
pub proof fn lemma_latest_is_highest(h: Seq<VertexData>, validator: ValidatorId)
    requires
        valid_history(h),
        !is_equivocator(h, validator),
    ensures
        match latest_of(h, validator) {
            Some(l) => holds(h, l) && vertex_of(h, l).creator == validator && forall|i: int|
                0 <= i < h.len() && (#[trigger] h[i]).creator == validator ==> h[i].sequence_number
                    <= vertex_of(h, l).sequence_number,
            None => forall|i: int| 0 <= i < h.len() ==> (#[trigger] h[i]).creator != validator,
        },
    decreases h.len(),
{
    if h.len() > 0 {
        let last = h.len() - 1;
        let f = h.drop_last();
        let x = h.last();
        assert(f == h.take(last));
        assert(f.push(x) == h);
        lemma_valid(h);
        lemma_take_valid(h, last);
        lemma_valid(f);
        assert(!is_equivocator(f, validator)) by {
            if is_equivocator(f, validator) {
                let (a, b) = choose|a: int, b: int|
                    0 <= a < b < f.len() && (#[trigger] f[a]).creator == validator && (
                    #[trigger] f[b]).creator == validator && f[a].sequence_number
                        == f[b].sequence_number;
                assert(h[a] == f[a] && h[b] == f[b]);
            }
        }
        lemma_latest_is_highest(f, validator);
        lemma_position(h, last);
        assert(!holds(f, x.id)) by {
            if holds(f, x.id) {
                let a = position(f, x.id);
                assert(h[a] == f[a]);
                assert(h[a].id != h[last].id);
            }
        }
        if x.creator == validator {
            assert forall|i: int| 0 <= i < h.len() && (#[trigger] h[i]).creator
                == validator implies h[i].sequence_number <= x.sequence_number by {
                if i < last && h[i].sequence_number >= x.sequence_number {
                    lemma_chain(h, i, x.sequence_number as int);
                    let j = choose|j: int|
                        0 <= j <= i && (#[trigger] h[j]).creator == h[i].creator
                            && h[j].sequence_number == x.sequence_number;
                    assert(h[j].creator == validator && h[last].creator == validator);
                    assert(is_equivocator(h, validator));
                }
            }
        } else {
            match latest_of(f, validator) {
                Some(l) => {
                    lemma_push_keeps(f, x, l);
                    assert forall|i: int| 0 <= i < h.len() && (#[trigger] h[i]).creator
                        == validator implies h[i].sequence_number <= vertex_of(
                        h,
                        l,
                    ).sequence_number by {
                        assert(h[i] == f[i]);
                    }
                },
                None => {
                    assert forall|i: int| 0 <= i < h.len() implies (#[trigger] h[i]).creator
                        != validator by {
                        if i < last {
                            assert(h[i] == f[i]);
                        }
                    }
                },
            }
        }
    }
}

} // verus!
