//! The finality detector: which batches have gathered support that cannot be
//! taken back.
//!
//! A validator supports a vertex when the latest vertex that the store has of
//! it descends from that vertex. A vertex is final once the weights of its
//! supporters sum to more than the threshold. Weights and threshold are the
//! policy of the consensus context; the detector takes them as they are.

use crate::dag::{
    admissible, children_of, distinct_ids, holds, is_equivocator, latest_of, lemma_chain,
    lemma_cited_is_held, lemma_latest_is_highest, lemma_own_parent, lemma_position,
    lemma_push_distinct, lemma_push_holds, lemma_push_keeps, lemma_push_latest, lemma_take_valid,
    lemma_valid, position, valid_history, vertex_of,
};
use crate::protocol_state::DagStore;
use crate::vertex::{ConsensusValue, ValidatorId, VertexData, VertexId};
use std::collections::HashSet;
use vstd::prelude::*;

verus! {

broadcast use vstd::std_specs::hash::group_hash_axioms;

/// The voting weight of a validator.
#[derive(Clone, Copy, Debug, PartialEq, Eq, Structural)]
pub struct Weight {
    pub validator: ValidatorId,
    pub weight: u64,
}

/// In the history, the vertex at place `i` of the path names the next one.
pub open spec fn links(h: Seq<VertexData>, path: Seq<VertexId>, i: int) -> bool {
    vertex_of(h, path[i]).cites(path[i + 1])
}

/// A path leads from a vertex of the history to one of its ancestors, each
/// vertex naming the next.
pub open spec fn is_path(h: Seq<VertexData>, path: Seq<VertexId>) -> bool {
    &&& path.len() > 0
    &&& forall|i: int| 0 <= i < path.len() ==> holds(h, #[trigger] path[i])
    &&& forall|i: int| 0 <= i < path.len() - 1 ==> #[trigger] links(h, path, i)
}

/// The vertex `d` is `a` or a descendant of `a`.
pub open spec fn descends(h: Seq<VertexData>, d: VertexId, a: VertexId) -> bool {
    exists|path: Seq<VertexId>| #[trigger] is_path(h, path) && path[0] == d && path.last() == a
}

/// The latest vertex of `validator` is `b` or descends from it.
pub open spec fn supports(h: Seq<VertexData>, validator: ValidatorId, b: VertexId) -> bool {
    latest_of(h, validator) matches Some(l) && descends(h, l, b)
}

/// The sum of the weights whose validators support `b`.
pub open spec fn support(h: Seq<VertexData>, weights: Seq<Weight>, b: VertexId) -> nat
    decreases weights.len(),
{
    if weights.len() == 0 {
        0
    } else {
        support(h, weights.drop_last(), b) + if supports(h, weights.last().validator, b) {
            weights.last().weight as nat
        } else {
            0
        }
    }
}

/// The vertex `b` of the history has more support than the threshold.
pub open spec fn is_final(
    h: Seq<VertexData>,
    weights: Seq<Weight>,
    threshold: u128,
    b: VertexId,
) -> bool {
    holds(h, b) && support(h, weights, b) > threshold
}

/// A vertex descends from another if it is that vertex, or if a child of that
/// vertex is among its ancestors or is the vertex itself.
pub proof fn lemma_descends_step(h: Seq<VertexData>, d: VertexId, a: VertexId)
    requires
        valid_history(h),
    ensures
        descends(h, d, a) <==> (holds(h, d) && d == a) || exists|c: VertexId|
            holds(h, c) && #[trigger] vertex_of(h, c).cites(a) && descends(h, d, c),
{
    if holds(h, d) && d == a {
        let path = seq![d];
        assert(is_path(h, path));
        assert(path[0] == d && path.last() == a);
    }
    if exists|c: VertexId| holds(h, c) && #[trigger] vertex_of(h, c).cites(a) && descends(h, d, c) {
        let c = choose|c: VertexId|
            holds(h, c) && #[trigger] vertex_of(h, c).cites(a) && descends(h, d, c);
        let front = choose|path: Seq<VertexId>| #[trigger]
            is_path(h, path) && path[0] == d && path.last() == c;
        let path = front.push(a);
        lemma_cited_is_held(h, position(h, c), a);
        assert forall|i: int| 0 <= i < path.len() implies holds(h, #[trigger] path[i]) by {
            if i < front.len() {
                assert(path[i] == front[i]);
            }
        }
        assert forall|i: int| 0 <= i < path.len() - 1 implies #[trigger] links(h, path, i) by {
            if i < front.len() - 1 {
                assert(links(h, front, i));
                assert(path[i] == front[i] && path[i + 1] == front[i + 1]);
            } else {
                assert(path[i] == c && path[i + 1] == a);
            }
        }
        assert(is_path(h, path));
        assert(path[0] == front[0] && path.last() == a);
    }
    if descends(h, d, a) {
        let path = choose|path: Seq<VertexId>| #[trigger]
            is_path(h, path) && path[0] == d && path.last() == a;
        if path.len() > 1 {
            let front = path.drop_last();
            let c = front.last();
            assert forall|i: int| 0 <= i < front.len() implies holds(h, #[trigger] front[i]) by {
                assert(front[i] == path[i]);
            }
            assert forall|i: int| 0 <= i < front.len() - 1 implies #[trigger] links(h, front, i) by {
                assert(links(h, path, i));
            }
            assert(is_path(h, front));
            assert(front[0] == d);
            assert(descends(h, d, c));
            assert(links(h, path, path.len() - 2));
            assert(holds(h, path[path.len() - 2]));
            assert(vertex_of(h, c).cites(a));
        } else {
            assert(holds(h, path[0]));
        }
    }
}

/// A descendant of a descendant is a descendant.
pub proof fn lemma_descends_transitive(h: Seq<VertexData>, x: VertexId, y: VertexId, z: VertexId)
    requires
        descends(h, x, y),
        descends(h, y, z),
    ensures
        descends(h, x, z),
{
    let first = choose|path: Seq<VertexId>| #[trigger]
        is_path(h, path) && path[0] == x && path.last() == y;
    let second = choose|path: Seq<VertexId>| #[trigger]
        is_path(h, path) && path[0] == y && path.last() == z;
    let path = first + second.subrange(1, second.len() as int);
    assert forall|i: int| 0 <= i < path.len() implies holds(h, #[trigger] path[i]) by {
        if i < first.len() {
            assert(path[i] == first[i]);
        } else {
            assert(path[i] == second[i - first.len() + 1]);
        }
    }
    assert forall|i: int| 0 <= i < path.len() - 1 implies #[trigger] links(h, path, i) by {
        if i < first.len() - 1 {
            assert(links(h, first, i));
            assert(path[i] == first[i] && path[i + 1] == first[i + 1]);
        } else {
            let k = i - first.len() + 1;
            assert(links(h, second, k));
            assert(path[i + 1] == second[k + 1]);
            if k == 0 {
                assert(path[i] == first[first.len() - 1]);
            } else {
                assert(path[i] == second[k]);
            }
        }
    }
    assert(is_path(h, path));
    assert(path[0] == first[0]);
    if second.len() == 1 {
        assert(path.last() == first.last());
    } else {
        assert(path.last() == second[second.len() - 1]);
    }
}

/// A child of a vertex is a vertex of the history that names it.
pub proof fn lemma_children_members(h: Seq<VertexData>, a: VertexId, c: VertexId)
    requires
        distinct_ids(h),
    ensures
        children_of(h, a).contains(c) <==> holds(h, c) && vertex_of(h, c).cites(a),
    decreases h.len(),
{
    if h.len() > 0 {
        let f = h.drop_last();
        let x = h.last();
        assert(f.push(x) == h);
        assert forall|i: int, j: int| 0 <= i < j < f.len() implies (#[trigger] f[i]).id != (
        #[trigger] f[j]).id by {
            assert(h[i].id != h[j].id);
        }
        assert(!holds(f, x.id)) by {
            if holds(f, x.id) {
                let i = position(f, x.id);
                assert(h[i].id != h[h.len() - 1].id);
            }
        }
        lemma_children_members(f, a, c);
        lemma_push_holds(f, x, c);
        lemma_push_distinct(f, x);
        if holds(f, c) {
            lemma_push_keeps(f, x, c);
        }
        let rest = children_of(f, a);
        if x.cites(a) {
            let all = rest.push(x.id);
            assert(all[rest.len() as int] == x.id);
            if rest.contains(c) {
                let k = choose|k: int| 0 <= k < rest.len() && rest[k] == c;
                assert(all[k] == c);
            }
            if all.contains(c) {
                let k = choose|k: int| 0 <= k < all.len() && all[k] == c;
                if k < rest.len() {
                    assert(rest[k] == c);
                }
            }
        }
    }
}

/// A vertex has at least the support of each of its descendants: whoever
/// supports a vertex supports its ancestors.
pub proof fn lemma_support_of_ancestor(
    h: Seq<VertexData>,
    weights: Seq<Weight>,
    b: VertexId,
    a: VertexId,
)
    requires
        descends(h, b, a),
    ensures
        support(h, weights, a) >= support(h, weights, b),
    decreases weights.len(),
{
    if weights.len() > 0 {
        lemma_support_of_ancestor(h, weights.drop_last(), b, a);
        let w = weights.last().validator;
        if supports(h, w, b) {
            lemma_descends_transitive(h, latest_of(h, w)->Some_0, b, a);
        }
    }
}

/// No support exceeds what the weights can sum to.
pub proof fn lemma_support_bound(h: Seq<VertexData>, weights: Seq<Weight>, b: VertexId)
    ensures
        support(h, weights, b) <= weights.len() * 0xffff_ffff_ffff_ffff,
    decreases weights.len(),
{
    if weights.len() > 0 {
        lemma_support_bound(h, weights.drop_last(), b);
        assert((weights.len() - 1) * 0xffff_ffff_ffff_ffff + 0xffff_ffff_ffff_ffff == weights.len()
            * 0xffff_ffff_ffff_ffff) by (nonlinear_arith);
    }
}

/// The latest vertex of a validator is a vertex of the history, made by that
/// validator.
pub proof fn lemma_latest_held(h: Seq<VertexData>, validator: ValidatorId)
    requires
        distinct_ids(h),
    ensures
        latest_of(h, validator) matches Some(l) ==> holds(h, l) && vertex_of(h, l).creator
            == validator,
    decreases h.len(),
{
    if h.len() > 0 {
        if h.last().creator == validator {
            lemma_position(h, h.len() - 1);
        } else {
            let f = h.drop_last();
            assert forall|i: int, j: int| 0 <= i < j < f.len() implies (#[trigger] f[i]).id != (
            #[trigger] f[j]).id by {
                assert(h[i].id != h[j].id);
            }
            lemma_latest_held(f, validator);
            if latest_of(f, validator) is Some {
                let l = latest_of(f, validator)->Some_0;
                let i = position(f, l);
                assert(h[i] == f[i]);
                lemma_position(f, i);
                lemma_position(h, i);
            }
        }
    }
}

/// One of the first `m` of `kids` is `l` or an ancestor of `l`.
pub open spec fn some_leads_to(h: Seq<VertexData>, l: VertexId, kids: Seq<VertexId>, m: int) -> bool {
    exists|k: int| 0 <= k < m && k < kids.len() && descends(h, l, #[trigger] kids[k])
}

/// For each place of the store, whether `l` is the vertex there or descends
/// from it.
fn ancestors(store: &DagStore, l: VertexId) -> (marks: Vec<bool>)
    requires
        store.wf(),
        holds(store@, l),
    ensures
        marks@.len() == store@.len(),
        forall|i: int| 0 <= i < marks@.len() ==> marks@[i] == descends(store@, l, store@[i].id),
{
    let ghost h = store@;
    let n: usize = store.len();
    let mut marks: Vec<bool> = Vec::new();
    let mut i: usize = 0;
    while i < n
        invariant
            i <= n,
            marks@.len() == i,
        decreases n - i,
    {
        marks.push(false);
        i += 1;
    }
    proof {
        store.lemma_wf();
        lemma_valid(h);
    }
    while i > 0
        invariant
            i <= n,
            n == h.len(),
            h == store@,
            store.wf(),
            valid_history(h),
            distinct_ids(h),
            holds(h, l),
            marks@.len() == n,
            forall|j: int| i <= j < n ==> marks@[j] == descends(h, l, h[j].id),
        decreases i,
    {
        i -= 1;
        let a = store.nth(i).id();
        let kids = store.children_at(i);
        let mut hit: bool = a == l;
        let mut m: usize = 0;
        while m < kids.len()
            invariant
                m <= kids.len(),
                i < n,
                n == h.len(),
                h == store@,
                store.wf(),
                valid_history(h),
                distinct_ids(h),
                a == h[i as int].id,
                kids@ == children_of(h, a),
                marks@.len() == n,
                forall|j: int| i < j < n ==> marks@[j] == descends(h, l, h[j].id),
                hit <==> a == l || some_leads_to(h, l, kids@, m as int),
            decreases kids.len() - m,
        {
            let c = kids[m];
            proof {
                assert(kids@.contains(c));
                lemma_children_members(h, a, c);
                lemma_cited_is_held(h, position(h, c), a);
                lemma_position(h, i as int);
            }
            match store.position(c) {
                Some(at) => {
                    if marks[at] {
                        hit = true;
                    }
                    proof {
                        if some_leads_to(h, l, kids@, m + 1) && !some_leads_to(h, l, kids@, m as int) {
                            let k = choose|k: int|
                                0 <= k < m + 1 && k < kids@.len() && descends(
                                    h,
                                    l,
                                    #[trigger] kids@[k],
                                );
                            assert(k == m);
                        }
                    }
                },
                None => {
                    assert(false);
                },
            }
            m += 1;
        }
        marks.set(i, hit);
        proof {
            lemma_descends_step(h, l, a);
            if some_leads_to(h, l, kids@, kids@.len() as int) {
                let k = choose|k: int|
                    0 <= k < kids@.len() && descends(h, l, #[trigger] kids@[k]);
                assert(kids@.contains(kids@[k]));
                lemma_children_members(h, a, kids@[k]);
            }
            if exists|c: VertexId|
                holds(h, c) && #[trigger] vertex_of(h, c).cites(a) && descends(h, l, c) {
                let c = choose|c: VertexId|
                    holds(h, c) && #[trigger] vertex_of(h, c).cites(a) && descends(h, l, c);
                lemma_children_members(h, a, c);
                let k = choose|k: int| 0 <= k < kids@.len() && kids@[k] == c;
                assert(descends(h, l, kids@[k]));
            }
        }
    }
    marks
}

/// The support of the vertex at each place of the store.
fn tally(store: &DagStore, weights: &Vec<Weight>) -> (sums: Vec<u128>)
    requires
        store.wf(),
    ensures
        sums@.len() == store@.len(),
        forall|i: int| 0 <= i < sums@.len() ==> sums@[i] == support(store@, weights@, store@[i].id),
{
    let ghost h = store@;
    let n: usize = store.len();
    let mut sums: Vec<u128> = Vec::new();
    let mut i: usize = 0;
    while i < n
        invariant
            i <= n,
            sums@.len() == i,
            forall|j: int| 0 <= j < i ==> sums@[j] == 0,
        decreases n - i,
    {
        sums.push(0);
        i += 1;
    }
    proof {
        store.lemma_wf();
        lemma_valid(h);
    }
    let mut k: usize = 0;
    while k < weights.len()
        invariant
            k <= weights.len(),
            n == h.len(),
            h == store@,
            store.wf(),
            distinct_ids(h),
            sums@.len() == n,
            forall|j: int|
                0 <= j < n ==> sums@[j] == support(h, weights@.take(k as int), h[j].id),
        decreases weights.len() - k,
    {
        assert(weights@.take(k + 1).drop_last() == weights@.take(k as int));
        let entry = weights[k];
        match store.latest(entry.validator) {
            Some(l) => {
                proof {
                    lemma_latest_held(h, entry.validator);
                }
                let marks = ancestors(store, l);
                let mut j: usize = 0;
                while j < n
                    invariant
                        j <= n,
                        k < weights.len(),
                        n == h.len(),
                        sums@.len() == n,
                        marks@.len() == n,
                        entry == weights@[k as int],
                        weights@.take(k + 1).drop_last() == weights@.take(k as int),
                        latest_of(h, entry.validator) == Some(l),
                        forall|p: int| 0 <= p < n ==> marks@[p] == descends(h, l, h[p].id),
                        forall|p: int|
                            0 <= p < j ==> sums@[p] == support(h, weights@.take(k + 1), h[p].id),
                        forall|p: int|
                            j <= p < n ==> sums@[p] == support(h, weights@.take(k as int), h[p].id),
                    decreases n - j,
                {
                    if marks[j] {
                        proof {
                            lemma_support_bound(h, weights@.take(k as int), h[j as int].id);
                            assert(k * 0xffff_ffff_ffff_ffff + 0xffff_ffff_ffff_ffff
                                <= 0xffff_ffff_ffff_ffff * 0xffff_ffff_ffff_ffff) by (nonlinear_arith)
                                requires
                                    k < 0xffff_ffff_ffff_ffff,
                            ;
                        }
                        let sum: u128 = sums[j] + entry.weight as u128;
                        sums.set(j, sum);
                    }
                    j += 1;
                }
            },
            None => {},
        }
        k += 1;
    }
    assert(weights@.take(k as int) == weights@);
    sums
}

/// A batch that has become final: the values of one vertex.
#[derive(Debug)]
pub struct FinalizedBatch {
    /// The vertex that proposed the batch.
    pub vertex: VertexId,
    /// The validator that made the vertex.
    pub creator: ValidatorId,
    /// The values of the batch, in the order of the vertex.
    pub values: Vec<ConsensusValue>,
}

/// The vertices of the batches, in their order.
pub open spec fn batch_ids(batches: Seq<FinalizedBatch>) -> Seq<VertexId> {
    Seq::new(batches.len(), |i: int| batches[i].vertex)
}

/// The detector of final batches. It remembers what it has reported: a batch
/// that was final once stays so.
pub struct FinalityDetector {
    weights: Vec<Weight>,
    threshold: u128,
    finalized: Vec<VertexId>,
    seen: HashSet<u64>,
}

impl View for FinalityDetector {
    type V = Seq<VertexId>;

    /// The vertices that were reported final, in the order of the reports.
    closed spec fn view(&self) -> Seq<VertexId> {
        self.finalized@
    }
}

impl FinalityDetector {
    /// The weights that count.
    pub closed spec fn weights(&self) -> Seq<Weight> {
        self.weights@
    }

    /// The sum of weights that a final vertex exceeds.
    pub closed spec fn threshold(&self) -> u128 {
        self.threshold
    }

    /// The detector is in order: it knows what it has reported.
    pub closed spec fn wf(&self) -> bool {
        forall|k: u64|
            #![trigger self.seen@.contains(k)]
            #![trigger self.finalized@.contains(VertexId(k))]
            self.seen@.contains(k) <==> self.finalized@.contains(VertexId(k))
    }

    /// A detector that has reported nothing. Each entry of `weights` counts
    /// for its validator; a vertex is final once it has more support than
    /// `threshold`.
    pub fn new(weights: Vec<Weight>, threshold: u128) -> (detector: FinalityDetector)
        ensures
            detector.wf(),
            detector@ == Seq::<VertexId>::empty(),
            detector.weights() == weights@,
            detector.threshold() == threshold,
    {
        let detector = FinalityDetector {
            weights,
            threshold,
            finalized: Vec::new(),
            seen: HashSet::new(),
        };
        assert forall|k: u64| !detector.finalized@.contains(VertexId(k)) by {}
        detector
    }

    /// The vertices that were reported final, in the order of the reports.
    pub fn finalized(&self) -> (list: &Vec<VertexId>)
        ensures
            list@ == self@,
    {
        &self.finalized
    }

    /// Whether the vertex was reported final.
    pub fn is_finalized(&self, id: VertexId) -> (found: bool)
        requires
            self.wf(),
        ensures
            found == self@.contains(id),
    {
        proof {
            assert(VertexId(id.0) == id);
        }
        self.seen.contains(&id.0)
    }

    /// The support that the vertex has in the store, if the store has it.
    pub fn support_of(&self, store: &DagStore, id: VertexId) -> (sum: Option<u128>)
        requires
            store.wf(),
        ensures
            sum.is_some() <==> holds(store@, id),
            sum matches Some(n) ==> n == support(store@, self.weights(), id),
    {
        match store.position(id) {
            Some(at) => {
                let sums = tally(store, &self.weights);
                Some(sums[at])
            },
            None => None,
        }
    }

    /// Reports the batches that have become final since the last report.
    ///
    /// A vertex is reported when the store has it with more support than the
    /// threshold and it was not reported before, once, and the reports come in
    /// the order in which the store took the vertices, so that no vertex is
    /// reported before a vertex that it names. What was reported before stays
    /// reported, whatever the store holds now.
    pub fn poll(&mut self, store: &DagStore) -> (batches: Vec<FinalizedBatch>)
        requires
            old(self).wf(),
            store.wf(),
        ensures
            final(self).wf(),
            final(self).weights() == old(self).weights(),
            final(self).threshold() == old(self).threshold(),
            final(self)@ == old(self)@ + batch_ids(batches@),
            forall|id: VertexId|
                batch_ids(batches@).contains(id) <==> is_final(
                    store@,
                    old(self).weights(),
                    old(self).threshold(),
                    id,
                ) && !old(self)@.contains(id),
            forall|i: int, j: int|
                0 <= i < j < batches@.len() ==> position(store@, (#[trigger] batches@[i]).vertex)
                    < position(store@, (#[trigger] batches@[j]).vertex),
            forall|i: int|
                0 <= i < batches@.len() ==> {
                    let v = vertex_of(store@, (#[trigger] batches@[i]).vertex);
                    batches@[i].creator == v.creator && batches@[i].values@ == v.values
                },
    {
        let ghost h = store@;
        let ghost before = self@;
        let sums = tally(store, &self.weights);
        let n: usize = store.len();
        let mut batches: Vec<FinalizedBatch> = Vec::new();
        proof {
            store.lemma_wf();
            lemma_valid(h);
            assert(self@ == before + batch_ids(batches@));
        }
        let mut i: usize = 0;
        while i < n
            invariant
                i <= n,
                n == h.len(),
                h == store@,
                distinct_ids(h),
                self.wf(),
                self.weights == old(self).weights,
                self.threshold == old(self).threshold,
                before == old(self)@,
                sums@.len() == n,
                forall|p: int| 0 <= p < n ==> sums@[p] == support(h, self.weights@, h[p].id),
                self@ == before + batch_ids(batches@),
                forall|j: int|
                    0 <= j < batches@.len() ==> holds(h, (#[trigger] batches@[j]).vertex)
                        && position(h, batches@[j].vertex) < i,
                forall|a: int, b: int|
                    0 <= a < b < batches@.len() ==> position(h, (#[trigger] batches@[a]).vertex)
                        < position(h, (#[trigger] batches@[b]).vertex),
                forall|p: int|
                    0 <= p < i ==> (batch_ids(batches@).contains((#[trigger] h[p]).id) <==> sums@[p]
                        > self.threshold && !before.contains(h[p].id)),
                forall|j: int|
                    0 <= j < batches@.len() ==> {
                        let v = vertex_of(h, (#[trigger] batches@[j]).vertex);
                        batches@[j].creator == v.creator && batches@[j].values@ == v.values
                    },
            decreases n - i,
        {
            let v = store.nth(i);
            let id = v.id();
            let ghost reported = batches@;
            let ghost known = self@;
            proof {
                lemma_position(h, i as int);
                assert(VertexId(id.0) == id);
                assert(!batch_ids(reported).contains(id)) by {
                    if batch_ids(reported).contains(id) {
                        let j = choose|j: int|
                            0 <= j < batch_ids(reported).len() && batch_ids(reported)[j] == id;
                        assert(reported[j].vertex == id);
                    }
                }
            }
            if sums[i] > self.threshold && !self.seen.contains(&id.0) {
                proof {
                    assert(!known.contains(id));
                }
                let values = v.values().clone();
                assert(values@ == v@.values);
                batches.push(FinalizedBatch { vertex: id, creator: v.creator(), values });
                self.finalized.push(id);
                self.seen.insert(id.0);
                proof {
                    assert(batch_ids(batches@) == batch_ids(reported).push(id));
                    assert(self@ == before + batch_ids(batches@));
                    assert forall|k: u64|
                        #![trigger self.seen@.contains(k)]
                        #![trigger self.finalized@.contains(VertexId(k))]
                        self.seen@.contains(k) <==> self.finalized@.contains(VertexId(k)) by {
                        if known.contains(VertexId(k)) {
                            let c = choose|c: int| 0 <= c < known.len() && known[c] == VertexId(k);
                            assert(self.finalized@[c] == VertexId(k));
                        }
                        assert(self.finalized@[known.len() as int] == id);
                        if self.finalized@.contains(VertexId(k)) {
                            let c = choose|c: int|
                                0 <= c < self.finalized@.len() && self.finalized@[c] == VertexId(k);
                            if c < known.len() {
                                assert(known[c] == VertexId(k));
                            }
                        }
                    }
                    assert forall|j: int| 0 <= j < batches@.len() implies holds(
                        h,
                        (#[trigger] batches@[j]).vertex,
                    ) && position(h, batches@[j].vertex) < i + 1 by {
                        if j < reported.len() {
                            assert(batches@[j] == reported[j]);
                        }
                    }
                    assert forall|a: int, b: int| 0 <= a < b < batches@.len() implies position(
                        h,
                        (#[trigger] batches@[a]).vertex,
                    ) < position(h, (#[trigger] batches@[b]).vertex) by {
                        assert(batches@[a] == reported[a]);
                        if b < reported.len() {
                            assert(batches@[b] == reported[b]);
                        }
                    }
                    assert forall|j: int| 0 <= j < batches@.len() implies {
                        let w = vertex_of(h, (#[trigger] batches@[j]).vertex);
                        batches@[j].creator == w.creator && batches@[j].values@ == w.values
                    } by {
                        if j < reported.len() {
                            assert(batches@[j] == reported[j]);
                        }
                    }
                    assert forall|p: int| 0 <= p < i + 1 implies (batch_ids(batches@).contains(
                        (#[trigger] h[p]).id,
                    ) <==> sums@[p] > self.threshold && !before.contains(h[p].id)) by {
                        lemma_push_contains(batch_ids(reported), id, h[p].id);
                        if p < i {
                            assert(h[p].id != h[i as int].id);
                        } else {
                            assert(!before.contains(id)) by {
                                if before.contains(id) {
                                    let c = choose|c: int| 0 <= c < before.len() && before[c] == id;
                                    assert(known[c] == id);
                                }
                            }
                        }
                    }
                }
            } else {
                proof {
                    if sums@[i as int] > self.threshold {
                        assert(known.contains(id));
                        let c = choose|c: int| 0 <= c < known.len() && known[c] == id;
                        if c >= before.len() {
                            assert(batch_ids(reported)[c - before.len()] == id);
                        } else {
                            assert(before[c] == id);
                        }
                    }
                }
            }
            i += 1;
        }
        proof {
            assert forall|id: VertexId|
                batch_ids(batches@).contains(id) <==> is_final(
                    h,
                    self.weights@,
                    self.threshold,
                    id,
                ) && !before.contains(id) by {
                if batch_ids(batches@).contains(id) {
                    let j = choose|j: int|
                        0 <= j < batch_ids(batches@).len() && batch_ids(batches@)[j] == id;
                    assert(batches@[j].vertex == id);
                    let p = position(h, id);
                    assert(h[p].id == id);
                }
                if holds(h, id) {
                    let p = position(h, id);
                    assert(h[p].id == id);
                }
            }
        }
        batches
    }
}

/// What a sequence contains after one more element.
pub proof fn lemma_push_contains(s: Seq<VertexId>, x: VertexId, y: VertexId)
    ensures
        s.push(x).contains(y) <==> s.contains(y) || x == y,
{
    let t = s.push(x);
    assert(t[s.len() as int] == x);
    if s.contains(y) {
        let k = choose|k: int| 0 <= k < s.len() && s[k] == y;
        assert(t[k] == y);
    }
    if t.contains(y) {
        let k = choose|k: int| 0 <= k < t.len() && t[k] == y;
        if k < s.len() {
            assert(s[k] == y);
        }
    }
}

/// A vertex stands after its ancestors in the history.
pub proof fn lemma_ancestor_is_earlier(h: Seq<VertexData>, d: VertexId, a: VertexId)
    requires
        valid_history(h),
        descends(h, d, a),
    ensures
        holds(h, d),
        holds(h, a),
        position(h, a) <= position(h, d),
        position(h, a) == position(h, d) ==> a == d,
{
    let path = choose|path: Seq<VertexId>| #[trigger]
        is_path(h, path) && path[0] == d && path.last() == a;
    lemma_path_descends(h, path, path.len() - 1);
    assert(holds(h, path[0]));
    assert(holds(h, path[path.len() - 1]));
    if position(h, a) == position(h, d) {
        assert(vertex_of(h, a).id == a);
        assert(vertex_of(h, d).id == d);
    }
}

/// Along a path the places in the history go down.
proof fn lemma_path_descends(h: Seq<VertexData>, path: Seq<VertexId>, k: int)
    requires
        valid_history(h),
        is_path(h, path),
        0 <= k < path.len(),
    ensures
        position(h, path[k]) <= position(h, path[0]) - k,
    decreases k,
{
    if k > 0 {
        lemma_path_descends(h, path, k - 1);
        assert(links(h, path, k - 1));
        assert(holds(h, path[k - 1]));
        lemma_cited_is_held(h, position(h, path[k - 1]), path[k]);
    }
}

/// The ancestors of a final vertex are final: whoever supports a vertex
/// supports what it descends from.
pub proof fn ancestors_of_final_vertices_are_final(
    h: Seq<VertexData>,
    weights: Seq<Weight>,
    threshold: u128,
    b: VertexId,
    a: VertexId,
)
    requires
        valid_history(h),
        is_final(h, weights, threshold, b),
        descends(h, b, a),
    ensures
        is_final(h, weights, threshold, a),
{
    lemma_support_of_ancestor(h, weights, b, a);
    lemma_ancestor_is_earlier(h, b, a);
}

/// The reports of the detector respect the order of cause and effect. Let
/// `ids` be the vertices that one call of `poll` reports on a store with the
/// history `h`, after `before` had been reported: those that are final and
/// not in `before`, in the order of the history. Then every ancestor of a
/// reported vertex was reported before it, in `before` or earlier in `ids`.
pub proof fn reports_respect_causality(
    h: Seq<VertexData>,
    weights: Seq<Weight>,
    threshold: u128,
    before: Seq<VertexId>,
    ids: Seq<VertexId>,
    i: int,
    a: VertexId,
)
    requires
        valid_history(h),
        forall|id: VertexId|
            ids.contains(id) <==> is_final(h, weights, threshold, id) && !before.contains(id),
        forall|x: int, y: int|
            0 <= x < y < ids.len() ==> position(h, #[trigger] ids[x]) < position(
                h,
                #[trigger] ids[y],
            ),
        0 <= i < ids.len(),
        descends(h, ids[i], a),
    ensures
        before.contains(a) || exists|j: int| 0 <= j <= i && ids[j] == a,
{
    assert(ids.contains(ids[i]));
    ancestors_of_final_vertices_are_final(h, weights, threshold, ids[i], a);
    lemma_ancestor_is_earlier(h, ids[i], a);
    if !before.contains(a) {
        assert(ids.contains(a));
        let j = choose|j: int| 0 <= j < ids.len() && ids[j] == a;
        if j > i {
            assert(position(h, ids[i]) < position(h, ids[j]));
        }
    }
}

/// A vertex keeps its ancestors when one more vertex comes.
proof fn lemma_push_descends(h: Seq<VertexData>, v: VertexData, d: VertexId, a: VertexId)
    requires
        distinct_ids(h),
        !holds(h, v.id),
        descends(h, d, a),
    ensures
        descends(h.push(v), d, a),
{
    let g = h.push(v);
    let path = choose|path: Seq<VertexId>| #[trigger]
        is_path(h, path) && path[0] == d && path.last() == a;
    assert forall|i: int| 0 <= i < path.len() implies holds(g, #[trigger] path[i]) by {
        lemma_push_keeps(h, v, path[i]);
    }
    assert forall|i: int| 0 <= i < path.len() - 1 implies #[trigger] links(g, path, i) by {
        assert(links(h, path, i));
        assert(holds(h, path[i]));
        lemma_push_keeps(h, v, path[i]);
    }
    assert(is_path(g, path));
}

/// What a history with one more vertex says of the history before: it was
/// valid, it lacked the newcomer, and the newcomer was admissible.
proof fn lemma_before_push(h: Seq<VertexData>, v: VertexData)
    requires
        valid_history(h.push(v)),
    ensures
        valid_history(h),
        distinct_ids(h),
        !holds(h, v.id),
        admissible(h, v),
{
    let g = h.push(v);
    assert(g.take(h.len() as int) == h);
    lemma_take_valid(g, h.len() as int);
    lemma_valid(g);
    lemma_valid(h);
    assert(admissible(g.take(h.len() as int), g[h.len() as int]));
    if holds(h, v.id) {
        let i = position(h, v.id);
        assert(g[i] == h[i]);
        assert(g[i].id != g[h.len() as int].id);
    }
}

/// A validator that does not equivocate keeps supporting what it supports
/// when one more vertex comes: its next vertex names its latest.
proof fn lemma_supporter_stays(
    h: Seq<VertexData>,
    v: VertexData,
    validator: ValidatorId,
    b: VertexId,
)
    requires
        valid_history(h.push(v)),
        !is_equivocator(h.push(v), validator),
        supports(h, validator, b),
    ensures
        supports(h.push(v), validator, b),
{
    let g = h.push(v);
    let last = h.len() as int;
    lemma_before_push(h, v);
    lemma_push_latest(h, v, validator);
    let l = latest_of(h, validator)->Some_0;
    lemma_push_descends(h, v, l, b);
    if v.creator == validator {
        assert(!is_equivocator(h, validator)) by {
            if is_equivocator(h, validator) {
                let (x, y) = choose|x: int, y: int|
                    0 <= x < y < h.len() && (#[trigger] h[x]).creator == validator && (
                    #[trigger] h[y]).creator == validator && h[x].sequence_number
                        == h[y].sequence_number;
                assert(g[x] == h[x] && g[y] == h[y]);
            }
        }
        lemma_latest_is_highest(h, validator);
        let at = position(h, l);
        assert(h[at].id == l);
        if v.sequence_number <= h[at].sequence_number {
            lemma_chain(h, at, v.sequence_number as int);
            let j = choose|j: int|
                0 <= j <= at && (#[trigger] h[j]).creator == h[at].creator && h[j].sequence_number
                    == v.sequence_number;
            assert(g[j] == h[j] && g[last] == v);
            assert(g[j].creator == validator && g[last].creator == validator);
            assert(false);
        }
        lemma_own_parent(h, v);
        let p = v.seen_of(v.creator);
        let below = position(h, p);
        assert(h[below].id == p);
        assert(h[below].creator == validator);
        assert(h[below].sequence_number <= h[at].sequence_number);
        if below < at {
            assert(h[below].creator == validator && h[at].creator == validator);
            assert(g[below] == h[below] && g[at] == h[at]);
            assert(false);
        } else if at < below {
            assert(h[at].creator == validator && h[below].creator == validator);
            assert(g[below] == h[below] && g[at] == h[at]);
            assert(false);
        }
        assert(p == l);
        let c = choose|c: int|
            0 <= c < v.parents.len() && (#[trigger] v.parents[c]).validator == v.creator;
        assert(v.cites(l));
        lemma_push_distinct(h, v);
        lemma_push_holds(h, v, v.id);
        lemma_push_keeps(h, v, l);
        let step = seq![v.id, l];
        assert forall|i: int| 0 <= i < step.len() - 1 implies #[trigger] links(g, step, i) by {
            assert(step[0] == v.id && step[1] == l);
        }
        assert(is_path(g, step));
        assert(step[0] == v.id && step.last() == l);
        lemma_descends_transitive(g, v.id, l, b);
    }
}

/// Where no validator with a weight equivocates, a vertex that the store
/// takes leaves no vertex with less support than it had.
pub proof fn support_never_shrinks_without_equivocation(
    h: Seq<VertexData>,
    v: VertexData,
    weights: Seq<Weight>,
    b: VertexId,
)
    requires
        valid_history(h.push(v)),
        forall|k: int|
            0 <= k < weights.len() ==> !is_equivocator(h.push(v), (#[trigger] weights[k]).validator),
    ensures
        support(h.push(v), weights, b) >= support(h, weights, b),
    decreases weights.len(),
{
    if weights.len() > 0 {
        let front = weights.drop_last();
        assert forall|k: int| 0 <= k < front.len() implies !is_equivocator(
            h.push(v),
            (#[trigger] front[k]).validator,
        ) by {
            assert(front[k] == weights[k]);
        }
        support_never_shrinks_without_equivocation(h, v, front, b);
        let w = weights.last().validator;
        assert(weights[weights.len() - 1].validator == w);
        if supports(h, w, b) {
            lemma_supporter_stays(h, v, w, b);
        }
    }
}

/// Where no validator with a weight equivocates, a vertex that is final
/// stays final when the store takes another vertex.
pub proof fn final_stays_final_without_equivocation(
    h: Seq<VertexData>,
    v: VertexData,
    weights: Seq<Weight>,
    threshold: u128,
    b: VertexId,
)
    requires
        valid_history(h.push(v)),
        forall|k: int|
            0 <= k < weights.len() ==> !is_equivocator(h.push(v), (#[trigger] weights[k]).validator),
        is_final(h, weights, threshold, b),
    ensures
        is_final(h.push(v), weights, threshold, b),
{
    support_never_shrinks_without_equivocation(h, v, weights, b);
    lemma_push_holds(h, v, b);
}

} // verus!
