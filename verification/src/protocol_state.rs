//! The protocol state: the store of accepted vertices and the indices derived
//! from it.
//!
//! The store is an arena. Vertices stand in the order in which they were
//! accepted and are found by identifier; parents and children are
//! identifiers, never links. A vertex is accepted only when every vertex that
//! it names is already there, so the graph cannot have a cycle.

use crate::dag::{
    admissible, all_present, children_of, cited_before, conflicts, holds, is_equivocator,
    latest_of, lemma_admissible_agrees, lemma_citations_distinct, lemma_extension_agrees,
    lemma_missing_members, lemma_missing_none, lemma_no_children, lemma_position,
    lemma_push_children, lemma_push_distinct, lemma_push_equivocator, lemma_push_holds,
    lemma_push_keeps, lemma_push_latest, lemma_push_valid, lemma_valid, misattributed, missing_of,
    position, valid_history, vertex_of,
};
use crate::validator::{verdict, ConsensusContext, ValidationError, Validator};
use crate::vertex::{ValidatorId, Vertex, VertexData, VertexId};
use std::collections::HashMap;
use std::collections::HashSet;
use vstd::prelude::*;

verus! {

broadcast use vstd::std_specs::hash::group_hash_axioms;

/// Why the store did not do what was asked.
#[derive(Clone, Debug)]
pub enum Error {
    /// The panorama names these vertices, which the store lacks. The vertex
    /// can be offered again once they have arrived.
    MissingDependency(Vec<VertexId>),
    /// The vertex breaks the protocol and will never be accepted.
    InvalidVertex(ValidationError),
    /// The store has no room left. Nothing was changed.
    StorageFault,
}

/// The store of accepted vertices.
pub struct DagStore {
    arena: Vec<Vertex>,
    index: HashMap<u64, usize>,
    latest: HashMap<u64, VertexId>,
    children: Vec<Vec<VertexId>>,
    flagged: HashSet<u64>,
    limit: usize,
}

impl View for DagStore {
    type V = Seq<VertexData>;

    /// The history: the accepted vertices in the order in which they came.
    closed spec fn view(&self) -> Seq<VertexData> {
        Seq::new(self.arena@.len(), |i: int| self.arena@[i]@)
    }
}

impl DagStore {
    /// The number of vertices for which the store has room.
    pub closed spec fn capacity(&self) -> nat {
        self.limit as nat
    }

    /// The index finds each vertex at its place in the arena, and nothing
    /// else.
    spec fn located(&self) -> bool {
        &&& forall|k: u64| #[trigger]
            self.index@.contains_key(k) ==> self.index@[k] < self.arena@.len()
                && self.arena@[self.index@[k] as int]@.id == VertexId(k)
        &&& forall|i: int|
            0 <= i < self.arena@.len() ==> self.index@.contains_key(
                (#[trigger] self.arena@[i])@.id.0,
            ) && self.index@[self.arena@[i]@.id.0] == i
    }

    /// The derived indices agree with the history.
    spec fn indexed(&self) -> bool {
        &&& self.located()
        &&& forall|w: u64|
            #![trigger self.latest@.contains_key(w)]
            #![trigger latest_of(self@, ValidatorId(w))]
            (if self.latest@.contains_key(w) {
                Some(self.latest@[w])
            } else {
                None
            }) == latest_of(self@, ValidatorId(w))
        &&& self.children@.len() == self.arena@.len()
        &&& forall|i: int|
            0 <= i < self.children@.len() ==> (#[trigger] self.children@[i])@ == children_of(
                self@,
                self.arena@[i]@.id,
            )
        &&& forall|w: u64|
            #![trigger self.flagged@.contains(w)]
            #![trigger is_equivocator(self@, ValidatorId(w))]
            self.flagged@.contains(w) <==> is_equivocator(self@, ValidatorId(w))
    }

    /// The store is in order: its history is one that a store can have, it
    /// is within its capacity, and its indices agree with the history.
    pub closed spec fn wf(&self) -> bool {
        &&& valid_history(self@)
        &&& self@.len() <= self.capacity()
        &&& self.indexed()
    }

    /// What a store in order offers: a history that a store can have, within
    /// its capacity.
    pub proof fn lemma_wf(&self)
        requires
            self.wf(),
        ensures
            valid_history(self@),
            self@.len() <= self.capacity(),
    {
    }

    /// An empty store without a limit of its own.
    pub fn new() -> (store: DagStore)
        ensures
            store.wf(),
            store@ == Seq::<VertexData>::empty(),
            store.capacity() == usize::MAX,
    {
        DagStore::with_capacity(usize::MAX)
    }

    /// An empty store with room for `limit` vertices.
    pub fn with_capacity(limit: usize) -> (store: DagStore)
        ensures
            store.wf(),
            store@ == Seq::<VertexData>::empty(),
            store.capacity() == limit,
    {
        let store = DagStore {
            arena: Vec::new(),
            index: HashMap::new(),
            latest: HashMap::new(),
            children: Vec::new(),
            flagged: HashSet::new(),
            limit,
        };
        assert(store@ == Seq::<VertexData>::empty());
        assert(valid_history(store@)) by {
            reveal(valid_history);
        }
        assert forall|w: u64| !is_equivocator(store@, ValidatorId(w)) by {}
        store
    }

    /// The number of vertices in the store.
    pub fn len(&self) -> (n: usize)
        ensures
            n == self@.len(),
    {
        self.arena.len()
    }

    /// The vertex that came as number `i`, counting from 0.
    pub fn nth(&self, i: usize) -> (v: &Vertex)
        requires
            i < self@.len(),
        ensures
            v@ == self@[i as int],
    {
        &self.arena[i]
    }

    /// Where the vertex with this identifier stands, if the store has it.
    fn slot(&self, id: VertexId) -> (found: Option<usize>)
        requires
            self.wf(),
        ensures
            found.is_some() <==> holds(self@, id),
            found matches Some(i) ==> i == position(self@, id) && i < self@.len()
                && self.arena@[i as int]@ == vertex_of(self@, id),
    {
        let found = self.index.get(&id.0);
        match found {
            Some(i) => {
                proof {
                    reveal(valid_history);
                    assert(self.index@.contains_key(id.0));
                    assert(self@[*i as int].id == id);
                    lemma_position(self@, *i as int);
                }
                Some(*i)
            },
            None => {
                proof {
                    if holds(self@, id) {
                        let p = position(self@, id);
                        assert(self@[p].id == id);
                        assert(self.index@.contains_key(self.arena@[p]@.id.0));
                    }
                }
                None
            },
        }
    }

    /// The place in the order of arrival of the vertex with this identifier,
    /// where the store has it.
    pub fn position(&self, id: VertexId) -> (found: Option<usize>)
        requires
            self.wf(),
        ensures
            found.is_some() <==> holds(self@, id),
            found matches Some(i) ==> i == position(self@, id) && i < self@.len() && self@[i as int].id
                == id,
    {
        let found = self.slot(id);
        proof {
            if holds(self@, id) {
                assert(vertex_of(self@, id).id == id);
            }
        }
        found
    }

    /// The vertices that name the vertex at place `i`, in the order in which
    /// they came.
    pub fn children_at(&self, i: usize) -> (list: &Vec<VertexId>)
        requires
            self.wf(),
            i < self@.len(),
        ensures
            list@ == children_of(self@, self@[i as int].id),
    {
        &self.children[i]
    }

    /// The vertices that name the vertex with this identifier, in the order
    /// in which they came. A vertex that the store lacks has none.
    pub fn children(&self, id: VertexId) -> (list: Vec<VertexId>)
        requires
            self.wf(),
        ensures
            list@ == children_of(self@, id),
    {
        match self.slot(id) {
            Some(i) => {
                let list = self.children[i].clone();
                assert(list@ == self.children@[i as int]@);
                assert(self@[i as int].id == id) by {
                    assert(vertex_of(self@, id).id == id);
                }
                list
            },
            None => {
                proof {
                    lemma_no_children(self@, id);
                }
                Vec::new()
            },
        }
    }

    /// Whether the store has the vertex with this identifier.
    pub fn contains(&self, id: VertexId) -> (found: bool)
        requires
            self.wf(),
        ensures
            found == holds(self@, id),
    {
        self.slot(id).is_some()
    }

    /// The vertex with this identifier, where the store has it.
    pub fn vertex(&self, id: VertexId) -> (found: Option<&Vertex>)
        requires
            self.wf(),
        ensures
            found.is_some() <==> holds(self@, id),
            found matches Some(v) ==> v@ == vertex_of(self@, id),
    {
        match self.slot(id) {
            Some(i) => Some(&self.arena[i]),
            None => None,
        }
    }

    /// Looks a vertex up. An unknown identifier gives `None`, not an error:
    /// a store in memory has no fault to report on a read.
    pub fn get_vertex(&self, id: VertexId) -> (found: Result<Option<Vertex>, Error>)
        requires
            self.wf(),
        ensures
            found matches Ok(answer) && (answer.is_some() <==> holds(self@, id)) && (answer matches Some(
                v,
            ) ==> v@ == vertex_of(self@, id)),
    {
        match self.slot(id) {
            Some(i) => Ok(Some(self.arena[i].clone())),
            None => Ok(None),
        }
    }

    /// The vertex of `validator` that the store took last.
    pub fn latest(&self, validator: ValidatorId) -> (found: Option<VertexId>)
        requires
            self.wf(),
        ensures
            found == latest_of(self@, validator),
    {
        let found = self.latest.get(&validator.0);
        proof {
            assert(ValidatorId(validator.0) == validator);
        }
        match found {
            Some(id) => Some(*id),
            None => None,
        }
    }

    /// Whether `validator` has been seen to make two vertices with one
    /// sequence number.
    pub fn is_equivocator(&self, validator: ValidatorId) -> (flagged: bool)
        requires
            self.wf(),
        ensures
            flagged == is_equivocator(self@, validator),
    {
        proof {
            assert(ValidatorId(validator.0) == validator);
        }
        self.flagged.contains(&validator.0)
    }

    /// The vertices that the panorama of `v` names and the store lacks, in the
    /// order of the panorama.
    pub fn missing_dependencies(&self, v: &Vertex) -> (missing: Vec<VertexId>)
        requires
            self.wf(),
        ensures
            missing@ == missing_of(self@, v@.parents),
    {
        let parents = v.parents();
        let mut missing: Vec<VertexId> = Vec::new();
        let mut j: usize = 0;
        while j < parents.len()
            invariant
                self.wf(),
                j <= parents.len(),
                missing@ == missing_of(self@, parents@.take(j as int)),
            decreases parents.len() - j,
        {
            assert(parents@.take(j + 1).drop_last() == parents@.take(j as int));
            if !self.contains(parents[j].vertex) {
                missing.push(parents[j].vertex);
            }
            j += 1;
        }
        assert(parents@.take(j as int) == parents@);
        missing
    }

    /// Takes `v` into the arena and brings the indices up to date.
    fn insert(&mut self, v: Vertex, equivocates: bool) -> (id: VertexId)
        requires
            old(self).wf(),
            !holds(old(self)@, v@.id),
            all_present(old(self)@, v@),
            !misattributed(old(self)@, v@),
            admissible(old(self)@, v@),
            equivocates == conflicts(old(self)@, v@),
            old(self)@.len() < old(self).capacity(),
        ensures
            final(self).wf(),
            final(self)@ == old(self)@.push(v@),
            final(self).capacity() == old(self).capacity(),
            id == v@.id,
    {
        proof {
            use_type_invariant(&v);
        }
        let ghost before = *self;
        let ghost h = self@;
        let ghost vd = v@;
        let id = v.id();
        let creator = v.creator();
        let place: usize = self.arena.len();
        let n: usize = v.parents().len();
        let mut j: usize = 0;
        while j < n
            invariant
                j <= n,
                n == vd.parents.len(),
                v@ == vd,
                id == vd.id,
                before.wf(),
                h == before@,
                self.arena == before.arena,
                self.index == before.index,
                self.latest == before.latest,
                self.flagged == before.flagged,
                self.limit == before.limit,
                vd.well_formed(),
                all_present(h, vd),
                !misattributed(h, vd),
                self.children@.len() == h.len(),
                forall|i: int|
                    0 <= i < h.len() ==> (#[trigger] self.children@[i])@ == if cited_before(
                        vd.parents,
                        j as int,
                        h[i].id,
                    ) {
                        children_of(h, h[i].id).push(id)
                    } else {
                        children_of(h, h[i].id)
                    },
            decreases n - j,
        {
            let named = v.parents()[j].vertex;
            let ghost p = position(h, named);
            proof {
                assert(holds(h, vd.parents[j as int].vertex));
                assert(h[p].id == named);
                assert(before.index@.contains_key(before.arena@[p]@.id.0));
                assert forall|k: int| 0 <= k < j implies (#[trigger] vd.parents[k]).vertex
                    != named by {
                    lemma_citations_distinct(h, vd, k, j as int);
                }
                assert(!cited_before(vd.parents, j as int, named));
            }
            match self.index.get(&named.0) {
                Some(at) => {
                    let at: usize = *at;
                    assert(at == p);
                    let ghost lists = self.children@;
                    self.children[at].push(id);
                    proof {
                        assert forall|i: int| 0 <= i < h.len() implies (
                        #[trigger] self.children@[i])@ == if cited_before(
                            vd.parents,
                            j + 1,
                            h[i].id,
                        ) {
                            children_of(h, h[i].id).push(id)
                        } else {
                            children_of(h, h[i].id)
                        } by {
                            if i == p {
                                assert(vd.parents[j as int].vertex == h[i].id);
                            } else {
                                assert(self.children@[i] == lists[i]);
                                before.lemma_wf();
                                lemma_valid(h);
                                lemma_position(h, i);
                                if cited_before(vd.parents, j + 1, h[i].id) {
                                    let k = choose|k: int|
                                        0 <= k < j + 1 && k < vd.parents.len() && (
                                        #[trigger] vd.parents[k]).vertex == h[i].id;
                                    assert(k != j);
                                }
                            }
                        }
                    }
                },
                None => {
                    assert(false);
                },
            }
            j += 1;
        }
        self.children.push(Vec::new());
        self.index.insert(id.0, place);
        self.latest.insert(creator.0, id);
        if equivocates {
            self.flagged.insert(creator.0);
        }
        self.arena.push(v);
        proof {
            let g = h.push(vd);
            assert(self@ == g);
            before.lemma_wf();
            lemma_valid(h);
            lemma_push_valid(h, vd);
            assert(self.located()) by {
                assert forall|i: int| 0 <= i < self.arena@.len() implies self.index@.contains_key(
                    (#[trigger] self.arena@[i])@.id.0,
                ) && self.index@[self.arena@[i]@.id.0] == i by {
                    if i < h.len() {
                        assert(self.arena@[i] == before.arena@[i]);
                        assert(h[i].id != id);
                    }
                }
            }
            assert forall|w: u64|
                (if self.latest@.contains_key(w) {
                    Some(self.latest@[w])
                } else {
                    None
                }) == #[trigger] latest_of(self@, ValidatorId(w)) by {
                lemma_push_latest(h, vd, ValidatorId(w));
            }
            assert forall|i: int| 0 <= i < self.children@.len() implies (
            #[trigger] self.children@[i])@ == children_of(self@, self.arena@[i]@.id) by {
                if i < h.len() {
                    assert(self.arena@[i] == before.arena@[i]);
                    lemma_push_children(h, vd, h[i].id);
                    if cited_before(vd.parents, n as int, h[i].id) {
                        let k = choose|k: int|
                            0 <= k < n && k < vd.parents.len() && (#[trigger] vd.parents[k]).vertex
                                == h[i].id;
                    }
                    if vd.cites(h[i].id) {
                        let k = choose|k: int|
                            0 <= k < vd.parents.len() && (#[trigger] vd.parents[k]).vertex
                                == h[i].id;
                    }
                } else {
                    lemma_push_children(h, vd, id);
                    lemma_no_children(h, id);
                    if vd.cites(id) {
                        let k = choose|k: int|
                            0 <= k < vd.parents.len() && (#[trigger] vd.parents[k]).vertex == id;
                        assert(holds(h, vd.parents[k].vertex));
                    }
                }
            }
            assert forall|w: u64|
                self.flagged@.contains(w) <==> #[trigger] is_equivocator(self@, ValidatorId(w)) by {
                lemma_push_equivocator(h, vd, ValidatorId(w));
            }
        }
        id
    }

    /// Offers `v` to the store, given whether its signature verifies.
    ///
    /// A vertex whose panorama names a vertex that the store lacks is refused
    /// with the list of what is lacking. Otherwise a vertex that is not valid
    /// is refused for good; that its creator equivocates is no such reason.
    /// A vertex that the store has already is left alone: `None`. A new one is
    /// taken, `Some` with its identifier, unless the store is full. Only a
    /// vertex that is taken changes the store.
    pub fn add_vertex_checked(&mut self, v: Vertex, signature_ok: bool) -> (result: Result<
        Option<VertexId>,
        Error,
    >)
        requires
            old(self).wf(),
        ensures
            final(self).wf(),
            final(self).capacity() == old(self).capacity(),
            final(self)@ == history_after(old(self)@, old(self).capacity(), v@, signature_ok),
            answers(result, admission(old(self)@, old(self).capacity(), v@, signature_ok), v@),
            result matches Err(Error::MissingDependency(lacking)) ==> lacking@ == missing_of(
                old(self)@,
                v@.parents,
            ),
    {
        let lacking = self.missing_dependencies(&v);
        proof {
            lemma_missing_none(self@, v@.parents);
        }
        if lacking.len() > 0 {
            return Err(Error::MissingDependency(lacking));
        }
        let equivocates = match Validator::check(&v, self, signature_ok) {
            Ok(()) => false,
            Err(ValidationError::Equivocation) => true,
            Err(reason) => {
                return Err(Error::InvalidVertex(reason));
            },
        };
        if self.contains(v.id()) {
            return Ok(None);
        }
        if self.arena.len() >= self.limit {
            return Err(Error::StorageFault);
        }
        proof {
            reveal(admissible);
        }
        let id = self.insert(v, equivocates);
        Ok(Some(id))
    }

    /// Offers `v` to the store, asking the context whether the signature
    /// verifies. The outcome is that of `add_vertex_checked` for the
    /// context's answer, whichever it is.
    pub fn add_vertex<C: ConsensusContext>(&mut self, v: Vertex, context: &C) -> (result: Result<
        Option<VertexId>,
        Error,
    >)
        requires
            old(self).wf(),
        ensures
            final(self).wf(),
            final(self).capacity() == old(self).capacity(),
            exists|signature_ok: bool|
                {
                    &&& final(self)@ == #[trigger] history_after(
                        old(self)@,
                        old(self).capacity(),
                        v@,
                        signature_ok,
                    )
                    &&& answers(
                        result,
                        admission(old(self)@, old(self).capacity(), v@, signature_ok),
                        v@,
                    )
                },
            result matches Err(Error::MissingDependency(lacking)) ==> lacking@ == missing_of(
                old(self)@,
                v@.parents,
            ),
            all_present(old(self)@, v@) <==> !(result is Err && result->Err_0 is MissingDependency),
            result matches Ok(Some(id)) ==> id == v@.id && !holds(old(self)@, v@.id) && final(self)@
                == old(self)@.push(v@),
            !(result matches Ok(Some(_))) ==> final(self)@ == old(self)@,
            result matches Ok(None) ==> holds(old(self)@, v@.id),
    {
        let signature_ok = context.verify_signature(v.creator(), v.id(), v.signature());
        let ghost h = self@;
        let ghost vd = v@;
        let result = self.add_vertex_checked(v, signature_ok);
        assert(self@ == history_after(h, self.capacity(), vd, signature_ok));
        result
    }
}

/// What becomes of a vertex that is offered to a store.
pub enum Admission {
    /// The panorama names a vertex that the store lacks.
    Missing,
    /// The vertex is not valid, for this reason.
    Invalid(ValidationError),
    /// The store has the vertex already.
    Known,
    /// The vertex is new and valid, and the store is full.
    Full,
    /// The vertex is new and valid, and the store takes it.
    Taken,
}

/// What becomes of `v` when it is offered to a store with the history `h` and
/// room for `capacity` vertices, given whether its signature verifies.
pub open spec fn admission(
    h: Seq<VertexData>,
    capacity: nat,
    v: VertexData,
    signature_ok: bool,
) -> Admission {
    if !all_present(h, v) {
        Admission::Missing
    } else if verdict(h, v, signature_ok) is Err && verdict(h, v, signature_ok)->Err_0
        != ValidationError::Equivocation {
        Admission::Invalid(verdict(h, v, signature_ok)->Err_0)
    } else if holds(h, v.id) {
        Admission::Known
    } else if h.len() >= capacity {
        Admission::Full
    } else {
        Admission::Taken
    }
}

/// The store's answer says what became of the vertex `v`.
pub open spec fn answers(result: Result<Option<VertexId>, Error>, a: Admission, v: VertexData) -> bool {
    match a {
        Admission::Missing => result is Err && result->Err_0 is MissingDependency,
        Admission::Invalid(reason) => result is Err && result->Err_0 is InvalidVertex
            && result->Err_0->InvalidVertex_0 == reason,
        Admission::Known => result == Ok::<Option<VertexId>, Error>(None),
        Admission::Full => result is Err && result->Err_0 is StorageFault,
        Admission::Taken => result == Ok::<Option<VertexId>, Error>(Some(v.id)),
    }
}

/// The history of the store after `v` was offered: longer by `v` if it was
/// taken, and unchanged otherwise.
pub open spec fn history_after(
    h: Seq<VertexData>,
    capacity: nat,
    v: VertexData,
    signature_ok: bool,
) -> Seq<VertexData> {
    if admission(h, capacity, v, signature_ok) is Taken {
        h.push(v)
    } else {
        h
    }
}

/// What a refusal for missing dependencies reports is exactly what the vertex
/// names and the store lacks.
pub proof fn missing_are_named_and_absent(h: Seq<VertexData>, v: VertexData, id: VertexId)
    ensures
        missing_of(h, v.parents).contains(id) <==> v.cites(id) && !holds(h, id),
{
    lemma_missing_members(h, v.parents, id);
    if v.cites(id) {
        let j = choose|j: int| 0 <= j < v.parents.len() && (#[trigger] v.parents[j]).vertex == id;
        assert(cited_before(v.parents, v.parents.len() as int, id));
    }
}

/// A vertex that the store takes is found under its identifier from then
/// on, as it was offered.
pub proof fn taken_vertex_is_found(
    h: Seq<VertexData>,
    capacity: nat,
    v: VertexData,
    signature_ok: bool,
)
    requires
        valid_history(h),
        admission(h, capacity, v, signature_ok) is Taken,
    ensures
        holds(history_after(h, capacity, v, signature_ok), v.id),
        vertex_of(history_after(h, capacity, v, signature_ok), v.id) == v,
{
    lemma_valid(h);
    lemma_push_distinct(h, v);
    lemma_push_holds(h, v, v.id);
}

/// Whatever is offered to the store, a vertex that the store holds stays
/// found under its identifier, unchanged.
pub proof fn held_vertex_stays_found(
    h: Seq<VertexData>,
    capacity: nat,
    offered: VertexData,
    signature_ok: bool,
    id: VertexId,
)
    requires
        valid_history(h),
        holds(h, id),
    ensures
        holds(history_after(h, capacity, offered, signature_ok), id),
        vertex_of(history_after(h, capacity, offered, signature_ok), id) == vertex_of(h, id),
{
    lemma_valid(h);
    if admission(h, capacity, offered, signature_ok) is Taken {
        lemma_push_keeps(h, offered, id);
    }
}

/// Every offer leaves the store with a history that a store can have.
pub proof fn offers_keep_the_history_valid(
    h: Seq<VertexData>,
    capacity: nat,
    v: VertexData,
    signature_ok: bool,
)
    requires
        valid_history(h),
        v.well_formed(),
    ensures
        valid_history(history_after(h, capacity, v, signature_ok)),
{
    if admission(h, capacity, v, signature_ok) is Taken {
        reveal(admissible);
        lemma_push_valid(h, v);
    }
}

/// A vertex that was taken and is offered again changes nothing, whatever
/// the context says of its signature then: the history, and with it every
/// index derived from it, stays as it is. If the signature verifies again,
/// the store answers that it knows the vertex.
pub proof fn second_offer_changes_nothing(
    h: Seq<VertexData>,
    capacity: nat,
    v: VertexData,
    first_ok: bool,
    again_ok: bool,
)
    requires
        valid_history(h),
        admission(h, capacity, v, first_ok) is Taken,
    ensures
        history_after(history_after(h, capacity, v, first_ok), capacity, v, again_ok)
            == history_after(h, capacity, v, first_ok),
        again_ok ==> admission(history_after(h, capacity, v, first_ok), capacity, v, again_ok)
            is Known,
{
    let g = h.push(v);
    lemma_valid(h);
    lemma_push_holds(h, v, v.id);
    if again_ok {
        assert(admissible(h, v)) by {
            reveal(admissible);
        }
        assert forall|id: VertexId| #[trigger] holds(h, id) implies holds(g, id) && vertex_of(g, id)
            == vertex_of(h, id) by {
            lemma_push_keeps(h, v, id);
        }
        lemma_extension_agrees(h, g, v);
        lemma_admissible_agrees(h, g, v);
        reveal(admissible);
    }
}

/// A vertex whose creator already has another vertex at the same sequence
/// number is taken like any other, and from then on the creator is flagged as
/// an equivocator. Both vertices are found under their identifiers.
pub proof fn equivocating_vertex_is_taken(
    h: Seq<VertexData>,
    capacity: nat,
    v: VertexData,
    other: VertexId,
)
    requires
        valid_history(h),
        admissible(h, v),
        !holds(h, v.id),
        h.len() < capacity,
        holds(h, other),
        vertex_of(h, other).creator == v.creator,
        vertex_of(h, other).sequence_number == v.sequence_number,
    ensures
        admission(h, capacity, v, true) is Taken,
        is_equivocator(history_after(h, capacity, v, true), v.creator),
        holds(history_after(h, capacity, v, true), v.id),
        vertex_of(history_after(h, capacity, v, true), v.id) == v,
        holds(history_after(h, capacity, v, true), other),
        vertex_of(history_after(h, capacity, v, true), other) == vertex_of(h, other),
{
    reveal(admissible);
    lemma_valid(h);
    let i = position(h, other);
    assert(h[i].id == other);
    assert(conflicts(h, v));
    lemma_push_equivocator(h, v, v.creator);
    lemma_push_distinct(h, v);
    lemma_push_holds(h, v, v.id);
    lemma_push_keeps(h, v, other);
}

} // verus!
