//! The engine: one store with its resolver and its detector, bound to a
//! consensus context.
//!
//! Vertices come in from the network through `submit_vertex`; final batches
//! go out to the execution layer through `poll`. One engine has one writer at
//! a time: every operation runs to its end before the next begins, so no
//! partly inserted vertex is ever seen.

use crate::dag::{holds, position, vertex_of};
use crate::finality::{batch_ids, is_final, FinalityDetector, FinalizedBatch, Weight};
use crate::protocol_state::{DagStore, Error};
use crate::resolver::{settled, submission, DependencyResolver, Outcome, PendingData};
use crate::validator::ConsensusContext;
use crate::vertex::{Vertex, VertexData, VertexId};
use vstd::prelude::*;

verus! {

/// A consensus instance.
pub struct Engine<C: ConsensusContext> {
    context: C,
    store: DagStore,
    resolver: DependencyResolver,
    detector: FinalityDetector,
}

impl<C: ConsensusContext> Engine<C> {
    /// The history of the store.
    pub closed spec fn history(&self) -> Seq<VertexData> {
        self.store@
    }

    /// The vertices that wait in the resolver.
    pub closed spec fn pending(&self) -> Seq<PendingData> {
        self.resolver@
    }

    /// The vertices that were reported final.
    pub closed spec fn finalized(&self) -> Seq<VertexId> {
        self.detector@
    }

    /// The weights of the validators.
    pub closed spec fn weights(&self) -> Seq<Weight> {
        self.detector.weights()
    }

    /// The sum of weights that a final vertex exceeds.
    pub closed spec fn threshold(&self) -> u128 {
        self.detector.threshold()
    }

    /// The number of vertices for which the store has room.
    pub closed spec fn capacity(&self) -> nat {
        self.store.capacity()
    }

    /// The engine is in order: its parts are, and no vertex waits that the
    /// store could take.
    pub closed spec fn wf(&self) -> bool {
        &&& self.store.wf()
        &&& self.detector.wf()
        &&& settled(self.resolver@, self.store@)
    }

    /// An engine that has seen no vertex, with the policy of its context:
    /// the weights of the validators and the threshold that a final vertex
    /// exceeds.
    pub fn new(context: C, weights: Vec<Weight>, threshold: u128) -> (engine: Engine<C>)
        ensures
            engine.wf(),
            engine.history() == Seq::<VertexData>::empty(),
            engine.pending() == Seq::<PendingData>::empty(),
            engine.finalized() == Seq::<VertexId>::empty(),
            engine.weights() == weights@,
            engine.threshold() == threshold,
            engine.capacity() == usize::MAX,
    {
        Engine {
            context,
            store: DagStore::new(),
            resolver: DependencyResolver::new(),
            detector: FinalityDetector::new(weights, threshold),
        }
    }

    /// Takes a vertex from the network, given whether its signature
    /// verifies: it waits, or it is offered to the store, and with it
    /// whatever waited for it.
    pub fn submit_vertex_checked(&mut self, v: Vertex, signature_ok: bool) -> (outcome: Outcome)
        requires
            old(self).wf(),
        ensures
            final(self).wf(),
            final(self).capacity() == old(self).capacity(),
            final(self).finalized() == old(self).finalized(),
            final(self).weights() == old(self).weights(),
            final(self).threshold() == old(self).threshold(),
            submission(
                old(self).history(),
                old(self).pending(),
                old(self).capacity(),
                v@,
                signature_ok,
                outcome,
                final(self).history(),
                final(self).pending(),
            ),
    {
        self.resolver.submit_checked(&mut self.store, v, signature_ok)
    }

    /// Takes a vertex from the network: asks the context whether its
    /// signature verifies, and goes on as `submit_vertex_checked` does with
    /// the answer, whichever it is.
    pub fn submit_vertex(&mut self, v: Vertex) -> (outcome: Outcome)
        requires
            old(self).wf(),
        ensures
            final(self).wf(),
            final(self).capacity() == old(self).capacity(),
            final(self).finalized() == old(self).finalized(),
            final(self).weights() == old(self).weights(),
            final(self).threshold() == old(self).threshold(),
            submission(
                old(self).history(),
                old(self).pending(),
                old(self).capacity(),
                v@,
                false,
                outcome,
                final(self).history(),
                final(self).pending(),
            ) || submission(
                old(self).history(),
                old(self).pending(),
                old(self).capacity(),
                v@,
                true,
                outcome,
                final(self).history(),
                final(self).pending(),
            ),
    {
        self.resolver.submit(&mut self.store, &self.context, v)
    }

    /// Looks a vertex up in the store.
    pub fn get_vertex(&self, id: VertexId) -> (found: Result<Option<Vertex>, Error>)
        requires
            self.wf(),
        ensures
            found matches Ok(answer) && (answer.is_some() <==> holds(self.history(), id)) && (
            answer matches Some(v) ==> v@ == vertex_of(self.history(), id)),
    {
        self.store.get_vertex(id)
    }

    /// Reports the batches that have become final since the last report, in
    /// the order in which the store took their vertices.
    pub fn poll(&mut self) -> (batches: Vec<FinalizedBatch>)
        requires
            old(self).wf(),
        ensures
            final(self).wf(),
            final(self).history() == old(self).history(),
            final(self).pending() == old(self).pending(),
            final(self).capacity() == old(self).capacity(),
            final(self).weights() == old(self).weights(),
            final(self).threshold() == old(self).threshold(),
            final(self).finalized() == old(self).finalized() + batch_ids(batches@),
            forall|id: VertexId|
                batch_ids(batches@).contains(id) <==> is_final(
                    old(self).history(),
                    old(self).weights(),
                    old(self).threshold(),
                    id,
                ) && !old(self).finalized().contains(id),
            forall|i: int, j: int|
                0 <= i < j < batches@.len() ==> position(
                    old(self).history(),
                    (#[trigger] batches@[i]).vertex,
                ) < position(old(self).history(), (#[trigger] batches@[j]).vertex),
            forall|i: int|
                0 <= i < batches@.len() ==> {
                    let v = vertex_of(old(self).history(), (#[trigger] batches@[i]).vertex);
                    batches@[i].creator == v.creator && batches@[i].values@ == v.values
                },
    {
        self.detector.poll(&self.store)
    }

    /// The store, to read.
    pub fn store(&self) -> (store: &DagStore)
        requires
            self.wf(),
        ensures
            store.wf(),
            store@ == self.history(),
            store.capacity() == self.capacity(),
    {
        &self.store
    }

    /// The resolver, to read.
    pub fn resolver(&self) -> (resolver: &DependencyResolver)
        ensures
            resolver@ == self.pending(),
    {
        &self.resolver
    }

    /// The detector, to read.
    pub fn detector(&self) -> (detector: &FinalityDetector)
        requires
            self.wf(),
        ensures
            detector.wf(),
            detector@ == self.finalized(),
            detector.weights() == self.weights(),
            detector.threshold() == self.threshold(),
    {
        &self.detector
    }
}

} // verus!
