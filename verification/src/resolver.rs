//! The dependency resolver: vertices that arrived before the vertices that
//! they name wait here, and enter the store as soon as those have arrived.
//!
//! The signature of a vertex is checked once, when the vertex comes. The
//! answer waits with the vertex and is handed to the store when the vertex
//! is offered to it.

use crate::dag::{all_present, holds, lemma_missing_none, lemma_push_holds, missing_of};
use crate::protocol_state::{admission, answers, history_after, Admission, DagStore, Error};
use crate::validator::ConsensusContext;
use crate::vertex::{Citation, Vertex, VertexData, VertexId};
use vstd::prelude::*;

verus! {

/// A vertex that waits, the vertices that it waits for, and whether its
/// signature verified when it came.
pub struct PendingData {
    pub vertex: VertexData,
    pub missing: Seq<VertexId>,
    pub signature_ok: bool,
}

impl PendingData {
    /// What is offered to the store once the vertex has waited long enough:
    /// the vertex, and whether its signature verified.
    pub open spec fn offer(self) -> (VertexData, bool) {
        (self.vertex, self.signature_ok)
    }
}

struct Pending {
    vertex: Vertex,
    missing: Vec<VertexId>,
    signature_ok: bool,
}

impl View for Pending {
    type V = PendingData;

    closed spec fn view(&self) -> PendingData {
        PendingData {
            vertex: self.vertex@,
            missing: self.missing@,
            signature_ok: self.signature_ok,
        }
    }
}

/// `s` without every occurrence of `id`.
pub open spec fn without(s: Seq<VertexId>, id: VertexId) -> Seq<VertexId>
    decreases s.len(),
{
    if s.len() == 0 {
        Seq::empty()
    } else {
        let rest = without(s.drop_last(), id);
        if s.last() == id {
            rest
        } else {
            rest.push(s.last())
        }
    }
}

/// Whether this offer is among those that wait.
pub open spec fn waits(p: Seq<PendingData>, offer: (VertexData, bool)) -> bool {
    exists|k: int| 0 <= k < p.len() && (#[trigger] p[k]).offer() == offer
}

/// No vertex waits twice.
pub open spec fn waits_once(p: Seq<PendingData>) -> bool {
    forall|k: int, l: int|
        0 <= k < l < p.len() ==> (#[trigger] p[k]).vertex.id != (#[trigger] p[l]).vertex.id
}

/// The buffer is settled against the history `h`: each vertex waits once, for
/// exactly those vertices that it names and `h` lacks, and there is at least
/// one of them.
pub open spec fn settled(p: Seq<PendingData>, h: Seq<VertexData>) -> bool {
    &&& waits_once(p)
    &&& forall|k: int|
        0 <= k < p.len() ==> (#[trigger] p[k]).missing == missing_of(h, p[k].vertex.parents)
            && p[k].missing.len() > 0
}

/// Whether there is a report on the vertex with this identifier.
pub open spec fn reported(reports: Seq<Released>, id: VertexId) -> bool {
    exists|r: int| 0 <= r < reports.len() && (#[trigger] reports[r]).id == id
}

/// The history `g` is `h` and what came after.
pub open spec fn extends(g: Seq<VertexData>, h: Seq<VertexData>) -> bool {
    h.len() <= g.len() && g.take(h.len() as int) == h
}

/// The buffer after `entry` was put into it: in the place of the entry for
/// the same vertex if there was one, and else at the end.
pub open spec fn buffered(p: Seq<PendingData>, entry: PendingData) -> Seq<PendingData> {
    if exists|k: int| 0 <= k < p.len() && (#[trigger] p[k]).vertex.id == entry.vertex.id {
        p.update(
            choose|k: int| 0 <= k < p.len() && (#[trigger] p[k]).vertex.id == entry.vertex.id,
            entry,
        )
    } else {
        p.push(entry)
    }
}

/// What became of a vertex that had waited and was offered to the store. A
/// vertex that the store did not take has left the buffer all the same.
#[derive(Debug)]
pub struct Released {
    /// The vertex.
    pub id: VertexId,
    /// What the store answered: `Ok(Some(..))` if it took the vertex.
    pub result: Result<Option<VertexId>, Error>,
}

/// What became of a vertex that was submitted.
#[derive(Debug)]
pub enum Outcome {
    /// The store took the vertex. `released` says what became of the vertices
    /// that had waited and were offered to the store in turn.
    Inserted { id: VertexId, released: Vec<Released> },
    /// The store has the vertex already.
    Duplicate(VertexId),
    /// The vertex waits for these vertices.
    Pending(Vec<VertexId>),
    /// The store refused the vertex.
    Rejected(Error),
}

/// A report tells the truth: it is about a vertex that waited, which was
/// offered to the store at some moment of the cascade, when the store had all
/// that the vertex names; and its result is the store's answer at that
/// moment, for the vertex and for what was known of its signature.
pub open spec fn well_reported(
    report: Released,
    waited: Seq<PendingData>,
    capacity: nat,
    before: Seq<VertexData>,
    after: Seq<VertexData>,
) -> bool {
    exists|v: VertexData, signature_ok: bool, moment: Seq<VertexData>|
        {
            &&& waits(waited, (v, signature_ok))
            &&& v.id == report.id
            &&& extends(moment, before)
            &&& all_present(moment, v)
            &&& extends(after, #[trigger] history_after(moment, capacity, v, signature_ok))
            &&& answers(report.result, admission(moment, capacity, v, signature_ok), v)
        }
}

/// What a cascade does: the store with the history `h0` and the buffer `b0`
/// become the store with the history `h1` and the buffer `b1`, with these
/// reports. The history grows by vertices that waited with a signature that
/// verified. Each vertex that waited still waits or has a report, and nothing
/// else waits. Each report tells the truth.
pub open spec fn cascaded(
    h0: Seq<VertexData>,
    b0: Seq<PendingData>,
    capacity: nat,
    reports: Seq<Released>,
    h1: Seq<VertexData>,
    b1: Seq<PendingData>,
) -> bool {
    &&& extends(h1, h0)
    &&& forall|i: int| h0.len() <= i < h1.len() ==> waits(b0, (#[trigger] h1[i], true))
    &&& forall|k: int| 0 <= k < b1.len() ==> waits(b0, (#[trigger] b1[k]).offer())
    &&& forall|l: int|
        0 <= l < b0.len() ==> waits(b1, (#[trigger] b0[l]).offer()) || reported(
            reports,
            b0[l].vertex.id,
        )
    &&& forall|r: int|
        0 <= r < reports.len() ==> well_reported(#[trigger] reports[r], b0, capacity, h0, h1)
}

/// What a submission does: `v` is submitted, with what is known of its
/// signature, to the store with the history `h0` and room for `capacity`
/// vertices, and to the buffer `b0`; they become `h1` and `b1`, with this
/// outcome.
///
/// A vertex that names a vertex which the store lacks waits: the store stays
/// as it is, and the buffer has the vertex with what it waits for. A vertex
/// that the store refuses or knows changes nothing. A vertex that the store
/// takes stands right after what the store had, and a cascade follows.
pub open spec fn submission(
    h0: Seq<VertexData>,
    b0: Seq<PendingData>,
    capacity: nat,
    v: VertexData,
    signature_ok: bool,
    outcome: Outcome,
    h1: Seq<VertexData>,
    b1: Seq<PendingData>,
) -> bool {
    match admission(h0, capacity, v, signature_ok) {
        Admission::Missing => {
            &&& outcome matches Outcome::Pending(lacking)
            &&& lacking@ == missing_of(h0, v.parents)
            &&& h1 == h0
            &&& b1 == buffered(b0, PendingData { vertex: v, missing: lacking@, signature_ok })
        },
        Admission::Invalid(reason) => {
            &&& outcome matches Outcome::Rejected(error)
            &&& error matches Error::InvalidVertex(why)
            &&& why == reason
            &&& h1 == h0
            &&& b1 == b0
        },
        Admission::Known => {
            &&& outcome matches Outcome::Duplicate(id)
            &&& id == v.id
            &&& h1 == h0
            &&& b1 == b0
        },
        Admission::Full => {
            &&& outcome matches Outcome::Rejected(error)
            &&& error is StorageFault
            &&& h1 == h0
            &&& b1 == b0
        },
        Admission::Taken => {
            &&& outcome matches Outcome::Inserted { id, released }
            &&& id == v.id
            &&& cascaded(h0.push(v), b0, capacity, released@, h1, b1)
        },
    }
}

/// Once `v` has come, what is missing is what was missing before, without
/// `v`.
pub proof fn lemma_missing_after(h: Seq<VertexData>, v: VertexData, parents: Seq<Citation>)
    ensures
        missing_of(h.push(v), parents) == without(missing_of(h, parents), v.id),
    decreases parents.len(),
{
    if parents.len() > 0 {
        let front = parents.drop_last();
        lemma_missing_after(h, v, front);
        lemma_push_holds(h, v, parents.last().vertex);
        let rest = missing_of(h, front);
        if !holds(h, parents.last().vertex) {
            assert(rest.push(parents.last().vertex).drop_last() == rest);
        }
    }
}

/// What a longer history holds of what a vertex names.
pub proof fn lemma_present_stays(h: Seq<VertexData>, u: VertexData, v: VertexData)
    requires
        all_present(h, v),
    ensures
        all_present(h.push(u), v),
{
    assert forall|j: int| 0 <= j < v.parents.len() implies holds(
        h.push(u),
        (#[trigger] v.parents[j]).vertex,
    ) by {
        lemma_push_holds(h, u, v.parents[j].vertex);
    }
}

/// A history that extends an extension extends what that extended.
pub proof fn lemma_extends_transitive(a: Seq<VertexData>, b: Seq<VertexData>, c: Seq<VertexData>)
    requires
        extends(a, b),
        extends(b, c),
    ensures
        extends(a, c),
{
    assert forall|i: int| 0 <= i < c.len() implies a[i] == c[i] by {
        assert(a[i] == a.take(b.len() as int)[i]);
        assert(b[i] == b.take(c.len() as int)[i]);
    }
    assert(a.take(c.len() as int) =~= c);
}

/// Whether this offer is among those of `r`.
spec fn listed(r: Seq<Pending>, offer: (VertexData, bool)) -> bool {
    exists|i: int| 0 <= i < r.len() && (#[trigger] r[i])@.offer() == offer
}

/// A report tells the truth, about a vertex that waited or was given.
spec fn drained(
    report: Released,
    waited: Seq<PendingData>,
    given: Seq<Pending>,
    capacity: nat,
    before: Seq<VertexData>,
    after: Seq<VertexData>,
) -> bool {
    exists|v: VertexData, signature_ok: bool, moment: Seq<VertexData>|
        {
            &&& waits(waited, (v, signature_ok)) || listed(given, (v, signature_ok))
            &&& v.id == report.id
            &&& extends(moment, before)
            &&& all_present(moment, v)
            &&& extends(after, #[trigger] history_after(moment, capacity, v, signature_ok))
            &&& answers(report.result, admission(moment, capacity, v, signature_ok), v)
        }
}

/// A report that told the truth tells the truth of a longer history.
proof fn lemma_drained_stays(
    report: Released,
    waited: Seq<PendingData>,
    given: Seq<Pending>,
    capacity: nat,
    before: Seq<VertexData>,
    after: Seq<VertexData>,
    later: Seq<VertexData>,
)
    requires
        drained(report, waited, given, capacity, before, after),
        extends(later, after),
    ensures
        drained(report, waited, given, capacity, before, later),
{
    let (v, signature_ok, moment) = choose|v: VertexData, signature_ok: bool, moment: Seq<VertexData>|
        {
            &&& waits(waited, (v, signature_ok)) || listed(given, (v, signature_ok))
            &&& v.id == report.id
            &&& extends(moment, before)
            &&& all_present(moment, v)
            &&& extends(after, #[trigger] history_after(moment, capacity, v, signature_ok))
            &&& answers(report.result, admission(moment, capacity, v, signature_ok), v)
        };
    lemma_extends_transitive(later, after, history_after(moment, capacity, v, signature_ok));
}

/// `list` without every occurrence of `id`.
fn strike(list: &Vec<VertexId>, id: VertexId) -> (left: Vec<VertexId>)
    ensures
        left@ == without(list@, id),
{
    let mut left: Vec<VertexId> = Vec::new();
    let mut i: usize = 0;
    while i < list.len()
        invariant
            i <= list.len(),
            left@ == without(list@.take(i as int), id),
        decreases list.len() - i,
    {
        assert(list@.take(i + 1).drop_last() == list@.take(i as int));
        if list[i] != id {
            left.push(list[i]);
        }
        i += 1;
    }
    assert(list@.take(i as int) == list@);
    left
}

/// The buffer of vertices that wait for vertices that they name.
pub struct DependencyResolver {
    pending: Vec<Pending>,
}

impl View for DependencyResolver {
    type V = Seq<PendingData>;

    closed spec fn view(&self) -> Seq<PendingData> {
        Seq::new(self.pending@.len(), |k: int| self.pending@[k]@)
    }
}

impl DependencyResolver {
    /// A resolver for which nothing waits.
    pub fn new() -> (resolver: DependencyResolver)
        ensures
            resolver@ == Seq::<PendingData>::empty(),
    {
        let resolver = DependencyResolver { pending: Vec::new() };
        assert(resolver@ == Seq::<PendingData>::empty());
        resolver
    }

    /// The number of vertices that wait.
    pub fn len(&self) -> (n: usize)
        ensures
            n == self@.len(),
    {
        self.pending.len()
    }

    /// Where the vertex with this identifier waits, if it does.
    fn place_of(&self, id: VertexId) -> (found: Option<usize>)
        ensures
            match found {
                Some(k) => k < self@.len() && self@[k as int].vertex.id == id,
                None => forall|k: int| 0 <= k < self@.len() ==> (#[trigger] self@[k]).vertex.id != id,
            },
    {
        let mut k: usize = 0;
        while k < self.pending.len()
            invariant
                k <= self.pending.len(),
                forall|l: int| 0 <= l < k ==> (#[trigger] self@[l]).vertex.id != id,
            decreases self.pending.len() - k,
        {
            if self.pending[k].vertex.id() == id {
                return Some(k);
            }
            k += 1;
        }
        None
    }

    /// Whether the vertex with this identifier waits.
    pub fn is_pending(&self, id: VertexId) -> (found: bool)
        ensures
            found <==> exists|k: int| 0 <= k < self@.len() && (#[trigger] self@[k]).vertex.id == id,
    {
        self.place_of(id).is_some()
    }

    /// The vertices for which the vertex with this identifier waits, if it
    /// waits.
    pub fn missing(&self, id: VertexId) -> (found: Option<Vec<VertexId>>)
        ensures
            found.is_some() <==> exists|k: int|
                0 <= k < self@.len() && (#[trigger] self@[k]).vertex.id == id,
            found matches Some(list) ==> exists|k: int|
                0 <= k < self@.len() && (#[trigger] self@[k]).vertex.id == id && list@
                    == self@[k].missing,
    {
        match self.place_of(id) {
            Some(k) => {
                let list = self.pending[k].missing.clone();
                assert(list@ == self@[k as int].missing);
                Some(list)
            },
            None => None,
        }
    }

    /// Puts `v` into the buffer, in the place of its earlier entry if it
    /// waits already.
    fn buffer(&mut self, v: Vertex, lacking: Vec<VertexId>, signature_ok: bool)
        requires
            waits_once(old(self)@),
        ensures
            waits_once(final(self)@),
            final(self)@ == buffered(
                old(self)@,
                PendingData { vertex: v@, missing: lacking@, signature_ok },
            ),
    {
        let ghost p = self@;
        let ghost entry = PendingData { vertex: v@, missing: lacking@, signature_ok };
        match self.place_of(v.id()) {
            Some(k) => {
                proof {
                    let c = choose|c: int|
                        0 <= c < p.len() && (#[trigger] p[c]).vertex.id == entry.vertex.id;
                    assert(p[k as int].vertex.id == entry.vertex.id);
                    if c < k {
                        assert(p[c].vertex.id != p[k as int].vertex.id);
                    } else if k < c {
                        assert(p[k as int].vertex.id != p[c].vertex.id);
                    }
                }
                self.pending.set(k, Pending { vertex: v, missing: lacking, signature_ok });
                assert(self@ == p.update(k as int, entry));
            },
            None => {
                self.pending.push(Pending { vertex: v, missing: lacking, signature_ok });
                assert(self@ == p.push(entry));
            },
        }
    }

    /// After the vertex `id` has entered the store as its last: strikes it
    /// from what each waiting vertex waits for, and moves the vertices that
    /// wait for nothing more to the end of `ready`.
    fn release(&mut self, store: &DagStore, id: VertexId, ready: &mut Vec<Pending>)
        requires
            store@.len() > 0,
            store@.last().id == id,
            settled(old(self)@, store@.drop_last()),
        ensures
            settled(final(self)@, store@),
            final(self)@.len() + final(ready)@.len() == old(self)@.len() + old(ready)@.len(),
            final(ready)@.len() >= old(ready)@.len(),
            final(ready)@.take(old(ready)@.len() as int) == old(ready)@,
            forall|i: int|
                old(ready)@.len() <= i < final(ready)@.len() ==> waits(
                    old(self)@,
                    (#[trigger] final(ready)@[i])@.offer(),
                ) && all_present(store@, final(ready)@[i]@.vertex),
            forall|k: int|
                0 <= k < final(self)@.len() ==> waits(
                    old(self)@,
                    (#[trigger] final(self)@[k]).offer(),
                ),
            forall|l: int|
                0 <= l < old(self)@.len() ==> waits(
                    final(self)@,
                    (#[trigger] old(self)@[l]).offer(),
                ) || listed(final(ready)@, old(self)@[l].offer()),
    {
        let ghost g = store@;
        let ghost h = store@.drop_last();
        let ghost v = store@.last();
        let ghost b0 = self@;
        let ghost r0 = ready@;
        assert(h.push(v) == g);
        let mut k: usize = 0;
        while k < self.pending.len()
            invariant
                k <= self@.len(),
                g == store@,
                h.push(v) == g,
                v.id == id,
                waits_once(self@),
                forall|l: int|
                    0 <= l < self@.len() ==> (#[trigger] self@[l]).missing == missing_of(
                        if l < k {
                            g
                        } else {
                            h
                        },
                        self@[l].vertex.parents,
                    ) && self@[l].missing.len() > 0,
                self@.len() + ready@.len() == b0.len() + r0.len(),
                ready@.len() >= r0.len(),
                ready@.take(r0.len() as int) == r0,
                forall|i: int|
                    r0.len() <= i < ready@.len() ==> waits(b0, (#[trigger] ready@[i])@.offer())
                        && all_present(g, ready@[i]@.vertex),
                forall|l: int| 0 <= l < self@.len() ==> waits(b0, (#[trigger] self@[l]).offer()),
                forall|l: int|
                    0 <= l < b0.len() ==> waits(self@, (#[trigger] b0[l]).offer()) || listed(
                        ready@,
                        b0[l].offer(),
                    ),
            decreases self.pending.len() - k,
        {
            let ghost before = self@;
            let ghost lined = ready@;
            let left = strike(&self.pending[k].missing, id);
            proof {
                lemma_missing_after(h, v, before[k as int].vertex.parents);
            }
            if left.len() == 0 {
                let entry = self.pending.remove(k);
                proof {
                    lemma_missing_none(g, entry@.vertex.parents);
                    assert(entry@ == before[k as int]);
                    assert(self@ == before.remove(k as int));
                }
                ready.push(entry);
                proof {
                    assert(ready@[lined.len() as int]@ == before[k as int]);
                    assert forall|l: int| 0 <= l < b0.len() implies waits(
                        self@,
                        (#[trigger] b0[l]).offer(),
                    ) || listed(ready@, b0[l].offer()) by {
                        if waits(before, b0[l].offer()) {
                            let m = choose|m: int|
                                0 <= m < before.len() && (#[trigger] before[m]).offer()
                                    == b0[l].offer();
                            if m < k {
                                assert(self@[m] == before[m]);
                            } else if m > k {
                                assert(self@[m - 1] == before[m]);
                            }
                        } else {
                            let i = choose|i: int|
                                0 <= i < lined.len() && (#[trigger] lined[i])@.offer()
                                    == b0[l].offer();
                            assert(ready@[i] == lined[i]);
                        }
                    }
                    assert forall|i: int| r0.len() <= i < ready@.len() implies waits(
                        b0,
                        (#[trigger] ready@[i])@.offer(),
                    ) && all_present(g, ready@[i]@.vertex) by {
                        if i < lined.len() {
                            assert(ready@[i] == lined[i]);
                        }
                    }
                    assert(ready@.take(r0.len() as int) == lined.take(r0.len() as int));
                }
            } else {
                self.pending[k].missing = left;
                proof {
                    assert(self@ == before.update(
                        k as int,
                        PendingData {
                            vertex: before[k as int].vertex,
                            missing: left@,
                            signature_ok: before[k as int].signature_ok,
                        },
                    ));
                    assert forall|l: int| 0 <= l < b0.len() implies waits(
                        self@,
                        (#[trigger] b0[l]).offer(),
                    ) || listed(ready@, b0[l].offer()) by {
                        if waits(before, b0[l].offer()) {
                            let m = choose|m: int|
                                0 <= m < before.len() && (#[trigger] before[m]).offer()
                                    == b0[l].offer();
                            assert(self@[m].offer() == before[m].offer());
                        }
                    }
                    assert forall|a: int, b: int| 0 <= a < b < self@.len() implies (
                    #[trigger] self@[a]).vertex.id != (#[trigger] self@[b]).vertex.id by {
                        assert(before[a].vertex.id != before[b].vertex.id);
                    }
                    assert forall|l: int| 0 <= l < self@.len() implies waits(
                        b0,
                        (#[trigger] self@[l]).offer(),
                    ) by {
                        assert(self@[l].offer() == before[l].offer());
                    }
                }
                k += 1;
            }
        }
    }

    /// Offers the vertices of `ready` to the store, one after the other, and
    /// after each that the store takes, those that waited for it alone.
    fn drain(&mut self, store: &mut DagStore, ready: Vec<Pending>) -> (reports: Vec<Released>)
        requires
            old(store).wf(),
            settled(old(self)@, old(store)@),
            forall|i: int|
                0 <= i < ready@.len() ==> all_present(old(store)@, (#[trigger] ready@[i])@.vertex),
        ensures
            final(store).wf(),
            final(store).capacity() == old(store).capacity(),
            settled(final(self)@, final(store)@),
            extends(final(store)@, old(store)@),
            forall|i: int|
                old(store)@.len() <= i < final(store)@.len() ==> listed(
                    ready@,
                    (#[trigger] final(store)@[i], true),
                ) || waits(old(self)@, (final(store)@[i], true)),
            forall|k: int|
                0 <= k < final(self)@.len() ==> waits(
                    old(self)@,
                    (#[trigger] final(self)@[k]).offer(),
                ),
            forall|l: int|
                0 <= l < old(self)@.len() ==> waits(
                    final(self)@,
                    (#[trigger] old(self)@[l]).offer(),
                ) || reported(reports@, old(self)@[l].vertex.id),
            forall|i: int|
                0 <= i < ready@.len() ==> reported(reports@, (#[trigger] ready@[i])@.vertex.id),
            forall|r: int|
                0 <= r < reports@.len() ==> drained(
                    #[trigger] reports@[r],
                    old(self)@,
                    ready@,
                    old(store).capacity(),
                    old(store)@,
                    final(store)@,
                ),
    {
        let ghost h0 = store@;
        let ghost b0 = self@;
        let ghost r0 = ready@;
        let ghost capacity = store.capacity();
        let mut ready = ready;
        let mut reports: Vec<Released> = Vec::new();
        assert(h0.take(h0.len() as int) == h0);
        while ready.len() > 0
            invariant
                store.wf(),
                store.capacity() == capacity,
                settled(self@, store@),
                extends(store@, h0),
                forall|i: int|
                    0 <= i < ready@.len() ==> all_present(store@, (#[trigger] ready@[i])@.vertex),
                forall|i: int|
                    0 <= i < ready@.len() ==> listed(r0, (#[trigger] ready@[i])@.offer()) || waits(
                        b0,
                        ready@[i]@.offer(),
                    ),
                forall|i: int|
                    h0.len() <= i < store@.len() ==> listed(r0, (#[trigger] store@[i], true))
                        || waits(b0, (store@[i], true)),
                forall|k: int| 0 <= k < self@.len() ==> waits(b0, (#[trigger] self@[k]).offer()),
                forall|l: int|
                    0 <= l < b0.len() ==> waits(self@, (#[trigger] b0[l]).offer()) || listed(
                        ready@,
                        b0[l].offer(),
                    ) || reported(reports@, b0[l].vertex.id),
                forall|i: int|
                    0 <= i < r0.len() ==> listed(ready@, (#[trigger] r0[i])@.offer()) || reported(
                        reports@,
                        r0[i]@.vertex.id,
                    ),
                forall|r: int|
                    0 <= r < reports@.len() ==> drained(
                        #[trigger] reports@[r],
                        b0,
                        r0,
                        capacity,
                        h0,
                        store@,
                    ),
            decreases self@.len() + ready@.len(),
        {
            let ghost h = store@;
            let ghost p = self@;
            let ghost lined = ready@;
            let ghost told = reports@;
            let entry = ready.pop().unwrap();
            let ghost xd = entry@.vertex;
            let ghost ok = entry@.signature_ok;
            let id = entry.vertex.id();
            assert(lined[ready@.len() as int]@ == entry@);
            assert(ready@ == lined.take(ready@.len() as int));
            let result = store.add_vertex_checked(entry.vertex, entry.signature_ok);
            let taken = match &result {
                Ok(Some(_)) => true,
                _ => false,
            };
            reports.push(Released { id, result });
            proof {
                assert(store@ == history_after(h, capacity, xd, ok));
                assert(store@.take(store@.len() as int) == store@);
                assert(taken ==> ok);
                if taken {
                    assert(store@ == h.push(xd));
                    assert(store@.take(h.len() as int) == h);
                } else {
                    assert(h.take(h.len() as int) == h);
                }
                assert(extends(store@, h));
                lemma_extends_transitive(store@, h, h0);
                assert(reports@[told.len() as int].id == xd.id);
                assert(listed(r0, (xd, ok)) || waits(b0, (xd, ok)));
                assert forall|r: int| 0 <= r < reports@.len() implies drained(
                    #[trigger] reports@[r],
                    b0,
                    r0,
                    capacity,
                    h0,
                    store@,
                ) by {
                    if r < told.len() {
                        assert(reports@[r] == told[r]);
                        lemma_drained_stays(told[r], b0, r0, capacity, h0, h, store@);
                    } else {
                        assert(extends(store@, history_after(h, capacity, xd, ok)));
                    }
                }
                assert forall|l: int| 0 <= l < b0.len() implies waits(
                    self@,
                    (#[trigger] b0[l]).offer(),
                ) || listed(ready@, b0[l].offer()) || reported(reports@, b0[l].vertex.id) by {
                    if listed(lined, b0[l].offer()) {
                        let i = choose|i: int|
                            0 <= i < lined.len() && (#[trigger] lined[i])@.offer() == b0[l].offer();
                        if i < ready@.len() {
                            assert(ready@[i] == lined[i]);
                        }
                    } else if reported(told, b0[l].vertex.id) {
                        let r = choose|r: int|
                            0 <= r < told.len() && (#[trigger] told[r]).id == b0[l].vertex.id;
                        assert(reports@[r] == told[r]);
                    }
                }
                assert forall|i: int| 0 <= i < r0.len() implies listed(
                    ready@,
                    (#[trigger] r0[i])@.offer(),
                ) || reported(reports@, r0[i]@.vertex.id) by {
                    if listed(lined, r0[i]@.offer()) {
                        let c = choose|c: int|
                            0 <= c < lined.len() && (#[trigger] lined[c])@.offer() == r0[i]@.offer();
                        if c < ready@.len() {
                            assert(ready@[c] == lined[c]);
                        }
                    } else {
                        let r = choose|r: int|
                            0 <= r < told.len() && (#[trigger] told[r]).id == r0[i]@.vertex.id;
                        assert(reports@[r] == told[r]);
                    }
                }
                assert forall|i: int| 0 <= i < ready@.len() implies all_present(
                    store@,
                    (#[trigger] ready@[i])@.vertex,
                ) by {
                    assert(ready@[i] == lined[i]);
                    if taken {
                        lemma_present_stays(h, xd, ready@[i]@.vertex);
                    }
                }
                assert forall|i: int| 0 <= i < ready@.len() implies listed(
                    r0,
                    (#[trigger] ready@[i])@.offer(),
                ) || waits(b0, ready@[i]@.offer()) by {
                    assert(ready@[i] == lined[i]);
                }
                if taken {
                    assert(store@.drop_last() == h);
                    assert forall|i: int| h0.len() <= i < store@.len() implies listed(
                        r0,
                        (#[trigger] store@[i], true),
                    ) || waits(b0, (store@[i], true)) by {
                        if i < h.len() {
                            assert(store@[i] == h[i]);
                        }
                    }
                }
            }
            if taken {
                let ghost waiting = ready@;
                self.release(store, id, &mut ready);
                proof {
                    assert forall|i: int| 0 <= i < ready@.len() implies all_present(
                        store@,
                        (#[trigger] ready@[i])@.vertex,
                    ) by {
                        if i < waiting.len() {
                            assert(ready@[i] == ready@.take(waiting.len() as int)[i]);
                        }
                    }
                    assert forall|i: int| 0 <= i < ready@.len() implies listed(
                        r0,
                        (#[trigger] ready@[i])@.offer(),
                    ) || waits(b0, ready@[i]@.offer()) by {
                        if i < waiting.len() {
                            assert(ready@[i] == ready@.take(waiting.len() as int)[i]);
                        } else {
                            let k = choose|k: int|
                                0 <= k < p.len() && (#[trigger] p[k]).offer() == ready@[i]@.offer();
                            assert(waits(b0, p[k].offer()));
                        }
                    }
                    assert forall|k: int| 0 <= k < self@.len() implies waits(
                        b0,
                        (#[trigger] self@[k]).offer(),
                    ) by {
                        let c = choose|c: int|
                            0 <= c < p.len() && (#[trigger] p[c]).offer() == self@[k].offer();
                        assert(waits(b0, p[c].offer()));
                    }
                    assert forall|l: int| 0 <= l < b0.len() implies waits(
                        self@,
                        (#[trigger] b0[l]).offer(),
                    ) || listed(ready@, b0[l].offer()) || reported(reports@, b0[l].vertex.id) by {
                        if waits(p, b0[l].offer()) {
                            let c = choose|c: int|
                                0 <= c < p.len() && (#[trigger] p[c]).offer() == b0[l].offer();
                            assert(waits(self@, p[c].offer()) || listed(ready@, p[c].offer()));
                        } else if listed(waiting, b0[l].offer()) {
                            let i = choose|i: int|
                                0 <= i < waiting.len() && (#[trigger] waiting[i])@.offer()
                                    == b0[l].offer();
                            assert(ready@[i] == ready@.take(waiting.len() as int)[i]);
                        }
                    }
                    assert forall|i: int| 0 <= i < r0.len() implies listed(
                        ready@,
                        (#[trigger] r0[i])@.offer(),
                    ) || reported(reports@, r0[i]@.vertex.id) by {
                        if listed(waiting, r0[i]@.offer()) {
                            let c = choose|c: int|
                                0 <= c < waiting.len() && (#[trigger] waiting[c])@.offer()
                                    == r0[i]@.offer();
                            assert(ready@[c] == ready@.take(waiting.len() as int)[c]);
                        }
                    }
                }
            }
        }
        proof {
            assert forall|l: int| 0 <= l < b0.len() implies waits(
                self@,
                (#[trigger] b0[l]).offer(),
            ) || reported(reports@, b0[l].vertex.id) by {
                assert(!listed(ready@, b0[l].offer()));
            }
            assert forall|i: int| 0 <= i < r0.len() implies reported(
                reports@,
                (#[trigger] r0[i])@.vertex.id,
            ) by {
                assert(!listed(ready@, r0[i]@.offer()));
            }
        }
        reports
    }

    /// To be called when the vertex `id` has entered the store as its last,
    /// with the buffer settled against the store as it was before. Strikes
    /// `id` from what each waiting vertex waits for and offers to the store
    /// every vertex that then waits for nothing, and so on with each vertex
    /// that the store takes, until the buffer is settled against the store.
    ///
    /// Each vertex that waited still waits or has a report; each report says
    /// what the store answered.
    pub fn on_inserted(&mut self, store: &mut DagStore, id: VertexId) -> (reports: Vec<Released>)
        requires
            old(store).wf(),
            old(store)@.len() > 0,
            old(store)@.last().id == id,
            settled(old(self)@, old(store)@.drop_last()),
        ensures
            final(store).wf(),
            final(store).capacity() == old(store).capacity(),
            settled(final(self)@, final(store)@),
            cascaded(
                old(store)@,
                old(self)@,
                old(store).capacity(),
                reports@,
                final(store)@,
                final(self)@,
            ),
    {
        let ghost b0 = self@;
        let ghost g = store@;
        let ghost capacity = store.capacity();
        let mut ready: Vec<Pending> = Vec::new();
        self.release(store, id, &mut ready);
        let ghost p = self@;
        let ghost lined = ready@;
        let reports = self.drain(store, ready);
        proof {
            assert forall|o: (VertexData, bool)| listed(lined, o) || waits(p, o) implies waits(
                b0,
                o,
            ) by {
                if listed(lined, o) {
                    let c = choose|c: int| 0 <= c < lined.len() && (#[trigger] lined[c])@.offer() == o;
                    assert(waits(b0, lined[c]@.offer()));
                } else {
                    let c = choose|c: int| 0 <= c < p.len() && (#[trigger] p[c]).offer() == o;
                    assert(waits(b0, p[c].offer()));
                }
            }
            assert forall|k: int| 0 <= k < self@.len() implies waits(
                b0,
                (#[trigger] self@[k]).offer(),
            ) by {
                assert(waits(p, self@[k].offer()));
            }
            assert forall|l: int| 0 <= l < b0.len() implies waits(
                self@,
                (#[trigger] b0[l]).offer(),
            ) || reported(reports@, b0[l].vertex.id) by {
                if waits(p, b0[l].offer()) {
                    let c = choose|c: int|
                        0 <= c < p.len() && (#[trigger] p[c]).offer() == b0[l].offer();
                    assert(waits(self@, p[c].offer()) || reported(reports@, p[c].vertex.id));
                } else {
                    let c = choose|c: int|
                        0 <= c < lined.len() && (#[trigger] lined[c])@.offer() == b0[l].offer();
                    assert(reported(reports@, lined[c]@.vertex.id));
                }
            }
            assert forall|r: int| 0 <= r < reports@.len() implies well_reported(
                #[trigger] reports@[r],
                b0,
                capacity,
                g,
                store@,
            ) by {
                let report = reports@[r];
                let (v, signature_ok, moment) = choose|
                    v: VertexData,
                    signature_ok: bool,
                    moment: Seq<VertexData>,
                |
                    {
                        &&& waits(p, (v, signature_ok)) || listed(lined, (v, signature_ok))
                        &&& v.id == report.id
                        &&& extends(moment, g)
                        &&& all_present(moment, v)
                        &&& extends(
                            store@,
                            #[trigger] history_after(moment, capacity, v, signature_ok),
                        )
                        &&& answers(
                            report.result,
                            admission(moment, capacity, v, signature_ok),
                            v,
                        )
                    };
                assert(waits(b0, (v, signature_ok)));
            }
        }
        reports
    }

    /// Takes a vertex from the network, given whether its signature verifies.
    ///
    /// A vertex that names a vertex which the store lacks is put into the
    /// buffer and waits: `Pending`, with what it waits for; the store is left
    /// alone. Any other vertex is offered to the store. If the store takes
    /// it, every vertex that waited for it alone is offered in turn, and so
    /// on, before this function returns: `Inserted`, with a report on each
    /// vertex that left the buffer. In every case the buffer ends settled
    /// against the store: no vertex waits that names only vertices which the
    /// store has.
    pub fn submit_checked(&mut self, store: &mut DagStore, v: Vertex, signature_ok: bool) -> (outcome:
        Outcome)
        requires
            old(store).wf(),
            settled(old(self)@, old(store)@),
        ensures
            final(store).wf(),
            final(store).capacity() == old(store).capacity(),
            settled(final(self)@, final(store)@),
            extends(final(store)@, old(store)@),
            submission(
                old(store)@,
                old(self)@,
                old(store).capacity(),
                v@,
                signature_ok,
                outcome,
                final(store)@,
                final(self)@,
            ),
    {
        let ghost h = store@;
        let ghost b0 = self@;
        let ghost vd = v@;
        assert(h.take(h.len() as int) == h);
        let lacking = store.missing_dependencies(&v);
        proof {
            lemma_missing_none(h, vd.parents);
        }
        if lacking.len() > 0 {
            let listed = lacking.clone();
            assert(listed@ == lacking@);
            self.buffer(v, lacking, signature_ok);
            proof {
                let entry = PendingData { vertex: vd, missing: listed@, signature_ok };
                if exists|k: int| 0 <= k < b0.len() && (#[trigger] b0[k]).vertex.id == vd.id {
                    let c = choose|c: int| 0 <= c < b0.len() && (#[trigger] b0[c]).vertex.id == vd.id;
                    assert(self@ == b0.update(c, entry));
                } else {
                    assert(self@ == b0.push(entry));
                }
            }
            return Outcome::Pending(listed);
        }
        let id = v.id();
        let result = store.add_vertex_checked(v, signature_ok);
        match result {
            Ok(Some(_)) => {
                assert(store@ == h.push(vd));
                assert(store@.drop_last() == h);
                assert(store@.take(h.len() as int) == h);
                let ghost g = store@;
                let released = self.on_inserted(store, id);
                proof {
                    lemma_extends_transitive(store@, g, h);
                }
                Outcome::Inserted { id, released }
            },
            Ok(None) => Outcome::Duplicate(id),
            Err(error) => Outcome::Rejected(error),
        }
    }

    /// Takes a vertex from the network: asks the context whether its
    /// signature verifies, and goes on as `submit_checked` does with the
    /// answer, whichever it is.
    pub fn submit<C: ConsensusContext>(&mut self, store: &mut DagStore, context: &C, v: Vertex) -> (outcome:
        Outcome)
        requires
            old(store).wf(),
            settled(old(self)@, old(store)@),
        ensures
            final(store).wf(),
            final(store).capacity() == old(store).capacity(),
            settled(final(self)@, final(store)@),
            extends(final(store)@, old(store)@),
            submission(
                old(store)@,
                old(self)@,
                old(store).capacity(),
                v@,
                false,
                outcome,
                final(store)@,
                final(self)@,
            ) || submission(
                old(store)@,
                old(self)@,
                old(store).capacity(),
                v@,
                true,
                outcome,
                final(store)@,
                final(self)@,
            ),
    {
        let signature_ok = context.verify_signature(v.creator(), v.id(), v.signature());
        self.submit_checked(store, v, signature_ok)
    }
}

/// What a history holds, each history that extends it holds.
pub proof fn lemma_extends_holds(g: Seq<VertexData>, h: Seq<VertexData>, id: VertexId)
    requires
        extends(g, h),
        holds(h, id),
    ensures
        holds(g, id),
{
    let i = choose|i: int| 0 <= i < h.len() && (#[trigger] h[i]).id == id;
    assert(g[i] == g.take(h.len() as int)[i]);
}

/// No vertex waits longer than it must. After a cascade that left the buffer
/// settled, a vertex that waited before, and of which the store now has all
/// that it names, waits no more: it was offered to the store and has a
/// report. If the report says that the store took the vertex or knew it,
/// the store has it.
pub proof fn no_vertex_waits_longer_than_it_must(
    h0: Seq<VertexData>,
    b0: Seq<PendingData>,
    capacity: nat,
    reports: Seq<Released>,
    h1: Seq<VertexData>,
    b1: Seq<PendingData>,
    l: int,
)
    requires
        waits_once(b0),
        cascaded(h0, b0, capacity, reports, h1, b1),
        settled(b1, h1),
        0 <= l < b0.len(),
        all_present(h1, b0[l].vertex),
    ensures
        !waits(b1, b0[l].offer()),
        exists|r: int|
            0 <= r < reports.len() && (#[trigger] reports[r]).id == b0[l].vertex.id && (
            reports[r].result is Ok ==> holds(h1, b0[l].vertex.id)),
{
    let v = b0[l].vertex;
    if waits(b1, b0[l].offer()) {
        let k = choose|k: int| 0 <= k < b1.len() && (#[trigger] b1[k]).offer() == b0[l].offer();
        lemma_missing_none(h1, b1[k].vertex.parents);
        assert(false);
    }
    assert(reported(reports, v.id));
    let r = choose|r: int| 0 <= r < reports.len() && (#[trigger] reports[r]).id == v.id;
    assert(well_reported(reports[r], b0, capacity, h0, h1));
    let (u, signature_ok, moment) = choose|u: VertexData, signature_ok: bool, moment: Seq<VertexData>|
        {
            &&& waits(b0, (u, signature_ok))
            &&& u.id == reports[r].id
            &&& extends(moment, h0)
            &&& all_present(moment, u)
            &&& extends(h1, #[trigger] history_after(moment, capacity, u, signature_ok))
            &&& answers(reports[r].result, admission(moment, capacity, u, signature_ok), u)
        };
    if reports[r].result is Ok {
        let after = history_after(moment, capacity, u, signature_ok);
        if admission(moment, capacity, u, signature_ok) is Taken {
            lemma_push_holds(moment, u, u.id);
        }
        lemma_extends_holds(h1, after, u.id);
    }
}

} // verus!
