//! The validator: whether a vertex is well made and consistent with what the
//! store already holds.
//!
//! Validation reads the store and never changes it.

use crate::dag::{
    all_present, conflicts, holds, lemma_holds, lemma_seen, misattributed, seen_rank, sequence_ok, stale,
    vertex_of,
};
use crate::protocol_state::DagStore;
use crate::vertex::{ValidatorId, Vertex, VertexData, VertexId};
use vstd::prelude::*;

verus! {

/// Why a vertex is not valid.
#[derive(Clone, Copy, Debug, PartialEq, Eq, Structural)]
pub enum ValidationError {
    /// The signature is not the creator's signature of the content.
    BadSignature,
    /// The sequence number does not continue the creator's own chain.
    BadSequenceNumber,
    /// The panorama names a vertex that the store lacks.
    MissingDependency,
    /// The panorama names, for a validator, a vertex of another validator.
    MisattributedReference,
    /// The panorama names an older vertex of a validator than one that is
    /// already among the ancestors.
    StaleReference,
    /// The creator has another vertex at this sequence number. Such a vertex
    /// is accepted all the same, and the creator is flagged.
    Equivocation,
}

/// What binds the engine to its validators: the check of a signature is the
/// context's, and so are the keys.
pub trait ConsensusContext {
    /// Whether `signature` is the signature of `creator` over the content
    /// that `id` identifies.
    fn verify_signature(&self, creator: ValidatorId, id: VertexId, signature: &Vec<u8>) -> bool;
}

/// The verdict on `v` against the history `h`, given whether its signature
/// verifies. The checks are made in this order, and the first that fails
/// decides.
pub open spec fn verdict(h: Seq<VertexData>, v: VertexData, signature_ok: bool) -> Result<
    (),
    ValidationError,
> {
    if !signature_ok {
        Err(ValidationError::BadSignature)
    } else if !sequence_ok(h, v) {
        Err(ValidationError::BadSequenceNumber)
    } else if !all_present(h, v) {
        Err(ValidationError::MissingDependency)
    } else if misattributed(h, v) {
        Err(ValidationError::MisattributedReference)
    } else if stale(h, v) {
        Err(ValidationError::StaleReference)
    } else if conflicts(h, v) {
        Err(ValidationError::Equivocation)
    } else {
        Ok(())
    }
}

/// A rank as the store computes it: no rank stands for -1.
pub open spec fn rank_value(rank: Option<u64>) -> int {
    match rank {
        Some(n) => n as int,
        None => -1,
    }
}

/// The vertex that the panorama of `v` names for `validator`.
fn cited_for(v: &Vertex, validator: ValidatorId) -> (found: Option<VertexId>)
    ensures
        found.is_some() <==> v@.has_seen(validator),
        found matches Some(id) ==> id == v@.seen_of(validator),
{
    proof {
        use_type_invariant(v);
    }
    let parents = v.parents();
    let mut j: usize = 0;
    while j < parents.len()
        invariant
            j <= parents.len(),
            parents@ == v@.parents,
            v@.well_formed(),
            forall|k: int| 0 <= k < j ==> (#[trigger] parents@[k]).validator != validator,
        decreases parents.len() - j,
    {
        if parents[j].validator == validator {
            proof {
                lemma_seen(v@, j as int);
            }
            return Some(parents[j].vertex);
        }
        j += 1;
    }
    None
}

/// How far `v` has seen `validator`, as `seen_rank` says.
fn rank(store: &DagStore, v: &Vertex, validator: ValidatorId) -> (found: Option<u64>)
    requires
        store.wf(),
    ensures
        rank_value(found) == seen_rank(store@, v@, validator),
{
    match cited_for(v, validator) {
        Some(id) => match store.vertex(id) {
            Some(seen) => Some(seen.sequence_number()),
            None => None,
        },
        None => None,
    }
}

fn check_sequence(store: &DagStore, v: &Vertex) -> (ok: bool)
    requires
        store.wf(),
    ensures
        ok == sequence_ok(store@, v@),
{
    match cited_for(v, v.creator()) {
        Some(id) => match store.vertex(id) {
            Some(own) => {
                let n: u64 = own.sequence_number();
                n < u64::MAX && n + 1 == v.sequence_number()
            },
            None => true,
        },
        None => v.sequence_number() == 0,
    }
}

fn check_present(store: &DagStore, v: &Vertex) -> (ok: bool)
    requires
        store.wf(),
    ensures
        ok == all_present(store@, v@),
{
    let parents = v.parents();
    let mut j: usize = 0;
    while j < parents.len()
        invariant
            store.wf(),
            j <= parents.len(),
            parents@ == v@.parents,
            forall|k: int| 0 <= k < j ==> holds(store@, (#[trigger] parents@[k]).vertex),
        decreases parents.len() - j,
    {
        if !store.contains(parents[j].vertex) {
            return false;
        }
        j += 1;
    }
    true
}

fn check_misattributed(store: &DagStore, v: &Vertex) -> (bad: bool)
    requires
        store.wf(),
    ensures
        bad == misattributed(store@, v@),
{
    let parents = v.parents();
    let mut j: usize = 0;
    while j < parents.len()
        invariant
            store.wf(),
            j <= parents.len(),
            parents@ == v@.parents,
            forall|k: int|
                0 <= k < j && holds(store@, (#[trigger] parents@[k]).vertex) ==> vertex_of(
                    store@,
                    parents@[k].vertex,
                ).creator == parents@[k].validator,
        decreases parents.len() - j,
    {
        match store.vertex(parents[j].vertex) {
            Some(named) => {
                if named.creator() != parents[j].validator {
                    return true;
                }
            },
            None => {},
        }
        j += 1;
    }
    false
}

/// Whether `named`, a vertex of the store, has seen further of some validator
/// than `v` admits.
fn outruns(store: &DagStore, v: &Vertex, named: &Vertex) -> (found: bool)
    requires
        store.wf(),
        holds(store@, named@.id),
        named@ == vertex_of(store@, named@.id),
    ensures
        found <==> exists|w: ValidatorId|
            seen_rank(store@, v@, w) < #[trigger] seen_rank(store@, named@, w),
{
    proof {
        use_type_invariant(named);
    }
    let theirs = named.parents();
    let mut k: usize = 0;
    while k < theirs.len()
        invariant
            store.wf(),
            k <= theirs.len(),
            theirs@ == named@.parents,
            named@.well_formed(),
            forall|i: int|
                0 <= i < k ==> seen_rank(store@, v@, (#[trigger] theirs@[i]).validator)
                    >= seen_rank(store@, named@, theirs@[i].validator),
        decreases theirs.len() - k,
    {
        let w = theirs[k].validator;
        let far = rank(store, named, w);
        let near = rank(store, v, w);
        let behind = match far {
            Some(n) => match near {
                Some(m) => m < n,
                None => true,
            },
            None => false,
        };
        if behind {
            return true;
        }
        k += 1;
    }
    proof {
        assert forall|w: ValidatorId|
            seen_rank(store@, v@, w) >= #[trigger] seen_rank(store@, named@, w) by {
            if named@.has_seen(w) {
                let i = choose|i: int|
                    0 <= i < named@.parents.len() && (#[trigger] named@.parents[i]).validator == w;
                assert(theirs@[i].validator == w);
            }
        }
    }
    false
}

fn check_stale(store: &DagStore, v: &Vertex) -> (bad: bool)
    requires
        store.wf(),
    ensures
        bad == stale(store@, v@),
{
    let parents = v.parents();
    let mut j: usize = 0;
    while j < parents.len()
        invariant
            store.wf(),
            j <= parents.len(),
            parents@ == v@.parents,
            forall|k: int, w: ValidatorId|
                0 <= k < j && holds(store@, parents@[k].vertex) ==> seen_rank(store@, v@, w)
                    >= #[trigger] seen_rank(store@, vertex_of(store@, parents@[k].vertex), w),
        decreases parents.len() - j,
    {
        match store.vertex(parents[j].vertex) {
            Some(named) => {
                proof {
                    lemma_holds(store@, parents@[j as int].vertex);
                }
                if outruns(store, v, named) {
                    return true;
                }
            },
            None => {},
        }
        j += 1;
    }
    false
}

fn check_conflicts(store: &DagStore, v: &Vertex) -> (found: bool)
    requires
        store.wf(),
    ensures
        found == conflicts(store@, v@),
{
    let n: usize = store.len();
    let mut i: usize = 0;
    while i < n
        invariant
            i <= n,
            n == store@.len(),
            forall|k: int|
                0 <= k < i ==> !((#[trigger] store@[k]).creator == v@.creator
                    && store@[k].sequence_number == v@.sequence_number && store@[k].id != v@.id),
        decreases n - i,
    {
        let other = store.nth(i);
        if other.creator() == v.creator() && other.sequence_number() == v.sequence_number()
            && other.id() != v.id() {
            return true;
        }
        i += 1;
    }
    false
}

/// The validator of incoming vertices.
pub struct Validator;

impl Validator {
    /// The verdict on `v` against `store`, given whether its signature
    /// verifies.
    pub fn check(v: &Vertex, store: &DagStore, signature_ok: bool) -> (result: Result<
        (),
        ValidationError,
    >)
        requires
            store.wf(),
        ensures
            result == verdict(store@, v@, signature_ok),
    {
        if !signature_ok {
            Err(ValidationError::BadSignature)
        } else if !check_sequence(store, v) {
            Err(ValidationError::BadSequenceNumber)
        } else if !check_present(store, v) {
            Err(ValidationError::MissingDependency)
        } else if check_misattributed(store, v) {
            Err(ValidationError::MisattributedReference)
        } else if check_stale(store, v) {
            Err(ValidationError::StaleReference)
        } else if check_conflicts(store, v) {
            Err(ValidationError::Equivocation)
        } else {
            Ok(())
        }
    }

    /// Asks the context whether the signature verifies and gives the verdict
    /// on `v` against `store`. Whatever the context answers, the result is the
    /// verdict for that answer: a vertex fails for its signature only if the
    /// context refuses it, and otherwise stands or falls by the store alone.
    pub fn validate<C: ConsensusContext>(v: &Vertex, store: &DagStore, context: &C) -> (result:
        Result<(), ValidationError>)
        requires
            store.wf(),
        ensures
            result == verdict(store@, v@, false) || result == verdict(store@, v@, true),
    {
        let signature_ok = context.verify_signature(v.creator(), v.id(), v.signature());
        Validator::check(v, store, signature_ok)
    }
}

} // verus!
