//! The vertex model: immutable, signed consensus messages and their identity.
//!
//! A vertex bundles a batch of proposed values with a panorama, the latest
//! vertex of each validator that its creator had seen. Its identifier is a
//! digest of that content, so equal content always carries an equal identifier.

use vstd::prelude::*;

verus! {

/// Identity of a validator, as the consensus context assigns it.
#[derive(Clone, Copy, Debug, PartialEq, Eq, Hash, Structural)]
pub struct ValidatorId(pub u64);

/// Identifier of a vertex: the digest of its content.
#[derive(Clone, Copy, Debug, PartialEq, Eq, Hash, Structural)]
pub struct VertexId(pub u64);

/// One item of payload that a vertex proposes, as an opaque handle.
#[derive(Clone, Copy, Debug, PartialEq, Eq, Hash, Structural)]
pub struct ConsensusValue(pub u64);

/// One panorama entry: the latest vertex of `validator` that was seen.
#[derive(Clone, Copy, Debug, PartialEq, Eq, Hash, Structural)]
pub struct Citation {
    pub validator: ValidatorId,
    pub vertex: VertexId,
}

/// Initial state of the content digest.
pub const DIGEST_SEED: u64 = 0xcbf2_9ce4_8422_2325;

/// Multiplier of the content digest.
pub const DIGEST_PRIME: u64 = 0x0000_0100_0000_01b3;

/// One step of the content digest: absorbs the word `w` into the state `h`.
pub open spec fn mix(h: u64, w: u64) -> u64 {
    (h ^ w).wrapping_mul(DIGEST_PRIME)
}

/// The digest state after absorbing a panorama, entry by entry.
pub open spec fn absorb_citations(h: u64, citations: Seq<Citation>) -> u64
    decreases citations.len(),
{
    if citations.len() == 0 {
        h
    } else {
        let last = citations.last();
        mix(mix(absorb_citations(h, citations.drop_last()), last.validator.0), last.vertex.0)
    }
}

/// The digest state after absorbing a batch of values, item by item.
pub open spec fn absorb_values(h: u64, values: Seq<ConsensusValue>) -> u64
    decreases values.len(),
{
    if values.len() == 0 {
        h
    } else {
        mix(absorb_values(h, values.drop_last()), values.last().0)
    }
}

/// The identifier that content determines. The signature is no part of it,
/// since the signature is made over the identified content.
pub open spec fn content_id(
    creator: ValidatorId,
    sequence_number: u64,
    parents: Seq<Citation>,
    values: Seq<ConsensusValue>,
) -> VertexId {
    let h = mix(mix(DIGEST_SEED, creator.0), sequence_number);
    let h = absorb_citations(mix(h, parents.len() as u64), parents);
    VertexId(absorb_values(mix(h, values.len() as u64), values))
}

/// A panorama is a mapping: its entries are ordered by validator, each
/// validator at most once.
pub open spec fn is_panorama(citations: Seq<Citation>) -> bool {
    forall|i: int, j: int|
        0 <= i < j < citations.len() ==> citations[i].validator.0 < citations[j].validator.0
}

/// The mathematical content of a vertex.
pub struct VertexData {
    pub id: VertexId,
    pub creator: ValidatorId,
    pub sequence_number: u64,
    pub parents: Seq<Citation>,
    pub values: Seq<ConsensusValue>,
    pub signature: Seq<u8>,
}

impl VertexData {
    /// The identifier is the digest of the content and the panorama is a
    /// mapping.
    pub open spec fn well_formed(self) -> bool {
        &&& is_panorama(self.parents)
        &&& self.id == content_id(self.creator, self.sequence_number, self.parents, self.values)
    }

    /// Whether the panorama names `vertex`.
    pub open spec fn cites(self, vertex: VertexId) -> bool {
        exists|i: int| 0 <= i < self.parents.len() && #[trigger] self.parents[i].vertex == vertex
    }

    /// Whether the panorama has an entry for `validator`.
    pub open spec fn has_seen(self, validator: ValidatorId) -> bool {
        exists|i: int|
            0 <= i < self.parents.len() && #[trigger] self.parents[i].validator == validator
    }

    /// The vertex that the panorama names for `validator`, where
    /// `has_seen(validator)`.
    pub open spec fn seen_of(self, validator: ValidatorId) -> VertexId {
        let i = choose|i: int|
            0 <= i < self.parents.len() && #[trigger] self.parents[i].validator == validator;
        self.parents[i].vertex
    }
}

/// A single signed consensus message. It cannot be changed once made.
#[derive(Debug)]
pub struct Vertex {
    id: VertexId,
    creator: ValidatorId,
    sequence_number: u64,
    parents: Vec<Citation>,
    values: Vec<ConsensusValue>,
    signature: Vec<u8>,
}

impl View for Vertex {
    type V = VertexData;

    closed spec fn view(&self) -> VertexData {
        VertexData {
            id: self.id,
            creator: self.creator,
            sequence_number: self.sequence_number,
            parents: self.parents@,
            values: self.values@,
            signature: self.signature@,
        }
    }
}

fn digest_step(h: u64, w: u64) -> (r: u64)
    ensures
        r == mix(h, w),
{
    (h ^ w).wrapping_mul(DIGEST_PRIME)
}

fn digest_citations(h: u64, citations: &Vec<Citation>) -> (r: u64)
    ensures
        r == absorb_citations(h, citations@),
{
    let mut state: u64 = h;
    let mut i: usize = 0;
    while i < citations.len()
        invariant
            i <= citations.len(),
            state == absorb_citations(h, citations@.take(i as int)),
        decreases citations.len() - i,
    {
        assert(citations@.take(i + 1).drop_last() == citations@.take(i as int));
        state = digest_step(digest_step(state, citations[i].validator.0), citations[i].vertex.0);
        i += 1;
    }
    assert(citations@.take(i as int) == citations@);
    state
}

fn digest_values(h: u64, values: &Vec<ConsensusValue>) -> (r: u64)
    ensures
        r == absorb_values(h, values@),
{
    let mut state: u64 = h;
    let mut i: usize = 0;
    while i < values.len()
        invariant
            i <= values.len(),
            state == absorb_values(h, values@.take(i as int)),
        decreases values.len() - i,
    {
        assert(values@.take(i + 1).drop_last() == values@.take(i as int));
        state = digest_step(state, values[i].0);
        i += 1;
    }
    assert(values@.take(i as int) == values@);
    state
}

/// Whether `citations` is ordered by validator, each validator at most once.
pub fn check_panorama(citations: &Vec<Citation>) -> (ok: bool)
    ensures
        ok == is_panorama(citations@),
{
    let mut i: usize = 1;
    while i < citations.len()
        invariant
            1 <= i,
            forall|a: int, b: int|
                0 <= a < b < i && b < citations.len() ==> citations[a].validator.0
                    < citations[b].validator.0,
        decreases citations.len() - i,
    {
        if citations[i - 1].validator.0 >= citations[i].validator.0 {
            return false;
        }
        assert forall|a: int, b: int| 0 <= a < b < i + 1 && b < citations.len() implies citations[a].validator.0
            < citations[b].validator.0 by {
            if b == i && a < i - 1 {
                assert(citations[a].validator.0 < citations[i - 1].validator.0);
            }
        }
        i += 1;
    }
    true
}

impl Vertex {
    /// What every vertex satisfies: its identifier is the digest of its
    /// content, and its panorama is a mapping.
    #[verifier::type_invariant]
    pub open spec fn inv(self) -> bool {
        self@.well_formed()
    }

    /// Makes the vertex with the given content and derives its identifier.
    /// The panorama must be a mapping, ordered by validator: otherwise no
    /// vertex is made.
    pub fn new(
        creator: ValidatorId,
        sequence_number: u64,
        parents: Vec<Citation>,
        values: Vec<ConsensusValue>,
        signature: Vec<u8>,
    ) -> (made: Option<Vertex>)
        ensures
            made.is_some() <==> is_panorama(parents@),
            made matches Some(v) ==> v@ == (VertexData {
                id: content_id(creator, sequence_number, parents@, values@),
                creator,
                sequence_number,
                parents: parents@,
                values: values@,
                signature: signature@,
            }),
    {
        if !check_panorama(&parents) {
            return None;
        }
        let h: u64 = digest_step(digest_step(DIGEST_SEED, creator.0), sequence_number);
        let h: u64 = digest_citations(digest_step(h, parents.len() as u64), &parents);
        let h: u64 = digest_values(digest_step(h, values.len() as u64), &values);
        Some(Vertex { id: VertexId(h), creator, sequence_number, parents, values, signature })
    }

    pub fn id(&self) -> (id: VertexId)
        ensures
            id == self@.id,
    {
        self.id
    }

    pub fn creator(&self) -> (creator: ValidatorId)
        ensures
            creator == self@.creator,
    {
        self.creator
    }

    pub fn sequence_number(&self) -> (n: u64)
        ensures
            n == self@.sequence_number,
    {
        self.sequence_number
    }

    pub fn parents(&self) -> (parents: &Vec<Citation>)
        ensures
            parents@ == self@.parents,
    {
        &self.parents
    }

    pub fn values(&self) -> (values: &Vec<ConsensusValue>)
        ensures
            values@ == self@.values,
    {
        &self.values
    }

    pub fn signature(&self) -> (signature: &Vec<u8>)
        ensures
            signature@ == self@.signature,
    {
        &self.signature
    }
}

impl Clone for Vertex {
    fn clone(&self) -> (copy: Self)
        ensures
            copy@ == self@,
    {
        proof {
            use_type_invariant(self);
        }
        Vertex {
            id: self.id,
            creator: self.creator,
            sequence_number: self.sequence_number,
            parents: self.parents.clone(),
            values: self.values.clone(),
            signature: self.signature.clone(),
        }
    }
}

impl PartialEq for Vertex {
    /// Vertices are equal when their identifiers are.
    fn eq(&self, other: &Self) -> (equal: bool) {
        self.id == other.id
    }
}

impl Eq for Vertex {

}

impl vstd::std_specs::cmp::PartialEqSpecImpl for Vertex {
    open spec fn obeys_eq_spec() -> bool {
        true
    }

    open spec fn eq_spec(&self, other: &Self) -> bool {
        self@.id == other@.id
    }
}

/// Equal content carries an equal identifier.
pub proof fn equal_content_has_equal_id(a: VertexData, b: VertexData)
    requires
        a.well_formed(),
        b.well_formed(),
        a.creator == b.creator,
        a.sequence_number == b.sequence_number,
        a.parents == b.parents,
        a.values == b.values,
    ensures
        a.id == b.id,
{
}

} // verus!
