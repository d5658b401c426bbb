use consensus_protocol::protocol_state::{DagStore, Error};
use consensus_protocol::validator::{ConsensusContext, ValidationError, Validator};
use consensus_protocol::vertex::{Citation, ConsensusValue, ValidatorId, Vertex, VertexId};

/// A context whose signatures are the identifier's bytes, each added to the
/// creator's number.
struct Keys;

fn sign(creator: ValidatorId, id: VertexId) -> Vec<u8> {
    id.0.to_le_bytes()
        .iter()
        .map(|b| b.wrapping_add(creator.0 as u8))
        .collect()
}

impl ConsensusContext for Keys {
    fn verify_signature(&self, creator: ValidatorId, id: VertexId, signature: &Vec<u8>) -> bool {
        *signature == sign(creator, id)
    }
}

fn signed(creator: u64, seq: u64, parents: Vec<(u64, VertexId)>, values: Vec<u64>) -> Vertex {
    let cites: Vec<Citation> = parents
        .iter()
        .map(|(w, id)| Citation { validator: ValidatorId(*w), vertex: *id })
        .collect();
    let vals: Vec<ConsensusValue> = values.iter().map(|x| ConsensusValue(*x)).collect();
    let unsigned = Vertex::new(ValidatorId(creator), seq, cites.clone(), vals.clone(), Vec::new())
        .unwrap();
    let sig = sign(ValidatorId(creator), unsigned.id());
    Vertex::new(ValidatorId(creator), seq, cites, vals, sig).unwrap()
}

fn take(store: &mut DagStore, v: &Vertex) -> VertexId {
    let id = v.id();
    assert_eq!(store.add_vertex(v.clone(), &Keys).unwrap(), Some(id));
    id
}

#[test]
fn inserted_vertex_is_returned_by_get() {
    let mut store = DagStore::new();
    let v = signed(1, 0, vec![], vec![10, 20]);
    let id = v.id();
    assert_eq!(store.add_vertex(v.clone(), &Keys).unwrap(), Some(id));
    let found = store.get_vertex(id).unwrap().unwrap();
    assert_eq!(found.id(), id);
    assert_eq!(found.creator(), ValidatorId(1));
    assert_eq!(found.sequence_number(), 0);
    assert_eq!(found.values(), &vec![ConsensusValue(10), ConsensusValue(20)]);
    assert_eq!(found.signature(), v.signature());
    assert!(store.get_vertex(VertexId(id.0 ^ 1)).unwrap().is_none());
    assert!(store.contains(id));
    assert_eq!(store.position(id), Some(0));
    assert_eq!(store.vertex(id).unwrap().id(), id);
    assert_eq!(store.nth(0).id(), id);
}

#[test]
fn inserted_vertex_stays_found_after_later_insertions() {
    let mut store = DagStore::new();
    let a0 = signed(1, 0, vec![], vec![1]);
    let ida = take(&mut store, &a0);
    let b0 = signed(2, 0, vec![(1, ida)], vec![2]);
    let idb = take(&mut store, &b0);
    let a1 = signed(1, 1, vec![(1, ida), (2, idb)], vec![3]);
    let ida1 = take(&mut store, &a1);
    assert_eq!(store.len(), 3);
    let found = store.get_vertex(ida).unwrap().unwrap();
    assert_eq!(found.values(), &vec![ConsensusValue(1)]);
    assert_eq!(store.get_vertex(idb).unwrap().unwrap().parents(), b0.parents());
    assert_eq!(store.get_vertex(ida1).unwrap().unwrap().sequence_number(), 1);
}

#[test]
fn second_insertion_is_a_no_op() {
    let mut store = DagStore::new();
    let a0 = signed(1, 0, vec![], vec![1]);
    let ida = take(&mut store, &a0);
    let b0 = signed(2, 0, vec![(1, ida)], vec![2]);
    let idb = take(&mut store, &b0);
    assert_eq!(store.add_vertex(a0.clone(), &Keys).unwrap(), None);
    assert_eq!(store.add_vertex(b0.clone(), &Keys).unwrap(), None);
    assert_eq!(store.add_vertex(a0.clone(), &Keys).unwrap(), None);
    assert_eq!(store.len(), 2);
    assert_eq!(store.latest(ValidatorId(1)), Some(ida));
    assert_eq!(store.latest(ValidatorId(2)), Some(idb));
    assert_eq!(store.children(ida), vec![idb]);
    assert_eq!(store.children(idb), vec![]);
    assert!(!store.is_equivocator(ValidatorId(1)));
    assert!(!store.is_equivocator(ValidatorId(2)));
}

#[test]
fn missing_parent_is_reported() {
    let mut store = DagStore::new();
    let a0 = signed(1, 0, vec![], vec![1]);
    let b0 = signed(2, 0, vec![], vec![1]);
    let c0 = signed(3, 0, vec![(1, a0.id()), (2, b0.id())], vec![2]);
    assert_eq!(store.missing_dependencies(&c0), vec![a0.id(), b0.id()]);
    match store.add_vertex(c0.clone(), &Keys) {
        Err(Error::MissingDependency(lacking)) => assert_eq!(lacking, vec![a0.id(), b0.id()]),
        other => panic!("unexpected {:?}", other),
    }
    assert_eq!(store.len(), 0);
    take(&mut store, &b0);
    assert_eq!(store.missing_dependencies(&c0), vec![a0.id()]);
    match store.add_vertex(c0.clone(), &Keys) {
        Err(Error::MissingDependency(lacking)) => assert_eq!(lacking, vec![a0.id()]),
        other => panic!("unexpected {:?}", other),
    }
    take(&mut store, &a0);
    assert_eq!(store.missing_dependencies(&c0), vec![]);
    take(&mut store, &c0);
}

#[test]
fn missing_parent_comes_before_a_bad_signature() {
    let mut store = DagStore::new();
    let a0 = signed(1, 0, vec![], vec![1]);
    let cites = vec![Citation { validator: ValidatorId(1), vertex: a0.id() }];
    let forged = Vertex::new(ValidatorId(1), 1, cites, vec![], vec![0]).unwrap();
    assert!(matches!(
        store.add_vertex(forged, &Keys),
        Err(Error::MissingDependency(_))
    ));
}

#[test]
fn bad_signature_is_invalid() {
    let mut store = DagStore::new();
    let v = Vertex::new(ValidatorId(1), 0, vec![], vec![], vec![0xff]).unwrap();
    let id = v.id();
    assert!(matches!(
        store.add_vertex(v, &Keys),
        Err(Error::InvalidVertex(ValidationError::BadSignature))
    ));
    assert!(store.get_vertex(id).unwrap().is_none());
    assert_eq!(store.len(), 0);
    assert_eq!(store.latest(ValidatorId(1)), None);
}

#[test]
fn first_vertex_of_a_validator_has_sequence_number_zero() {
    let mut store = DagStore::new();
    let late = signed(1, 1, vec![], vec![]);
    assert!(matches!(
        store.add_vertex(late, &Keys),
        Err(Error::InvalidVertex(ValidationError::BadSequenceNumber))
    ));
    assert_eq!(store.len(), 0);
}

#[test]
fn sequence_number_is_one_more_than_that_of_the_own_parent() {
    let mut store = DagStore::new();
    let a0 = signed(1, 0, vec![], vec![]);
    let ida = take(&mut store, &a0);
    let skipping = signed(1, 2, vec![(1, ida)], vec![]);
    assert!(matches!(
        store.add_vertex(skipping, &Keys),
        Err(Error::InvalidVertex(ValidationError::BadSequenceNumber))
    ));
    let repeating = signed(1, 0, vec![(1, ida)], vec![]);
    assert!(matches!(
        store.add_vertex(repeating, &Keys),
        Err(Error::InvalidVertex(ValidationError::BadSequenceNumber))
    ));
    let next = signed(1, 1, vec![(1, ida)], vec![]);
    take(&mut store, &next);
    assert_eq!(store.len(), 2);
}

#[test]
fn citation_must_name_a_vertex_of_its_validator() {
    let mut store = DagStore::new();
    let a0 = signed(1, 0, vec![], vec![]);
    let ida = take(&mut store, &a0);
    let wrong = signed(3, 0, vec![(2, ida)], vec![]);
    assert!(matches!(
        store.add_vertex(wrong, &Keys),
        Err(Error::InvalidVertex(ValidationError::MisattributedReference))
    ));
    assert_eq!(store.len(), 1);
}

#[test]
fn stale_citation_is_invalid() {
    let mut store = DagStore::new();
    let a0 = signed(1, 0, vec![], vec![]);
    let ida0 = take(&mut store, &a0);
    let a1 = signed(1, 1, vec![(1, ida0)], vec![]);
    let ida1 = take(&mut store, &a1);
    let b0 = signed(2, 0, vec![(1, ida1)], vec![]);
    let idb0 = take(&mut store, &b0);
    // C has seen B's vertex, which has seen A's second vertex, yet names A's first.
    let stale = signed(3, 0, vec![(1, ida0), (2, idb0)], vec![]);
    assert!(matches!(
        store.add_vertex(stale, &Keys),
        Err(Error::InvalidVertex(ValidationError::StaleReference))
    ));
    // Leaving A out altogether is stale as well.
    let blind = signed(3, 0, vec![(2, idb0)], vec![]);
    assert!(matches!(
        store.add_vertex(blind, &Keys),
        Err(Error::InvalidVertex(ValidationError::StaleReference))
    ));
    let fresh = signed(3, 0, vec![(1, ida1), (2, idb0)], vec![]);
    take(&mut store, &fresh);
    assert_eq!(store.len(), 4);
}

#[test]
fn own_chain_must_not_fall_behind_what_a_parent_has_seen() {
    let mut store = DagStore::new();
    let a0 = signed(1, 0, vec![], vec![]);
    let ida0 = take(&mut store, &a0);
    let a1 = signed(1, 1, vec![(1, ida0)], vec![]);
    let ida1 = take(&mut store, &a1);
    let b0 = signed(2, 0, vec![(1, ida1)], vec![]);
    let idb0 = take(&mut store, &b0);
    // A builds on its first vertex although B has already seen its second.
    let fork = signed(1, 1, vec![(1, ida0), (2, idb0)], vec![9]);
    assert!(matches!(
        store.add_vertex(fork, &Keys),
        Err(Error::InvalidVertex(ValidationError::StaleReference))
    ));
}

#[test]
fn equivocating_vertices_are_both_kept_and_the_creator_is_flagged() {
    let mut store = DagStore::new();
    let one = signed(1, 0, vec![], vec![1]);
    let two = signed(1, 0, vec![], vec![2]);
    assert_ne!(one.id(), two.id());
    let id1 = take(&mut store, &one);
    assert!(!store.is_equivocator(ValidatorId(1)));
    let id2 = take(&mut store, &two);
    assert!(store.is_equivocator(ValidatorId(1)));
    assert!(!store.is_equivocator(ValidatorId(2)));
    assert_eq!(
        store.get_vertex(id1).unwrap().unwrap().values(),
        &vec![ConsensusValue(1)]
    );
    assert_eq!(
        store.get_vertex(id2).unwrap().unwrap().values(),
        &vec![ConsensusValue(2)]
    );
    // The latest vertex is the one seen last, not the one to be trusted.
    assert_eq!(store.latest(ValidatorId(1)), Some(id2));
    assert_eq!(
        Validator::check(&two, &store, true),
        Err(ValidationError::Equivocation)
    );
    let three = signed(1, 0, vec![], vec![3]);
    assert_eq!(
        Validator::check(&three, &store, true),
        Err(ValidationError::Equivocation)
    );
    assert_eq!(
        Validator::validate(&three, &store, &Keys),
        Err(ValidationError::Equivocation)
    );
}

#[test]
fn equivocation_later_in_a_chain_is_flagged() {
    let mut store = DagStore::new();
    let a0 = signed(1, 0, vec![], vec![]);
    let ida0 = take(&mut store, &a0);
    let a1 = signed(1, 1, vec![(1, ida0)], vec![1]);
    take(&mut store, &a1);
    assert!(!store.is_equivocator(ValidatorId(1)));
    let other = signed(1, 1, vec![(1, ida0)], vec![2]);
    let id = take(&mut store, &other);
    assert!(store.is_equivocator(ValidatorId(1)));
    assert_eq!(store.latest(ValidatorId(1)), Some(id));
    assert_eq!(store.children(ida0), vec![a1.id(), id]);
}

#[test]
fn checks_are_made_in_order() {
    let mut store = DagStore::new();
    let a0 = signed(1, 0, vec![], vec![]);
    let ida0 = take(&mut store, &a0);
    // Bad signature and bad sequence number: the signature decides.
    let v = signed(1, 5, vec![(1, ida0)], vec![]);
    assert_eq!(
        Validator::check(&v, &store, false),
        Err(ValidationError::BadSignature)
    );
    assert_eq!(
        Validator::check(&v, &store, true),
        Err(ValidationError::BadSequenceNumber)
    );
    // Good sequence number and an absent vertex.
    let w = signed(2, 0, vec![(1, VertexId(77))], vec![]);
    assert_eq!(
        Validator::check(&w, &store, true),
        Err(ValidationError::MissingDependency)
    );
    // An own parent that is absent leaves the sequence number open.
    let x = signed(1, 4, vec![(1, VertexId(77))], vec![]);
    assert_eq!(
        Validator::check(&x, &store, true),
        Err(ValidationError::MissingDependency)
    );
    let ok = signed(2, 0, vec![(1, ida0)], vec![]);
    assert_eq!(Validator::check(&ok, &store, true), Ok(()));
    assert_eq!(Validator::validate(&ok, &store, &Keys), Ok(()));
    assert_eq!(store.len(), 1);
}

#[test]
fn a_full_store_takes_no_more() {
    let mut store = DagStore::with_capacity(1);
    let a0 = signed(1, 0, vec![], vec![]);
    let ida0 = take(&mut store, &a0);
    let a1 = signed(1, 1, vec![(1, ida0)], vec![]);
    assert!(matches!(
        store.add_vertex(a1.clone(), &Keys),
        Err(Error::StorageFault)
    ));
    assert_eq!(store.len(), 1);
    assert_eq!(store.latest(ValidatorId(1)), Some(ida0));
    assert_eq!(store.children(ida0), vec![]);
    assert!(store.get_vertex(a1.id()).unwrap().is_none());
    // What it has, it still knows.
    assert_eq!(store.add_vertex(a0, &Keys).unwrap(), None);
}

#[test]
fn offer_with_a_given_verdict_on_the_signature() {
    let mut store = DagStore::new();
    let unsigned = Vertex::new(ValidatorId(1), 0, vec![], vec![], vec![]).unwrap();
    let id = unsigned.id();
    assert!(matches!(
        store.add_vertex_checked(unsigned.clone(), false),
        Err(Error::InvalidVertex(ValidationError::BadSignature))
    ));
    assert_eq!(store.add_vertex_checked(unsigned.clone(), true).unwrap(), Some(id));
    assert_eq!(store.add_vertex_checked(unsigned, true).unwrap(), None);
}

#[test]
fn children_and_latest_follow_the_insertions() {
    let mut store = DagStore::new();
    let a0 = signed(1, 0, vec![], vec![]);
    let ida0 = take(&mut store, &a0);
    let b0 = signed(2, 0, vec![(1, ida0)], vec![]);
    let idb0 = take(&mut store, &b0);
    let c0 = signed(3, 0, vec![(1, ida0), (2, idb0)], vec![]);
    let idc0 = take(&mut store, &c0);
    let a1 = signed(1, 1, vec![(1, ida0), (2, idb0), (3, idc0)], vec![]);
    let ida1 = take(&mut store, &a1);
    assert_eq!(store.children(ida0), vec![idb0, idc0, ida1]);
    assert_eq!(store.children(idb0), vec![idc0, ida1]);
    assert_eq!(store.children(idc0), vec![ida1]);
    assert_eq!(store.children(ida1), vec![]);
    assert_eq!(store.children_at(1), &vec![idc0, ida1]);
    assert_eq!(store.children(VertexId(5)), vec![]);
    assert_eq!(store.latest(ValidatorId(1)), Some(ida1));
    assert_eq!(store.latest(ValidatorId(2)), Some(idb0));
    assert_eq!(store.latest(ValidatorId(3)), Some(idc0));
    assert_eq!(store.latest(ValidatorId(4)), None);
    assert_eq!(store.position(ida1), Some(3));
    assert_eq!(store.position(VertexId(5)), None);
}
