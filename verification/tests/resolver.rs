use consensus_protocol::protocol_state::{DagStore, Error};
use consensus_protocol::resolver::{DependencyResolver, Outcome};
use consensus_protocol::validator::{ConsensusContext, ValidationError};
use consensus_protocol::vertex::{Citation, ConsensusValue, ValidatorId, Vertex, VertexId};

struct Seals;

fn seal(creator: ValidatorId, id: VertexId) -> Vec<u8> {
    let mut bytes = id.0.to_be_bytes().to_vec();
    bytes.push(creator.0 as u8);
    bytes
}

impl ConsensusContext for Seals {
    fn verify_signature(&self, creator: ValidatorId, id: VertexId, signature: &Vec<u8>) -> bool {
        *signature == seal(creator, id)
    }
}

fn content(creator: u64, seq: u64, parents: &[(u64, VertexId)], values: &[u64], sig: Option<Vec<u8>>) -> Vertex {
    let cites: Vec<Citation> = parents
        .iter()
        .map(|(w, id)| Citation { validator: ValidatorId(*w), vertex: *id })
        .collect();
    let vals: Vec<ConsensusValue> = values.iter().map(|x| ConsensusValue(*x)).collect();
    let bare = Vertex::new(ValidatorId(creator), seq, cites.clone(), vals.clone(), Vec::new()).unwrap();
    let signature = match sig {
        Some(bytes) => bytes,
        None => seal(ValidatorId(creator), bare.id()),
    };
    Vertex::new(ValidatorId(creator), seq, cites, vals, signature).unwrap()
}

fn sealed(creator: u64, seq: u64, parents: &[(u64, VertexId)], values: &[u64]) -> Vertex {
    content(creator, seq, parents, values, None)
}

#[test]
fn child_before_parent_is_buffered_and_released() {
    let mut store = DagStore::new();
    let mut resolver = DependencyResolver::new();
    let parent = sealed(1, 0, &[], &[1]);
    let child = sealed(2, 0, &[(1, parent.id())], &[2]);
    // Offered directly, the child is refused for its missing parent.
    match store.add_vertex(child.clone(), &Seals) {
        Err(Error::MissingDependency(lacking)) => assert_eq!(lacking, vec![parent.id()]),
        other => panic!("unexpected {:?}", other),
    }
    match resolver.submit(&mut store, &Seals, child.clone()) {
        Outcome::Pending(lacking) => assert_eq!(lacking, vec![parent.id()]),
        other => panic!("unexpected {:?}", other),
    }
    assert!(resolver.is_pending(child.id()));
    assert_eq!(resolver.missing(child.id()), Some(vec![parent.id()]));
    assert_eq!(resolver.len(), 1);
    assert!(store.get_vertex(child.id()).unwrap().is_none());
    match resolver.submit(&mut store, &Seals, parent.clone()) {
        Outcome::Inserted { id, released } => {
            assert_eq!(id, parent.id());
            assert_eq!(released.len(), 1);
            assert_eq!(released[0].id, child.id());
            assert!(matches!(released[0].result, Ok(Some(got)) if got == child.id()));
        }
        other => panic!("unexpected {:?}", other),
    }
    assert_eq!(resolver.len(), 0);
    assert!(!resolver.is_pending(child.id()));
    assert_eq!(resolver.missing(child.id()), None);
    let found = store.get_vertex(child.id()).unwrap().unwrap();
    assert_eq!(found.values(), &vec![ConsensusValue(2)]);
    assert_eq!(store.position(parent.id()), Some(0));
    assert_eq!(store.position(child.id()), Some(1));
}

#[test]
fn a_chain_submitted_backwards_enters_in_order() {
    let mut store = DagStore::new();
    let mut resolver = DependencyResolver::new();
    let a0 = sealed(1, 0, &[], &[]);
    let a1 = sealed(1, 1, &[(1, a0.id())], &[]);
    let a2 = sealed(1, 2, &[(1, a1.id())], &[]);
    let a3 = sealed(1, 3, &[(1, a2.id())], &[]);
    for v in [&a3, &a2, &a1] {
        assert!(matches!(
            resolver.submit(&mut store, &Seals, v.clone()),
            Outcome::Pending(_)
        ));
    }
    assert_eq!(resolver.len(), 3);
    assert_eq!(store.len(), 0);
    match resolver.submit(&mut store, &Seals, a0.clone()) {
        Outcome::Inserted { id, released } => {
            assert_eq!(id, a0.id());
            let ids: Vec<VertexId> = released.iter().map(|r| r.id).collect();
            assert_eq!(ids, vec![a1.id(), a2.id(), a3.id()]);
            assert!(released.iter().all(|r| matches!(r.result, Ok(Some(_)))));
        }
        other => panic!("unexpected {:?}", other),
    }
    assert_eq!(resolver.len(), 0);
    assert_eq!(store.len(), 4);
    for (at, v) in [&a0, &a1, &a2, &a3].iter().enumerate() {
        assert_eq!(store.position(v.id()), Some(at));
    }
    assert_eq!(store.latest(ValidatorId(1)), Some(a3.id()));
}

#[test]
fn a_vertex_waits_until_all_of_its_parents_are_there() {
    let mut store = DagStore::new();
    let mut resolver = DependencyResolver::new();
    let a0 = sealed(1, 0, &[], &[]);
    let b0 = sealed(2, 0, &[], &[]);
    let c0 = sealed(3, 0, &[(1, a0.id()), (2, b0.id())], &[]);
    match resolver.submit(&mut store, &Seals, c0.clone()) {
        Outcome::Pending(lacking) => assert_eq!(lacking, vec![a0.id(), b0.id()]),
        other => panic!("unexpected {:?}", other),
    }
    match resolver.submit(&mut store, &Seals, b0.clone()) {
        Outcome::Inserted { id, released } => {
            assert_eq!(id, b0.id());
            assert!(released.is_empty());
        }
        other => panic!("unexpected {:?}", other),
    }
    assert_eq!(resolver.missing(c0.id()), Some(vec![a0.id()]));
    assert!(!store.contains(c0.id()));
    match resolver.submit(&mut store, &Seals, a0.clone()) {
        Outcome::Inserted { released, .. } => {
            assert_eq!(released.len(), 1);
            assert_eq!(released[0].id, c0.id());
        }
        other => panic!("unexpected {:?}", other),
    }
    assert!(store.contains(c0.id()));
    assert_eq!(resolver.len(), 0);
}

#[test]
fn one_parent_releases_several_children() {
    let mut store = DagStore::new();
    let mut resolver = DependencyResolver::new();
    let a0 = sealed(1, 0, &[], &[]);
    let b0 = sealed(2, 0, &[(1, a0.id())], &[]);
    let c0 = sealed(3, 0, &[(1, a0.id())], &[]);
    let d0 = sealed(4, 0, &[(1, a0.id()), (2, b0.id()), (3, c0.id())], &[]);
    for v in [&d0, &b0, &c0] {
        assert!(matches!(
            resolver.submit(&mut store, &Seals, v.clone()),
            Outcome::Pending(_)
        ));
    }
    match resolver.submit(&mut store, &Seals, a0.clone()) {
        Outcome::Inserted { released, .. } => {
            let mut ids: Vec<VertexId> = released.iter().map(|r| r.id).collect();
            assert_eq!(*ids.last().unwrap(), d0.id());
            ids.sort_by_key(|id| id.0);
            let mut expected = vec![b0.id(), c0.id(), d0.id()];
            expected.sort_by_key(|id| id.0);
            assert_eq!(ids, expected);
        }
        other => panic!("unexpected {:?}", other),
    }
    assert_eq!(store.len(), 4);
    assert_eq!(resolver.len(), 0);
    assert_eq!(store.position(d0.id()), Some(3));
}

#[test]
fn submitting_a_waiting_vertex_again_replaces_its_entry() {
    let mut store = DagStore::new();
    let mut resolver = DependencyResolver::new();
    let a0 = sealed(1, 0, &[], &[]);
    let a1 = sealed(1, 1, &[(1, a0.id())], &[]);
    let b0 = sealed(2, 0, &[(1, a0.id())], &[]);
    assert!(matches!(resolver.submit(&mut store, &Seals, a1.clone()), Outcome::Pending(_)));
    assert!(matches!(resolver.submit(&mut store, &Seals, b0.clone()), Outcome::Pending(_)));
    assert!(matches!(resolver.submit(&mut store, &Seals, a1.clone()), Outcome::Pending(_)));
    assert_eq!(resolver.len(), 2);
    match resolver.submit(&mut store, &Seals, a0.clone()) {
        Outcome::Inserted { released, .. } => assert_eq!(released.len(), 2),
        other => panic!("unexpected {:?}", other),
    }
    assert_eq!(store.len(), 3);
}

#[test]
fn known_vertex_is_a_duplicate() {
    let mut store = DagStore::new();
    let mut resolver = DependencyResolver::new();
    let a0 = sealed(1, 0, &[], &[]);
    assert!(matches!(
        resolver.submit(&mut store, &Seals, a0.clone()),
        Outcome::Inserted { .. }
    ));
    match resolver.submit(&mut store, &Seals, a0.clone()) {
        Outcome::Duplicate(id) => assert_eq!(id, a0.id()),
        other => panic!("unexpected {:?}", other),
    }
    assert_eq!(store.len(), 1);
    assert_eq!(resolver.len(), 0);
}

#[test]
fn invalid_vertex_is_rejected_and_not_buffered() {
    let mut store = DagStore::new();
    let mut resolver = DependencyResolver::new();
    let forged = content(1, 0, &[], &[], Some(vec![1, 2, 3]));
    assert!(matches!(
        resolver.submit(&mut store, &Seals, forged.clone()),
        Outcome::Rejected(Error::InvalidVertex(ValidationError::BadSignature))
    ));
    let late = sealed(1, 3, &[], &[]);
    assert!(matches!(
        resolver.submit(&mut store, &Seals, late),
        Outcome::Rejected(Error::InvalidVertex(ValidationError::BadSequenceNumber))
    ));
    assert_eq!(store.len(), 0);
    assert_eq!(resolver.len(), 0);
    assert!(store.get_vertex(forged.id()).unwrap().is_none());
}

#[test]
fn released_vertex_that_is_invalid_is_reported_and_dropped() {
    let mut store = DagStore::new();
    let mut resolver = DependencyResolver::new();
    let a0 = sealed(1, 0, &[], &[]);
    let forged = content(2, 0, &[(1, a0.id())], &[], Some(vec![0]));
    let skipping = sealed(1, 2, &[(1, a0.id())], &[]);
    let behind = sealed(3, 0, &[(2, forged.id())], &[]);
    for v in [&forged, &skipping, &behind] {
        assert!(matches!(
            resolver.submit(&mut store, &Seals, v.clone()),
            Outcome::Pending(_)
        ));
    }
    match resolver.submit(&mut store, &Seals, a0.clone()) {
        Outcome::Inserted { released, .. } => {
            assert_eq!(released.len(), 2);
            for report in released.iter() {
                if report.id == forged.id() {
                    assert!(matches!(
                        report.result,
                        Err(Error::InvalidVertex(ValidationError::BadSignature))
                    ));
                } else {
                    assert_eq!(report.id, skipping.id());
                    assert!(matches!(
                        report.result,
                        Err(Error::InvalidVertex(ValidationError::BadSequenceNumber))
                    ));
                }
            }
        }
        other => panic!("unexpected {:?}", other),
    }
    assert_eq!(store.len(), 1);
    // What waits for a vertex that never enters keeps waiting.
    assert_eq!(resolver.len(), 1);
    assert!(resolver.is_pending(behind.id()));
    assert!(!store.contains(forged.id()));
}

#[test]
fn full_store_rejects_the_released_vertex() {
    let mut store = DagStore::with_capacity(1);
    let mut resolver = DependencyResolver::new();
    let a0 = sealed(1, 0, &[], &[]);
    let a1 = sealed(1, 1, &[(1, a0.id())], &[]);
    assert!(matches!(resolver.submit(&mut store, &Seals, a1.clone()), Outcome::Pending(_)));
    match resolver.submit(&mut store, &Seals, a0.clone()) {
        Outcome::Inserted { released, .. } => {
            assert_eq!(released.len(), 1);
            assert!(matches!(released[0].result, Err(Error::StorageFault)));
        }
        other => panic!("unexpected {:?}", other),
    }
    assert_eq!(store.len(), 1);
    assert!(matches!(
        resolver.submit(&mut store, &Seals, a1),
        Outcome::Rejected(Error::StorageFault)
    ));
}

#[test]
fn submission_with_a_given_verdict_on_the_signature() {
    let mut store = DagStore::new();
    let mut resolver = DependencyResolver::new();
    let a0 = Vertex::new(ValidatorId(1), 0, vec![], vec![], vec![]).unwrap();
    let cites = vec![Citation { validator: ValidatorId(1), vertex: a0.id() }];
    let a1 = Vertex::new(ValidatorId(1), 1, cites.clone(), vec![], vec![]).unwrap();
    let b0 = Vertex::new(ValidatorId(2), 0, cites, vec![], vec![]).unwrap();
    // A vertex waits whatever is known of its signature; the answer waits with it.
    assert!(matches!(
        resolver.submit_checked(&mut store, a1.clone(), false),
        Outcome::Pending(_)
    ));
    assert!(matches!(
        resolver.submit_checked(&mut store, b0.clone(), true),
        Outcome::Pending(_)
    ));
    assert!(matches!(
        resolver.submit_checked(&mut store, a0.clone(), false),
        Outcome::Rejected(Error::InvalidVertex(ValidationError::BadSignature))
    ));
    assert_eq!(resolver.len(), 2);
    match resolver.submit_checked(&mut store, a0.clone(), true) {
        Outcome::Inserted { id, released } => {
            assert_eq!(id, a0.id());
            assert_eq!(released.len(), 2);
            for report in released.iter() {
                if report.id == a1.id() {
                    assert!(matches!(
                        report.result,
                        Err(Error::InvalidVertex(ValidationError::BadSignature))
                    ));
                } else {
                    assert_eq!(report.id, b0.id());
                    assert!(matches!(report.result, Ok(Some(id)) if id == b0.id()));
                }
            }
        }
        other => panic!("unexpected {:?}", other),
    }
    assert_eq!(store.len(), 2);
    assert!(store.contains(b0.id()));
    assert!(!store.contains(a1.id()));
    assert_eq!(resolver.len(), 0);
}

#[test]
fn on_inserted_after_a_direct_insertion() {
    let mut store = DagStore::new();
    let mut resolver = DependencyResolver::new();
    let a0 = sealed(1, 0, &[], &[]);
    let a1 = sealed(1, 1, &[(1, a0.id())], &[]);
    assert!(matches!(resolver.submit(&mut store, &Seals, a1.clone()), Outcome::Pending(_)));
    assert_eq!(store.add_vertex(a0.clone(), &Seals).unwrap(), Some(a0.id()));
    let reports = resolver.on_inserted(&mut store, a0.id());
    assert_eq!(reports.len(), 1);
    assert_eq!(reports[0].id, a1.id());
    assert!(store.contains(a1.id()));
    assert_eq!(resolver.len(), 0);
}
