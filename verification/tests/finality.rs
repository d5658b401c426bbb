use consensus_protocol::finality::{FinalityDetector, Weight};
use consensus_protocol::protocol_state::DagStore;
use consensus_protocol::validator::ConsensusContext;
use consensus_protocol::vertex::{Citation, ConsensusValue, ValidatorId, Vertex, VertexId};

struct Open;

impl ConsensusContext for Open {
    fn verify_signature(&self, _creator: ValidatorId, _id: VertexId, signature: &Vec<u8>) -> bool {
        signature.is_empty()
    }
}

const A: u64 = 1;
const B: u64 = 2;
const C: u64 = 3;

fn vertex(creator: u64, seq: u64, parents: &[(u64, VertexId)], values: &[u64]) -> Vertex {
    let cites: Vec<Citation> = parents
        .iter()
        .map(|(w, id)| Citation { validator: ValidatorId(*w), vertex: *id })
        .collect();
    let vals: Vec<ConsensusValue> = values.iter().map(|x| ConsensusValue(*x)).collect();
    Vertex::new(ValidatorId(creator), seq, cites, vals, Vec::new()).unwrap()
}

fn add(store: &mut DagStore, v: &Vertex) -> VertexId {
    assert_eq!(store.add_vertex(v.clone(), &Open).unwrap(), Some(v.id()));
    v.id()
}

fn equal_weights() -> Vec<Weight> {
    [A, B, C]
        .iter()
        .map(|w| Weight { validator: ValidatorId(*w), weight: 1 })
        .collect()
}

#[test]
fn batch_is_final_once_all_three_support_it() {
    let mut store = DagStore::new();
    let mut detector = FinalityDetector::new(equal_weights(), 2);
    let v1 = vertex(A, 0, &[], &[100, 101]);
    let id1 = add(&mut store, &v1);
    assert!(detector.poll(&store).is_empty());
    let vb = vertex(B, 0, &[(A, id1)], &[]);
    add(&mut store, &vb);
    assert!(detector.poll(&store).is_empty());
    assert_eq!(detector.support_of(&store, id1), Some(2));
    let vc = vertex(C, 0, &[(A, id1)], &[]);
    add(&mut store, &vc);
    assert_eq!(detector.support_of(&store, id1), Some(3));
    let batches = detector.poll(&store);
    assert_eq!(batches.len(), 1);
    assert_eq!(batches[0].vertex, id1);
    assert_eq!(batches[0].creator, ValidatorId(A));
    assert_eq!(batches[0].values, vec![ConsensusValue(100), ConsensusValue(101)]);
    // Reported once.
    assert!(detector.poll(&store).is_empty());
    assert!(detector.poll(&store).is_empty());
    assert_eq!(detector.finalized(), &vec![id1]);
    assert!(detector.is_finalized(id1));
    assert!(!detector.is_finalized(vb.id()));
}

#[test]
fn support_must_exceed_the_threshold() {
    let mut store = DagStore::new();
    let v1 = vertex(A, 0, &[], &[1]);
    let id1 = add(&mut store, &v1);
    let vb = vertex(B, 0, &[(A, id1)], &[]);
    add(&mut store, &vb);
    let mut strict = FinalityDetector::new(equal_weights(), 2);
    let mut lenient = FinalityDetector::new(equal_weights(), 1);
    assert!(strict.poll(&store).is_empty());
    let batches = lenient.poll(&store);
    assert_eq!(batches.len(), 1);
    assert_eq!(batches[0].vertex, id1);
}

#[test]
fn weights_are_summed() {
    let mut store = DagStore::new();
    let weights = vec![
        Weight { validator: ValidatorId(A), weight: 5 },
        Weight { validator: ValidatorId(B), weight: 7 },
        Weight { validator: ValidatorId(C), weight: u64::MAX },
    ];
    let detector = FinalityDetector::new(weights, 0);
    let a0 = vertex(A, 0, &[], &[]);
    let ida = add(&mut store, &a0);
    assert_eq!(detector.support_of(&store, ida), Some(5));
    let b0 = vertex(B, 0, &[(A, ida)], &[]);
    let idb = add(&mut store, &b0);
    assert_eq!(detector.support_of(&store, ida), Some(12));
    assert_eq!(detector.support_of(&store, idb), Some(7));
    let c0 = vertex(C, 0, &[(A, ida), (B, idb)], &[]);
    let idc = add(&mut store, &c0);
    assert_eq!(detector.support_of(&store, ida), Some(12 + u64::MAX as u128));
    assert_eq!(detector.support_of(&store, idb), Some(7 + u64::MAX as u128));
    assert_eq!(detector.support_of(&store, idc), Some(u64::MAX as u128));
    assert_eq!(detector.support_of(&store, VertexId(1)), None);
}

#[test]
fn support_reaches_through_several_generations() {
    let mut store = DagStore::new();
    let detector = FinalityDetector::new(equal_weights(), 2);
    let a0 = vertex(A, 0, &[], &[]);
    let ida0 = add(&mut store, &a0);
    let b0 = vertex(B, 0, &[(A, ida0)], &[]);
    let idb0 = add(&mut store, &b0);
    let c0 = vertex(C, 0, &[(A, ida0), (B, idb0)], &[]);
    let idc0 = add(&mut store, &c0);
    let a1 = vertex(A, 1, &[(A, ida0), (B, idb0), (C, idc0)], &[]);
    let ida1 = add(&mut store, &a1);
    assert_eq!(detector.support_of(&store, ida0), Some(3));
    assert_eq!(detector.support_of(&store, idb0), Some(3));
    assert_eq!(detector.support_of(&store, idc0), Some(2));
    assert_eq!(detector.support_of(&store, ida1), Some(1));
}

#[test]
fn batches_come_in_causal_order() {
    let mut store = DagStore::new();
    let mut detector = FinalityDetector::new(equal_weights(), 2);
    let a0 = vertex(A, 0, &[], &[1]);
    let ida0 = add(&mut store, &a0);
    let b0 = vertex(B, 0, &[(A, ida0)], &[2]);
    let idb0 = add(&mut store, &b0);
    let c0 = vertex(C, 0, &[(A, ida0), (B, idb0)], &[3]);
    let idc0 = add(&mut store, &c0);
    let a1 = vertex(A, 1, &[(A, ida0), (B, idb0), (C, idc0)], &[4]);
    let ida1 = add(&mut store, &a1);
    let b1 = vertex(B, 1, &[(A, ida1), (B, idb0), (C, idc0)], &[5]);
    add(&mut store, &b1);
    let batches = detector.poll(&store);
    let ids: Vec<VertexId> = batches.iter().map(|b| b.vertex).collect();
    assert_eq!(ids, vec![ida0, idb0, idc0]);
    let c1 = vertex(C, 1, &[(A, ida1), (B, b1.id()), (C, idc0)], &[6]);
    add(&mut store, &c1);
    let more = detector.poll(&store);
    let ids: Vec<VertexId> = more.iter().map(|b| b.vertex).collect();
    assert_eq!(ids, vec![ida1]);
    assert_eq!(more[0].values, vec![ConsensusValue(4)]);
    assert_eq!(detector.finalized(), &vec![ida0, idb0, idc0, ida1]);
}

#[test]
fn what_was_final_stays_final() {
    let mut store = DagStore::new();
    let mut detector = FinalityDetector::new(equal_weights(), 1);
    let a0 = vertex(A, 0, &[], &[1]);
    let ida0 = add(&mut store, &a0);
    let b0 = vertex(B, 0, &[(A, ida0)], &[]);
    add(&mut store, &b0);
    let batches = detector.poll(&store);
    assert_eq!(batches.len(), 1);
    assert_eq!(batches[0].vertex, ida0);
    // B equivocates with a vertex that has not seen A's: its latest vertex no
    // longer supports A's batch.
    let other = vertex(B, 0, &[], &[9]);
    add(&mut store, &other);
    assert!(store.is_equivocator(ValidatorId(B)));
    assert_eq!(detector.support_of(&store, ida0), Some(1));
    assert!(detector.poll(&store).is_empty());
    assert!(detector.is_finalized(ida0));
    assert_eq!(detector.finalized(), &vec![ida0]);
}

#[test]
fn validators_without_weight_do_not_count() {
    let mut store = DagStore::new();
    let weights = vec![Weight { validator: ValidatorId(A), weight: 1 }];
    let mut detector = FinalityDetector::new(weights, 1);
    let a0 = vertex(A, 0, &[], &[1]);
    let ida0 = add(&mut store, &a0);
    let b0 = vertex(B, 0, &[(A, ida0)], &[]);
    add(&mut store, &b0);
    let c0 = vertex(C, 0, &[(A, ida0)], &[]);
    add(&mut store, &c0);
    assert_eq!(detector.support_of(&store, ida0), Some(1));
    assert!(detector.poll(&store).is_empty());
}

#[test]
fn replay_in_another_order_rebuilds_store_and_finality() {
    let mut store = DagStore::new();
    let a0 = vertex(A, 0, &[], &[1]);
    let ida0 = add(&mut store, &a0);
    let b0 = vertex(B, 0, &[], &[2]);
    let idb0 = add(&mut store, &b0);
    let c0 = vertex(C, 0, &[(A, ida0)], &[3]);
    let idc0 = add(&mut store, &c0);
    let a1 = vertex(A, 1, &[(A, ida0), (B, idb0)], &[4]);
    let ida1 = add(&mut store, &a1);
    let b1 = vertex(B, 1, &[(A, ida0), (B, idb0), (C, idc0)], &[5]);
    let idb1 = add(&mut store, &b1);
    let c1 = vertex(C, 1, &[(A, ida1), (B, idb1), (C, idc0)], &[6]);
    let idc1 = add(&mut store, &c1);

    // The vertices as they would be read back from a serialised store.
    let saved: Vec<Vertex> = (0..store.len()).map(|i| store.nth(i).clone()).collect();
    let order = [1, 0, 3, 2, 4, 5];
    let mut rebuilt = DagStore::new();
    for i in order {
        assert_eq!(
            rebuilt.add_vertex(saved[i].clone(), &Open).unwrap(),
            Some(saved[i].id())
        );
    }
    assert_eq!(rebuilt.len(), store.len());
    for id in [ida0, idb0, idc0, ida1, idb1, idc1] {
        let was = store.get_vertex(id).unwrap().unwrap();
        let is = rebuilt.get_vertex(id).unwrap().unwrap();
        assert_eq!(was.id(), is.id());
        assert_eq!(was.creator(), is.creator());
        assert_eq!(was.sequence_number(), is.sequence_number());
        assert_eq!(was.parents(), is.parents());
        assert_eq!(was.values(), is.values());
        assert_eq!(was.signature(), is.signature());
        let mut kids_before = store.children(id);
        let mut kids_after = rebuilt.children(id);
        kids_before.sort_by_key(|k| k.0);
        kids_after.sort_by_key(|k| k.0);
        assert_eq!(kids_before, kids_after);
    }
    for w in [A, B, C] {
        assert_eq!(store.latest(ValidatorId(w)), rebuilt.latest(ValidatorId(w)));
        assert_eq!(
            store.is_equivocator(ValidatorId(w)),
            rebuilt.is_equivocator(ValidatorId(w))
        );
    }
    let mut first = FinalityDetector::new(equal_weights(), 2);
    let mut second = FinalityDetector::new(equal_weights(), 2);
    let mut before: Vec<VertexId> = first.poll(&store).iter().map(|b| b.vertex).collect();
    let mut after: Vec<VertexId> = second.poll(&rebuilt).iter().map(|b| b.vertex).collect();
    assert!(!before.is_empty());
    before.sort_by_key(|k| k.0);
    after.sort_by_key(|k| k.0);
    assert_eq!(before, after);
}
