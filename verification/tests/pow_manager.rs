use sn2_validator::json::Json;
use sn2_validator::pow_manager::{
    witness_scores, PowItem, PowManager, WitnessLayout, WitnessNumber,
};

const BATCH: usize = 256;

fn number(text: &str) -> Json {
    Json::Decimal(text.to_string())
}

fn make_item(uid: u16) -> PowItem {
    PowItem {
        miner_uid: uid,
        validator_uid: 0,
        verified: true,
        response_time: number("1.0"),
        proof_size: 100,
        previous_score: number("0.0"),
        maximum_score: number("1.0"),
        maximum_response_time: number("2.0"),
        minimum_response_time: number("0.5"),
        block_number: 1000,
    }
}

#[test]
fn new_manager_is_empty() {
    let mgr = PowManager::new(BATCH);
    assert!(!mgr.should_batch());
    assert_eq!(mgr.queue.len(), 0);
}

#[test]
fn should_batch_at_threshold() {
    let mut mgr = PowManager::new(BATCH);
    for i in 0..BATCH {
        mgr.push(make_item(i as u16));
    }
    assert!(mgr.should_batch());
}

#[test]
fn drain_batch_takes_up_to_max() {
    let mut mgr = PowManager::new(BATCH);
    for i in 0..BATCH + 5 {
        mgr.push(make_item(i as u16));
    }
    let batch = mgr.drain_batch();
    assert_eq!(batch.len(), BATCH);
    assert_eq!(batch[0].miner_uid, 0);
    assert_eq!(mgr.queue.len(), 5);
    assert_eq!(mgr.queue[0].miner_uid, BATCH as u16);
}

#[test]
fn drain_batch_partial_when_under_threshold() {
    let mut mgr = PowManager::new(BATCH);
    let n = BATCH / 2;
    for i in 0..n {
        mgr.push(make_item(i as u16));
    }
    assert!(!mgr.should_batch());
    let batch = mgr.drain_batch();
    assert_eq!(batch.len(), n);
    assert_eq!(mgr.queue.len(), 0);
}

#[test]
fn prepare_inputs_structure() {
    let items = vec![make_item(1), make_item(2)];
    let json = PowManager::prepare_inputs(&items);
    assert_eq!(json.as_object().unwrap().len(), 10);
    let uids = json.get("miner_uid").unwrap().as_array().unwrap();
    assert_eq!(uids.len(), 2);
    assert_eq!(uids[1].as_u64(), Some(2));
    assert_eq!(json.get("verified").unwrap().as_array().unwrap()[0].as_u64(), Some(1));
}

fn witness(v: f64) -> WitnessNumber {
    let rounded = v.round();
    WitnessNumber {
        uid: if v.is_finite() && (0.0..=65535.0).contains(&rounded) {
            Some(rounded as u16)
        } else {
            None
        },
        score: if v.is_finite() { Some(v.to_bits()) } else { None },
    }
}

#[test]
fn proved_scores_are_read_by_their_places() {
    let layout = WitnessLayout { stride: 3, arrays: 2, scores_offset: 0, uids_offset: 3 };
    let outputs: Vec<WitnessNumber> =
        [0.5, f64::NAN, 0.25, 4.2, 5.0, -7.0].iter().map(|v| witness(*v)).collect();
    let (uids, scores) = witness_scores(&outputs, layout).unwrap();
    assert_eq!(uids, vec![4]);
    assert_eq!(scores, vec![0.5f64.to_bits()]);
    assert!(witness_scores(&outputs[..5].to_vec(), layout).is_none());
}
