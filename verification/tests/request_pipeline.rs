use sn2_validator::json::Json;
use sn2_validator::request_pipeline::{RequestPipeline, MAX_HASHES};
use sn2_validator::types::{Circuit, ProofSystem};

use sha2::{Digest, Sha256};

fn member(key: &str, value: Json) -> Json {
    Json::Object(vec![(key.to_string(), value)])
}

#[test]
fn check_hash_returns_some_on_first_insert() {
    let mut pipeline = RequestPipeline::new();
    assert!(pipeline.check_hash(&member("a", Json::Unsigned(1))).is_some());
}

#[test]
fn check_hash_returns_none_on_duplicate() {
    let mut pipeline = RequestPipeline::new();
    let inputs = member("a", Json::Unsigned(1));
    pipeline.check_hash(&inputs);
    assert!(pipeline.check_hash(&inputs).is_none());
}

#[test]
fn release_hash_allows_reinsert() {
    let mut pipeline = RequestPipeline::new();
    let inputs = member("x", Json::Unsigned(42));
    let hash = pipeline.check_hash(&inputs).unwrap();
    pipeline.release_hash(&hash);
    assert!(pipeline.check_hash(&inputs).is_some());
}

#[test]
fn check_dslice_hash_deduplicates() {
    let mut pipeline = RequestPipeline::new();
    assert!(pipeline.check_dslice_hash("circuit1", "slice0", "run1", None).is_some());
    assert!(pipeline.check_dslice_hash("circuit1", "slice0", "run1", None).is_none());
}

#[test]
fn check_dslice_hash_varies_with_component() {
    let mut pipeline = RequestPipeline::new();
    assert!(pipeline.check_dslice_hash("circuit1", "slice0", "run1", None).is_some());
    assert!(pipeline.check_dslice_hash("circuit1", "slice0", "run2", None).is_some());
}

#[test]
fn check_dslice_hash_varies_with_tile_idx() {
    let mut pipeline = RequestPipeline::new();
    assert!(pipeline.check_dslice_hash("circuit1", "slice0", "run1", Some(0)).is_some());
    assert!(pipeline.check_dslice_hash("circuit1", "slice0", "run1", Some(1)).is_some());
    assert!(pipeline.check_dslice_hash("circuit1", "slice0", "run1", Some(0)).is_none());
}

#[test]
fn different_inputs_produce_different_hashes() {
    let mut pipeline = RequestPipeline::new();
    let h1 = pipeline.check_hash(&member("a", Json::Unsigned(1))).unwrap();
    let h2 = pipeline.check_hash(&member("a", Json::Unsigned(2))).unwrap();
    assert_ne!(h1, h2);
}

#[test]
fn eviction_at_capacity() {
    let mut pipeline = RequestPipeline::with_capacity(8);
    let first_input = member("i", Json::Negative(-1));
    pipeline.check_hash(&first_input);
    for i in 0..8 {
        pipeline.check_hash(&member("i", Json::Unsigned(i)));
    }
    assert!(
        pipeline.check_hash(&first_input).is_some(),
        "earliest hash should have been evicted"
    );
}

#[test]
fn clear_guard_resets_state() {
    let mut pipeline = RequestPipeline::new();
    let inputs = member("key", Json::Text("val".to_string()));
    pipeline.check_hash(&inputs);
    pipeline.clear_guard();
    assert!(pipeline.check_hash(&inputs).is_some());
}

#[test]
fn fingerprints_are_digests_of_the_text() {
    let mut pipeline = RequestPipeline::new();
    let hash = pipeline.check_hash(&member("a", Json::Unsigned(1))).unwrap();
    let digest = Sha256::digest(b"{\"a\":1}");
    let expected: String = digest.iter().map(|b| format!("{b:02x}")).collect();
    assert_eq!(hash, expected);
}

#[test]
fn fingerprints_keep_every_digit() {
    let mut pipeline = RequestPipeline::new();
    let number = Json::Decimal("0.9452706955539223".to_string());
    let hash = pipeline.check_hash(&member("a", number)).unwrap();
    let digest = Sha256::digest(b"{\"a\":0.9452706955539223}");
    let expected: String = digest.iter().map(|b| format!("{b:02x}")).collect();
    assert_eq!(hash, expected);
}

#[test]
fn only_so_many_fingerprints_are_kept() {
    assert_eq!(MAX_HASHES, 32768);
    let mut pipeline = RequestPipeline::with_capacity(3);
    for i in 0..10 {
        pipeline.check_hash(&member("i", Json::Unsigned(i)));
    }
    assert_eq!(pipeline.len(), 3);
}

#[test]
fn requests_carry_what_they_are_made_of() {
    let pipeline = RequestPipeline::new();
    let circuit = Circuit {
        id: "c".to_string(),
        name: "n".to_string(),
        proof_system: ProofSystem { code: 1 },
    };
    let model = pipeline.prepare_dslice_request(
        &circuit,
        member("a", Json::Unsigned(1)),
        None,
        "slice_0",
        "run",
        ProofSystem { code: 1 },
        Some("sha".to_string()),
    );
    assert_eq!(model.circuit, Some("c".to_string()));
    assert!(model.outputs.is_none());
    assert_eq!(model.proof_system, ProofSystem { code: 1 });
}

#[test]
fn a_claim_outlasts_fewer_claims_than_are_kept() {
    let text = |n: u64| Json::Unsigned(n);
    let mut pipeline = RequestPipeline::with_capacity(3);
    let hash = pipeline.check_hash(&text(0)).expect("new");
    let other = pipeline.check_hash(&text(1)).expect("new");
    assert!(pipeline.check_hash(&text(1)).is_none());
    pipeline.release_hash(&other);
    assert!(pipeline.check_hash(&text(2)).is_some());
    assert!(pipeline.check_hash(&text(0)).is_none());
    assert!(pipeline.check_hash(&text(3)).is_some());
    pipeline.release_hash(&hash);
    assert_eq!(pipeline.check_hash(&text(0)), Some(hash.clone()));
    pipeline.clear_guard();
    assert_eq!(pipeline.check_hash(&text(0)), Some(hash));
}
