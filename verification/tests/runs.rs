use sn2_validator::consistency::{
    classify_output_consistency, judge, Comparison, OutputConsistency, UNBOUNDED,
};
use sn2_validator::incremental_runner::{
    CounterError, IncrementalRunManager, TileBufferOutcome, TileGrid, MAX_EVICTED,
};
use sn2_validator::json::Json;
use sn2_validator::tensor::{arrayd_to_json, group_expected_region, Tensor};
use sn2_validator::types::RunSource;

fn tensor(shape: &[usize], from: u64) -> Tensor<u64> {
    let count: usize = shape.iter().product();
    Tensor {
        shape: shape.to_vec(),
        data: (from..from + count as u64).map(|v| (v as f64).to_bits()).collect(),
    }
}

#[test]
fn group_region_slices_each_output_along_concat_axis() {
    let arrays = [tensor(&[2, 4, 3], 0), tensor(&[1, 4, 2], 100)];
    let region = group_expected_region(&arrays, 1, 2, 1).unwrap();
    assert_eq!(region.len(), 12 + 4);
    assert_eq!(f64::from_bits(region[0]), 6.0);
    assert_eq!(f64::from_bits(region[12]), 104.0);
    let mut full = group_expected_region(&arrays, 1, 2, 0).unwrap();
    full.extend(group_expected_region(&arrays, 1, 2, 1).unwrap());
    assert_eq!(full.len(), 32);
}

#[test]
fn group_region_rejects_unmappable_shapes() {
    let a = [tensor(&[2, 5, 3], 0)];
    assert!(group_expected_region(&a, 1, 2, 0).is_none());
    assert!(group_expected_region(&a, 9, 2, 0).is_none());
    assert!(group_expected_region(&a, 1, 0, 0).is_none());
    let b = [tensor(&[2, 4, 3], 0)];
    assert!(group_expected_region(&b, 1, 2, 5).is_none());
}

fn make_manager_with_run(run_uid: &str) -> IncrementalRunManager {
    let mut mgr = IncrementalRunManager::new();
    mgr.start_run(
        run_uid.to_string(),
        "test-circuit".to_string(),
        "test".to_string(),
        RunSource::Benchmark,
        None,
        0,
    );
    mgr
}

fn bits(v: &[f64]) -> Vec<u64> {
    v.iter().map(|x| x.to_bits()).collect()
}

/// The largest relative error of the first `n` outputs, once scaled to fit best.
fn max_rel_err(expected: &[f64], actual: &[f64], n: usize) -> f64 {
    let e = &expected[..n];
    let a = &actual[..n];
    let dot: f64 = e.iter().zip(a).map(|(x, y)| x * y).sum();
    let norm_sq: f64 = a.iter().map(|y| y * y).sum();
    let scale = if norm_sq > 1e-24 { dot / norm_sq } else { 0.0 };
    let scale = if scale.is_finite() && scale.abs() > 1e-12 { scale } else { 1.0 };
    let magnitude: f64 = e.iter().map(|x| x.abs()).sum::<f64>() / n as f64;
    let mut worst: f64 = 0.0;
    for (x, y) in e.iter().zip(a) {
        let denom = x.abs().max(magnitude).max(1e-12);
        worst = worst.max((x - scale * y).abs() / denom);
    }
    worst
}

fn classify(expected: &[f64], actual: &[f64]) -> OutputConsistency {
    match classify_output_consistency(&bits(expected), &bits(actual)) {
        Comparison::Settled(r) => r,
        Comparison::Compare(n) => judge(max_rel_err(expected, actual, n).to_bits()),
    }
}

#[test]
fn output_consistency_no_run() {
    let mgr = IncrementalRunManager::new();
    let result = mgr.verify_output_consistency("nonexistent", None, &bits(&[1.0, 2.0]));
    assert_eq!(result, Comparison::Settled(OutputConsistency::NoRun));
}

#[test]
fn output_consistency_no_combined() {
    let mgr = make_manager_with_run("run-1");
    let result = mgr.verify_output_consistency("run-1", None, &bits(&[1.0, 2.0]));
    assert_eq!(result, Comparison::Settled(OutputConsistency::NoExpected));
}

#[test]
fn output_consistency_truncates_to_shorter() {
    let result = classify(&[1.0, 2.0, 3.0], &[1.0, 2.0]);
    assert!(matches!(result, OutputConsistency::Consistent { .. }));
    assert_eq!(
        classify_output_consistency(&bits(&[1.0, 2.0, 3.0]), &bits(&[1.0, 2.0])),
        Comparison::Compare(2)
    );
}

#[test]
fn output_consistency_empty_is_mismatch() {
    let result = classify(&[1.0], &[]);
    assert_eq!(result, OutputConsistency::LengthMismatch { expected: 1, actual: 0 });
    let result = classify(&[], &[1.0]);
    assert_eq!(result, OutputConsistency::LengthMismatch { expected: 0, actual: 1 });
}

#[test]
fn output_consistency_exact_match() {
    let vals = [1.0, 2.0, 3.0];
    let result = classify(&vals, &vals);
    assert_eq!(result, OutputConsistency::Consistent { max_rel_err: 0f64.to_bits() });
}

#[test]
fn output_consistency_within_threshold() {
    let expected = [1.0, 2.0, 3.0];
    let perturbed: Vec<f64> = expected.iter().map(|v| v * 1.01).collect();
    assert!(matches!(classify(&expected, &perturbed), OutputConsistency::Consistent { .. }));
}

#[test]
fn output_consistency_tolerates_uniform_scaling() {
    let result = classify(&[1.0, 2.0, 3.0], &[5.0, 10.0, 15.0]);
    assert!(matches!(result, OutputConsistency::Consistent { .. }));
}

#[test]
fn output_consistency_reordered_outputs_detected() {
    let expected = [0.9, -0.4, 0.05, 0.7, -0.2, 0.33, -0.8, 0.12];
    let shuffled = [0.12, 0.7, -0.8, 0.05, 0.33, -0.4, 0.9, -0.2];
    assert!(matches!(classify(&expected, &shuffled), OutputConsistency::Diverged { .. }));
}

#[test]
fn output_consistency_wrong_region_detected() {
    let expected = [0.9, -0.4, 0.05, 0.7, -0.2, 0.33, -0.8, 0.12];
    let other_region = [0.01, 0.02, -0.99, 0.5, 0.5, -0.5, 0.44, 0.9];
    assert!(matches!(classify(&expected, &other_region), OutputConsistency::Diverged { .. }));
}

#[test]
fn output_consistency_wrong_weights_detected() {
    let result = classify(&[0.95, 0.03, 0.02], &[0.40, 0.35, 0.25]);
    assert!(matches!(result, OutputConsistency::Diverged { .. }));
}

#[test]
fn output_consistency_near_zero_stability() {
    let result = classify(&[1e-15, 0.0, -1e-15], &[0.0, 0.0, 0.0]);
    assert!(matches!(result, OutputConsistency::Consistent { .. }));
}

#[test]
fn output_consistency_normalization_correction() {
    let onnx_expected = [10.0, 20.0, 30.0];
    let norm_factor = 100.0;
    let zk_outputs: Vec<f64> = onnx_expected.iter().map(|v| v / norm_factor).collect();
    let normalized: Vec<f64> = onnx_expected.iter().map(|v| v / norm_factor).collect();
    let result = classify(&normalized, &zk_outputs);
    assert_eq!(result, OutputConsistency::Consistent { max_rel_err: 0f64.to_bits() });
}

#[test]
fn output_consistency_bilinear_double_scaling_tolerated() {
    let onnx_expected = [10.0, -20.0, 30.0, -5.0];
    let norm_factor = 3.74_f64;
    let zk_outputs: Vec<f64> =
        onnx_expected.iter().map(|v| v / (norm_factor * norm_factor)).collect();
    let normalized: Vec<f64> = onnx_expected.iter().map(|v| v / norm_factor).collect();
    assert!(matches!(classify(&normalized, &zk_outputs), OutputConsistency::Consistent { .. }));
}

#[test]
fn output_consistency_nan_detected() {
    let result = classify(&[1.0, f64::NAN, 3.0], &[1.0, 2.0, 3.0]);
    assert_eq!(result, OutputConsistency::Diverged { max_rel_err: f64::INFINITY.to_bits() });
    assert_eq!(UNBOUNDED, f64::INFINITY.to_bits());
}

#[test]
fn output_consistency_inf_detected() {
    let result = classify(&[1.0, 2.0, 3.0], &[1.0, f64::INFINITY, 3.0]);
    assert_eq!(result, OutputConsistency::Diverged { max_rel_err: UNBOUNDED });
    let result = classify(&[1.0, 2.0, 3.0], &[1.0, f64::NEG_INFINITY, 3.0]);
    assert_eq!(result, OutputConsistency::Diverged { max_rel_err: UNBOUNDED });
}

#[test]
fn the_threshold_is_a_tenth() {
    assert!(matches!(judge(0.10f64.to_bits()), OutputConsistency::Consistent { .. }));
    assert!(matches!(judge(0.1001f64.to_bits()), OutputConsistency::Diverged { .. }));
}

#[test]
fn is_slice_skipped_false_before_noting() {
    let mgr = make_manager_with_run("run-1");
    assert!(!mgr.is_slice_skipped("run-1", "slice_a"));
}

#[test]
fn is_slice_skipped_true_after_noting() {
    let mut mgr = make_manager_with_run("run-1");
    mgr.note_slice_skipped("run-1", "slice_a");
    assert!(mgr.is_slice_skipped("run-1", "slice_a"));
    assert!(!mgr.is_slice_skipped("run-1", "slice_b"));
}

#[test]
fn is_slice_skipped_scoped_to_run_uid() {
    let mut mgr = make_manager_with_run("run-1");
    mgr.start_run(
        "run-2".to_string(),
        "test-circuit".to_string(),
        "test".to_string(),
        RunSource::Benchmark,
        None,
        0,
    );
    mgr.note_slice_skipped("run-1", "slice_a");
    assert!(mgr.is_slice_skipped("run-1", "slice_a"));
    assert!(!mgr.is_slice_skipped("run-2", "slice_a"));
}

#[test]
fn skipped_slices_cleared_on_run_removal() {
    let mut mgr = make_manager_with_run("run-1");
    mgr.note_slice_skipped("run-1", "slice_a");
    mgr.remove_run("run-1");
    assert!(!mgr.is_slice_skipped("run-1", "slice_a"));
    assert_eq!(mgr.skipped_slice_count("run-1"), 0);
}

#[test]
fn tiles_count_once_and_complete_the_slice() {
    let mut mgr = make_manager_with_run("run-1");
    let grid = TileGrid { num_tiles: 4, tiles_y: 2, tiles_x: 2 };
    assert_eq!(mgr.init_tile_counter("run-1", "slice_0", &grid, &vec![0, 3]), Ok(()));
    assert!(matches!(mgr.record_tile("run-1", "slice_0", 0, 5), TileBufferOutcome::Waiting));
    assert!(matches!(mgr.record_tile("run-1", "slice_0", 0, 6), TileBufferOutcome::Waiting));
    assert_eq!(mgr.verified_tile_count("run-1", "slice_0"), 1);
    assert!(matches!(mgr.record_tile("run-1", "slice_0", 1, 7), TileBufferOutcome::Waiting));
    assert_eq!(mgr.verified_tile_count("run-1", "slice_0"), 1);
    assert!(matches!(mgr.record_tile("run-1", "slice_0", 3, 8), TileBufferOutcome::AllReceived));
    assert_eq!(mgr.verified_tile_count("run-1", "slice_0"), 2);
    assert!(matches!(mgr.record_tile("run-1", "slice_0", 3, 9), TileBufferOutcome::Waiting));
    assert_eq!(mgr.verified_tile_count("run-1", "slice_0"), 2);
}

#[test]
fn a_tile_outside_the_grid_fails() {
    let mut mgr = make_manager_with_run("run-1");
    let grid = TileGrid { num_tiles: 4, tiles_y: 2, tiles_x: 2 };
    assert_eq!(mgr.init_tile_counter("run-1", "slice_0", &grid, &vec![0, 3]), Ok(()));
    match mgr.record_tile("run-1", "slice_0", 4, 5) {
        TileBufferOutcome::Failed(text) => {
            assert!(text.contains('4'), "unexpected text: {text}");
        }
        other => panic!("unexpected outcome: {other:?}"),
    }
}

#[test]
fn counters_are_refused_for_a_reason() {
    let mut mgr = make_manager_with_run("run-1");
    let odd = TileGrid { num_tiles: 5, tiles_y: 2, tiles_x: 2 };
    assert_eq!(
        mgr.init_tile_counter("run-1", "s", &odd, &vec![0]),
        Err(CounterError::InconsistentGrid)
    );
    let grid = TileGrid { num_tiles: 4, tiles_y: 2, tiles_x: 2 };
    assert_eq!(
        mgr.init_tile_counter("run-1", "s", &grid, &vec![]),
        Err(CounterError::NothingExpected)
    );
    assert_eq!(
        mgr.init_tile_counter("run-1", "s", &grid, &vec![4]),
        Err(CounterError::OutOfRange)
    );
    assert_eq!(mgr.init_tile_counter("run-1", "s", &grid, &vec![1]), Ok(()));
    assert_eq!(
        mgr.init_tile_counter("run-1", "s", &grid, &vec![1]),
        Err(CounterError::AlreadyCounting)
    );
    assert_eq!(mgr.init_dim_split_counter("run-1", "t", 0, &vec![0]), Err(CounterError::NoUnits));
    assert_eq!(mgr.init_dim_split_counter("run-1", "t", 2, &vec![0, 1]), Ok(()));
}

#[test]
fn idle_runs_are_given_up_and_remembered() {
    let mut mgr = make_manager_with_run("run-1");
    assert!(mgr.gc_stale(10, 100).is_empty());
    assert_eq!(mgr.gc_stale(1000, 100), vec!["run-1".to_string()]);
    assert!(!mgr.has_run("run-1"));
    assert!(mgr.is_evicted("run-1"));
    assert!(!mgr.is_evicted("run-2"));
}

#[test]
fn runs_of_a_circuit_are_given_up_together() {
    let mut mgr = make_manager_with_run("run-1");
    mgr.start_run(
        "run-2".to_string(),
        "other".to_string(),
        "other".to_string(),
        RunSource::Api,
        Some(7),
        0,
    );
    assert_eq!(mgr.evict_by_circuit("test-circuit"), vec!["run-1".to_string()]);
    assert!(mgr.has_run("run-2"));
    assert_eq!(mgr.active_count(), 1);
    assert!(mgr.benchmark_run_uids().is_empty());
}

#[test]
fn only_so_many_given_up_runs_are_remembered() {
    let mut mgr = IncrementalRunManager::new();
    for i in 0..MAX_EVICTED + 1 {
        mgr.start_run(
            format!("run-{i}"),
            format!("c-{i}"),
            "name".to_string(),
            RunSource::Benchmark,
            None,
            0,
        );
        mgr.evict_by_circuit(&format!("c-{i}"));
    }
    assert!(!mgr.is_evicted("run-0"));
    assert!(mgr.is_evicted("run-1"));
    assert!(mgr.is_evicted(&format!("run-{MAX_EVICTED}")));
}

#[test]
fn arrays_become_nested_lists() {
    let numbers: Vec<Json> = (1..=6).map(Json::Unsigned).collect();
    let nested = arrayd_to_json(&numbers, &vec![2, 3]);
    assert_eq!(nested.to_bytes(), b"[[1,2,3],[4,5,6]]".to_vec());
    let scalar = arrayd_to_json(&vec![Json::Unsigned(9)], &vec![]);
    assert_eq!(scalar.to_bytes(), b"9".to_vec());
}

#[test]
fn a_slice_completes_once_whatever_else_comes() {
    let mut runs = make_manager_with_run("run");
    let grid = TileGrid { num_tiles: 4, tiles_y: 2, tiles_x: 2 };
    assert_eq!(runs.init_tile_counter("run", "slice_0", &grid, &vec![0, 2, 3]), Ok(()));
    let mut completed = Vec::new();
    let mut counts = Vec::new();
    for tile in [2, 1, 2, 0, 0, 3, 3, 1, 0] {
        match runs.record_tile("run", "slice_0", tile, 5) {
            TileBufferOutcome::AllReceived => completed.push(true),
            TileBufferOutcome::Waiting => completed.push(false),
            TileBufferOutcome::Failed(text) => panic!("{text}"),
        }
        counts.push(runs.verified_tile_count("run", "slice_0"));
    }
    assert_eq!(completed, vec![false, false, false, false, false, true, false, false, false]);
    assert_eq!(counts, vec![1, 1, 1, 2, 2, 3, 3, 3, 3]);
}

#[test]
fn what_was_given_up_is_remembered_and_gone() {
    let mut runs = make_manager_with_run("a");
    let circuit = runs.circuit_id_for_run("a").expect("under way").to_string();
    runs.start_run("b".to_string(), circuit.clone(), "n".to_string(), RunSource::Api, None, 0);
    runs.start_run("c".to_string(), "another".to_string(), "n".to_string(), RunSource::Api, None, 0);
    runs.note_slice_skipped("b", "slice_1");
    runs.note_slice_skipped("c", "slice_1");
    let mut gone = runs.evict_by_circuit(&circuit);
    gone.sort();
    assert_eq!(gone, vec!["a".to_string(), "b".to_string()]);
    assert!(runs.is_evicted("a") && runs.is_evicted("b") && !runs.is_evicted("c"));
    assert!(!runs.has_run("a") && !runs.has_run("b") && runs.has_run("c"));
    assert_eq!(runs.skipped_slice_count("b"), 0);
    assert_eq!(runs.skipped_slice_count("c"), 1);
    assert!(runs.evict_by_circuit(&circuit).is_empty());
    assert_eq!(runs.remove_run("c").map(|r| r.run_uid), Some("c".to_string()));
}
