use std::collections::VecDeque;

use sn2_validator::completion::{
    model_tiles, notify_run_completed, report_dsperse_completion, run_succeeded, take_artifacts,
};
use sn2_validator::dslice::{
    bind_unit, capacity_sum, dim_split_dispatch_enabled, enqueue_requests, materialize_single,
    materialize_units, next_planned, plan_end, plan_route, plan_slice, refill_marks,
    sample_tile_indices, settle_planned, teardown_run, tiles_by_rolls, tiles_to_send,
    units_to_send, wanted_units, DisabledSlices, InputScales, PlanEnd, PlanRoute, PlannedPayload,
    PlannedSliceWork, SliceStep, SliceUnits,
};
use sn2_validator::incremental_runner::{IncrementalRunManager, SliceArtifact};
use sn2_validator::json::Json;
use sn2_validator::keyed::{UidMap, VecMap};
use sn2_validator::planning::{SliceWork, TilingInfo};
use sn2_validator::proof_uploader::{plan_uploads, upload_urls, ProofUploader};
use sn2_validator::relay::{decode_frame, PendingRequests, RelayAction, MSG_BATCH_DONE};
use sn2_validator::staging::{
    materialize_planned, plan_all_dslices, PlanOutcome, SliceInput, SlicePayloads,
};
use sn2_validator::submission::{
    benchmark_shape, fault_message, preempt_benchmarks, send_submit_error, should_benchmark,
    start_api_run, submission_shape, BenchmarkState, SubmissionFault,
};
use sn2_validator::types::{Circuit, ProofSystem, RunSource};
use sn2_validator::work::WorkQueues;

fn circuit() -> Circuit {
    Circuit {
        id: "c".to_string(),
        name: "n".to_string(),
        proof_system: ProofSystem { code: 1 },
    }
}

fn runs_with(run: &str, source: RunSource) -> IncrementalRunManager {
    let mut runs = IncrementalRunManager::new();
    runs.start_run(run.to_string(), "c".to_string(), "n".to_string(), source, None, 0);
    runs
}

fn work(slice: &str) -> SliceWork {
    SliceWork {
        slice_id: slice.to_string(),
        input_len: 4,
        input_finite: true,
        named_input_shapes: vec![],
        tiling: None,
        dim_split: None,
        circuit_path: None,
        onnx_path: None,
        meta_input_shape: vec![],
        meta_dim_split: None,
    }
}

fn tiling() -> TilingInfo {
    TilingInfo { num_tiles: 4, tiles_y: 2, tiles_x: 2, ndim: 2, segment_size: None }
}

fn no_units() -> SliceUnits {
    SliceUnits { sampled: vec![], group_plan: None, num_units: None, prepared: None }
}

fn planned(run: &str) -> PlannedSliceWork {
    PlannedSliceWork {
        run_uid: run.to_string(),
        circuit: circuit(),
        slice_id: "slice_0".to_string(),
        run_source: RunSource::Benchmark,
        circuit_path: None,
        onnx_path: None,
        component_sha: None,
        payload: PlannedPayload::Single,
    }
}

#[test]
fn tiles_are_drawn_without_repeating() {
    assert_eq!(tiles_by_rolls(5, &vec![0, 0]), vec![0, 1]);
    let all = sample_tile_indices(6, RunSource::Benchmark, Some(2));
    assert_eq!(all, vec![0, 1, 2, 3, 4, 5]);
    assert_eq!(sample_tile_indices(3, RunSource::Api, None), vec![0, 1, 2]);
    let some = sample_tile_indices(100, RunSource::Api, Some(10));
    assert_eq!(some.len(), 10);
    assert!(some.windows(2).all(|w| w[0] < w[1]));
    assert!(some.iter().all(|t| *t < 100));
}

#[test]
fn slices_are_handed_out_whole_or_in_tiles() {
    assert_eq!(plan_route(&work("s"), false), PlanRoute::Single);
    let mut tiled = work("s");
    tiled.tiling = Some(tiling());
    assert_eq!(plan_route(&tiled, false), PlanRoute::Tiles);
    let mut broken = work("s");
    broken.input_finite = false;
    assert_eq!(plan_route(&broken, false), PlanRoute::NotFinite);
    assert!(dim_split_dispatch_enabled(Some("1")));
    assert!(!dim_split_dispatch_enabled(Some("0")));
    assert!(!dim_split_dispatch_enabled(None));
}

#[test]
fn a_planned_slice_waits_in_the_plan() {
    let mut runs = runs_with("run", RunSource::Api);
    let mut plan: VecDeque<PlannedSliceWork> = VecDeque::new();
    let step = plan_slice(
        &mut runs,
        &mut plan,
        "run",
        &circuit(),
        RunSource::Api,
        None,
        &work("slice_0"),
        no_units(),
        false,
        1,
    );
    assert!(matches!(step, SliceStep::Planned(1)));
    let mut tiled = work("slice_1");
    tiled.tiling = Some(tiling());
    let units = SliceUnits { prepared: Some(vec![1, 3]), ..no_units() };
    let step = plan_slice(
        &mut runs,
        &mut plan,
        "run",
        &circuit(),
        RunSource::Api,
        None,
        &tiled,
        units,
        false,
        1,
    );
    assert!(matches!(step, SliceStep::Planned(2)));
    assert_eq!(plan.len(), 2);
    let step = plan_slice(
        &mut runs,
        &mut plan,
        "run",
        &circuit(),
        RunSource::Api,
        None,
        &tiled,
        no_units(),
        false,
        1,
    );
    assert!(matches!(step, SliceStep::EndRun));
    assert_eq!(plan.len(), 2);
    assert!(matches!(plan_end(0), PlanEnd::Finalize));
    assert!(matches!(plan_end(2), PlanEnd::Refill));
}

#[test]
fn plans_of_ended_runs_are_passed_over() {
    let runs = runs_with("live", RunSource::Benchmark);
    let mut plan: VecDeque<PlannedSliceWork> = VecDeque::new();
    plan.push_back(planned("dead"));
    plan.push_back(planned("live"));
    plan.push_back(planned("live"));
    assert!(next_planned(&mut plan, &runs, 10, 10).is_none());
    assert_eq!(plan.len(), 3);
    let next = next_planned(&mut plan, &runs, 9, 10).unwrap();
    assert_eq!(next.run_uid, "live");
    assert_eq!(plan.len(), 1);
}

#[test]
fn units_are_sent_where_they_are_wanted() {
    assert_eq!(wanted_units(5, &vec![3, 1, 9]), vec![1, 3]);
    assert_eq!(tiles_to_send(4, &tiling(), &vec![2]), Some(vec![2]));
    assert_eq!(tiles_to_send(3, &tiling(), &vec![2]), None);
    assert_eq!(units_to_send(3, &vec![7]), None);
    let bound = bind_unit(&vec![vec![1u8], vec![2]], &vec![vec![8], vec![9]], 1);
    assert_eq!(bound, vec![2, 9]);
}

#[test]
fn requests_join_their_queue() {
    let mut q = WorkQueues::new();
    let requests = materialize_units(&planned("run"), vec![(3, vec![1]), (5, vec![2])]);
    assert_eq!(requests[1].tile_idx, Some(5));
    enqueue_requests(&mut q, RunSource::Benchmark, requests);
    assert_eq!(q.stacked.len(), 2);
    let mut runs = runs_with("run", RunSource::Benchmark);
    let one = materialize_single(&planned("run"), vec![9]);
    assert_eq!(settle_planned(&mut q, &mut runs, &planned("run"), Some(one), 1), 1);
    assert_eq!(settle_planned(&mut q, &mut runs, &planned("run"), None, 1), 0);
    assert!(runs.is_slice_skipped("run", "slice_0"));
    assert_eq!(q.stacked.len(), 3);
}

#[test]
fn marks_follow_what_miners_can_take() {
    let mut caps: UidMap<usize> = VecMap::new();
    caps.insert(1, 30);
    caps.insert(2, 12);
    assert_eq!(capacity_sum(&caps), 42);
    let (low, high) = refill_marks(1000, 64, 512);
    assert!(low <= high);
    let (small, _) = refill_marks(0, 64, 512);
    assert_eq!(small, 64);
}

#[test]
fn fruitless_slices_are_left_out_for_a_while() {
    let mut disabled = DisabledSlices::new();
    let mut runs = runs_with("run", RunSource::Benchmark);
    runs.init_dim_split_counter("run", "good", 1, &vec![0]).unwrap();
    runs.record_tile("run", "good", 0, 1);
    let slices = vec![("good".to_string(), false), ("bad".to_string(), true)];
    let n = disabled.disable_fruitless(&runs, "run", "c", &slices, 100);
    assert_eq!(n, 1);
    assert!(disabled.is_left_out("c", "bad", 100, 50));
    assert!(!disabled.is_left_out("c", "good", 100, 50));
    assert!(!disabled.is_left_out("c", "bad", 151, 50));
    let kept = disabled.filter_slices(
        &mut runs,
        "run",
        "c",
        vec!["good".to_string(), "bad".to_string()],
        100,
        50,
        2,
    );
    assert_eq!(kept, vec!["good".to_string()]);
    disabled.forget_circuit("c");
    assert!(!disabled.is_left_out("c", "bad", 100, 50));
}

#[test]
fn ending_a_run_leaves_nothing_behind() {
    let mut runs = runs_with("run", RunSource::Benchmark);
    let mut q = WorkQueues::new();
    let mut scales = InputScales::new();
    let mut pending = PendingRequests::new();
    scales.set("run", "slice_0", 4);
    scales.set("other", "slice_0", 5);
    pending.register_pending("run");
    enqueue_requests(
        &mut q,
        RunSource::Benchmark,
        materialize_single(&planned("run"), vec![9]),
    );
    let run = teardown_run(&mut runs, &mut q, &mut scales, &mut pending, "run");
    assert_eq!(run.unwrap().run_uid, "run");
    assert!(q.stacked.is_empty());
    assert_eq!(scales.get("run", "slice_0"), None);
    assert_eq!(scales.get("other", "slice_0"), Some(5));
    assert!(!runs.has_run("run"));
}

fn artifact(slice: &str, proof: Option<&str>) -> SliceArtifact {
    SliceArtifact {
        slice_num: slice.to_string(),
        proof_system: None,
        proof_hex: proof.map(|p| p.to_string()),
        witness_hex: None,
        computed_outputs: None,
        tile_idx: None,
        response_time: 1,
        verification_time: 2,
    }
}

#[test]
fn a_finished_run_is_announced_and_its_result_kept() {
    let mut runs = runs_with("run", RunSource::Api);
    runs.push_artifact("run", artifact("slice_0", Some("aa")));
    let mut run = runs.remove_run("run");
    let mut pending = PendingRequests::new();
    pending.register_pending("run");
    let frame = notify_run_completed(&mut pending, "run", &run, None, 0);
    let (kind, _, payload) = decode_frame(&frame).unwrap();
    assert_eq!(kind, MSG_BATCH_DONE);
    let text = String::from_utf8(payload.to_vec()).unwrap();
    assert!(text.contains("\"completed\"") && text.contains("\"run\""), "{text}");
    match pending.handle_status_req(1, b"{\"run_uid\":\"run\"}") {
        RelayAction::Deliver { reply, .. } => {
            let text = String::from_utf8(decode_frame(&reply).unwrap().2.to_vec()).unwrap();
            assert!(text.contains("\"complete\""), "{text}");
        }
        other => panic!("unexpected action {other:?}"),
    }

    let active = run.as_ref().unwrap();
    assert!(run_succeeded(active, true));
    assert!(!run_succeeded(active, false));
    let model = Some(vec![(0usize, Some(4usize)), (1, None)]);
    assert_eq!(model_tiles(&model, "slice_0"), Some(4));
    assert_eq!(model_tiles(&model, "slice_1"), None);
    let report = report_dsperse_completion(active, &vec![None], &model, 9);
    assert!(report.all_successful);
    assert_eq!(report.total_slices, 2);
    assert_eq!(report.slices[0].tile_count, Some(4));
    assert!(report.slices[0].is_tiled);

    assert!(take_artifacts(&mut run, false).is_none());
    assert_eq!(take_artifacts(&mut run, true).map(|a| a.len()), Some(1));
    assert!(take_artifacts(&mut run, true).is_none());
}

fn parsed(text: &str) -> Json {
    Json::parse(text.as_bytes()).unwrap()
}

#[test]
fn shapes_come_from_the_schema() {
    assert_eq!(benchmark_shape(&parsed("{\"shape\":[1,3,4]}")), Some(vec![1, 3, 4]));
    assert_eq!(benchmark_shape(&parsed("{\"shape\":[1,0]}")), None);
    assert_eq!(benchmark_shape(&parsed("{\"shape\":[]}")), None);
    assert_eq!(benchmark_shape(&parsed("{}")), None);
    assert_eq!(submission_shape(&parsed("{\"shape\":[2,2]}")), Some(vec![2, 2]));
}

#[test]
fn measuring_runs_wait_for_customers() {
    let free = BenchmarkState {
        disabled: false,
        runs: 0,
        max_runs: 1,
        supply: 0,
        low_mark: 10,
        memory_allows: true,
        api_waits: false,
        backoff_until: 0,
    };
    assert!(should_benchmark(&free, 5));
    assert!(!should_benchmark(&BenchmarkState { disabled: true, ..free }, 5));
    assert!(!should_benchmark(&BenchmarkState { api_waits: true, ..free }, 5));
    assert!(!should_benchmark(&BenchmarkState { runs: 1, ..free }, 5));
    assert!(!should_benchmark(&BenchmarkState { backoff_until: 6, ..free }, 5));
    let second = BenchmarkState { runs: 1, max_runs: 2, ..free };
    assert!(should_benchmark(&second, 5));
    assert!(!should_benchmark(&BenchmarkState { memory_allows: false, ..second }, 5));
    assert!(!should_benchmark(&BenchmarkState { supply: 10, ..second }, 5));
}

#[test]
fn customers_are_told_what_is_wrong() {
    assert!(send_submit_error(None, "no").is_none());
    assert!(send_submit_error(Some(3), "no").is_some());
    assert!(fault_message(SubmissionFault::UnknownCircuit, "c").contains("c"));
}

#[test]
fn a_customers_run_takes_the_place_of_measuring_ones() {
    let mut runs = runs_with("bench", RunSource::Benchmark);
    let mut q = WorkQueues::new();
    let mut scales = InputScales::new();
    let mut pending = PendingRequests::new();
    enqueue_requests(
        &mut q,
        RunSource::Benchmark,
        materialize_single(&planned("bench"), vec![9]),
    );
    let (reply, ended) = start_api_run(
        &mut runs,
        &mut q,
        &mut scales,
        &mut pending,
        "run",
        &circuit(),
        Some(8),
        3,
        12,
        1,
    );
    assert!(reply.is_some());
    assert_eq!(ended.len(), 1);
    assert_eq!(ended[0].run_uid, "bench");
    assert!(runs.has_run("run"));
    assert!(!runs.has_run("bench"));
    assert!(q.stacked.is_empty());
    assert!(preempt_benchmarks(&mut runs, &mut q, &mut scales, &mut pending).is_empty());
}

#[test]
fn proofs_are_uploaded_where_they_belong() {
    let uploader = ProofUploader::new("key".to_string());
    let artifacts = vec![artifact("slice_0", Some("cafe")), artifact("slice_1", None)];
    let body = uploader.request_upload_urls("run", "c", &artifacts);
    let text = String::from_utf8(body.to_bytes()).unwrap();
    assert!(text.contains("\"run\""), "{text}");
    assert!(uploader.confirm_uploads("run", "c", "n", vec![]).is_none());
    assert!(uploader.confirm_uploads("run", "c", "n", vec![Json::Null]).is_some());
    let urls = upload_urls(&Json::Null);
    assert!(urls.is_empty());
    assert!(plan_uploads(&artifacts, &urls).is_empty());
}

fn input(work: SliceWork, units: SliceUnits) -> SliceInput {
    SliceInput { work, units, component_sha: Some("sha".to_string()) }
}

#[test]
fn every_slice_of_a_run_is_planned_in_turn() {
    let mut runs = runs_with("run", RunSource::Api);
    let mut plan: VecDeque<PlannedSliceWork> = VecDeque::new();
    let mut tiled = work("slice_1");
    tiled.tiling = Some(tiling());
    let slices = vec![
        input(work("slice_0"), no_units()),
        input(tiled, SliceUnits { prepared: Some(vec![0, 2]), ..no_units() }),
    ];
    let outcome =
        plan_all_dslices(&mut runs, &mut plan, "run", &circuit(), RunSource::Api, slices, false, 3);
    assert_eq!(outcome, PlanOutcome::Planned(2));
    assert_eq!(plan.len(), 2);
    assert_eq!(plan[0].slice_id, "slice_0");
    assert_eq!(plan[0].component_sha.as_deref(), Some("sha"));
    assert!(matches!(plan[0].payload, PlannedPayload::Single));
    match &plan[1].payload {
        PlannedPayload::Tiled { indices, .. } => assert_eq!(indices, &vec![0, 2]),
        other => panic!("unexpected payload {other:?}"),
    }
}

#[test]
fn a_run_without_slices_is_complete_at_once() {
    let mut runs = runs_with("run", RunSource::Api);
    let mut plan: VecDeque<PlannedSliceWork> = VecDeque::new();
    let outcome =
        plan_all_dslices(&mut runs, &mut plan, "run", &circuit(), RunSource::Api, vec![], false, 3);
    assert_eq!(outcome, PlanOutcome::Finalize);
    assert!(plan.is_empty());
}

#[test]
fn batches_are_planned_as_if_at_once() {
    let names = ["slice_0", "slice_1", "slice_2"];
    let mut runs = runs_with("run", RunSource::Api);
    let mut plan: VecDeque<PlannedSliceWork> = VecDeque::new();
    for batch in names.chunks(2) {
        let slices: Vec<SliceInput> = batch.iter().map(|n| input(work(n), no_units())).collect();
        let outcome =
            plan_all_dslices(&mut runs, &mut plan, "run", &circuit(), RunSource::Api, slices, false, 3);
        assert_eq!(outcome, PlanOutcome::Planned(batch.len()));
    }
    let planned: Vec<&str> = plan.iter().map(|p| p.slice_id.as_str()).collect();
    assert_eq!(planned, names);
}

#[test]
fn numbers_that_are_none_end_a_run_in_the_middle() {
    let mut runs = runs_with("run", RunSource::Api);
    let mut plan: VecDeque<PlannedSliceWork> = VecDeque::new();
    let mut broken = work("slice_1");
    broken.input_finite = false;
    let slices = vec![
        input(work("slice_0"), no_units()),
        input(broken, no_units()),
        input(work("slice_2"), no_units()),
    ];
    let outcome =
        plan_all_dslices(&mut runs, &mut plan, "run", &circuit(), RunSource::Api, slices, false, 3);
    assert_eq!(outcome, PlanOutcome::EndRun);
    assert_eq!(plan.len(), 1);
}

#[test]
fn plans_become_requests() {
    let whole = materialize_planned(&planned("run"), Some(SlicePayloads::Whole(vec![7, 8])))
        .expect("a request");
    assert_eq!(whole.len(), 1);
    assert_eq!(whole[0].inputs, vec![7, 8]);
    assert_eq!(whole[0].tile_idx, None);
    assert!(materialize_planned(&planned("run"), None).is_none());

    let mut tiled = planned("run");
    tiled.payload = PlannedPayload::Tiled { tiling: tiling(), indices: vec![1, 3] };
    let units = vec![vec![0], vec![1], vec![2], vec![3]];
    let some = materialize_planned(&tiled, Some(SlicePayloads::Units(units))).expect("requests");
    let sent: Vec<(Option<u32>, Vec<u8>)> =
        some.into_iter().map(|r| (r.tile_idx, r.inputs)).collect();
    assert_eq!(sent, vec![(Some(1), vec![1]), (Some(3), vec![3])]);
    let too_few = vec![vec![0], vec![1], vec![2]];
    assert!(materialize_planned(&tiled, Some(SlicePayloads::Units(too_few))).is_none());
    assert!(materialize_planned(&tiled, Some(SlicePayloads::Whole(vec![1]))).is_none());
}
