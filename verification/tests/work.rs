use std::collections::VecDeque;

use sn2_validator::dispatch::{DispatchCandidate, FairDispatchState};
use sn2_validator::dispatch_pass::DispatchPass;
use sn2_validator::incremental_runner::IncrementalRunManager;
use sn2_validator::json::Json;
use sn2_validator::keyed::{UidMap, VecMap};
use sn2_validator::request_pipeline::RequestPipeline;
use sn2_validator::response::{
    conclude_task, read_response, slice_part_of, TaskContext, TaskOutcome, TaskResult,
};
use sn2_validator::response_processor::{
    build_expected_inputs, load_num_inputs, resolve_circuit_path, CheckPlan, ResponseProcessor,
    WeightLookup,
};
use sn2_validator::results::{
    handle_dslice_max_retries, handle_dslice_success, handle_failure, FailedRequest, GiveUpStep,
    RetryLimits, SuccessStep,
};
use sn2_validator::rsv::{RsvManager, RsvPolicy};
use sn2_validator::types::{
    Circuit, DSliceRequest, ProofSystem, RequestType, RetryPayload, RunSource, RwrSubmission,
};
use sn2_validator::verification::{
    apply_sample, drain_pending_verifications, failed_because, finish_verification, occupy_miner,
    pre_decide_sample, release_miner, start_verification, Judgement, VerificationStep,
    VerifyResult,
};
use sn2_validator::work::{resolve_dslice, resolve_rwr, NextWork, Selection, WorkQueues};

fn circuit() -> Circuit {
    Circuit {
        id: "c".to_string(),
        name: "n".to_string(),
        proof_system: ProofSystem { code: 1 },
    }
}

fn dslice(run: &str, slice: &str, source: RunSource) -> DSliceRequest {
    DSliceRequest {
        circuit: circuit(),
        inputs: vec![],
        proof_system: ProofSystem { code: 1 },
        slice_num: slice.to_string(),
        run_uid: run.to_string(),
        is_tile: false,
        tile_idx: None,
        task_id: None,
        run_source: source,
        retry_count: 0,
        circuit_path: None,
        component_sha: None,
    }
}

fn rwr(id: Option<u32>) -> RwrSubmission {
    RwrSubmission {
        circuit_id: "c".to_string(),
        inputs: Json::parse(b"{\"x\":1}").unwrap(),
        request_id: id,
        retry_count: 0,
    }
}

#[test]
fn customers_are_served_before_measurements() {
    let mut q = WorkQueues::new();
    q.push_dslice(dslice("b", "0", RunSource::Benchmark), RunSource::Benchmark);
    q.push_dslice(dslice("a", "0", RunSource::Api), RunSource::Api);
    q.rwr.push_back(rwr(None));
    assert_eq!(q.queued_work(), 3);
    assert_eq!(q.queued_dslices(), 2);
    assert!(matches!(q.next_work(), Some(NextWork::Rwr(_))));
    assert!(matches!(q.next_work(), Some(NextWork::DSlice(d, RunSource::Api)) if d.run_uid == "a"));
    assert!(
        matches!(q.next_work(), Some(NextWork::DSlice(d, RunSource::Benchmark)) if d.run_uid == "b")
    );
    assert!(q.next_work().is_none());
    assert!(!q.work_waits());
}

#[test]
fn work_of_ended_runs_is_dropped() {
    let mut q = WorkQueues::new();
    q.push_dslice(dslice("a", "0", RunSource::Api), RunSource::Api);
    q.push_dslice(dslice("b", "0", RunSource::Api), RunSource::Api);
    q.push_dslice(dslice("a", "1", RunSource::Benchmark), RunSource::Benchmark);
    q.drop_runs(&vec!["a".to_string()]);
    assert_eq!(q.api.len(), 1);
    assert_eq!(q.api[0].run_uid, "b");
    assert!(q.stacked.is_empty());
    q.drop_circuit("c");
    assert!(q.api.is_empty());
}

#[test]
fn requests_of_customers_are_refused_with_a_reason() {
    let mut q = WorkQueues::new();
    let mut p = RequestPipeline::new();
    let r = resolve_rwr(&mut q, &mut p, rwr(Some(4)), Err("gone".to_string()), Ok(()));
    match r {
        Selection::Refused(Some(reply)) => {
            assert_eq!(reply.req_id, 4);
            assert_eq!(
                reply.result.get("error").and_then(|v| v.as_str()),
                Some("unknown circuit: gone")
            );
        }
        other => panic!("unexpected selection {other:?}"),
    }
    let r =
        resolve_rwr(&mut q, &mut p, rwr(Some(4)), Ok(circuit()), Err("shape".to_string()));
    match r {
        Selection::Refused(Some(reply)) => assert_eq!(
            reply.result.get("error").and_then(|v| v.as_str()),
            Some("invalid input shape: shape")
        ),
        other => panic!("unexpected selection {other:?}"),
    }
}

#[test]
fn the_same_work_is_not_sent_twice_at_once() {
    let mut q = WorkQueues::new();
    let mut p = RequestPipeline::new();
    let first = resolve_rwr(&mut q, &mut p, rwr(None), Ok(circuit()), Ok(()));
    let hash = match first {
        Selection::Dispatch(d) => {
            assert_eq!(d.request_type, RequestType::Rwr);
            d.guard_hash.unwrap()
        }
        other => panic!("unexpected selection {other:?}"),
    };
    let second = resolve_rwr(&mut q, &mut p, rwr(None), Ok(circuit()), Ok(()));
    assert!(matches!(second, Selection::Collided));
    assert_eq!(q.rwr.len(), 1);
    p.release_hash(&hash);
    let third = resolve_rwr(&mut q, &mut p, rwr(None), Ok(circuit()), Ok(()));
    assert!(matches!(third, Selection::Dispatch(_)));

    let d = dslice("run", "slice_1", RunSource::Api);
    match resolve_dslice(&mut q, &mut p, d, RunSource::Api, Ok(Json::Null)) {
        Selection::Dispatch(d) => {
            assert_eq!(d.request_type, RequestType::DSlice);
            assert_eq!(d.run_uid, Some("run".to_string()));
        }
        other => panic!("unexpected selection {other:?}"),
    }
    let d = dslice("run", "slice_1", RunSource::Api);
    assert!(matches!(
        resolve_dslice(&mut q, &mut p, d, RunSource::Api, Ok(Json::Null)),
        Selection::Collided
    ));
    assert_eq!(q.api.len(), 1);
    let d = dslice("run", "slice_2", RunSource::Api);
    assert!(matches!(
        resolve_dslice(&mut q, &mut p, d, RunSource::Api, Err("no".to_string())),
        Selection::Refused(None)
    ));
}

fn context(slice: Option<&str>) -> TaskContext {
    TaskContext {
        uid: 3,
        request_type: RequestType::DSlice,
        external_request_hash: Some(12),
        circuit: Some(circuit()),
        proof_system: Some(ProofSystem { code: 1 }),
        inputs: None,
        slice_num: slice.map(|s| s.to_string()),
        run_uid: Some("run".to_string()),
        dsperse_circuit_path: None,
        component_sha: None,
    }
}

#[test]
fn answers_are_read_field_by_field() {
    let body = Json::parse(
        b"{\"proof\":\"abcd\",\"witness\":\"ff\",\"computed_outputs\":[1],\"public_signals\":[\"a\",2,\"b\"]}",
    )
    .unwrap();
    let r = read_response(context(Some("slice_7")), &body, 5);
    assert_eq!(r.uid, 3);
    assert_eq!(r.proof_content.as_ref().and_then(|v| v.as_str()), Some("abcd"));
    assert_eq!(r.proof_size, 4);
    assert_eq!(r.witness.as_deref(), Some("ff"));
    assert_eq!(r.public_json, Some(vec!["a".to_string(), "b".to_string()]));
    assert!(r.computed_outputs.is_some());
    assert_eq!(r.dsperse_slice_num, Some(7));
    assert!(r.is_incremental);
    assert!(!r.verification_result);
    assert_eq!(r.external_request_hash, "12");

    let body = Json::parse(b"{\"query_output\":\"xyz\",\"proof\":\"abcd\"}").unwrap();
    let r = read_response(context(None), &body, 5);
    assert_eq!(r.proof_content.as_ref().and_then(|v| v.as_str()), Some("xyz"));
    assert_eq!(r.dsperse_slice_num, None);
    assert_eq!(slice_part_of("slice_12"), "12");
}

fn task(pre_sampled: bool, body: &[u8]) -> TaskResult {
    TaskResult {
        uid: 3,
        request_type: RequestType::DSlice,
        guard_hash: Some("g".to_string()),
        external_request_hash: None,
        retry_count: 0,
        was_at_capacity: false,
        slice_num: Some("slice_7".to_string()),
        run_uid: Some("run".to_string()),
        is_tile: false,
        task_id: None,
        tile_idx: None,
        outcome: TaskOutcome::Success(read_response(
            context(Some("slice_7")),
            &Json::parse(body).unwrap(),
            5,
        )),
        retry_payload: RetryPayload::Nothing,
        pre_sampled,
    }
}

#[test]
fn only_sampled_answers_are_verified() {
    let mut active: UidMap<usize> = VecMap::new();
    occupy_miner(&mut active, 3);
    occupy_miner(&mut active, 3);
    let step = start_verification(&mut active, task(false, b"{\"proof\":\"aa\"}"), 0, 1);
    assert!(matches!(step, VerificationStep::Finish { verified: true, .. }));
    assert_eq!(active.get(&3).copied(), Some(1));
    let step = start_verification(&mut active, task(false, b"{}"), 0, 1);
    assert!(matches!(step, VerificationStep::Finish { verified: false, .. }));
    let step = start_verification(&mut active, task(true, b"{\"proof\":\"aa\"}"), 0, 1);
    assert!(matches!(step, VerificationStep::Verify(_)));
    let step = start_verification(&mut active, task(true, b"{\"proof\":\"aa\"}"), 1, 1);
    assert!(matches!(step, VerificationStep::Wait(_)));
    release_miner(&mut active, 3);
    assert_eq!(active.get(&3).copied(), Some(0));
}

#[test]
fn waiting_answers_are_verified_as_there_is_room() {
    let mut pending: VecDeque<TaskResult> = VecDeque::new();
    for _ in 0..3 {
        pending.push_back(task(true, b"{\"proof\":\"aa\"}"));
    }
    assert!(drain_pending_verifications(&mut pending, 2, 2).is_empty());
    assert_eq!(drain_pending_verifications(&mut pending, 0, 2).len(), 2);
    assert_eq!(pending.len(), 1);
}

fn policy() -> RsvPolicy {
    RsvPolicy {
        disconnect_tempos: 1,
        expected_subs_per_tempo: 1000,
        samples_per_tempo: 1000,
        coldstart_blocks: 10,
        coldstart_retention_blocks: 50_400,
        history_cap: 64,
        skiplist_tempos: 20,
        strikes_required: 1,
        strikes_window_blocks: 7200,
    }
}

#[test]
fn outcomes_of_verification_free_the_request() {
    let mut rsv = RsvManager::new(policy());
    let mut p = RequestPipeline::new();
    let hash = p.check_dslice_hash("c", "s", "r", None).unwrap();
    let vr = VerifyResult {
        task_result: task(true, b"{\"proof\":\"aa\"}"),
        verified: true,
        hotkey: "hk".to_string(),
    };
    let j = finish_verification(&mut rsv, &mut p, &vr, &Some(hash), 50);
    assert!(matches!(j, Judgement::Accepted { .. }));
    assert_eq!(p.len(), 0);
    assert_eq!(rsv.last_seen.get("hk").copied(), Some(50));
    let vr = VerifyResult { verified: false, ..vr };
    let j = finish_verification(&mut rsv, &mut p, &vr, &None, 51);
    assert!(matches!(j, Judgement::Rejected { .. }));
    assert_eq!(failed_because(&vr.task_result, false).as_deref(), Some("verification failed"));
    assert!(failed_because(&vr.task_result, true).is_none());
}

#[test]
fn sampling_everything_samples_everything() {
    let mut q = WorkQueues::new();
    let mut p = RequestPipeline::new();
    let mut rsv = RsvManager::new(policy());
    let d = dslice("run", "slice_1", RunSource::Benchmark);
    let picked = match resolve_dslice(&mut q, &mut p, d, RunSource::Benchmark, Ok(Json::Null)) {
        Selection::Dispatch(d) => d,
        other => panic!("unexpected selection {other:?}"),
    };
    assert!(pre_decide_sample(&picked, "hk", 100, 360, &mut rsv));
    let sent = apply_sample(picked, false);
    assert!(!sent.pre_sampled);
    assert!(sent.task_inputs.is_none());
    let over = conclude_task(3, true, sent, Err("lost".to_string()));
    assert!(matches!(over.outcome, TaskOutcome::Failure(e) if e == "lost"));
    assert!(over.was_at_capacity);
    assert_eq!(over.run_uid, Some("run".to_string()));
}

fn failure(reason: &str, retry_count: u32) -> FailedRequest {
    FailedRequest {
        uid: 3,
        hotkey: "hk".to_string(),
        request_type: RequestType::DSlice,
        retry_count,
        slice_num: Some("slice_7".to_string()),
        external_request_hash: None,
        reason: reason.to_string(),
    }
}

fn runs_with(run: &str) -> IncrementalRunManager {
    let mut runs = IncrementalRunManager::new();
    runs.start_run(
        run.to_string(),
        "c".to_string(),
        "n".to_string(),
        RunSource::Api,
        None,
        0,
    );
    runs
}

const LIMITS: RetryLimits = RetryLimits { api: 2, slice: 5 };

#[test]
fn failed_work_is_tried_again_until_it_is_given_up() {
    let mut rsv = RsvManager::new(policy());
    let mut q = WorkQueues::new();
    let runs = runs_with("run");
    let payload = || RetryPayload::DSlice(dslice("run", "slice_7", RunSource::Api));
    let r = handle_failure(
        &mut rsv,
        &mut q,
        &runs,
        &failure("QUIC query: transport error: query timed out", 0),
        payload(),
        LIMITS,
        100,
        360,
        false,
    );
    assert!(r.retried);
    assert_eq!(r.work_key, "c:7");
    assert_eq!(q.api.len(), 1);
    assert_eq!(q.api[0].retry_count, 1);
    assert!(!rsv.is_skiplisted("hk", 100));

    let r = handle_failure(
        &mut rsv,
        &mut q,
        &runs,
        &failure("QUIC query: connection error: lost", 2),
        payload(),
        LIMITS,
        100,
        360,
        false,
    );
    assert!(!r.retried);
    assert!(r.give_up_slice);
    assert!(rsv.is_skiplisted("hk", 100));
}

#[test]
fn lost_connections_are_excused_in_grace() {
    let mut rsv = RsvManager::new(policy());
    let mut q = WorkQueues::new();
    let runs = runs_with("run");
    handle_failure(
        &mut rsv,
        &mut q,
        &runs,
        &failure("QUIC query: connection error: lost", 0),
        RetryPayload::Nothing,
        LIMITS,
        100,
        360,
        true,
    );
    assert!(!rsv.is_skiplisted("hk", 100));
}

#[test]
fn proofs_for_ended_runs_are_ignored() {
    let mut runs = runs_with("run");
    let t = task(true, b"{\"proof\":\"aa\"}");
    let response = match &t.outcome {
        TaskOutcome::Success(r) => r,
        TaskOutcome::Failure(e) => panic!("unexpected failure {e}"),
    };
    let slice = Some("slice_7".to_string());
    let none = handle_dslice_success(
        &mut runs,
        &Some("other".to_string()),
        &slice,
        false,
        None,
        response,
        1,
        false,
        5,
    );
    assert!(matches!(none, SuccessStep::Ignored));
    let done = handle_dslice_success(
        &mut runs,
        &Some("run".to_string()),
        &slice,
        false,
        None,
        response,
        1,
        false,
        5,
    );
    assert!(matches!(done, SuccessStep::SliceDone));
    let torn = handle_dslice_success(
        &mut runs,
        &Some("run".to_string()),
        &slice,
        true,
        None,
        response,
        1,
        false,
        5,
    );
    assert!(matches!(torn, SuccessStep::TearDown));
    let given_up = handle_dslice_max_retries(
        &mut runs,
        &Some("run".to_string()),
        &slice,
        true,
        Some(2),
        false,
        6,
    );
    assert!(matches!(given_up, GiveUpStep::Failed(name) if name == "slice_7_tile_2"));
}

#[test]
fn answers_without_a_proof_are_no_answers() {
    let processor = ResponseProcessor::new();
    let t = task(true, b"{}");
    let settings = Json::Null;
    if let TaskOutcome::Success(r) = &t.outcome {
        let plan = processor.verify_response(
            r,
            ProofSystem { code: 1 },
            Some("p".to_string()),
            &settings,
            1,
        );
        assert_eq!(plan.unwrap_err().uid, 3);
    }
    let t = task(true, b"{\"proof\":\"aa\",\"witness\":\"bb\"}");
    if let TaskOutcome::Success(r) = &t.outcome {
        let plan = processor
            .verify_response(r, ProofSystem { code: 1 }, Some("p".to_string()), &settings, 1)
            .unwrap();
        match plan {
            CheckPlan::Check(c) => {
                assert_eq!(c.proof_hex, "aa");
                assert_eq!(c.witness_hex, "bb");
                assert_eq!(c.num_inputs, 1);
            }
            other => panic!("unexpected plan {other:?}"),
        }
    }
}

#[test]
fn weights_are_put_behind_the_inputs() {
    let r = build_expected_inputs(Some(vec![1u8, 2]), true, WeightLookup::Found(vec![vec![3], vec![4]]));
    assert_eq!(r, Some(vec![1, 2, 3, 4]));
    let r = build_expected_inputs(Some(vec![1u8, 2]), false, WeightLookup::NotFound);
    assert_eq!(r, Some(vec![1, 2]));
    let r = build_expected_inputs(None::<Vec<u8>>, false, WeightLookup::NotFound);
    assert_eq!(r, None);
    assert!(resolve_circuit_path(Some(4)).contains('4'));
    assert_eq!(load_num_inputs(&Json::Null, Some(9), None), 9);
}

fn miner(uid: u16, hotkey: &str, cap: usize) -> DispatchCandidate {
    DispatchCandidate {
        uid,
        hotkey: hotkey.to_string(),
        ip: "8.8.8.8".to_string(),
        port: 8091,
        cap,
        initial_active: 0,
        projected_active: 0,
        dispatched: 0,
        available: true,
    }
}

#[test]
fn a_pass_hands_work_to_miners_with_room() {
    let mut queues = WorkQueues::new();
    let mut pipeline = RequestPipeline::new();
    let mut fairness = FairDispatchState::new();
    let mut rsv = RsvManager::new(policy());
    for k in 0..3 {
        queues.push_dslice(dslice("run", &format!("slice_{k}"), RunSource::Api), RunSource::Api);
    }
    queues.push_dslice(dslice("run", "slice_9", RunSource::Api), RunSource::Api);
    queues.rwr.push_back(rwr(Some(5)));
    let miners = vec![miner(1, "a", 1), miner(2, "b", 2), miner(3, "c", 1)];
    let mut pass =
        DispatchPass::open(0, 4, 0, &queues, miners, Some(4), None).expect("there is work and room");
    assert_eq!((pass.allowance, pass.opportunity), (4, 4));

    let mut replies = 0;
    let mut steps = 0;
    while let Some((i, next)) = pass.next(&fairness, &mut queues) {
        let selection = match next {
            NextWork::Rwr(w) => {
                resolve_rwr(&mut queues, &mut pipeline, w, Err("gone".to_string()), Ok(()))
            }
            NextWork::DSlice(d, source) => {
                resolve_dslice(&mut queues, &mut pipeline, d, source, Ok(Json::Null))
            }
        };
        if pass.settle(i, selection, &mut fairness, &mut rsv, 0, 360, 7).is_some() {
            replies += 1;
        }
        steps += 1;
    }
    assert_eq!(replies, 1);
    assert!(steps <= 4 + 3);
    // The first miner drew the refused request, so the other two share the rest.
    assert_eq!(pass.prepared.len(), 3);
    let served: Vec<(u16, bool)> =
        (0..3).map(|k| pass.recipient(k)).map(|r| (r.uid, r.was_at_capacity)).collect();
    assert_eq!(served, vec![(2, true), (3, true), (2, true)]);
    assert_eq!(pass.recipient(0).ip, "8.8.8.8");
    assert!(pass.prepared.iter().all(|d| d.pre_sampled));
    assert_eq!(queues.api.len(), 1);
}

#[test]
fn no_pass_is_opened_without_work_or_behind_a_backlog() {
    let queues = WorkQueues::new();
    assert!(DispatchPass::open(0, 4, 0, &queues, vec![miner(1, "a", 1)], None, None).is_none());
    let mut waiting = WorkQueues::new();
    waiting.rwr.push_back(rwr(None));
    assert!(DispatchPass::open(16, 4, 0, &waiting, vec![miner(1, "a", 1)], None, None).is_none());
    assert!(DispatchPass::open(0, 4, 1, &waiting, vec![miner(1, "a", 1)], Some(1), None).is_none());
    assert!(DispatchPass::open(15, 4, 0, &waiting, vec![miner(1, "a", 1)], None, None).is_some());
}
