use sn2_validator::keyed::{UidMap, VecMap};
use sn2_validator::pow_manager::{PowItem, PowManager};
use sn2_validator::rounds::{
    benchmark_request, miner_slots, open_round, serving_order, weights_request, work_kind,
    BenchmarkTerms, Round, RoundMiner, WorkKind,
};
use sn2_validator::simulator::{
    builtin_scenario, order_events, EventKind, MinerProfile, RunClock, RunConfig, Scenario,
    ScheduledEvent, SimEventKind, SimState,
};
use sn2_validator::stepwise::{
    apply_dslice_result, enqueue_next_dslice, tile_answered, SliceEnd, Stage, StepAction,
    StepEvent, StepSlice, TileBufferOutcome,
};
use sn2_validator::types::{Circuit, ProofSystem, RequestType, RunSource, RwrSubmission};
use sn2_validator::json::Json;
use sn2_validator::work::{RequestBody, WorkQueues};

fn profile(uid: u16, response_time_ms: u64, cap_ceiling: usize) -> MinerProfile {
    MinerProfile {
        uid,
        hotkey: format!("hk_{uid}"),
        response_time_ms,
        success_rate: 0.5f64.to_bits(),
        cap_ceiling,
        alive_after_secs: 0,
    }
}

fn scenario(miners: Vec<MinerProfile>) -> Scenario {
    Scenario {
        run: RunConfig {
            duration_secs: 10,
            tick_interval_ms: 50,
            verification_concurrency: 1,
            sample_rate: 0.5f64.to_bits(),
            sample_verify_ms: 200,
            output_path: "/tmp/out.tsv".to_string(),
            health_every_secs: 1,
            rng_seed: 1,
            block_time_ms: 12_000,
        },
        miners,
        events: vec![],
    }
}

#[test]
fn worlds_come_with_the_program() {
    let s = builtin_scenario("new-miner").unwrap();
    assert_eq!(s.run.output_path, "/tmp/sim_new_miner.tsv");
    assert_eq!(f64::from_bits(s.run.sample_rate), 0.04);
    assert_eq!(s.miners.len(), 2);
    assert_eq!(f64::from_bits(s.miners[0].success_rate), 0.95);
    assert_eq!(f64::from_bits(s.miners[1].success_rate), 0.92);
    assert!(matches!(
        &s.events[0].kind,
        EventKind::AddMiner(p) if p.uid == 99 && f64::from_bits(p.success_rate) == 0.99
    ));

    let s = builtin_scenario("old-miner-decay").unwrap();
    assert_eq!(f64::from_bits(s.miners[0].success_rate), 0.97);
    assert!(matches!(
        s.events[1].kind,
        EventKind::SetSuccessRate { uid: 20, value } if f64::from_bits(value) == 0.40
    ));

    let s = builtin_scenario("overload").unwrap();
    assert_eq!(s.miners.len(), 200);
    assert_eq!(s.miners[7].hotkey, "hk_007");
    assert_eq!(s.miners[42].hotkey, "hk_042");
    assert_eq!(s.miners[199].hotkey, "hk_199");
    assert_eq!(f64::from_bits(s.miners[0].success_rate), 0.98);

    assert!(builtin_scenario("unknown").is_none());
}

#[test]
fn things_happen_in_order_of_time_and_then_of_setting_up() {
    let mut s = SimState::new(&scenario(vec![]));
    let kind = |uid: u16| SimEventKind::VerifyCompletion {
        uid,
        hotkey: String::new(),
        response_time_ms: 0,
        was_at_capacity: false,
    };
    s.push_event(20, kind(1));
    s.push_event(10, kind(2));
    s.push_event(10, kind(3));
    s.push_event(999, kind(4));
    s.advance(50);
    let mut order = Vec::new();
    while let Some(e) = s.pop_due() {
        match e.kind {
            SimEventKind::VerifyCompletion { uid, .. } => order.push(uid),
            SimEventKind::NetworkResponse { uid, .. } => order.push(uid),
        }
    }
    assert_eq!(order, vec![2, 3, 1]);
    assert_eq!(s.events.len(), 1);
}

#[test]
fn miners_come_change_and_go() {
    let mut s = SimState::new(&scenario(vec![profile(1, 500, 10), profile(2, 500, 10)]));
    let at = |at_secs: u64, kind: EventKind| ScheduledEvent { at_secs, kind };
    let events = order_events(vec![
        at(5, EventKind::KillMiner { uid: 2 }),
        at(0, EventKind::SetResponseTime { uid: 1, value_ms: 7 }),
        at(0, EventKind::AddMiner(profile(3, 1, 1))),
        at(0, EventKind::SetSuccessRate { uid: 9, value: 0 }),
    ]);
    assert_eq!(events.iter().map(|e| e.at_secs).collect::<Vec<_>>(), vec![0, 0, 0, 5]);
    let rest = s.apply_scheduled_events(events);
    assert_eq!(rest.len(), 1);
    assert_eq!(s.miners.get(&1).unwrap().profile.response_time_ms, 7);
    assert!(s.miners.contains_key(&3));
    assert!(s.miners.contains_key(&2));
    assert!(!s.miners.contains_key(&9));
    s.advance(5000);
    assert!(s.apply_scheduled_events(rest).is_empty());
    assert!(!s.miners.contains_key(&2));
    assert!(s.uid_hotkeys.contains_key(&2));
}

#[test]
fn work_is_given_out_while_there_is_room() {
    let mut s = SimState::new(&scenario(vec![profile(1, 500, 1)]));
    let mut caps: UidMap<usize> = VecMap::new();
    caps.insert(1, 2);
    assert_eq!(s.open_slots(&caps), vec![(1, 2)]);
    let low = 0.25f64.to_bits();
    assert!(s.dispatch_one(1, 2, low));
    assert!(s.dispatch_one(1, 2, low));
    assert!(!s.dispatch_one(1, 2, low));
    assert!(!s.dispatch_one(9, 2, low));
    assert!(s.open_slots(&caps).is_empty());
    s.advance(500);
    let first = s.pop_due().unwrap();
    match first.kind {
        SimEventKind::NetworkResponse { uid, hotkey, success, response_time_ms, was_at_capacity } => {
            assert!(success);
            assert!(!was_at_capacity);
            let done =
                s.network_response(uid, hotkey, success, response_time_ms, was_at_capacity, false);
            assert!(done.unwrap().success);
        }
        other => panic!("unexpected event {other:?}"),
    }
    match s.pop_due().unwrap().kind {
        SimEventKind::NetworkResponse { success, was_at_capacity, .. } => {
            assert!(!success, "beyond its ceiling a miner fails");
            assert!(was_at_capacity);
        }
        other => panic!("unexpected event {other:?}"),
    }
    let m = s.miners.get(&1).unwrap();
    assert_eq!((m.active, m.dispatched_total, m.succeeded_total), (1, 2, 1));
}

#[test]
fn checks_wait_for_room() {
    let mut s = SimState::new(&scenario(vec![profile(1, 500, 5)]));
    for uid in [1u16, 2, 3] {
        assert!(s.network_response(uid, format!("hk_{uid}"), false, 5, false, true).is_none());
    }
    assert_eq!(s.verify_in_flight, 1);
    assert_eq!(s.pending_verifications.len(), 2);
    assert!(!s.dispatch_halted());
    for uid in [4u16, 5] {
        s.network_response(uid, String::new(), false, 5, false, true);
    }
    assert!(s.dispatch_halted());
    assert_eq!(s.dispatch_halt_count, 1);
    s.advance(200);
    assert!(s.pop_due().is_some());
    let done = s.verify_completion(1, "hk_1".to_string(), 5, false);
    assert!(done.success);
    assert_eq!(s.verify_in_flight, 1);
    assert_eq!(s.pending_verifications.len(), 3);
    assert_eq!(s.pending_verifications[0].uid, 3);
}

#[test]
fn rests_end() {
    let mut s = SimState::new(&scenario(vec![profile(1, 500, 5)]));
    s.dispatch_cooldowns.insert("hk_1".to_string(), 1);
    s.dispatch_cooldowns.insert("hk_9".to_string(), 100);
    assert!(!s.is_queryable(1));
    assert!(s.expire_cooldowns().is_empty());
    s.advance(12_000);
    assert_eq!(s.current_block, 1);
    assert_eq!(s.expire_cooldowns(), vec![(1, "hk_1".to_string())]);
    assert!(s.is_queryable(1));
    assert_eq!(s.dispatch_cooldowns.len(), 1);
}

#[test]
fn the_world_is_looked_after_at_its_times() {
    let mut c = RunClock::new();
    assert!(c.health_due(0, 15_000));
    assert!(!c.health_due(14_999, 15_000));
    assert!(c.health_due(15_000, 15_000));
    assert!(!c.maintenance_due(59_999));
    assert!(c.maintenance_due(60_000));
    assert!(!c.maintenance_due(60_001));
}

fn circuit() -> Circuit {
    Circuit {
        id: "c".to_string(),
        name: "n".to_string(),
        proof_system: ProofSystem { code: 1 },
    }
}

fn slice(use_circuit: bool, tiled: bool) -> StepSlice {
    StepSlice {
        slice_id: "slice_0".to_string(),
        use_circuit,
        onnx_path: Some("m.onnx".to_string()),
        named_inputs: 1,
        input_dims: 4,
        tiled,
        inputs: vec![1, 2],
        circuit_path: Some("p".to_string()),
    }
}

fn go(stage: Stage, event: StepEvent) -> (Stage, StepAction) {
    enqueue_next_dslice(stage, event, &circuit(), "run", RunSource::Api)
}

#[test]
fn a_slice_without_a_circuit_is_worked_out_here() {
    let (stage, action) = go(Stage::Choosing, StepEvent::Chosen(Some(slice(false, false))));
    assert!(matches!(action, StepAction::Extract));
    let (stage, action) = go(stage, StepEvent::Extracted(true));
    assert!(matches!(action, StepAction::Infer { several: false }));
    let (stage, action) = go(stage, StepEvent::Inferred(Some((6, vec![2, 3]))));
    assert!(matches!(action, StepAction::Apply));
    let (stage, action) = go(stage, StepEvent::Applied(Some(false)));
    assert!(matches!(action, StepAction::Choose));
    let (stage, action) = go(stage, StepEvent::Chosen(None));
    assert!(matches!(action, StepAction::Rest));
    assert!(matches!(stage, Stage::Resting));
    let (_, action) =
        go(Stage::Inferring(slice(false, false)), StepEvent::Inferred(Some((5, vec![2, 3]))));
    assert!(matches!(action, StepAction::TearDown));
    let mut pathless = slice(false, false);
    pathless.onnx_path = None;
    let (_, action) = go(Stage::Extracting(pathless), StepEvent::Extracted(true));
    assert!(matches!(action, StepAction::TearDown));
    let (_, action) = go(Stage::Applying, StepEvent::Applied(Some(true)));
    assert!(matches!(action, StepAction::Complete));
    assert!(matches!(apply_dslice_result(None).1, StepAction::TearDown));
    assert!(matches!(apply_dslice_result(Some(false)).1, StepAction::Choose));
}

#[test]
fn tiles_are_sent_one_by_one() {
    let (stage, action) = go(Stage::Extracting(slice(true, true)), StepEvent::Extracted(true));
    assert!(matches!(action, StepAction::Split));
    let (stage, action) = go(stage, StepEvent::Tiles(Some(vec![vec![7], vec![8]])));
    assert!(matches!(action, StepAction::Buffer));
    let (_, action) = go(stage, StepEvent::Buffered(true));
    match action {
        StepAction::Enqueue(q) => {
            assert_eq!(q.len(), 2);
            assert_eq!(q[1].tile_idx, Some(1));
            assert_eq!(q[1].inputs, vec![8]);
            assert_eq!(q[1].run_uid, "run");
            assert!(q[1].is_tile);
        }
        other => panic!("unexpected action {other:?}"),
    }
    let mut flat = slice(true, true);
    flat.input_dims = 3;
    let (_, action) = go(Stage::Extracting(flat), StepEvent::Extracted(true));
    assert!(matches!(action, StepAction::TearDown));
    let (_, action) = go(Stage::Extracting(slice(true, false)), StepEvent::Extracted(true));
    match action {
        StepAction::Enqueue(q) => {
            assert_eq!(q.len(), 1);
            assert_eq!(q[0].inputs, vec![1, 2]);
            assert!(!q[0].is_tile);
        }
        other => panic!("unexpected action {other:?}"),
    }
}

#[test]
fn answers_for_tiles_wait_for_each_other() {
    assert_eq!(tile_answered(Some(1), Some(TileBufferOutcome::Waiting)), SliceEnd::Wait);
    assert_eq!(tile_answered(Some(1), Some(TileBufferOutcome::Ready)), SliceEnd::Apply);
    assert_eq!(tile_answered(Some(1), Some(TileBufferOutcome::Failed)), SliceEnd::TearDown);
    assert_eq!(tile_answered(Some(1), None), SliceEnd::TearDown);
    assert_eq!(tile_answered(None, Some(TileBufferOutcome::Ready)), SliceEnd::TearDown);
}

#[test]
fn kinds_of_work_have_an_order() {
    let mut queues = WorkQueues::new();
    let mut terms =
        BenchmarkTerms { disabled: false, circuits: 1, max_concurrent: Some(1), in_flight: 0 };
    assert_eq!(work_kind(true, &queues, terms), WorkKind::ProofOfWeights);
    assert_eq!(work_kind(false, &queues, terms), WorkKind::Benchmark);
    terms.in_flight = 1;
    assert_eq!(work_kind(false, &queues, terms), WorkKind::Nothing);
    queues.rwr.push_back(RwrSubmission {
        circuit_id: "c".to_string(),
        inputs: Json::Null,
        request_id: None,
        retry_count: 0,
    });
    assert_eq!(work_kind(false, &queues, terms), WorkKind::Rwr);
}

#[test]
fn rounds_keep_to_their_budget() {
    assert_eq!(open_round(3, 2, 5, 0, 10), 0);
    assert_eq!(open_round(3, 1, 5, 4, 10), 6);
    assert_eq!(open_round(0, 0, 5, 12, 10), 0);
    assert_eq!(miner_slots(5, 2, 10, 9), 1);
    assert_eq!(miner_slots(5, 2, 10, 0), 3);
    assert_eq!(miner_slots(2, 5, 10, 0), 0);
    assert_eq!(miner_slots(5, 2, 3, 9), 0);
}

#[test]
fn a_round_serves_miners_one_after_the_other() {
    let miners = vec![
        RoundMiner { uid: 1, cap: 2, active: 0 },
        RoundMiner { uid: 2, cap: 1, active: 1 },
        RoundMiner { uid: 3, cap: 5, active: 0 },
        RoundMiner { uid: 4, cap: 1, active: 0 },
    ];
    let mut round = Round::new(miners, 4);
    assert_eq!(round.next(), Some(0));
    assert!(!round.grant(0));
    assert_eq!(round.next(), Some(0));
    assert!(round.grant(0));
    assert_eq!(round.next(), Some(2));
    assert!(!round.grant(2));
    round.refuse(2);
    assert_eq!(round.next(), Some(3));
    assert!(round.grant(3));
    assert_eq!(round.next(), None);
    assert_eq!(round.granted, vec![0, 0, 2, 3]);
}

#[test]
fn a_round_comes_to_every_miner_in_some_order() {
    let mut order = serving_order((0..100).collect());
    let shuffled = order.clone();
    order.sort();
    assert_eq!(order, (0..100).collect::<Vec<u16>>());
    let again = serving_order((0..100).collect());
    assert!(shuffled != order || again != order);
}

fn pow_item(uid: u16) -> PowItem {
    let number = |text: &str| Json::Decimal(text.to_string());
    PowItem {
        miner_uid: uid,
        validator_uid: 9,
        verified: true,
        response_time: number("0.5"),
        proof_size: 3,
        previous_score: number("0.1"),
        maximum_score: number("0.2"),
        maximum_response_time: number("0.9"),
        minimum_response_time: number("0.3"),
        block_number: 7,
    }
}

#[test]
fn scores_are_proved_in_batches() {
    let mut pow = PowManager::new(2);
    for uid in 1..4 {
        pow.push(pow_item(uid));
    }
    let request = weights_request(&mut pow, circuit(), 2, "JSTPROVE");
    assert_eq!(pow.queue.len(), 1);
    assert_eq!(request.request_type, RequestType::ProofOfWeights);
    assert_eq!(request.guard_hash.as_deref(), Some(""));
    let RequestBody::Weights(body) = &request.body else {
        panic!("unexpected body");
    };
    assert_eq!(body.get("subnet_uid").and_then(|v| v.as_u64()), Some(2));
    assert_eq!(body.get("verification_key_hash").and_then(|v| v.as_str()), Some("c"));
    assert_eq!(body.get("proof_system").and_then(|v| v.as_str()), Some("JSTPROVE"));
    assert_eq!(body.get("proof").and_then(|v| v.as_str()), Some(""));
    let uids = body.get("inputs").and_then(|i| i.get("miner_uid")).expect("a column");
    let uids: Vec<Option<u64>> = uids.as_array().expect("a list").iter().map(|v| v.as_u64()).collect();
    assert_eq!(uids, vec![Some(1), Some(2)]);
}

#[test]
fn benchmarks_ask_for_what_the_circuit_has() {
    let request = benchmark_request(circuit(), None);
    assert_eq!(request.request_type, RequestType::Benchmark);
    let RequestBody::Query(body) = &request.body else {
        panic!("unexpected body");
    };
    assert_eq!(body.get("model_id").and_then(|v| v.as_str()), Some("c"));
    assert_eq!(body.get("query_input").and_then(|v| v.as_object()).map(|o| o.len()), Some(0));
    let request = benchmark_request(circuit(), Some(Json::Unsigned(5)));
    assert_eq!(request.task_inputs.as_ref().and_then(|v| v.as_u64()), Some(5));
}
