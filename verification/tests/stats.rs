use std::collections::VecDeque;

use sn2_validator::capacity::{cap_dir_to_str, CapDirection, CapEvent};
use sn2_validator::dsperse_events::{
    timestamp, DsperseEventClient, Moment, MAX_BUFFERED_EVENTS,
};
use sn2_validator::json::Json;
use sn2_validator::keyed::{UidMap, VecMap};
use sn2_validator::stats_reporter::{
    after_post, requeue_cap_events, signature_text, PostStep, ResponseLog, StatsReporter,
    MAX_RETRIES, PENDING_CAP_EVENTS_MAX,
};

fn ev(uid: u16, hotkey: &str) -> CapEvent {
    CapEvent {
        uid,
        hotkey: hotkey.to_string(),
        direction: CapDirection::Ramp,
        cap_from: 1,
        cap_to: 2,
        success_rate: 1.0f64.to_bits(),
        at: 0,
    }
}

#[test]
fn requeue_preserves_order() {
    let mut p = VecDeque::new();
    requeue_cap_events(&mut p, vec![ev(1, "a"), ev(2, "b"), ev(3, "c")]);
    assert_eq!(p.len(), 3);
    assert_eq!(p[0].uid, 1);
    assert_eq!(p[1].uid, 2);
    assert_eq!(p[2].uid, 3);
}

#[test]
fn requeue_appends_so_older_failures_drain_first() {
    let mut p = VecDeque::new();
    requeue_cap_events(&mut p, vec![ev(10, "a")]);
    requeue_cap_events(&mut p, vec![ev(11, "b")]);
    assert_eq!(p[0].uid, 10, "earlier failure stays at the front");
    assert_eq!(p[1].uid, 11);
}

#[test]
fn requeue_drops_oldest_when_buffer_full() {
    let mut p = VecDeque::new();
    let total = PENDING_CAP_EVENTS_MAX + 50;
    let big: Vec<CapEvent> = (0..total).map(|i| ev(i as u16, "a")).collect();
    requeue_cap_events(&mut p, big);
    assert_eq!(p.len(), PENDING_CAP_EVENTS_MAX);
    let actual: Vec<u16> = p.iter().map(|e| e.uid).collect();
    let expected: Vec<u16> =
        ((total - PENDING_CAP_EVENTS_MAX)..total).map(|i| i as u16).collect();
    assert_eq!(actual, expected);
}

#[test]
fn requeue_no_op_on_empty_input() {
    let mut p: VecDeque<CapEvent> = VecDeque::new();
    requeue_cap_events(&mut p, Vec::new());
    assert!(p.is_empty());
}

#[test]
fn directions_have_names() {
    assert_eq!(cap_dir_to_str(CapDirection::Ramp), "ramp");
    assert_eq!(cap_dir_to_str(CapDirection::Backoff), "backoff");
    assert_eq!(cap_dir_to_str(CapDirection::Evict), "evict");
    assert_eq!(cap_dir_to_str(CapDirection::Rehab), "rehab");
}

#[test]
fn reports_are_sent_again_a_few_times() {
    assert_eq!(after_post(0, true), PostStep::Done);
    let mut waits = Vec::new();
    for attempt in 0..MAX_RETRIES {
        match after_post(attempt, false) {
            PostStep::RetryAfter(w) => waits.push(w),
            other => panic!("unexpected step {other:?}"),
        }
    }
    assert!(waits.windows(2).all(|w| w[0] < w[1]));
    assert_eq!(after_post(MAX_RETRIES, false), PostStep::GiveUp);
}

fn log(uid: u16) -> ResponseLog {
    ResponseLog {
        miner_key: None,
        miner_uid: uid,
        proof_model: Some("model".to_string()),
        proof_system: None,
        proof_size: Json::Unsigned(3),
        response_duration: Json::Decimal("1.5".to_string()),
        is_verified: true,
        external_request_hash: Json::Null,
        request_type: Some("DSLICE".to_string()),
        error: None,
        save: false,
    }
}

const SEC: u64 = 1000;

#[test]
fn reports_wait_for_their_time() {
    let now = 1_000_000 * SEC;
    let mut r = StatsReporter::new("key".to_string(), 7, now, 1);
    assert!(r.flush_response_logs(now).is_none());
    r.record_response(log(1));
    assert_eq!(r.flush_response_logs(now).map(|v| v.len()), Some(1));
    r.record_response(log(2));
    assert!(r.flush_response_logs(now + 59 * SEC).is_none());
    assert_eq!(r.flush_response_logs(now + 60 * SEC).map(|v| v.len()), Some(1));
    r.sample_health(100, 2, 3);
    assert!(r.flush_health_samples(now).is_none());
    let (answers, health) = r.flush_if_ready(now + 20 * SEC);
    assert!(answers.is_none());
    assert_eq!(health.map(|v| v.len()), Some(1));
}

#[test]
fn answers_are_reported_with_their_miner() {
    let now = 1_000_000 * SEC;
    let mut r = StatsReporter::new("key".to_string(), 7, now, 1);
    r.record_response(log(5));
    let logs = r.flush_response_logs(now).unwrap();
    assert_eq!(logs[0].get("miner_uid").and_then(|v| v.as_u64()), Some(5));
    let body = r.response_body(
        99,
        logs,
        vec![(5, Json::Decimal("0.25".to_string()))],
        Json::Null,
        "1.2.3",
    );
    assert_eq!(body.get("validator_key").and_then(|v| v.as_str()), Some("key"));
    assert_eq!(body.get("block").and_then(|v| v.as_u64()), Some(99));
    let scores = body.get("scores").unwrap();
    assert!(matches!(scores.get("5"), Some(Json::Decimal(t)) if t == "0.25"));
    assert_eq!(body.get("software_version").and_then(|v| v.as_str()), Some("1.2.3"));
}

#[test]
fn capacity_changes_wait_and_go_out_in_order() {
    let now = 1_000_000 * SEC;
    let mut r = StatsReporter::new("key".to_string(), 7, now, 1);
    assert!(!r.capacity_flush_due(now));
    assert!(r.flush_capacity(now, false, vec![ev(1, "a")]).is_none());
    let later = now + 60 * SEC;
    assert!(r.capacity_flush_due(later));
    let events = r.flush_capacity(later, false, vec![ev(2, "b")]).unwrap();
    assert_eq!(events.iter().map(|e| e.uid).collect::<Vec<_>>(), vec![1, 2]);
    assert!(r.flush_capacity(later + 60 * SEC, true, vec![]).is_none());
    let mut snapshot: UidMap<usize> = VecMap::new();
    snapshot.insert(1, 4);
    let mut hotkeys: UidMap<String> = VecMap::new();
    hotkeys.insert(1, "hk".to_string());
    let rates = vec![Json::Null, Json::Null];
    let body = r.capacity_body(5, &snapshot, &events, &rates, &hotkeys, later, "v");
    let text = String::from_utf8(body.to_bytes()).unwrap();
    assert!(text.contains("\"hk\""), "{text}");
    assert!(text.contains("\"ramp\""), "{text}");
}

fn moment() -> Moment {
    Moment { secs: 0, millis: 5 }
}

#[test]
fn moments_are_written_in_thousandths() {
    assert_eq!(timestamp(0, 5), "0.005");
    assert_eq!(timestamp(1_700_000_000, 999), "1700000000.999");
    assert_eq!(timestamp(12, 40), "12.040");
}

#[test]
fn events_that_could_not_be_sent_come_first_again() {
    let mut client = DsperseEventClient::new("key".to_string());
    client.emit_slice_failed("run", "slice_0", "no", moment());
    let (body, events) = client.flush().unwrap();
    assert!(body.get("validator_key").is_some());
    assert_eq!(events.len(), 1);
    assert!(client.flush().is_none());
    client.emit_run_complete("run", false, Json::Null, moment());
    client.restore_buffer(events);
    assert_eq!(client.len(), 2);
    let (_, events) = client.flush().unwrap();
    let text = String::from_utf8(events[0].to_bytes()).unwrap();
    assert!(text.contains("slice_0"), "{text}");
}

#[test]
fn only_so_many_events_wait() {
    let mut client = DsperseEventClient::new("key".to_string());
    for _ in 0..MAX_BUFFERED_EVENTS + 3 {
        client.emit(vec![], moment());
    }
    assert!(client.len() <= MAX_BUFFERED_EVENTS);
}

#[test]
fn signatures_are_sent_in_base_64() {
    assert_eq!(signature_text(&[0xff, 0x00, 0x10, 0x83]), "/wAQgw==");
    assert_eq!(signature_text(&[]), "");
}
