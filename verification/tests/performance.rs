use std::collections::VecDeque;

use sn2_validator::capacity::{CapDirection, CapEvent, MAX_BUFFERED_CAP_EVENTS};
use sn2_validator::json::Json;
use sn2_validator::keyed::{UidMap, VecMap};
use sn2_validator::meminfo::parse_meminfo;
use sn2_validator::performance::{
    stored_state, PerformancePolicy, PerformanceTracker,
};
use sn2_validator::units::UNIT_REFERENCE_MIN_SAMPLES;

const SEC: u64 = 1000;
const HOUR: u64 = 3600 * SEC;
const WINDOW_TTL: u64 = 24 * HOUR;
const BUCKET: u64 = 300 * SEC;
const RESCHEDULE_PENALTY: f64 = 180.0;
const TIMEOUT_MIN_SAMPLES: usize = 20;
const TIMEOUT_PERCENTILE: f64 = 0.95;
const TIMEOUT_MULTIPLIER: f64 = 2.0;
const CIRCUIT_TIMEOUT: f64 = 60.0;
const REFERENCE_PERCENTILE: f64 = 0.5;
const LATENCY_BUDGET: f64 = 0.75;
const HEADROOM: f64 = 1.5;
const STEP_FRACTION: f64 = 0.1;
const DEADBAND: f64 = 0.25;
const ADJUST_INTERVAL: u64 = 10 * SEC;
const RATE_BIN: u64 = 10 * SEC;
const RATE_WINDOW_BINS: u64 = 3;
const RATE_FILTER_BINS: usize = 12;
const HALF_LIFE_SECS: f64 = 7200.0;
const DEBIT_MULTIPLIER: f64 = 2.0;
const MIN_SAMPLES: usize = 10;
const IDLE: u64 = 600 * SEC;
const START: u64 = 1_000_000 * SEC;

fn test_tracker() -> PerformanceTracker {
    PerformanceTracker::new(
        PerformancePolicy {
            window_ttl: WINDOW_TTL,
            window_size: 100,
            min_samples: MIN_SAMPLES,
            timeout_min_samples: TIMEOUT_MIN_SAMPLES,
            reschedule_penalty: RESCHEDULE_PENALTY.to_bits(),
            rate_bin: RATE_BIN,
            rate_filter_bins: RATE_FILTER_BINS,
            ticks_per_sec: SEC,
        },
        None,
    )
}

fn reference_index(t: &PerformanceTracker, key: &str) -> usize {
    (t.units.reference_samples(key) as f64 * REFERENCE_PERCENTILE) as usize
}

fn adjust_cap(t: &mut PerformanceTracker, uid: u16, hotkey: &str, at: u64) {
    if !t.caps.adjust_due(uid, at, ADJUST_INTERVAL) {
        return;
    }
    let window = RATE_WINDOW_BINS * RATE_BIN;
    let peak = t.delivery.delivered_peak(uid, at, window, RATE_BIN * RATE_FILTER_BINS as u64);
    let rate = peak as f64 / (window / SEC) as f64;
    let service = t
        .units
        .uncongested_service_time(uid, at, WINDOW_TTL)
        .map(f64::from_bits)
        .unwrap_or(0.0);
    let target = (rate * service * HEADROOM).max(rate * LATENCY_BUDGET).max(1.0);
    let from = t.caps.cap_or_one(uid);
    let step = ((from as f64 * STEP_FRACTION).ceil() as usize).max(1);
    let well_above = from as f64 > target * (1.0 + DEADBAND);
    t.caps.update_adaptive_cap(
        uid,
        hotkey,
        step,
        target.round() as usize,
        well_above,
        rate.to_bits(),
        at,
    );
}

fn record_at(
    t: &mut PerformanceTracker,
    uid: u16,
    hotkey: &str,
    success: bool,
    secs: f64,
    key: &str,
    at: u64,
    now: u64,
) {
    let best = t.record_with_time(uid, key, success, secs.to_bits(), at, now);
    if let Some(best) = best {
        let index = reference_index(t, key);
        let reference = t.units.cached_unit_reference(key, index);
        if reference > 0 {
            let rel = f64::from_bits(reference) / f64::from_bits(best);
            t.units.note_rel_speed(uid, rel.to_bits(), at, now, WINDOW_TTL);
            let running = t.delivery.running_bucket(uid, at, BUCKET);
            let credit = f64::from_bits(running.credit) + f64::from_bits(reference);
            t.credit_work(uid, credit.to_bits(), at, BUCKET, WINDOW_TTL + BUCKET);
        }
    }
    if success {
        adjust_cap(t, uid, hotkey, at);
    }
}

fn record(t: &mut PerformanceTracker, uid: u16, hotkey: &str, success: bool, secs: f64, key: &str) {
    record_at(t, uid, hotkey, success, secs, key, START, START);
}

fn reschedule(t: &mut PerformanceTracker, uid: u16, key: &str) {
    let index = reference_index(t, key);
    let reference = t.record_reschedule_keyed(uid, key, index, START);
    let running = t.delivery.running_bucket(uid, START, BUCKET);
    let debit = if reference > 0 {
        Some((f64::from_bits(running.debit) + f64::from_bits(reference) * DEBIT_MULTIPLIER).to_bits())
    } else {
        None
    };
    t.charge_failure(uid, debit, START, BUCKET, WINDOW_TTL + BUCKET);
}

fn delivered_work(t: &PerformanceTracker, uid: u16, now: u64) -> f64 {
    let mut work = 0.0;
    for span in t.delivery.delivered(uid, now, WINDOW_TTL + BUCKET) {
        let age = (now - span.at) as f64 / SEC as f64;
        let decay = 0.5_f64.powf(age / HALF_LIFE_SECS);
        work += (f64::from_bits(span.what.credit) - f64::from_bits(span.what.debit)) * decay;
    }
    work.max(0.0)
}

fn adaptive_timeout(t: &PerformanceTracker) -> f64 {
    let index = (t.success_count() as f64 * TIMEOUT_PERCENTILE) as usize;
    match t.timeout_sample(index) {
        None => CIRCUIT_TIMEOUT,
        Some(time) => (f64::from_bits(time) * TIMEOUT_MULTIPLIER).min(CIRCUIT_TIMEOUT),
    }
}

fn cap_of(t: &PerformanceTracker, uid: u16) -> usize {
    t.cap_snapshot().get(&uid).copied().unwrap_or(0)
}

fn drive_rate(t: &mut PerformanceTracker, uid: u16, per_sec: usize, secs: u64, base: u64) -> u64 {
    let mut now = base;
    for s in 0..secs {
        for i in 0..per_sec {
            let jitter = 0.005 + ((s as usize + i) % 40) as f64 * 0.001;
            now = base + s * 1000 + (i as u64 * 1000 / per_sec.max(1) as u64);
            record_at(t, uid, "hk", true, jitter, "A", now, now);
        }
    }
    now
}

fn drive_closed_loop(
    t: &mut PerformanceTracker,
    uid: u16,
    service_time: f64,
    demand_per_sec: usize,
    secs: u64,
    base: u64,
) -> u64 {
    let mut now = base;
    for s in 0..secs {
        let cap = cap_of(t, uid).max(1);
        let deliverable = ((cap as f64 / service_time) as usize).min(demand_per_sec).max(1);
        for i in 0..deliverable {
            now = base + s * 1000 + (i as u64 * 1000 / deliverable as u64);
            record_at(t, uid, "hk", true, service_time, "A", now, now);
        }
    }
    now
}

fn drive_queued_closed_loop(
    t: &mut PerformanceTracker,
    uid: u16,
    base_service: f64,
    concurrency: usize,
    secs: u64,
    base: u64,
) -> u64 {
    let mut now = base;
    let mut carry = 0.0_f64;
    for s in 0..secs {
        let cap = cap_of(t, uid).max(1);
        let in_flight = cap as f64;
        let overcommit = (in_flight / concurrency as f64).max(1.0);
        let observed = base_service * overcommit;
        let deliver = in_flight.min(concurrency as f64) / base_service + carry;
        let deliverable = deliver as usize;
        carry = deliver - deliverable as f64;
        for i in 0..deliverable {
            now = base + s * 1000 + (i as u64 * 1000 / deliverable as u64);
            record_at(t, uid, "hk", true, observed, "A", now, now);
        }
    }
    now
}

#[test]
fn adaptive_timeout_returns_default_with_few_samples() {
    let tracker = test_tracker();
    assert_eq!(adaptive_timeout(&tracker), CIRCUIT_TIMEOUT);
}

#[test]
fn parse_meminfo_extracts_avail_ratio() {
    let sample = "MemTotal:       32096780 kB\n\
                  MemFree:         1234567 kB\n\
                  MemAvailable:    8024195 kB\n\
                  Buffers:           12345 kB\n";
    let (available, total) = parse_meminfo(sample).expect("ratio");
    assert_eq!((available, total), (8024195, 32096780));
    let ratio = available as f64 / total as f64;
    assert!((ratio - 0.25).abs() < 0.005, "ratio {ratio} should be ~0.25");
}

#[test]
fn parse_meminfo_returns_none_on_missing_fields() {
    assert!(parse_meminfo("MemTotal: 1 kB\n").is_none());
    assert!(parse_meminfo("MemAvailable: 1 kB\n").is_none());
    assert!(parse_meminfo("").is_none());
}

#[test]
fn record_populates_window() {
    let mut tracker = test_tracker();
    record(&mut tracker, 1, "hk", true, 5.0, "");
    record(&mut tracker, 1, "hk", true, 6.0, "");
    assert_eq!(tracker.windows.get(&1).unwrap().len(), 2);
}

#[test]
fn record_reschedule_adds_penalty() {
    let mut tracker = test_tracker();
    tracker.record_reschedule(1, START, BUCKET, WINDOW_TTL + BUCKET);
    let window = tracker.windows.get(&1).unwrap();
    assert_eq!(window.len(), 1);
    let (success, time) = window[0].what;
    assert!(!success);
    assert_eq!(f64::from_bits(time), RESCHEDULE_PENALTY);
}

#[test]
fn reset_uid_clears_all_state() {
    let mut tracker = test_tracker();
    record(&mut tracker, 1, "hk", true, 5.0, "");
    tracker.caps.adaptive_caps.insert(1, 4);
    tracker.reset_uid(1, "hk");
    assert!(!tracker.windows.contains_key(&1));
    assert!(!tracker.caps.adaptive_caps.contains_key(&1));
    assert!(!tracker.caps.at_cap_results.contains_key(&1));
}

#[test]
fn adaptive_timeout_calculates_percentile_and_clamps() {
    let mut tracker = test_tracker();
    for i in 0..TIMEOUT_MIN_SAMPLES {
        record(&mut tracker, 1, "hk", true, (i + 1) as f64, "");
    }
    let timeout = adaptive_timeout(&tracker);
    let sorted: Vec<f64> = (1..=TIMEOUT_MIN_SAMPLES).map(|i| i as f64).collect();
    let idx = ((sorted.len() as f64 * TIMEOUT_PERCENTILE) as usize).min(sorted.len() - 1);
    let expected = (sorted[idx] * TIMEOUT_MULTIPLIER).min(CIRCUIT_TIMEOUT);
    assert!((timeout - expected).abs() < 1e-9, "timeout={timeout}, expected={expected}");

    let mut tracker2 = test_tracker();
    for _ in 0..TIMEOUT_MIN_SAMPLES {
        record(&mut tracker2, 1, "hk", true, 500.0, "");
    }
    assert_eq!(adaptive_timeout(&tracker2), CIRCUIT_TIMEOUT);
}

#[test]
fn miner_capacities_default_to_one() {
    let mut tracker = test_tracker();
    record(&mut tracker, 1, "hk", true, 5.0, "");
    let caps = tracker.miner_capacities();
    assert_eq!(caps.get(&1).copied().unwrap_or(0), 1);
}

#[test]
fn record_with_time_evicts_stale_entries() {
    let mut tracker = test_tracker();
    let stale = START - WINDOW_TTL - 60 * SEC;
    record_at(&mut tracker, 1, "hk", true, 5.0, "", stale, START);
    record_at(&mut tracker, 1, "hk", true, 6.0, "", START, START);
    let window = tracker.windows.get(&1).unwrap();
    assert_eq!(window.len(), 1);
    assert_eq!(f64::from_bits(window[0].what.1), 6.0);
}

#[test]
fn cap_ramp_emits_event_with_from_to_and_rate() {
    let mut tracker = test_tracker();
    drive_rate(&mut tracker, 1, 40, 120, START);
    let events = tracker.drain_cap_events();
    assert!(!events.is_empty());
    assert_eq!(events[0].direction, CapDirection::Ramp);
    assert!(events[0].cap_to > events[0].cap_from);
    assert!(f64::from_bits(events[0].success_rate) >= 0.0);
}

#[test]
fn cap_backoff_emits_event_when_rate_falls() {
    let mut tracker = test_tracker();
    let mid = drive_rate(&mut tracker, 1, 40, 300, START);
    tracker.drain_cap_events();
    drive_rate(&mut tracker, 1, 4, 900, mid + SEC);
    let events = tracker.drain_cap_events();
    assert!(events.iter().any(|e| e.direction == CapDirection::Backoff));
}

#[test]
fn unit_reference_prices_delivered_work() {
    let mut tracker = test_tracker();
    for _ in 0..400 {
        record(&mut tracker, 0, "a", true, 100.0, "A");
        record(&mut tracker, 0, "a", true, 100.0, "A");
        record(&mut tracker, 3, "b", true, 1.0, "B");
        record(&mut tracker, 3, "b", true, 1.0, "B");
        record(&mut tracker, 1, "x", true, 50.0, "A");
        record(&mut tracker, 2, "y", true, 2.0, "B");
    }
    let x = delivered_work(&tracker, 1, START);
    let y = delivered_work(&tracker, 2, START);
    assert!(x > y, "equal volume on a heavier unit must earn more: x={x}, y={y}");
}

#[test]
fn delivered_work_accrues_only_on_verified_success() {
    let mut tracker = test_tracker();
    for _ in 0..200 {
        record(&mut tracker, 1, "a", true, 2.0, "A");
        record(&mut tracker, 2, "b", true, 2.0, "A");
        record(&mut tracker, 2, "b", false, 2.0, "A");
    }
    for _ in 0..200 {
        record(&mut tracker, 1, "a", true, 2.0, "A");
    }
    let w1 = delivered_work(&tracker, 1, START);
    let w2 = delivered_work(&tracker, 2, START);
    assert!(w1 > 0.0 && w2 > 0.0);
    assert!(w1 > w2 * 1.5, "failures must not earn work credit: w1={w1}, w2={w2}");
}

#[test]
fn failures_debit_referenced_work_only() {
    let mut tracker = test_tracker();
    for _ in 0..100 {
        record(&mut tracker, 1, "a", true, 2.0, "A");
        record(&mut tracker, 2, "b", true, 2.0, "A");
    }
    let before = delivered_work(&tracker, 2, START);
    assert!(before > 0.0);

    for _ in 0..10 {
        reschedule(&mut tracker, 2, "B");
    }
    let after_unreferenced = delivered_work(&tracker, 2, START);
    assert!((before - after_unreferenced).abs() < before * 1e-4);
    assert_eq!(tracker.delivered_breakdown(2, START, WINDOW_TTL + BUCKET).1, 10);

    for _ in 0..10 {
        reschedule(&mut tracker, 2, "A");
    }
    let after_referenced = delivered_work(&tracker, 2, START);
    assert!(after_referenced < after_unreferenced);

    for _ in 0..200 {
        reschedule(&mut tracker, 2, "A");
    }
    assert_eq!(delivered_work(&tracker, 2, START), 0.0);
}

#[test]
fn unmeasured_miner_ranks_zero_not_neutral() {
    let mut tracker = test_tracker();
    for _ in 0..(MIN_SAMPLES + 10) {
        tracker.record_reschedule(3, START, BUCKET, WINDOW_TTL + BUCKET);
        record(&mut tracker, 4, "hk", true, 2.0, "A");
    }
    let snap = tracker.snapshot(START);
    let (_, speeds, _) = snap.iter().find(|s| s.0 == 3).expect("uid 3 tracked");
    assert!(speeds.is_empty());
    let all = tracker.throughput_snapshot(START, WINDOW_TTL + BUCKET);
    let (_, work, cap, count) = all.iter().find(|s| s.0 == 3).expect("uid 3 tracked");
    assert_eq!(work.len(), 1);
    assert_eq!(f64::from_bits(work[0].what.credit), 0.0);
    assert_eq!(f64::from_bits(work[0].what.debit), 0.0);
    assert_eq!(work[0].what.uncredited_failures, (MIN_SAMPLES + 10) as u64);
    assert_eq!(delivered_work(&tracker, 3, START), 0.0);
    assert_eq!(*cap, 1);
    assert!(*count >= MIN_SAMPLES);
}

#[test]
fn delivered_work_decays_when_delivery_stops() {
    let mut tracker = test_tracker();
    let old = START - 3 * HOUR;
    for (uid, at) in [(1u16, old), (2u16, START)] {
        for _ in 0..50 {
            record_at(&mut tracker, uid, "hk", true, 1.0, "A", at, START);
        }
    }
    let stale = delivered_work(&tracker, 1, START);
    let fresh = delivered_work(&tracker, 2, START);
    assert!(fresh > 0.0);
    assert!(stale < fresh * 0.5, "stale={stale} fresh={fresh}");
    assert!(stale > fresh * 0.1, "stale={stale} fresh={fresh}");
}

#[test]
fn steady_delivery_props_up_score() {
    let mut tracker = test_tracker();
    for h in 0..6u64 {
        let at = START - h * HOUR;
        for _ in 0..10 {
            record_at(&mut tracker, 3, "hk", true, 1.0, "A", at, START);
        }
    }
    let continuous = delivered_work(&tracker, 3, START);
    for _ in 0..10 {
        record_at(&mut tracker, 4, "hk", true, 1.0, "A", START, START);
    }
    let single_hour = delivered_work(&tracker, 4, START);
    assert!(continuous > single_hour * 2.0, "continuous={continuous} single={single_hour}");
}

#[test]
fn saturated_miner_cap_pins_at_knee_without_runaway() {
    let mut tracker = test_tracker();
    tracker.caps.adaptive_caps.insert(1, 1);
    drive_queued_closed_loop(&mut tracker, 1, 0.5, 10, 1800, START);
    let cap = cap_of(&tracker, 1);
    assert!((12..=25).contains(&cap), "cap {cap} must pin near the knee depth of 10");
}

#[test]
fn slow_service_cap_holds_knee_depth_not_budget_floor() {
    let mut tracker = test_tracker();
    tracker.caps.adaptive_caps.insert(1, 1);
    drive_queued_closed_loop(&mut tracker, 1, 5.0, 100, 3600, START);
    let cap = cap_of(&tracker, 1);
    assert!((120..=200).contains(&cap), "cap {cap} must sustain the knee depth of 100");
}

#[test]
fn saturated_steady_state_emits_no_capacity_events() {
    let mut tracker = test_tracker();
    tracker.caps.adaptive_caps.insert(1, 1);
    let mid = drive_queued_closed_loop(&mut tracker, 1, 0.5, 10, 1200, START);
    tracker.drain_cap_events();
    drive_queued_closed_loop(&mut tracker, 1, 0.5, 10, 600, mid + SEC);
    let events = tracker.drain_cap_events();
    assert!(events.len() <= 2, "got {} events", events.len());
}

#[test]
fn closed_loop_escapes_floor_when_rate_is_cap_limited() {
    let mut tracker = test_tracker();
    tracker.caps.adaptive_caps.insert(1, 1);
    drive_closed_loop(&mut tracker, 1, 0.5, 1000, 900, START);
    let cap = cap_of(&tracker, 1);
    assert!(cap >= 20, "cap-limited miner must ramp out of the floor: cap={cap}");
}

#[test]
fn closed_loop_settles_at_demand_when_supply_limited() {
    let mut tracker = test_tracker();
    tracker.caps.adaptive_caps.insert(1, 64);
    drive_closed_loop(&mut tracker, 1, 0.05, 8, 900, START);
    let cap = cap_of(&tracker, 1);
    assert!(cap < 32, "supply-limited miner must not hold inflated cap: cap={cap}");
    assert!(cap >= 1, "cap never drops below floor");
}

#[test]
fn cap_converges_to_delivered_rate_times_budget() {
    let mut tracker = test_tracker();
    drive_rate(&mut tracker, 1, 40, 600, START);
    let cap = cap_of(&tracker, 1);
    let target = (40.0 * LATENCY_BUDGET) as usize;
    assert!(
        cap >= target * 8 / 10 && cap <= target * 15 / 10,
        "cap {cap} should settle near rate*budget {target}"
    );
}

#[test]
fn cap_tracks_rate_decrease() {
    let mut tracker = test_tracker();
    let mid = drive_rate(&mut tracker, 1, 40, 600, START);
    let high = cap_of(&tracker, 1);
    drive_rate(&mut tracker, 1, 8, 900, mid + SEC);
    let low = cap_of(&tracker, 1);
    assert!(low < high / 2, "cap must follow rate down: high={high} low={low}");
}

#[test]
fn latency_noise_does_not_cause_oscillation() {
    let mut tracker = test_tracker();
    drive_rate(&mut tracker, 1, 40, 300, START);
    tracker.drain_cap_events();
    drive_rate(&mut tracker, 1, 40, 600, START + 301 * SEC);
    let events = tracker.drain_cap_events();
    let mut reversals = 0;
    for w in events.windows(2) {
        if w[0].direction != w[1].direction {
            reversals += 1;
        }
    }
    assert!(reversals <= events.len() / 3 + 2);
}

#[test]
fn drain_cap_events_clears_buffer() {
    let mut tracker = test_tracker();
    drive_rate(&mut tracker, 1, 40, 120, START);
    assert!(!tracker.drain_cap_events().is_empty());
    assert!(tracker.drain_cap_events().is_empty());
}

#[test]
fn cap_event_buffer_is_bounded() {
    let mut tracker = test_tracker();
    for i in 0..(MAX_BUFFERED_CAP_EVENTS + 50) {
        tracker.caps.cap_events.push(CapEvent {
            uid: 1,
            hotkey: "hk".to_string(),
            direction: CapDirection::Ramp,
            cap_from: i,
            cap_to: i + 1,
            success_rate: 1.0f64.to_bits(),
            at: START,
        });
    }
    drive_rate(&mut tracker, 1, 40, 60, START);
    assert!(tracker.caps.cap_events.len() <= MAX_BUFFERED_CAP_EVENTS + 50);
    drive_rate(&mut tracker, 1, 40, 60, START + 61 * SEC);
    assert!(tracker.caps.cap_events.len() <= MAX_BUFFERED_CAP_EVENTS);
}

#[test]
fn reset_uid_purges_buffered_cap_events_for_that_hotkey() {
    let mut tracker = test_tracker();
    drive_rate(&mut tracker, 1, 40, 120, START);
    drive_rate(&mut tracker, 2, 40, 120, START);
    tracker.caps.cap_events.iter_mut().for_each(|e| {
        if e.uid == 2 {
            e.hotkey = "hk_b".to_string();
        }
    });
    tracker.reset_uid(1, "hk");
    let remaining = tracker.drain_cap_events();
    assert!(!remaining.is_empty());
    assert!(remaining.iter().all(|e| e.hotkey == "hk_b"));
}

#[test]
fn reset_uid_purge_is_keyed_by_hotkey_not_uid_slot() {
    let mut tracker = test_tracker();
    drive_rate(&mut tracker, 1, 40, 120, START);
    let mid = tracker.caps.cap_events.len();
    assert!(mid > 0);
    drive_rate(&mut tracker, 1, 40, 120, START + 121 * SEC);
    tracker
        .caps
        .cap_events
        .iter_mut()
        .skip(mid)
        .for_each(|e| e.hotkey = "hk_new".to_string());
    tracker.reset_uid(1, "hk");
    let remaining = tracker.drain_cap_events();
    assert!(remaining.iter().all(|e| e.hotkey == "hk_new"));
}

fn numbers_of(t: &PerformanceTracker) -> UidMap<Vec<Json>> {
    let mut numbers: UidMap<Vec<Json>> = VecMap::new();
    for i in 0..t.windows.len() {
        let times = t
            .windows
            .value_at(i)
            .iter()
            .map(|o| Json::Decimal(format!("{:?}", f64::from_bits(o.what.1))))
            .collect();
        numbers.insert(*t.windows.key_at(i), times);
    }
    numbers
}

#[test]
fn restored_caps_floor_at_one() {
    let mut tracker = test_tracker();
    tracker.persistence_path = Some("performance_tracker.json".to_string());
    record(&mut tracker, 9, "hk", true, 2.0, "A");
    tracker.caps.adaptive_caps.insert(9, 0);
    let now_secs = 1_700_000_000;
    let (path, text) = tracker.save(&numbers_of(&tracker), START, now_secs).expect("a path");
    assert_eq!(path, "performance_tracker.json");

    let stored = stored_state(&text).expect("stored text parses");
    let windows: Vec<(u16, Vec<(u64, bool, u64)>)> =
        stored.windows
            .into_iter()
            .map(|(uid, list)| {
                let list = list
                    .into_iter()
                    .map(|o| match o.time {
                        Json::Decimal(t) => {
                            (o.secs, o.success, t.parse::<f64>().unwrap().to_bits())
                        }
                        other => panic!("unexpected time {other:?}"),
                    })
                    .collect();
                (uid, list)
            })
            .collect();
    let mut restored = test_tracker();
    restored.load(&windows, stored.capacities.as_ref(), START, now_secs);
    assert_eq!(restored.caps.adaptive_caps.get(&9).copied(), Some(1));
    let window = restored.windows.get(&9).expect("the outcome still counts");
    assert_eq!(window.len(), 1);
    assert_eq!(window[0].what, (true, 2.0f64.to_bits()));
}

#[test]
fn what_is_stored_comes_back_as_far_as_it_counts() {
    let mut tracker = test_tracker();
    let old = START - WINDOW_TTL;
    for (uid, at) in [(4u16, old), (4, START - 7 * SEC), (5, old)] {
        record_at(&mut tracker, uid, "hk", uid == 4, 1.5, "A", at, START);
    }
    tracker.caps.adaptive_caps.insert(4, 3);
    tracker.caps.at_cap_results.insert(4, VecDeque::from(vec![true, false]));
    let now_secs = 1_700_000_000;
    let text = tracker.to_json(&numbers_of(&tracker), START, now_secs).to_bytes();
    let stored = stored_state(&text).expect("stored text parses");
    let windows: Vec<(u16, Vec<(u64, bool, u64)>)> = stored
        .windows
        .into_iter()
        .map(|(uid, list)| {
            (uid, list.into_iter().map(|o| (o.secs, o.success, 1.5f64.to_bits())).collect())
        })
        .collect();
    let later = START + 60 * SEC;
    let mut restored = test_tracker();
    restored.load(&windows, stored.capacities.as_ref(), later, now_secs + 60);
    let window = restored.windows.get(&4).expect("one outcome still counts");
    assert_eq!(window.len(), 1);
    assert_eq!(window[0].at, START - 7 * SEC);
    assert_eq!(window[0].what, (true, 1.5f64.to_bits()));
    assert!(!restored.windows.contains_key(&5));
    assert_eq!(restored.caps.adaptive_caps.len(), 1);
    assert_eq!(restored.caps.adaptive_caps.get(&4).copied(), Some(3));
    let results: Vec<bool> = restored.caps.at_cap_results.get(&4).unwrap().iter().copied().collect();
    assert_eq!(results, vec![true, false]);
}

#[test]
fn idle_decay_floors_at_one_without_eviction() {
    let mut tracker = test_tracker();
    tracker.caps.adaptive_caps.insert(3, 2);
    let mut hotkeys: UidMap<String> = VecMap::new();
    hotkeys.insert(3, "hk".to_string());
    assert_eq!(tracker.decay_idle_caps(&hotkeys, START, IDLE), 1);
    assert_eq!(tracker.caps.adaptive_caps.get(&3).copied(), Some(1));
    assert_eq!(tracker.decay_idle_caps(&hotkeys, START, IDLE), 0);
    assert_eq!(tracker.caps.adaptive_caps.get(&3).copied(), Some(1));
    assert!(tracker.drain_pending_evictions().is_empty());
    assert!(!tracker.drain_cap_events().iter().any(|e| e.direction == CapDirection::Evict));
}

#[test]
fn rehabilitate_restores_cap_from_zero_to_one() {
    let mut tracker = test_tracker();
    tracker.caps.adaptive_caps.insert(7, 0);
    tracker.rehabilitate(7, "hk_dead", START);
    assert_eq!(tracker.caps.adaptive_caps.get(&7).copied(), Some(1));
    let events = tracker.drain_cap_events();
    assert!(events.iter().any(|e| e.direction == CapDirection::Rehab));
}

#[test]
fn rehabilitate_is_noop_when_cap_is_nonzero() {
    let mut tracker = test_tracker();
    tracker.caps.adaptive_caps.insert(7, 3);
    tracker.rehabilitate(7, "hk_alive", START);
    assert_eq!(tracker.caps.adaptive_caps.get(&7).copied(), Some(3));
    assert!(tracker.drain_cap_events().is_empty());
}

#[test]
fn pressure_lowers_every_capacity_to_no_less_than_one() {
    let mut tracker = test_tracker();
    for (uid, cap) in [(1u16, 1usize), (2, 2), (3, 100)] {
        tracker.caps.adaptive_caps.insert(uid, cap);
    }
    let mut decrements: UidMap<usize> = VecMap::new();
    decrements.insert(2, 0);
    decrements.insert(3, 20);
    let hotkeys: UidMap<String> = VecMap::new();
    assert_eq!(tracker.backoff_all_caps_under_pressure(false, &decrements, &hotkeys, START), 0);
    assert_eq!(tracker.backoff_all_caps_under_pressure(true, &decrements, &hotkeys, START), 2);
    let caps = tracker.cap_snapshot();
    assert_eq!(caps.get(&1).copied(), Some(1));
    assert_eq!(caps.get(&2).copied(), Some(1));
    assert_eq!(caps.get(&3).copied(), Some(80));
    let events = tracker.drain_cap_events();
    assert_eq!(events.len(), 2);
    assert!(events.iter().all(|e| e.direction == CapDirection::Backoff && e.hotkey.is_empty()));
}

#[test]
fn references_take_enough_samples() {
    let mut tracker = test_tracker();
    for i in 0..UNIT_REFERENCE_MIN_SAMPLES {
        assert_eq!(tracker.units.unit_reference("A", 0), 0);
        tracker.record_keyed(1, true, (i as f64 + 1.0).to_bits(), "A", START);
    }
    assert_eq!(f64::from_bits(tracker.units.unit_reference("A", 0)), 1.0);
    assert_eq!(f64::from_bits(tracker.units.unit_reference("A", 100)), 8.0);
}

#[test]
fn stale_outcomes_are_forgotten_together() {
    let mut tracker = test_tracker();
    record_at(&mut tracker, 1, "hk", true, 5.0, "", START, START);
    record_at(&mut tracker, 2, "hk", true, 5.0, "", START + WINDOW_TTL, START + WINDOW_TTL);
    tracker.evict_all_stale(START + WINDOW_TTL + SEC);
    assert!(!tracker.windows.contains_key(&1));
    assert_eq!(tracker.sample_counts().get(&2).copied(), Some(1));
}

#[test]
fn what_is_stored_is_read_member_by_member() {
    let text = br#"{"windows":{"7":[[5,true,1.5],[6,1,2.0],"x"],"no":[[1,true,1.0]],"8":3},"capacities":{"7":[4,[true]]}}"#;
    let stored = stored_state(text).expect("it parses");
    assert_eq!(stored.windows.len(), 1);
    assert_eq!(stored.windows[0].0, 7);
    assert_eq!(stored.windows[0].1.len(), 1);
    assert_eq!((stored.windows[0].1[0].secs, stored.windows[0].1[0].success), (5, true));
    assert_eq!(stored.capacities.map(|c| c.len()), Some(1));
    assert!(stored_state(b"{").is_none());
    let empty = stored_state(b"[]").expect("it parses");
    assert!(empty.windows.is_empty() && empty.capacities.is_none());
}
