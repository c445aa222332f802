use sn2_validator::keyed::{UidMap, VecMap};
use sn2_validator::json::Json;
use sn2_validator::scoring::{
    apply_ip_region_cap, earns_weight, owner_index, stored_scores, ScoreManager,
};

const MIN_SAMPLES: usize = 10;
const REGION_CAP_FRACTION: f64 = 0.25;
const CURVE_POWER: f64 = 1.0;

fn test_manager() -> ScoreManager {
    ScoreManager::new("/dev/null".to_string())
}

fn score(mgr: &ScoreManager, uid: u16) -> f64 {
    f64::from_bits(mgr.get_score(uid))
}

fn set(mgr: &mut ScoreManager, uid: u16, score: f64) {
    mgr.update_score(uid, score.to_bits());
}

fn update(mgr: &mut ScoreManager, uid: u16, verified: bool, time: f64, max: f64, min: f64, n: u16) {
    let previous = score(mgr, uid);
    let maximum = 1.0 / n.max(1) as f64;
    let normalized = ((time - min) / (max - min)).clamp(0.0, 0.99);
    let fraction = (1.0 - normalized).clamp(0.0, 1.0);
    let next = if verified {
        previous + 0.1 * (maximum * fraction - previous)
    } else {
        previous - 0.4 * previous
    };
    set(mgr, uid, next);
}

#[test]
fn default_score_is_zero() {
    assert_eq!(score(&test_manager(), 42), 0.0);
}

#[test]
fn update_score_verified_increases() {
    let mut mgr = test_manager();
    update(&mut mgr, 1, true, 1.0, 2.0, 0.5, 100);
    assert!(score(&mgr, 1) > 0.0);
}

#[test]
fn update_score_unverified_decreases() {
    let mut mgr = test_manager();
    set(&mut mgr, 1, 0.005);
    update(&mut mgr, 1, false, 1.0, 2.0, 0.5, 100);
    assert!(score(&mgr, 1) < 0.005);
}

#[test]
fn score_never_negative() {
    let mut mgr = test_manager();
    set(&mut mgr, 1, 0.001);
    for _ in 0..100 {
        update(&mut mgr, 1, false, 1.0, 2.0, 0.5, 100);
    }
    assert!(score(&mgr, 1) >= 0.0);
    set(&mut mgr, 1, -3.5);
    assert_eq!(score(&mgr, 1), 0.0);
    set(&mut mgr, 1, f64::NAN);
    assert_eq!(score(&mgr, 1), 0.0);
}

#[test]
fn sync_uids_removes_stale() {
    let mut mgr = test_manager();
    set(&mut mgr, 1, 0.5);
    set(&mut mgr, 2, 0.3);
    set(&mut mgr, 3, 0.1);
    mgr.sync_uids(&[1, 3]);
    assert!(mgr.scores.contains_key(&1));
    assert!(!mgr.scores.contains_key(&2));
    assert!(mgr.scores.contains_key(&3));
    mgr.sync_uids(&[3, 9]);
    assert_eq!(mgr.scores_snapshot().get(&9).copied(), Some(0));
}

#[test]
fn apply_pow_scores_updates_existing() {
    let mut mgr = test_manager();
    set(&mut mgr, 5, 0.0);
    set(&mut mgr, 10, 0.0);
    mgr.apply_pow_scores(&[5, 10, 42], &[0.8f64.to_bits(), 0.6f64.to_bits(), 0.9f64.to_bits()]);
    assert_eq!(score(&mgr, 5), 0.8);
    assert_eq!(score(&mgr, 10), 0.6);
    assert!(!mgr.scores.contains_key(&42));
}

#[test]
fn of_two_lists_the_shorter_one_counts() {
    let mut mgr = test_manager();
    set(&mut mgr, 5, 0.0);
    set(&mut mgr, 6, 0.0);
    mgr.apply_pow_scores(&[5, 6], &[0.8f64.to_bits()]);
    assert_eq!(score(&mgr, 5), 0.8);
    assert_eq!(score(&mgr, 6), 0.0);
}

#[test]
fn zero_non_queryable() {
    let mut mgr = test_manager();
    set(&mut mgr, 1, 0.5);
    set(&mut mgr, 2, 0.3);
    mgr.zero_non_queryable(&[1]);
    assert_eq!(score(&mgr, 1), 0.5);
    assert_eq!(score(&mgr, 2), 0.0);
}

fn regions_from(pairs: &[(u16, &str)]) -> UidMap<String> {
    let mut regions: UidMap<String> = VecMap::new();
    for &(uid, region) in pairs {
        regions.insert(uid, region.to_string());
    }
    regions
}

fn throughput_weights(
    uids: &[u16],
    snap: &[(u16, f64, usize)],
    owner: Option<u16>,
    regions: &UidMap<String>,
) -> Vec<u16> {
    let mut raw: Vec<f64> = uids
        .iter()
        .map(|uid| {
            let (work, count) =
                snap.iter().find(|s| s.0 == *uid).map(|s| (s.1, s.2)).unwrap_or((0.0, 0));
            if earns_weight(false, false, count, MIN_SAMPLES) {
                work.powf(CURVE_POWER)
            } else {
                0.0
            }
        })
        .collect();
    let total: f64 = raw.iter().sum();
    if total > 0.0 {
        raw.iter_mut().for_each(|w| *w /= total);
    }
    let keys: Vec<u64> = raw.iter().map(|w| w.to_bits()).collect();
    let max_per_region = (uids.len() as f64 * REGION_CAP_FRACTION).floor() as usize;
    let zeroed = apply_ip_region_cap(uids, &keys, regions, max_per_region);
    for (w, z) in raw.iter_mut().zip(&zeroed) {
        if *z {
            *w = 0.0;
        }
    }
    if let Some(idx) = owner_index(uids, owner) {
        raw.iter_mut().for_each(|w| *w *= 0.2);
        raw[idx] = 0.8;
    }
    raw.iter().map(|w| (w * u16::MAX as f64) as u16).collect()
}

#[test]
fn compute_throughput_weights_normalizes_without_owner() {
    let snap = [(1, 10.0, MIN_SAMPLES), (2, 5.0, MIN_SAMPLES)];
    let weights = throughput_weights(&[1, 2], &snap, None, &VecMap::new());
    let total: u32 = weights.iter().map(|&w| w as u32).sum();
    assert!(total > 0);
    assert!(weights[0] > weights[1]);
}

#[test]
fn compute_throughput_weights_owner_boost() {
    let snap = [(1, 10.0, MIN_SAMPLES), (2, 10.0, MIN_SAMPLES), (3, 10.0, MIN_SAMPLES)];
    let without = throughput_weights(&[1, 2, 3], &snap, None, &VecMap::new());
    let with = throughput_weights(&[1, 2, 3], &snap, Some(1), &VecMap::new());
    assert!(with[0] > without[0]);
    let owner_ratio = with[0] as f64 / u16::MAX as f64;
    assert!((owner_ratio - 0.8).abs() < 0.01);
}

#[test]
fn compute_throughput_weights_below_min_samples_is_zero() {
    let snap = [(1, 10.0, MIN_SAMPLES - 1), (2, 10.0, MIN_SAMPLES)];
    let weights = throughput_weights(&[1, 2], &snap, None, &VecMap::new());
    assert_eq!(weights[0], 0);
    assert!(weights[1] > 0);
}

#[test]
fn miners_under_watch_earn_no_weight() {
    assert!(!earns_weight(true, false, MIN_SAMPLES, MIN_SAMPLES));
    assert!(!earns_weight(false, true, MIN_SAMPLES, MIN_SAMPLES));
    assert!(earns_weight(false, false, MIN_SAMPLES, MIN_SAMPLES));
}

#[test]
fn ip_region_cap_zeroes_excess_miners_in_saturated_region() {
    let uids: Vec<u16> = (0..8).collect();
    let snap: Vec<(u16, f64, usize)> = uids.iter().map(|&u| (u, 10.0, MIN_SAMPLES)).collect();
    let regions = regions_from(&[
        (0, "10.0"),
        (1, "10.0"),
        (2, "10.0"),
        (3, "20.0"),
        (4, "30.0"),
        (5, "40.0"),
        (6, "50.0"),
        (7, "60.0"),
    ]);
    let weights = throughput_weights(&uids, &snap, None, &regions);
    let nonzero = weights[..3].iter().filter(|&&w| w > 0).count();
    assert_eq!(nonzero, 2);
}

#[test]
fn ip_region_cap_keeps_top_performers() {
    let uids: Vec<u16> = (0..8).collect();
    let work = [20.0, 5.0, 10.0, 1.0, 10.0, 10.0, 10.0, 10.0];
    let snap: Vec<(u16, f64, usize)> =
        uids.iter().map(|&u| (u, work[u as usize], MIN_SAMPLES)).collect();
    let regions = regions_from(&[
        (0, "10.0"),
        (1, "10.0"),
        (2, "10.0"),
        (3, "10.0"),
        (4, "20.0"),
        (5, "30.0"),
        (6, "40.0"),
        (7, "50.0"),
    ]);
    let weights = throughput_weights(&uids, &snap, None, &regions);
    assert!(weights[0] > 0, "top performer in region should keep weight");
    assert!(weights[2] > 0, "second performer in region should keep weight");
    assert_eq!(weights[1], 0, "low performer in oversaturated region should be zeroed");
    assert_eq!(weights[3], 0, "lowest performer in oversaturated region should be zeroed");
}

#[test]
fn ip_region_cap_no_effect_when_distributed() {
    let uids: Vec<u16> = (0..4).collect();
    let snap: Vec<(u16, f64, usize)> = uids.iter().map(|&u| (u, 10.0, MIN_SAMPLES)).collect();
    let regions = regions_from(&[(0, "10.0"), (1, "20.0"), (2, "30.0"), (3, "40.0")]);
    let capped = throughput_weights(&uids, &snap, None, &regions);
    let uncapped = throughput_weights(&uids, &snap, None, &VecMap::new());
    assert_eq!(capped, uncapped);
}

#[test]
fn stored_scores_are_numbers_under_uids() {
    let stored = stored_scores(b"{\"7\": 0.25, \"65535\": 1, \"7\": 0.5}").expect("scores");
    assert_eq!(stored.len(), 2);
    assert!(matches!(stored.get(&7), Some(Json::Decimal(t)) if t == "0.5"));
    assert!(matches!(stored.get(&65535), Some(Json::Unsigned(1))));
    assert_eq!(stored_scores(b"{}").expect("none").len(), 0);
    for text in ["", "[]", "{\"65536\": 1}", "{\"07\": 1}", "{\"+7\": 1}", "{\"7\": null}", "{\"x\": 1}"] {
        assert!(stored_scores(text.as_bytes()).is_none(), "{text}");
    }
}

#[test]
fn stored_scores_replace_those_there_are() {
    let mut mgr = test_manager();
    set(&mut mgr, 1, 0.5);
    let mut stored: UidMap<u64> = VecMap::new();
    stored.insert(2, 0.25f64.to_bits());
    mgr.load(stored);
    assert_eq!(score(&mgr, 1), 0.0);
    assert_eq!(score(&mgr, 2), 0.25);
    assert_eq!(mgr.persistence_path, "/dev/null");
}
