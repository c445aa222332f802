use std::collections::BTreeMap;

use sn2_validator::dispatch::{
    absorb_evictions, compute_api_eligible, effective_dispatch_ceiling, Allocation, DispatchCache,
    DispatchCandidate, FairDispatchState, HotkeySet, RateSample,
};
use sn2_validator::keyed::{StrMap, UidMap, VecMap};

fn candidate(hotkey: &str, cap: usize, projected_active: usize) -> DispatchCandidate {
    DispatchCandidate {
        uid: 0,
        hotkey: hotkey.to_string(),
        ip: String::new(),
        port: 0,
        cap,
        initial_active: projected_active,
        projected_active,
        dispatched: 0,
        available: true,
    }
}

fn allocate(
    state: &mut FairDispatchState,
    candidates: &mut [DispatchCandidate],
    budget: usize,
) -> BTreeMap<String, usize> {
    let mut allocations = BTreeMap::new();
    for _ in 0..budget {
        let Some(index) = state.select_next(candidates) else {
            break;
        };
        candidates[index].projected_active += 1;
        candidates[index].dispatched += 1;
        let hotkey = candidates[index].hotkey.clone();
        state.record_dispatch(&hotkey, 0);
        *allocations.entry(hotkey).or_insert(0) += 1;
    }
    allocations
}

#[test]
fn progressive_allocation_fills_small_caps_then_sends_residual_to_large_cap() {
    let mut state = FairDispatchState::new();
    let mut candidates = vec![
        candidate("top", 300, 0),
        candidate("new-eight", 8, 0),
        candidate("new-nine", 9, 0),
        candidate("cold", 1, 0),
    ];
    let allocations = allocate(&mut state, &mut candidates, 100);
    assert_eq!(allocations.get("cold"), Some(&1));
    assert_eq!(allocations.get("new-eight"), Some(&8));
    assert_eq!(allocations.get("new-nine"), Some(&9));
    assert_eq!(allocations.get("top"), Some(&82));
}

#[test]
fn persistent_service_order_rotates_when_budget_is_smaller_than_miner_count() {
    let mut state = FairDispatchState::new();
    let miners = ["a", "b", "c", "d"];
    let mut first_pass: Vec<_> = miners.iter().map(|hotkey| candidate(hotkey, 10, 0)).collect();
    let first = allocate(&mut state, &mut first_pass, 2);
    assert_eq!(first.keys().cloned().collect::<Vec<_>>(), vec!["a", "b"]);

    let mut second_pass: Vec<_> = miners.iter().map(|hotkey| candidate(hotkey, 10, 0)).collect();
    let second = allocate(&mut state, &mut second_pass, 2);
    assert_eq!(second.keys().cloned().collect::<Vec<_>>(), vec!["c", "d"]);
}

#[test]
fn projected_depth_precedes_service_age() {
    let mut state = FairDispatchState::new();
    state.record_dispatch("shallow", 0);
    let candidates = vec![candidate("old-but-deep", 10, 5), candidate("shallow", 10, 2)];
    let selected = state.select_next(&candidates).unwrap();
    assert_eq!(candidates[selected].hotkey, "shallow");
}

#[test]
fn service_history_is_only_pruned_for_removed_hotkeys() {
    let mut state = FairDispatchState::new();
    state.record_dispatch("still-registered", 1);
    state.record_dispatch("removed", 2);
    state.prune(&vec!["still-registered".to_string()]);
    assert!(state.last_served.contains_key("still-registered"));
    assert!(!state.last_served.contains_key("removed"));
    assert!(state.last_served_at.contains_key("still-registered"));
    assert!(!state.last_served_at.contains_key("removed"));
}

#[test]
fn every_request_in_a_full_refill_batch_is_saturated() {
    let mut state = FairDispatchState::new();
    let mut full = vec![candidate("full", 10, 5)];
    let allocations = allocate(&mut state, &mut full, 5);
    assert_eq!(allocations.get("full"), Some(&5));
    assert!(full[0].batch_reached_capacity());

    let mut partial = vec![candidate("partial", 10, 5)];
    let allocations = allocate(&mut state, &mut partial, 4);
    assert_eq!(allocations.get("partial"), Some(&4));
    assert!(!partial[0].batch_reached_capacity());
}

fn ceiling(configured: Option<usize>, learned: usize, scale: f64) -> usize {
    let share = if scale >= 1.0 {
        None
    } else {
        Some((learned as f64 * scale.clamp(0.0, 1.0)).floor() as usize)
    };
    effective_dispatch_ceiling(configured, learned, share)
}

#[test]
fn pressure_ceiling_is_additional_and_inactive_at_full_scale() {
    assert_eq!(ceiling(None, 400, 1.0), usize::MAX);
    assert_eq!(ceiling(None, 400, 0.9), 360);
    assert_eq!(ceiling(Some(200), 400, 0.9), 200);
    assert_eq!(ceiling(Some(500), 400, 0.9), 360);
    assert_eq!(ceiling(Some(0), 400, 0.9), 0);
    assert_eq!(ceiling(Some(500), 0, 0.9), 500);
    assert_eq!(ceiling(None, 1, 0.01), 1);
}

#[test]
fn an_allocation_ends_with_its_budget() {
    let mut state = FairDispatchState::new();
    let mut a = Allocation::new(vec![candidate("a", 5, 0), candidate("b", 1, 0)], 3);
    let mut order = Vec::new();
    while let Some(i) = a.next(&state, true) {
        order.push(a.candidates[i].hotkey.clone());
        a.grant(i, &mut state, 0);
    }
    assert_eq!(order, vec!["a", "b", "a"]);
    assert_eq!(a.budget, 0);
    assert_eq!(a.granted, vec![0, 1, 0]);
    assert!(a.was_at_capacity(1));
    assert!(!a.was_at_capacity(0));
    assert_eq!(a.starved_miners(), 0);
    assert!(a.next(&state, true).is_none());
}

#[test]
fn a_refused_miner_is_passed_over() {
    let state = FairDispatchState::new();
    let mut a = Allocation::new(vec![candidate("a", 5, 0), candidate("b", 5, 0)], 3);
    a.refuse(0);
    assert_eq!(a.next(&state, true), Some(1));
    assert_eq!(a.next(&state, false), None);
}

#[test]
fn miners_without_work_are_starved_once_the_budget_is_gone() {
    let mut state = FairDispatchState::new();
    let mut a = Allocation::new(vec![candidate("a", 5, 0), candidate("b", 5, 0)], 1);
    let i = a.next(&state, true).unwrap();
    a.grant(i, &mut state, 0);
    assert_eq!(a.starved_miners(), 1);
}

#[test]
fn the_fastest_share_serves_customers() {
    let sample = |uid: u16, rate: f64, samples: usize| RateSample {
        uid,
        rate: rate.to_bits(),
        samples,
    };
    let snapshot =
        vec![sample(1, 0.5, 20), sample(2, 2.0, 20), sample(3, 1.0, 20), sample(4, 9.0, 1)];
    let top = compute_api_eligible(&snapshot, &vec![1, 2, 3, 4], 67, 10);
    let uids: Vec<u16> = top.iter().map(|i| snapshot[*i].uid).collect();
    assert_eq!(uids.len(), 2);
    assert!(uids.contains(&2) && uids.contains(&3));
    assert_eq!(compute_api_eligible(&snapshot, &vec![1, 2], 1, 10).len(), 1);
    assert!(compute_api_eligible(&snapshot, &vec![1, 2], 0, 10).is_empty());
    assert!(compute_api_eligible(&snapshot, &vec![], 50, 10).is_empty());
}

#[test]
fn evicted_miners_rest_and_rests_never_get_shorter() {
    let mut cooldowns: StrMap<u64> = VecMap::new();
    cooldowns.insert("b".to_string(), 5_000);
    absorb_evictions(
        &mut cooldowns,
        &vec![(1, "a".to_string()), (2, "b".to_string())],
        1_000,
        300,
    );
    assert_eq!(cooldowns.get("a").copied(), Some(1_300));
    assert_eq!(cooldowns.get("b").copied(), Some(5_000));
}

#[test]
fn what_is_known_of_miners_goes_stale() {
    let mut cache = DispatchCache::new(7);
    assert_eq!(cache.adaptive_timeout, 7);
    assert!(!cache.is_fresh(0, 1000));
    cache.fairness.record_dispatch("a", 1);
    let mut capacities: UidMap<usize> = VecMap::new();
    capacities.insert(3, 4);
    let mut authenticated: HotkeySet = VecMap::new();
    authenticated.insert("a".to_string(), ());
    cache.refresh(capacities, 9, vec![3], authenticated, 100);
    assert_eq!(cache.request_timeout(3, 30), 30);
    assert_eq!(cache.request_timeout(4, 30), 9);
    assert!(cache.is_fresh(1099, 1000));
    assert!(!cache.is_fresh(1100, 1000));
    assert_eq!(cache.capacities.get(&3).copied(), Some(4));
    assert!(cache.fairness.last_served.contains_key("a"));
}
