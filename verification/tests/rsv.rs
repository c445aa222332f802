use std::collections::VecDeque;

use sn2_validator::rsv::{RsvManager, RsvPolicy};

fn policy() -> RsvPolicy {
    RsvPolicy {
        disconnect_tempos: 1,
        expected_subs_per_tempo: 1000,
        samples_per_tempo: 50,
        coldstart_blocks: 1800,
        coldstart_retention_blocks: 50_400,
        history_cap: 64,
        skiplist_tempos: 20,
        strikes_required: 1,
        strikes_window_blocks: 7200,
    }
}

fn fresh() -> RsvManager {
    RsvManager::new(policy())
}

fn lenient() -> RsvManager {
    RsvManager::new(RsvPolicy { strikes_required: 3, ..policy() })
}

#[test]
fn coldstart_gates_new_hotkeys() {
    let mut mgr = fresh();
    mgr.observe("hk1", 1000);
    assert!(mgr.is_in_coldstart("hk1", 2000));
    assert!(!mgr.is_in_coldstart("hk1", 3000));
}

#[test]
fn coldstart_unknown_hotkey_is_in_coldstart() {
    let mgr = fresh();
    assert!(mgr.is_in_coldstart("unknown", 1_000_000));
}

#[test]
fn observe_does_not_overwrite_first_seen() {
    let mut mgr = fresh();
    mgr.observe("hk1", 1000);
    mgr.observe("hk1", 2000);
    assert_eq!(mgr.coldstart.get("hk1").copied(), Some(1000));
    assert_eq!(mgr.last_seen.get("hk1").copied(), Some(2000));
}

#[test]
fn disconnect_skiplists_for_one_epoch_then_expires() {
    let mut mgr = fresh();
    let bpt = 360;
    mgr.skiplist_disconnect("hk1", 1000, bpt);
    assert!(mgr.is_skiplisted("hk1", 1000));
    assert!(mgr.is_skiplisted("hk1", 1000 + bpt - 1));
    assert!(!mgr.is_skiplisted("hk1", 1000 + bpt));
}

#[test]
fn disconnect_never_shortens_a_longer_skiplist() {
    let mut mgr = fresh();
    // A verification skiplist runs many tempos; a later disconnect must not
    // cut it short.
    mgr.record_strike("hk1", 100, 360);
    assert!(mgr.is_skiplisted("hk1", 100 + 360));
    mgr.skiplist_disconnect("hk1", 200, 360);
    assert!(
        mgr.is_skiplisted("hk1", 100 + 360),
        "disconnect must not shorten the longer verification skiplist"
    );
    assert_eq!(mgr.skiplist.get("hk1").copied(), Some(100 + 20 * 360));
}

#[test]
fn record_strike_at_threshold_skiplists() {
    for required in [1u32, 3] {
        let mut mgr = RsvManager::new(RsvPolicy { strikes_required: required, ..policy() });
        for i in 0..required {
            let triggered = mgr.record_strike("hk1", 100 + i as u64, 360);
            if i + 1 < required {
                assert!(!triggered);
            } else {
                assert!(triggered);
            }
        }
        let block = 100 + (required as u64) - 1;
        assert!(mgr.is_skiplisted("hk1", block));
        assert!(!mgr.strikes.contains_key("hk1"));
        let until = mgr.skiplist.get("hk1").copied().unwrap();
        assert_eq!(until, block + 20 * 360);
    }
}

#[test]
fn prune_expired_drops_past_skiplist() {
    let mut mgr = fresh();
    mgr.skiplist.insert("hk1".to_string(), 200);
    mgr.skiplist.insert("hk2".to_string(), 5_000_000);
    mgr.prune_expired(300, 360);
    assert!(!mgr.skiplist.contains_key("hk1"));
    assert!(mgr.skiplist.contains_key("hk2"));
}

#[test]
fn save_load_round_trip() {
    let mut mgr = RsvManager::new_with_persistence("rsv.json".to_string(), policy(), None);
    mgr.observe("hk_a", 500);
    mgr.skiplist.insert("hk_b".to_string(), 9000);
    mgr.strikes.insert("hk_c".to_string(), VecDeque::from(vec![123u64]));
    mgr.last_seen.insert("hk_c".to_string(), 123);
    let (path, stored) = mgr.save().expect("a path is set");
    assert_eq!(path, "rsv.json");

    let loaded = RsvManager::new_with_persistence(path, policy(), Some(stored));
    assert_eq!(loaded.coldstart.get("hk_a").copied(), Some(500));
    assert_eq!(loaded.skiplist.get("hk_b").copied(), Some(9000));
    assert_eq!(loaded.strikes.get("hk_c").unwrap().front().copied(), Some(123));
    assert_eq!(loaded.last_seen.get("hk_a").copied(), Some(500));
}

#[test]
fn nothing_is_saved_without_a_path() {
    assert!(fresh().save().is_none());
}

#[test]
fn legacy_state_discarded_on_load() {
    let legacy = br#"{"skiplist":{"1":9000},"strikes":{"2":[50]},"coldstart":{"3":100}}"#;
    let loaded =
        RsvManager::new_with_persistence("rsv.json".to_string(), policy(), Some(legacy.to_vec()));
    assert!(loaded.skiplist.is_empty());
    assert!(loaded.strikes.is_empty());
    assert!(loaded.coldstart.is_empty());
}

#[test]
fn unreadable_state_is_discarded_on_load() {
    let loaded =
        RsvManager::new_with_persistence("rsv.json".to_string(), policy(), Some(b"{".to_vec()));
    assert!(loaded.skiplist.is_empty());
}

#[test]
fn should_sample_rate_is_volume_invariant() {
    let mut mgr = fresh();
    let mut hits = 0;
    let trials = 100_000;
    for _ in 0..trials {
        if mgr.should_sample("hk1", 50, 360) {
            hits += 1;
        }
    }
    let rate = hits as f64 / trials as f64;
    let expected = 50.0 / 1000.0;
    let drift: f64 = (rate - expected).abs();
    assert!(drift < 0.005, "rate {rate:.4} drifts {drift:.4} from expected {expected:.4}");
}

#[test]
fn a_roll_below_the_samples_picks() {
    let mgr = fresh();
    assert!(mgr.sampled_by_roll(49));
    assert!(!mgr.sampled_by_roll(50));
}

#[test]
fn strikes_keyed_by_hotkey_not_uid() {
    let mut mgr = lenient();
    let hotkey = "5HotkeyValueX";
    let other_hotkey = "5OtherHotkey";

    for i in 0..2u64 {
        assert!(!mgr.record_strike(hotkey, 100 + i, 360));
    }

    let triggered = mgr.record_strike(hotkey, 200, 360);
    assert!(triggered, "the last strike must trigger skiplist");
    assert!(mgr.is_skiplisted(hotkey, 200));
    assert!(!mgr.is_skiplisted(other_hotkey, 200));
}

#[test]
fn inactive_hotkey_pruned_after_window() {
    let mut mgr = fresh();
    mgr.observe("hk_active", 1000);
    mgr.observe("hk_idle", 1000);
    mgr.strikes.insert("hk_idle".to_string(), VecDeque::from(vec![1000u64]));

    let mid = 1000 + 7200 + 10;
    mgr.observe("hk_active", mid);
    mgr.prune_expired(mid, 360);

    assert!(mgr.coldstart.contains_key("hk_idle"));
    assert!(mgr.last_seen.contains_key("hk_idle"));
    assert!(!mgr.strikes.contains_key("hk_idle"));

    let far = 1000 + 50_400 + 10;
    mgr.observe("hk_active", far);
    mgr.prune_expired(far, 360);

    assert!(mgr.coldstart.contains_key("hk_active"));
    assert!(mgr.last_seen.contains_key("hk_active"));
    assert!(!mgr.coldstart.contains_key("hk_idle"));
    assert!(!mgr.last_seen.contains_key("hk_idle"));
}

#[test]
fn history_cap_drops_oldest_when_exceeded() {
    let cap = 64usize;
    let mut mgr = fresh();
    for i in 0..(cap + 5) {
        mgr.observe(&format!("hk_{i}"), 1000 + i as u64);
    }
    mgr.prune_expired(2000 + cap as u64, 360);
    assert!(mgr.last_seen.len() <= cap);
    assert!(!mgr.last_seen.contains_key("hk_0"));
    assert!(mgr.last_seen.contains_key(&format!("hk_{}", cap + 4)));
}

#[test]
fn skiplist_uses_fallback_tempo_when_unknown() {
    let mut mgr = fresh();
    mgr.record_strike("hk", 1000, 0);
    assert!(mgr.is_skiplisted("hk", 1000));
    assert!(mgr.is_skiplisted("hk", 1000 + 100));
}

#[test]
fn lifting_disconnects_leaves_strikes_standing() {
    let mut mgr = fresh();
    mgr.skiplist_disconnect("gone", 1000, 360);
    mgr.record_strike("bad", 1000, 360);
    assert_eq!(mgr.clear_disconnect_skiplist(), 1);
    assert!(!mgr.is_skiplisted("gone", 1000));
    assert!(mgr.is_skiplisted("bad", 1000));
}
