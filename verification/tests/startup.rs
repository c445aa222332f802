use sn2_validator::dispatch::{HotkeySet, NeuronInfo};
use sn2_validator::keyed::{StrMap, UidMap, VecMap};
use sn2_validator::maintenance::{
    any_weight, connectable_neurons, note_hotkeys, sync_metagraph, tempo_blocks,
    weight_exclusions, weights_allowed, PeriodicIntervals, PeriodicState, PeriodicTask, PeriodicTimings,
};
use sn2_validator::address::HostAddr;
use sn2_validator::performance::{PerformancePolicy, PerformanceTracker};
use sn2_validator::rotation::AddressWatch;
use sn2_validator::rsv::{RsvManager, RsvPolicy};
use sn2_validator::scoring::ScoreManager;
use sn2_validator::startup::{
    auto_update, circuit_store_loopback, not_registered_text, services, verification_concurrency,
    Cli, NotRegistered, ValidatorConfig,
};

fn cli() -> Cli {
    Cli {
        netuid: 2,
        network: "finney".to_string(),
        subtensor_chain_endpoint: None,
        wallet_name: "default".to_string(),
        wallet_hotkey: "default".to_string(),
        wallet_path: None,
        log_level: "info".to_string(),
        api_miners_pct: 50,
        disable_benchmark: false,
        relay_url: None,
        no_relay: false,
        metrics_port: 9090,
        no_auto_update: false,
        proof_api_url: None,
        target_uid: vec![],
        circuit_api_url: None,
        circuit_cache_dir: None,
        verification_concurrency: None,
        dispatch_ceiling: None,
        disable_metric_logging: false,
        loopback: false,
        miner_address: "127.0.0.1:8091".to_string(),
        additional_circuits: vec![],
        external_ip: None,
        axon_port: 8091,
        disable_axon_publish: false,
    }
}

#[test]
fn who_is_not_registered_cannot_start() {
    let r = ValidatorConfig::from_cli(&cli(), "wss://x".to_string(), None, "wss://relay");
    assert!(matches!(r, Err(NotRegistered)));
    assert_eq!(
        not_registered_text("5F", 2, "finney"),
        "hotkey 5F is not registered on subnet 2. Register with: btcli subnets register --netuid 2 --network finney"
    );
}

#[test]
fn settings_follow_the_command_line() {
    let mut c = cli();
    let config =
        ValidatorConfig::from_cli(&c, "wss://x".to_string(), Some(7), "wss://relay").unwrap();
    assert_eq!(config.user_uid, 7);
    assert_eq!(config.chain_endpoint, "wss://x");
    assert_eq!(config.relay_url, "wss://relay");
    assert!(config.relay_enabled);
    assert!(!config.relay_url_override);
    assert!(config.target_uids.is_none());
    assert!(!config.loopback);

    c.relay_url = Some("wss://mine".to_string());
    c.no_relay = true;
    c.target_uid = vec![4, 5];
    let config =
        ValidatorConfig::from_cli(&c, "wss://x".to_string(), Some(7), "wss://relay").unwrap();
    assert_eq!(config.relay_url, "wss://mine");
    assert!(config.relay_url_override);
    assert!(!config.relay_enabled);
    assert_eq!(config.target_uids, Some(vec![4, 5]));
}

#[test]
fn a_lone_validator_talks_to_one_miner() {
    let (config, miner) = ValidatorConfig::from_cli_loopback(&cli(), "5F", "127.0.0.1", 8091);
    assert!(config.loopback);
    assert!(!config.relay_enabled);
    assert_eq!(miner.axon_ip, "127.0.0.1");
    assert_eq!(miner.axon_port, 8091);
    assert!(!miner.validator_permit);
}

#[test]
fn verifiers_are_as_many_as_set_or_as_there_are_cores() {
    assert_eq!(verification_concurrency(Some(3), Some(8)), 3);
    assert!(verification_concurrency(None, Some(8)) >= 1);
    assert!(verification_concurrency(None, None) >= 1);
}

#[test]
fn services_need_a_permit() {
    let config =
        ValidatorConfig::from_cli(&cli(), "wss://x".to_string(), Some(7), "wss://relay").unwrap();
    let with = services(&config, 2, true, true);
    let without = services(&config, 2, false, true);
    assert!(with.relay);
    assert!(!without.relay);
    assert!(!circuit_store_loopback(&config));
}

#[test]
fn updates_can_be_switched_off() {
    let mut c = cli();
    c.no_auto_update = true;
    assert!(!auto_update(&c, None));
}

fn policy() -> RsvPolicy {
    RsvPolicy {
        disconnect_tempos: 1,
        expected_subs_per_tempo: 1000,
        samples_per_tempo: 50,
        coldstart_blocks: 1800,
        coldstart_retention_blocks: 50_400,
        history_cap: 64,
        skiplist_tempos: 20,
        strikes_required: 1,
        strikes_window_blocks: 7200,
    }
}

fn ip(a: u8) -> HostAddr {
    HostAddr::V4(203, 0, 113, a)
}

#[test]
fn a_change_of_address_is_excused_for_a_while() {
    let mut watch = AddressWatch::new();
    let mut rsv = RsvManager::new(policy());
    let mut cooldowns: StrMap<u64> = VecMap::new();
    assert!(!watch.observe_address(ip(1), None, &mut rsv, &mut cooldowns, 10, 100));
    watch.note_published(ip(1));
    rsv.skiplist_disconnect("hk", 1000, 360);
    assert!(rsv.is_skiplisted("hk", 1000));
    assert!(watch.observe_address(ip(2), Some(ip(1)), &mut rsv, &mut cooldowns, 20, 100));
    assert!(watch.in_address_rotation_grace(119));
    assert!(!watch.in_address_rotation_grace(120));
    assert!(!rsv.is_skiplisted("hk", 1000));
    assert!(!watch.observe_address(ip(2), Some(ip(1)), &mut rsv, &mut cooldowns, 30, 100));
}

#[test]
fn many_lost_miners_make_the_validator_look_at_itself() {
    let mut watch = AddressWatch::new();
    for uid in 0..4 {
        watch.note_disconnect(uid, 10, 60, 5);
        watch.note_disconnect(uid, 10, 60, 5);
    }
    assert!(!watch.take_recheck());
    watch.note_disconnect(4, 10, 60, 5);
    assert!(watch.take_recheck());
    assert!(!watch.take_recheck());
}

fn intervals() -> PeriodicIntervals {
    PeriodicIntervals {
        metagraph_sync: 100,
        weight_update: 200,
        score_save: 300,
        circuit_refresh: 400,
        perf_save: 500,
        replenish: 10,
        gc: 700,
        health_log: 50,
    }
}

#[test]
fn tasks_come_round_when_their_time_is_up() {
    let i = intervals();
    let s = PeriodicState { loopback: false, queues_empty: true };
    let mut t = PeriodicTimings::new(10_000, &i);
    assert!(t.due(&i, PeriodicTask::MetagraphSync, s, 10_000));
    t.done(PeriodicTask::MetagraphSync, 10_000);
    assert!(!t.due(&i, PeriodicTask::MetagraphSync, s, 10_100));
    assert!(t.due(&i, PeriodicTask::MetagraphSync, s, 10_101));
    let lone = PeriodicState { loopback: true, queues_empty: true };
    assert!(!t.due(&i, PeriodicTask::MetagraphSync, lone, 20_000));
    assert!(!t.due(&i, PeriodicTask::WeightUpdate, lone, 20_000));
}

fn neuron(uid: u16, hotkey: &str, ip: &str, permit: bool) -> NeuronInfo {
    NeuronInfo {
        uid,
        hotkey: hotkey.to_string(),
        axon_ip: ip.to_string(),
        axon_port: 8091,
        validator_permit: permit,
    }
}

#[test]
fn new_hotkeys_are_noticed() {
    let mut hotkeys: UidMap<String> = VecMap::new();
    let first = [neuron(1, "a", "8.8.8.8", false), neuron(2, "b", "8.8.4.4", false)];
    assert!(note_hotkeys(&mut hotkeys, &first).is_empty());
    let next = [neuron(1, "a", "8.8.8.8", false), neuron(2, "c", "8.8.4.4", false)];
    assert_eq!(note_hotkeys(&mut hotkeys, &next), vec![(2, "b".to_string())]);
    assert_eq!(hotkeys.get(&2).map(|s| s.as_str()), Some("c"));
}

#[test]
fn only_reachable_miners_are_connected() {
    let all = [
        neuron(1, "a", "8.8.8.8", false),
        neuron(2, "b", "10.0.0.1", false),
        neuron(3, "c", "8.8.4.4", true),
        neuron(4, "d", "", false),
    ];
    let picked = connectable_neurons(&all);
    assert!(picked.contains(&0));
    assert!(!picked.contains(&1));
    assert!(!picked.contains(&3));
}

#[test]
fn watched_miners_get_no_weight() {
    let mut rsv = RsvManager::new(policy());
    rsv.observe("old", 0);
    rsv.observe("new", 10_000);
    rsv.skiplist_disconnect("old", 10_000, 360);
    let mut hotkeys: UidMap<String> = VecMap::new();
    hotkeys.insert(1, "old".to_string());
    hotkeys.insert(2, "new".to_string());
    let r = weight_exclusions(&rsv, &hotkeys, &[1, 2], 10_000);
    assert_eq!(r, vec![(true, false), (false, true)]);
}

#[test]
fn weights_are_set_at_their_pace() {
    assert!(weights_allowed(101, 100));
    assert!(!weights_allowed(99, 100));
    assert!(any_weight(&[0, 1]));
    assert!(!any_weight(&[0, 0]));
    assert_eq!(tempo_blocks(5, 360), 360);
    assert_eq!(tempo_blocks(5, 0), 5);
}

fn tracker() -> PerformanceTracker {
    let policy = PerformancePolicy {
        window_ttl: 1_000_000,
        window_size: 100,
        min_samples: 1,
        timeout_min_samples: 1,
        reschedule_penalty: 180.0f64.to_bits(),
        rate_bin: 10_000,
        rate_filter_bins: 12,
        ticks_per_sec: 1000,
    };
    PerformanceTracker::new(policy, None)
}

#[test]
fn a_fresh_look_at_the_chain_renews_the_books() {
    let half = 0.5f64.to_bits();
    let mut scores = ScoreManager::new("scores.json".to_string());
    for uid in [1, 2, 3, 9] {
        scores.update_score(uid, half);
    }
    let mut rsv = RsvManager::new(policy());
    rsv.skiplist_disconnect("old", 0, 360);
    let mut perf = tracker();
    perf.record_keyed(1, true, 1.0f64.to_bits(), "A", 5);
    perf.record_keyed(2, true, 1.0f64.to_bits(), "A", 5);
    let mut hotkeys: UidMap<String> = VecMap::new();
    hotkeys.insert(1, "a".to_string());
    hotkeys.insert(2, "b".to_string());

    let neurons = vec![
        neuron(1, "a", "8.8.8.8", false),
        neuron(2, "c", "8.8.4.4", false),
        neuron(3, "d", "10.0.0.1", false),
    ];
    let anyone: HotkeySet = VecMap::new();
    let gone = sync_metagraph(
        &mut scores,
        &mut rsv,
        &mut perf,
        &mut hotkeys,
        &neurons,
        &anyone,
        &None,
        1_000_000,
        360,
    );
    assert_eq!(gone, vec![(2, "b".to_string())]);
    assert_eq!(hotkeys.get(&2).map(|h| h.as_str()), Some("c"));
    assert_eq!(hotkeys.get(&3).map(|h| h.as_str()), Some("d"));
    assert_eq!(scores.get_score(1), half);
    assert_eq!(scores.get_score(3), 0);
    assert!(!scores.scores.contains_key(&9));
    assert!(perf.windows.contains_key(&1));
    assert!(!perf.windows.contains_key(&2));
    assert!(!rsv.skiplist.contains_key("old"));
}
