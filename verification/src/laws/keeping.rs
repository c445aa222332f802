//! What is done from time to time, what is known of addresses, and made-up worlds.

use vstd::prelude::*;

use crate::address::{
    best_known, failed_miners, ipv4_octets, miner_address, octet, region_text, HostAddr,
    MinerAddressError,
};
use crate::dispatch::{lemma_picked, lemma_picked_increases, picked, queryable, NeuronInfo};
use crate::json::JsonV;
use crate::maintenance::{
    all_forgotten, asked_uids, connectable, excluded, hotkeys_noted, interval_of, is_due, last_done,
    replaced_miners, task_at, task_rank, PeriodicIntervals, PeriodicState, PeriodicTask,
    PeriodicTimings,
};
use crate::performance::PerfV;
use crate::pow_manager::{
    batch_len, weights_inputs, witnessed, PowItem, PowManager, WitnessLayout, WitnessNumber,
};
use crate::rotation::{recent_failures, rotated, AddressWatch};
use crate::rsv::RsvManager;
use crate::simulator::{
    after_answer, can_work, cap_of, comes_before, first_miners, hotkeys_after, hotkeys_by,
    is_baseline, is_check_of, is_decay, is_discovery, is_first, is_overload, miners_after,
    miners_by, names_hotkey, one_more, rest_is_over, room_for, still_to_come, EventKind,
    MinerProfile, MinerRuntime, PendingCheck, RunConfig, Scenario, ScheduledEvent, SimEvent,
    SimEventKind, SimState,
};
use crate::startup::{registration_hint, set_by, Cli, ValidatorConfig};
use crate::text::{all_digits, decimal_text, digits_value, last_position, split_on, trimmed};

verus! {

proof fn lemma_names()
    ensures
        "block_number"@ != "miner_uid"@,
        "block_number"@ != "validator_uid"@,
        "maximum_response_time"@ != "block_number"@,
        "maximum_response_time"@ != "miner_uid"@,
        "maximum_response_time"@ != "minimum_response_time"@,
        "maximum_response_time"@ != "validator_uid"@,
        "maximum_score"@ != "block_number"@,
        "maximum_score"@ != "maximum_response_time"@,
        "maximum_score"@ != "miner_uid"@,
        "maximum_score"@ != "minimum_response_time"@,
        "maximum_score"@ != "previous_score"@,
        "maximum_score"@ != "proof_size"@,
        "maximum_score"@ != "response_time"@,
        "maximum_score"@ != "validator_uid"@,
        "maximum_score"@ != "verified"@,
        "minimum_response_time"@ != "block_number"@,
        "minimum_response_time"@ != "miner_uid"@,
        "minimum_response_time"@ != "validator_uid"@,
        "previous_score"@ != "block_number"@,
        "previous_score"@ != "maximum_response_time"@,
        "previous_score"@ != "miner_uid"@,
        "previous_score"@ != "minimum_response_time"@,
        "previous_score"@ != "proof_size"@,
        "previous_score"@ != "response_time"@,
        "previous_score"@ != "validator_uid"@,
        "previous_score"@ != "verified"@,
        "proof_size"@ != "block_number"@,
        "proof_size"@ != "maximum_response_time"@,
        "proof_size"@ != "miner_uid"@,
        "proof_size"@ != "minimum_response_time"@,
        "proof_size"@ != "response_time"@,
        "proof_size"@ != "validator_uid"@,
        "response_time"@ != "block_number"@,
        "response_time"@ != "maximum_response_time"@,
        "response_time"@ != "miner_uid"@,
        "response_time"@ != "minimum_response_time"@,
        "response_time"@ != "validator_uid"@,
        "validator_uid"@ != "miner_uid"@,
        "verified"@ != "block_number"@,
        "verified"@ != "maximum_response_time"@,
        "verified"@ != "miner_uid"@,
        "verified"@ != "minimum_response_time"@,
        "verified"@ != "proof_size"@,
        "verified"@ != "response_time"@,
        "verified"@ != "validator_uid"@,
{
    reveal_strlit("maximum_score");
    reveal_strlit("previous_score");
    reveal_strlit("verified");
    reveal_strlit("proof_size");
    reveal_strlit("response_time");
    reveal_strlit("maximum_response_time");
    reveal_strlit("minimum_response_time");
    reveal_strlit("block_number");
    reveal_strlit("validator_uid");
    reveal_strlit("miner_uid");
    assert("maximum_score"@.len() == 13 && "maximum_score"@[0] == 'm');
    assert("previous_score"@.len() == 14);
    assert("verified"@.len() == 8);
    assert("proof_size"@.len() == 10);
    assert("response_time"@.len() == 13 && "response_time"@[0] == 'r');
    assert("maximum_response_time"@.len() == 21 && "maximum_response_time"@[1] == 'a');
    assert("minimum_response_time"@.len() == 21 && "minimum_response_time"@[1] == 'i');
    assert("block_number"@.len() == 12);
    assert("validator_uid"@.len() == 13 && "validator_uid"@[0] == 'v');
    assert("miner_uid"@.len() == 9);
}

/// A task is due once more than its interval has passed since it was last done; with
/// no chain nothing is fetched from it or set on it, and a run is only started where
/// nothing waits.
pub proof fn tasks_come_round(
    t: PeriodicTimings,
    i: PeriodicIntervals,
    task: PeriodicTask,
    s: PeriodicState,
    now: u64,
)
    requires
        last_done(t, task) <= now,
    ensures
        !s.loopback && s.queues_empty ==> (is_due(t, i, task, s, now) <==> now - last_done(t, task)
            > interval_of(i, task)),
        is_due(t, i, task, s, now) ==> now - last_done(t, task) > interval_of(i, task),
        s.loopback ==> !is_due(t, i, PeriodicTask::MetagraphSync, s, now) && !is_due(
            t,
            i,
            PeriodicTask::WeightUpdate,
            s,
            now,
        ),
        !s.queues_empty ==> !is_due(t, i, PeriodicTask::Replenish, s, now),
        !(task is MetagraphSync) && !(task is WeightUpdate) && !(task is Replenish) ==> (is_due(
            t,
            i,
            task,
            s,
            now,
        ) <==> now - last_done(t, task) > interval_of(i, task)),
        task is Replenish && s.queues_empty ==> (is_due(t, i, task, s, now) <==> now - last_done(
            t,
            task,
        ) > interval_of(i, task)),
        (task is MetagraphSync || task is WeightUpdate) && !s.loopback ==> (is_due(t, i, task, s, now)
            <==> now - last_done(t, task) > interval_of(i, task)),
{
}

/// Each task has its own time and its own interval.
pub proof fn tasks_have_their_own_times(t: PeriodicTimings, i: PeriodicIntervals)
    ensures
        last_done(t, PeriodicTask::MetagraphSync) == t.metagraph_sync,
        last_done(t, PeriodicTask::WeightUpdate) == t.weight_update,
        last_done(t, PeriodicTask::ScoreSave) == t.score_save,
        last_done(t, PeriodicTask::CircuitRefresh) == t.circuit_refresh,
        last_done(t, PeriodicTask::PerformanceSave) == t.perf_save,
        last_done(t, PeriodicTask::Replenish) == t.replenish,
        last_done(t, PeriodicTask::CollectStale) == t.gc,
        last_done(t, PeriodicTask::HealthLog) == t.health_log,
        interval_of(i, PeriodicTask::MetagraphSync) == i.metagraph_sync,
        interval_of(i, PeriodicTask::WeightUpdate) == i.weight_update,
        interval_of(i, PeriodicTask::ScoreSave) == i.score_save,
        interval_of(i, PeriodicTask::CircuitRefresh) == i.circuit_refresh,
        interval_of(i, PeriodicTask::PerformanceSave) == i.perf_save,
        interval_of(i, PeriodicTask::Replenish) == i.replenish,
        interval_of(i, PeriodicTask::CollectStale) == i.gc,
        interval_of(i, PeriodicTask::HealthLog) == i.health_log,
{
}

/// The network is looked at before weights are set, weights are set before scores are
/// kept, and the state of health is told last.
pub proof fn tasks_are_done_in_order(t: PeriodicTask)
    ensures
        task_at(task_rank(t)) == t,
        0 <= task_rank(t) <= 7,
        task_rank(PeriodicTask::MetagraphSync) < task_rank(PeriodicTask::WeightUpdate),
        task_rank(PeriodicTask::WeightUpdate) < task_rank(PeriodicTask::ScoreSave),
        task_rank(PeriodicTask::ScoreSave) < task_rank(PeriodicTask::CircuitRefresh),
        task_rank(PeriodicTask::CircuitRefresh) < task_rank(PeriodicTask::PerformanceSave),
        task_rank(PeriodicTask::PerformanceSave) < task_rank(PeriodicTask::Replenish),
        task_rank(PeriodicTask::Replenish) < task_rank(PeriodicTask::CollectStale),
        task_rank(PeriodicTask::CollectStale) < task_rank(PeriodicTask::HealthLog),
{
}

/// A miner's hotkey is the one that the network told last, and a miner that the network
/// does not tell of keeps the one that it had.
pub proof fn hotkeys_follow_the_network(
    known: Map<u16, Seq<char>>,
    neurons: Seq<NeuronInfo>,
    n: nat,
    uid: u16,
)
    requires
        n <= neurons.len(),
    ensures
        n > 0 ==> hotkeys_noted(known, neurons, n).contains_key(neurons[n - 1].uid) && hotkeys_noted(
            known,
            neurons,
            n,
        )[neurons[n - 1].uid] == neurons[n - 1].hotkey@,
        (forall|i: int| 0 <= i < n ==> (#[trigger] neurons[i]).uid != uid) ==> (hotkeys_noted(
            known,
            neurons,
            n,
        ).contains_key(uid) == known.contains_key(uid) && (known.contains_key(uid)
            ==> hotkeys_noted(known, neurons, n)[uid] == known[uid])),
    decreases n,
{
    if n > 0 {
        hotkeys_follow_the_network(known, neurons, (n - 1) as nat, uid);
    }
}

/// A miner that comes with another hotkey than before is replaced, and told of with the
/// one before; one that is new or keeps its hotkey is not.
pub proof fn replaced_miners_are_told_of(
    known: Map<u16, Seq<char>>,
    neurons: Seq<NeuronInfo>,
    n: nat,
)
    requires
        n < neurons.len(),
        forall|i: int| 0 <= i < n ==> (#[trigger] neurons[i]).uid != neurons[n as int].uid,
    ensures
        ({
            let m = neurons[n as int];
            &&& known.contains_key(m.uid) && known[m.uid] != m.hotkey@ ==> replaced_miners(
                known,
                neurons,
                n + 1,
            ) == replaced_miners(known, neurons, n).push((m.uid, known[m.uid]))
            &&& !known.contains_key(m.uid) || known[m.uid] == m.hotkey@ ==> replaced_miners(
                known,
                neurons,
                n + 1,
            ) == replaced_miners(known, neurons, n)
            &&& replaced_miners(known, neurons, 0).len() == 0
        }),
{
    hotkeys_follow_the_network(known, neurons, n, neurons[n as int].uid);
}

/// What is remembered of a miner's work goes with its hotkey, and what is remembered
/// of a miner that stays is kept.
pub proof fn replaced_miners_are_forgotten(v: PerfV, gone: Seq<(u16, Seq<char>)>, uid: u16)
    ensures
        (exists|i: int| 0 <= i < gone.len() && (#[trigger] gone[i]).0 == uid) ==> !all_forgotten(
            v,
            gone,
        ).windows.contains_key(uid) && !all_forgotten(v, gone).delivery.work.contains_key(uid)
            && !all_forgotten(v, gone).delivery.bins.contains_key(uid),
        (forall|i: int| 0 <= i < gone.len() ==> (#[trigger] gone[i]).0 != uid) ==> (all_forgotten(
            v,
            gone,
        ).windows.contains_key(uid) == v.windows.contains_key(uid) && (v.windows.contains_key(uid)
            ==> all_forgotten(v, gone).windows[uid] == v.windows[uid]) && (
        v.delivery.work.contains_key(uid) ==> all_forgotten(v, gone).delivery.work.contains_key(uid)
            && all_forgotten(v, gone).delivery.work[uid] == v.delivery.work[uid])),
    decreases gone.len(),
{
    if gone.len() > 0 {
        let rest = gone.drop_last();
        replaced_miners_are_forgotten(v, rest, uid);
        if exists|i: int| 0 <= i < gone.len() && (#[trigger] gone[i]).0 == uid {
            let i = choose|i: int| 0 <= i < gone.len() && (#[trigger] gone[i]).0 == uid;
            if i < rest.len() {
                assert(rest[i].0 == uid);
            }
        }
        if forall|i: int| 0 <= i < gone.len() ==> (#[trigger] gone[i]).0 != uid {
            assert forall|i: int| 0 <= i < rest.len() implies (#[trigger] rest[i]).0 != uid by {
                assert(gone[i].0 != uid);
            }
            assert(gone[gone.len() - 1].0 != uid);
        }
    }
}

/// The members that are counted are those that can be asked, in the order of the
/// network, and one can be connected to at an address that others reach and a port.
pub proof fn members_that_can_be_asked_are_counted(
    neurons: Seq<NeuronInfo>,
    authenticated: Map<Seq<char>, ()>,
    targets: Option<Seq<u16>>,
    i: int,
)
    requires
        0 <= i < neurons.len(),
    ensures
        queryable(neurons[i], authenticated, targets) ==> asked_uids(
            neurons,
            authenticated,
            targets,
        ).contains(neurons[i].uid),
        forall|u: u16| #[trigger]
            asked_uids(neurons, authenticated, targets).contains(u) ==> exists|j: int|
                0 <= j < neurons.len() && (#[trigger] neurons[j]).uid == u && queryable(
                    neurons[j],
                    authenticated,
                    targets,
                ),
        connectable(neurons[i]) <==> crate::address::valid_ip(neurons[i].axon_ip@)
            && neurons[i].axon_port != 0,
{
    let pred = |i: int| queryable(neurons[i], authenticated, targets);
    let p = picked(neurons.len(), pred);
    let r = asked_uids(neurons, authenticated, targets);
    lemma_picked(neurons.len(), pred);
    lemma_picked_increases(neurons.len(), pred);
    assert(r =~= p.map_values(|i: int| neurons[i].uid));
    if queryable(neurons[i], authenticated, targets) {
        assert(pred(i));
        assert(p.contains(i));
        let k = choose|k: int| 0 <= k < p.len() && p[k] == i;
        assert(r[k] == neurons[i].uid);
    }
    assert forall|u: u16| #[trigger] r.contains(u) implies exists|j: int|
        0 <= j < neurons.len() && (#[trigger] neurons[j]).uid == u && queryable(
            neurons[j],
            authenticated,
            targets,
        ) by {
        let k = choose|k: int| 0 <= k < r.len() && r[k] == u;
        assert(pred(p[k]));
        assert(neurons[p[k]].uid == u);
    }
}

/// A miner without a hotkey is neither passed over nor new; one with a hotkey is passed
/// over while its entry on the skiplist is later than the block.
pub proof fn exclusions_go_by_hotkey(
    rsv: RsvManager,
    hotkeys: Map<u16, String>,
    uid: u16,
    block: u64,
)
    ensures
        !hotkeys.contains_key(uid) ==> excluded(rsv, hotkeys, uid, block) == (false, false),
        hotkeys.contains_key(uid) && hotkeys[uid]@.len() == 0 ==> excluded(rsv, hotkeys, uid, block)
            == (false, false),
        hotkeys.contains_key(uid) && hotkeys[uid]@.len() > 0 ==> {
            let h = hotkeys[uid]@;
            &&& excluded(rsv, hotkeys, uid, block).0 <==> rsv@.skiplist.contains_key(h)
                && rsv@.skiplist[h] > block
            &&& excluded(rsv, hotkeys, uid, block).1 == rsv@.is_new(rsv.policy, h, block)
        },
{
}

/// Who is not registered is told its hotkey and how to register.
pub proof fn hints_name_hotkey_and_network(a: Seq<char>, b: Seq<char>, netuid: u16, network: Seq<char>)
    ensures
        ("hotkey "@ + a).is_prefix_of(registration_hint(a, netuid, network)),
        registration_hint(a, netuid, network) == registration_hint(b, netuid, network) ==> a.len()
            == b.len(),
        (decimal_text(netuid as nat) + " --network "@ + network).len() <= registration_hint(
            a,
            netuid,
            network,
        ).len(),
        registration_hint(a, netuid, network).skip(
            registration_hint(a, netuid, network).len() - network.len(),
        ) == network,
{
    let r = registration_hint(a, netuid, network);
    assert(r.skip(r.len() - network.len()) =~= network);
    assert(r.subrange(0, ("hotkey "@ + a).len() as int) =~= "hotkey "@ + a);
}

/// The whole of what who is not registered is told.
pub proof fn hints_say_how_to_register(h: Seq<char>, n: u16, network: Seq<char>)
    ensures
        registration_hint(h, n, network) == "hotkey "@ + h + " is not registered on subnet "@
            + decimal_text(n as nat) + ". Register with: btcli subnets register --netuid "@
            + decimal_text(n as nat) + " --network "@ + network,
{
}

/// What is set on the command line is what the validator runs with.
pub proof fn settings_are_taken(c: ValidatorConfig, cli: Cli)
    requires
        set_by(c, cli),
    ensures
        c.netuid == cli.netuid,
        c.disable_benchmark == cli.disable_benchmark,
        c.metrics_port == cli.metrics_port,
        c.circuit_api_url == cli.circuit_api_url,
        c.circuit_cache_dir == cli.circuit_cache_dir,
        c.verification_concurrency == cli.verification_concurrency,
        c.dispatch_ceiling == cli.dispatch_ceiling,
        c.additional_circuits@ == cli.additional_circuits@,
        c.external_ip == cli.external_ip,
        c.axon_port == cli.axon_port,
        c.disable_axon_publish == cli.disable_axon_publish,
{
}

/// An address that differs from the one that miners hold is a change, and the address
/// that was seen last counts before the one published last and that before the one on
/// the chain.
pub proof fn changes_of_address_are_noticed(
    w: AddressWatch,
    chain: Option<HostAddr>,
    current: HostAddr,
)
    ensures
        w.observed is Some ==> (rotated(w, chain, current) <==> w.observed != Some(current)),
        w.observed is None && w.published is Some ==> (rotated(w, chain, current) <==> w.published
            != Some(current)),
        w.observed is None && w.published is None && chain is Some ==> (rotated(w, chain, current)
            <==> chain != Some(current)),
        w.observed is None && w.published is None && chain is None ==> !rotated(w, chain, current),
        best_known(w.observed, w.published, chain) is None <==> w.observed is None && w.published
            is None && chain is None,
{
}

/// Failures are remembered for the window and no longer, and each miner that failed is
/// counted once.
pub proof fn failures_are_remembered_for_a_while(
    s: Seq<(u64, u16)>,
    now: u64,
    window: u64,
    i: int,
)
    requires
        0 <= i < s.len(),
    ensures
        (forall|j: int|
            0 <= j < s.len() ==> (#[trigger] s[j]).0 <= now && now - s[j].0 <= window)
            ==> recent_failures(s, now, window) == s,
        (forall|j: int|
            0 <= j < s.len() ==> (#[trigger] s[j]).0 <= now && now - s[j].0 > window)
            ==> recent_failures(s, now, window).len() == 0,
        recent_failures(s, now, window).len() > 0 ==> now <= recent_failures(s, now, window)[0].0
            + window,
        exists|k: int| 0 <= k <= s.len() && recent_failures(s, now, window) == #[trigger] s.skip(k),
        failed_miners(s).contains(s[i].1),
        forall|u: u16| #[trigger]
            failed_miners(s).contains(u) ==> exists|j: int|
                0 <= j < s.len() && (#[trigger] s[j]).1 == u,
    decreases s.len(),
{
    let m = s.map_values(|e: (u64, u16)| e.1);
    assert(m[i] == s[i].1);
    assert forall|u: u16| #[trigger] failed_miners(s).contains(u) implies exists|j: int|
        0 <= j < s.len() && (#[trigger] s[j]).1 == u by {
        let j = choose|j: int| 0 <= j < m.len() && m[j] == u;
        assert(s[j].1 == u);
    }
    lemma_recent(s, now, window);
}

proof fn lemma_recent(s: Seq<(u64, u16)>, now: u64, window: u64)
    ensures
        (forall|j: int|
            0 <= j < s.len() ==> (#[trigger] s[j]).0 <= now && now - s[j].0 <= window)
            ==> recent_failures(s, now, window) == s,
        (forall|j: int|
            0 <= j < s.len() ==> (#[trigger] s[j]).0 <= now && now - s[j].0 > window)
            ==> recent_failures(s, now, window).len() == 0,
        recent_failures(s, now, window).len() > 0 ==> now <= recent_failures(s, now, window)[0].0
            + window,
        exists|k: int| 0 <= k <= s.len() && recent_failures(s, now, window) == #[trigger] s.skip(k),
    decreases s.len(),
{
    let r = recent_failures(s, now, window);
    if s.len() > 0 && crate::rsv::minus(now, s[0].0) > window {
        let t = s.drop_first();
        lemma_recent(t, now, window);
        let k = choose|k: int| 0 <= k <= t.len() && r == #[trigger] t.skip(k);
        assert(t.skip(k) =~= s.skip(k + 1));
        if forall|j: int| 0 <= j < s.len() ==> (#[trigger] s[j]).0 <= now && now - s[j].0 > window {
            assert forall|j: int| 0 <= j < t.len() implies (#[trigger] t[j]).0 <= now && now - t[j].0
                > window by {
                assert(s[j + 1].0 <= now);
            }
        }
        assert(r == s.skip(k + 1));
    } else {
        assert(s.skip(0) =~= s);
        if s.len() > 0 {
            assert(s[0].0 <= now ==> now - s[0].0 <= window);
        }
    }
}

/// A miner's address is a host and a port behind the last colon; a port that is none
/// or nought and a host that is blank are refused.
pub proof fn addresses_are_host_and_port(
    host: Seq<char>,
    port: Seq<char>,
    s: Seq<char>,
)
    requires
        all_digits(port),
        port.len() > 0,
    ensures
        1 <= digits_value(port) <= 65535 && trimmed(host).len() > 0 ==> miner_address(
            host + seq![':'] + port,
        ) == Ok::<(Seq<char>, u16), MinerAddressError>((trimmed(host), digits_value(port) as u16)),
        digits_value(port) == 0 ==> miner_address(host + seq![':'] + port) == Err::<
            (Seq<char>, u16),
            MinerAddressError,
        >(MinerAddressError::ZeroPort),
        digits_value(port) > 65535 ==> miner_address(host + seq![':'] + port) == Err::<
            (Seq<char>, u16),
            MinerAddressError,
        >(MinerAddressError::BadPort),
        (forall|i: int| 0 <= i < s.len() ==> s[i] != ':') ==> miner_address(s) == Err::<
            (Seq<char>, u16),
            MinerAddressError,
        >(MinerAddressError::NotHostPort),
{
    let a = host + seq![':'] + port;
    lemma_last(host, port);
    assert(last_position(a, ':') == Some(host.len() as int));
    assert(a.skip(host.len() as int + 1) =~= port);
    assert(a.take(host.len() as int) =~= host);
    assert(port[0] != '+') by {
        assert(crate::text::is_digit(port[0]));
    }
    if forall|i: int| 0 <= i < s.len() ==> s[i] != ':' {
        lemma_no_last(s);
    }
}

proof fn lemma_no_last(s: Seq<char>)
    requires
        forall|i: int| 0 <= i < s.len() ==> s[i] != ':',
    ensures
        last_position(s, ':') is None,
    decreases s.len(),
{
    if s.len() > 0 {
        lemma_no_last(s.drop_last());
    }
}

pub proof fn lemma_last(host: Seq<char>, port: Seq<char>)
    requires
        all_digits(port),
    ensures
        last_position(host + seq![':'] + port, ':') == Some(host.len() as int),
    decreases port.len(),
{
    let a = host + seq![':'] + port;
    if port.len() == 0 {
        assert(a.last() == ':');
    } else {
        assert(a.drop_last() =~= host + seq![':'] + port.drop_last());
        assert(crate::text::is_digit(port.last()));
        assert(a.last() == port.last());
        lemma_last(host, port.drop_last());
    }
}

/// A part of an address is a number of at most three digits up to 255, written without
/// a nought in front.
pub proof fn parts_of_addresses_are_small_numbers(s: Seq<char>)
    ensures
        octet(s) matches Some(n) ==> all_digits(s) && digits_value(s) == n && 1 <= s.len() <= 3,
        octet(s) is Some && s.len() > 1 ==> s[0] != '0',
        all_digits(s) && 1 <= s.len() <= 3 && digits_value(s) <= 255 && (s[0] != '0' || s.len() == 1)
            ==> octet(s) == Some(digits_value(s) as u8),
{
}

/// An address in dots has four parts, each a small number, in their order.
pub proof fn addresses_have_four_parts(s: Seq<char>, k: int)
    ensures
        ({
            let p = split_on(s, '.');
            &&& p.len() != 4 ==> ipv4_octets(s) is None
            &&& p.len() == 4 && 0 <= k < 4 && octet(p[k]) is None ==> ipv4_octets(s) is None
            &&& p.len() == 4 && octet(p[0]) is Some && octet(p[1]) is Some && octet(p[2]) is Some
                && octet(p[3]) is Some ==> ipv4_octets(s) == Some(
                (octet(p[0])->0, octet(p[1])->0, octet(p[2])->0, octet(p[3])->0),
            )
        }),
{
}

/// The region of an address is what stands before its second dot.
pub proof fn regions_are_the_first_two_parts(s: Seq<char>)
    ensures
        split_on(s, '.').len() >= 2 ==> region_text(s) == split_on(s, '.')[0] + seq!['.'] + split_on(
            s,
            '.',
        )[1],
        split_on(s, '.').len() < 2 ==> region_text(s).len() == 0,
{
}

/// A proof of scores is made from lists, one for each quantity, in which each answer
/// has its place.
pub proof fn scores_are_proved_from_the_answers(s: Seq<PowItem>, i: int)
    requires
        0 <= i < s.len(),
    ensures
        ({
            let w = weights_inputs(s);
            &&& w.member("maximum_score"@) matches Some(JsonV::Array(c)) && c.len() == s.len() && c[i]
                == s[i].maximum_score@
            &&& w.member("previous_score"@) matches Some(JsonV::Array(c)) && c.len() == s.len() && c[i]
                == s[i].previous_score@
            &&& w.member("verified"@) matches Some(JsonV::Array(c)) && c.len() == s.len() && c[i] == (
            if s[i].verified {
                JsonV::Int(1)
            } else {
                JsonV::Int(0)
            })
            &&& w.member("proof_size"@) matches Some(JsonV::Array(c)) && c.len() == s.len() && c[i]
                == JsonV::Int(s[i].proof_size as int)
            &&& w.member("response_time"@) matches Some(JsonV::Array(c)) && c.len() == s.len() && c[i]
                == s[i].response_time@
            &&& w.member("maximum_response_time"@) matches Some(JsonV::Array(c)) && c.len() == s.len()
                && c[i] == s[i].maximum_response_time@
            &&& w.member("minimum_response_time"@) matches Some(JsonV::Array(c)) && c.len() == s.len()
                && c[i] == s[i].minimum_response_time@
            &&& w.member("block_number"@) matches Some(JsonV::Array(c)) && c.len() == s.len() && c[i]
                == JsonV::Int(s[i].block_number as int)
            &&& w.member("validator_uid"@) matches Some(JsonV::Array(c)) && c.len() == s.len() && c[i]
                == JsonV::Int(s[i].validator_uid as int)
            &&& w.member("miner_uid"@) matches Some(JsonV::Array(c)) && c.len() == s.len() && c[i]
                == JsonV::Int(s[i].miner_uid as int)
        }),
{
    lemma_names();
}

/// A batch is what waits, at most as many as a batch holds.
pub proof fn batches_are_filled(m: PowManager)
    ensures
        m.queue@.len() >= m.batch_size ==> batch_len(m) == m.batch_size,
        m.queue@.len() <= m.batch_size ==> batch_len(m) == m.queue@.len(),
{
}

/// A proved score belongs to the miner that the proof names beside it; what is no
/// miner or no score is left out.
pub proof fn proved_scores_go_with_their_miner(
    o: Seq<WitnessNumber>,
    l: WitnessLayout,
    n: nat,
)
    ensures
        witnessed(o, l, 0).len() == 0,
        ({
            let u = o[l.uids_offset + n].uid;
            let s = o[l.scores_offset + n].score;
            &&& u is Some && s is Some ==> witnessed(o, l, n as int + 1) == witnessed(
                o,
                l,
                n as int,
            ).push((u->0, s->0))
            &&& u is None || s is None ==> witnessed(o, l, n as int + 1) == witnessed(
                o,
                l,
                n as int,
            )
        }),
{
}

/// In a made-up world the earlier comes first, and of two at one time the one that was
/// set up first.
pub proof fn events_come_in_order(s: Seq<SimEvent>, i: int, j: int)
    requires
        is_first(s, i),
        0 <= j < s.len(),
    ensures
        0 <= i < s.len(),
        s[i].due_at_ms <= s[j].due_at_ms,
        s[i].due_at_ms == s[j].due_at_ms ==> s[i].seq <= s[j].seq,
{
    assert(!comes_before(s[j], s[i]));
}

/// Of two things at most one comes before the other, and of two that were not set up
/// together for one time one does.
pub proof fn one_of_two_comes_before(a: SimEvent, b: SimEvent)
    ensures
        a.due_at_ms < b.due_at_ms ==> comes_before(a, b),
        a.due_at_ms == b.due_at_ms && a.seq < b.seq ==> comes_before(a, b),
        comes_before(a, b) ==> !comes_before(b, a),
        a.due_at_ms == b.due_at_ms && a.seq == b.seq ==> !comes_before(a, b),
        is_first(seq![a], 0),
        !is_first(seq![a], 1),
{
    let s = seq![a];
    assert forall|j: int| 0 <= j < s.len() implies !comes_before(#[trigger] s[j], s[0]) by {
        assert(s[j] == a);
    }
}

/// A miner has room where it can be given work and has less than it may have.
pub proof fn miners_with_room_can_work(s: SimState, caps: Map<u16, usize>, uid: u16)
    ensures
        s.has_room(caps, uid) ==> s.miners@.contains_key(uid) && s.sim_time_ms
            >= s.miners@[uid].profile.alive_after_secs * 1000,
        s.has_room(caps, uid) && caps.contains_key(uid) ==> s.miners@[uid].active < caps[uid],
        s.has_room(caps, uid) && !caps.contains_key(uid) ==> s.miners@[uid].active == 0,
        s.has_room(caps, uid) && s.dispatch_cooldowns@.contains_key(s.miners@[uid].profile.hotkey@)
            ==> s.dispatch_cooldowns@[s.miners@[uid].profile.hotkey@] <= s.current_block,
        s.miners@.contains_key(uid) && s.sim_time_ms >= s.miners@[uid].profile.alive_after_secs * 1000
            && !s.dispatch_cooldowns@.contains_key(s.miners@[uid].profile.hotkey@)
            && s.miners@[uid].active == 0 && !caps.contains_key(uid) ==> s.has_room(caps, uid),
{
}

/// A hotkey that no entry of a list holds is not among those of the list.
pub proof fn hotkeys_are_named_by_an_entry(r: Seq<(u16, String)>, hotkey: Seq<char>)
    ensures
        (forall|i: int| 0 <= i < r.len() ==> (#[trigger] r[i]).1@ != hotkey) ==> !names_hotkey(
            r,
            hotkey,
        ),
{
}

/// An answer frees a place at its miner and is counted as the success or the failure
/// that it was.
pub proof fn answers_free_a_place(m: MinerRuntime)
    requires
        m.succeeded_total < u64::MAX,
        m.failed_total < u64::MAX,
    ensures
        m.active > 0 ==> after_answer(m, true).active == m.active - 1 && after_answer(m, false).active
            == m.active - 1,
        m.active == 0 ==> after_answer(m, true).active == 0,
        after_answer(m, true).succeeded_total == m.succeeded_total + 1,
        after_answer(m, true).failed_total == m.failed_total,
        after_answer(m, false).succeeded_total == m.succeeded_total,
        after_answer(m, false).failed_total == m.failed_total + 1,
        after_answer(m, true).profile == m.profile && after_answer(m, false).profile == m.profile,
        after_answer(m, true).dispatched_total == m.dispatched_total,
        one_more(u64::MAX) == u64::MAX,
{
}

/// What happens to a miner changes that miner alone: a new time or a new rate stays,
/// a miner that goes is gone, and one that comes has done nothing.
pub proof fn events_concern_one_miner(m: Map<u16, MinerRuntime>, h: Map<u16, String>, e: EventKind, uid: u16)
    ensures
        e matches EventKind::SetResponseTime { uid: u, value_ms } ==> {
            &&& m.contains_key(u) ==> miners_after(m, e)[u].profile.response_time_ms == value_ms
                && miners_after(m, e)[u].profile.success_rate == m[u].profile.success_rate
                && miners_after(m, e)[u].active == m[u].active && miners_after(m, e)[u].profile.hotkey
                == m[u].profile.hotkey
            &&& miners_after(m, e).dom() == m.dom()
            &&& uid != u && m.contains_key(uid) ==> miners_after(m, e)[uid] == m[uid]
        },
        e matches EventKind::SetSuccessRate { uid: u, value } ==> {
            &&& m.contains_key(u) ==> miners_after(m, e)[u].profile.success_rate == value
                && miners_after(m, e)[u].profile.response_time_ms == m[u].profile.response_time_ms
                && miners_after(m, e)[u].active == m[u].active && miners_after(m, e)[u].profile.hotkey
                == m[u].profile.hotkey
            &&& miners_after(m, e).dom() == m.dom()
            &&& uid != u && m.contains_key(uid) ==> miners_after(m, e)[uid] == m[uid]
        },
        e matches EventKind::KillMiner { uid: u } ==> {
            &&& !miners_after(m, e).contains_key(u)
            &&& uid != u && m.contains_key(uid) ==> miners_after(m, e).contains_key(uid)
                && miners_after(m, e)[uid] == m[uid]
        },
        e matches EventKind::AddMiner(p) ==> {
            &&& miners_after(m, e).contains_key(p.uid) && miners_after(m, e)[p.uid].profile == p
            &&& miners_after(m, e)[p.uid].active == 0 && miners_after(m, e)[p.uid].failed_total == 0
            &&& miners_after(m, e)[p.uid].succeeded_total == 0 && miners_after(
                m,
                e,
            )[p.uid].dispatched_total == 0
            &&& hotkeys_after(h, e).contains_key(p.uid) && hotkeys_after(h, e)[p.uid] == p.hotkey
        },
        !(e is AddMiner) ==> hotkeys_after(h, e) == h,
{
    assert(e matches EventKind::SetResponseTime { uid: u, value_ms } ==> miners_after(m, e).dom()
        =~= m.dom());
    assert(e matches EventKind::SetSuccessRate { uid: u, value } ==> miners_after(m, e).dom()
        =~= m.dom());
}

/// What was to happen by a time has happened, in order, and the rest is still to come.
pub proof fn what_is_due_happens(
    m: Map<u16, MinerRuntime>,
    h: Map<u16, String>,
    s: Seq<ScheduledEvent>,
    e: ScheduledEvent,
    now: u64,
    profiles: Seq<MinerProfile>,
    p: MinerProfile,
)
    ensures
        miners_by(m, Seq::empty(), now) == m,
        hotkeys_by(h, Seq::empty(), now) == h,
        still_to_come(Seq::empty(), now).len() == 0,
        e.at_secs <= now ==> miners_by(m, s.push(e), now) == miners_after(
            miners_by(m, s, now),
            e.kind,
        ) && hotkeys_by(h, s.push(e), now) == hotkeys_after(hotkeys_by(h, s, now), e.kind)
            && still_to_come(s.push(e), now) == still_to_come(s, now),
        e.at_secs > now ==> miners_by(m, s.push(e), now) == miners_by(m, s, now) && hotkeys_by(
            h,
            s.push(e),
            now,
        ) == hotkeys_by(h, s, now) && still_to_come(s.push(e), now) == still_to_come(s, now).push(e),
        first_miners(Seq::empty()) == Map::<u16, MinerRuntime>::empty(),
        first_miners(profiles.push(p)).contains_key(p.uid),
        first_miners(profiles.push(p))[p.uid].profile == p,
        first_miners(profiles.push(p))[p.uid].active == 0,
        first_miners(profiles.push(p)).remove(p.uid) == first_miners(profiles).remove(p.uid),
{
    assert(s.push(e).drop_last() =~= s);
    assert(profiles.push(p).drop_last() =~= profiles);
    assert(first_miners(profiles.push(p)).remove(p.uid) =~= first_miners(profiles).remove(p.uid));
}

/// The check of an answer is about that answer.
pub proof fn checks_are_of_their_answer(e: SimEvent, p: PendingCheck, due: u64, seq: u64)
    requires
        is_check_of(e, p, due, seq),
    ensures
        e.due_at_ms == due,
        e.seq == seq,
        e.kind matches SimEventKind::VerifyCompletion {
            uid,
            hotkey,
            response_time_ms,
            was_at_capacity,
        } && uid == p.uid && hotkey == p.hotkey && response_time_ms == p.response_time_ms
            && was_at_capacity == p.was_at_capacity,
{
}

/// Checks begin as long as some wait and there is room, and no longer.
pub proof fn checks_fill_the_room(waiting: nat, in_flight: nat, concurrency: nat)
    ensures
        0 <= room_for(waiting as int, in_flight as int, concurrency as int) <= waiting,
        in_flight <= concurrency ==> in_flight + room_for(
            waiting as int,
            in_flight as int,
            concurrency as int,
        ) <= concurrency,
        in_flight >= concurrency ==> room_for(waiting as int, in_flight as int, concurrency as int)
            == 0,
        room_for(waiting as int, in_flight as int, concurrency as int) < waiting ==> in_flight
            + room_for(waiting as int, in_flight as int, concurrency as int) >= concurrency,
{
}

/// A miner is given work once it is there and has rested, and one of which nothing is
/// known may have one piece of work.
pub proof fn rested_miners_work(
    m: MinerRuntime,
    cooldowns: Map<Seq<char>, u64>,
    now: u64,
    block: u64,
    caps: Map<u16, usize>,
    uid: u16,
)
    ensures
        can_work(m, cooldowns, now, block) ==> now >= m.profile.alive_after_secs * 1000,
        can_work(m, cooldowns, now, block) && cooldowns.contains_key(m.profile.hotkey@)
            ==> cooldowns[m.profile.hotkey@] <= block,
        now >= m.profile.alive_after_secs * 1000 && (cooldowns.contains_key(m.profile.hotkey@)
            ==> rest_is_over(cooldowns, m.profile.hotkey@, block)) ==> can_work(
            m,
            cooldowns,
            now,
            block,
        ),
        rest_is_over(cooldowns, m.profile.hotkey@, block) <==> cooldowns.contains_key(
            m.profile.hotkey@,
        ) && !(block < cooldowns[m.profile.hotkey@]),
        caps.contains_key(uid) ==> cap_of(caps, uid) == caps[uid],
        !caps.contains_key(uid) ==> cap_of(caps, uid) == 1,
{
}

/// The worlds that come with the program run for half an hour in steps of fifty
/// milliseconds, with the same chances each time.
pub proof fn worlds_run_for_half_an_hour(run: RunConfig, suffix: Seq<char>, r: Seq<(u16, String)>, i: int)
    requires
        is_baseline(run, suffix),
        0 <= i < r.len(),
    ensures
        run.duration_secs == 30 * 60,
        run.tick_interval_ms == 50,
        run.verification_concurrency == 128,
        run.sample_verify_ms == 200,
        run.health_every_secs == 15,
        run.rng_seed == 42,
        run.block_time_ms == 12_000,
        run.sample_rate == 0x3fa4_7ae1_47ae_147b,
        run.output_path@ == "/tmp/sim_"@ + suffix + ".tsv"@,
        names_hotkey(r, r[i].1@),
{
}

/// In one world a fast miner comes after ten minutes, in another a miner becomes slow
/// and unreliable after ten, and in a third there are two hundred miners alike.
pub proof fn worlds_are_as_described(a: Scenario, b: Scenario, c: Scenario, i: int, j: int)
    requires
        is_discovery(a),
        is_decay(b),
        is_overload(c),
        0 <= i < 200,
        0 <= j < 200,
    ensures
        a.miners@.len() == 2 && a.events@.len() == 1 && a.events@[0].at_secs == 600,
        a.events@[0].kind matches EventKind::AddMiner(p) && p.uid == 99 && p.response_time_ms
            < a.miners@[0].response_time_ms && p.response_time_ms < a.miners@[1].response_time_ms
            && p.alive_after_secs == 600,
        b.miners@.len() == 2 && b.events@.len() == 2 && b.events@[0].at_secs == 600
            && b.events@[1].at_secs == 600,
        b.events@[0].kind matches EventKind::SetResponseTime { uid, value_ms } && uid
            == b.miners@[1].uid && value_ms == 100 * b.miners@[1].response_time_ms,
        b.events@[1].kind matches EventKind::SetSuccessRate { uid, value } && uid == b.miners@[1].uid
            && value < b.miners@[1].success_rate,
        c.miners@.len() == 200 && c.events@.len() == 0,
        c.miners@[i].uid == i,
        c.miners@[i].response_time_ms == c.miners@[j].response_time_ms,
        c.miners@[i].success_rate == c.miners@[j].success_rate,
        c.miners@[i].cap_ceiling == 5000 && c.miners@[i].response_time_ms == 50,
{
}

} // verus!
