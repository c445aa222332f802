//! What a validator does from time to time.

use vstd::prelude::*;
use vstd::string::*;

use crate::address::{is_valid_ip, valid_ip};
use crate::dispatch::{
    get_queryable_neurons, lemma_picked, picked, positions, queryable, HotkeySet, NeuronInfo,
};
use crate::keyed::UidMap;
use crate::performance::{PerfV, PerformanceTracker};
use crate::rsv::{minus, RsvManager};
use crate::scoring::{synced_scores, zeroed_scores, ScoreManager};
use crate::text::str_eq;

verus! {

/// What is done from time to time, in the order in which it is.
#[derive(Clone, Copy, Debug, PartialEq, Eq, Structural)]
pub enum PeriodicTask {
    /// The list of the network's members is fetched.
    MetagraphSync,
    /// Weights are set.
    WeightUpdate,
    /// Scores are stored.
    ScoreSave,
    /// The list of circuits is fetched.
    CircuitRefresh,
    /// What is known of the miners is stored.
    PerformanceSave,
    /// A run of the validator's own is started.
    Replenish,
    /// Runs in which nothing happens are given up.
    CollectStale,
    /// The state of the validator is noted.
    HealthLog,
}

/// How often things are done, in ticks of the clock.
#[derive(Clone, Copy, Debug)]
pub struct PeriodicIntervals {
    pub metagraph_sync: u64,
    pub weight_update: u64,
    pub score_save: u64,
    pub circuit_refresh: u64,
    pub perf_save: u64,
    pub replenish: u64,
    pub gc: u64,
    pub health_log: u64,
}

/// When things were last done.
#[derive(Clone, Copy, Debug)]
pub struct PeriodicTimings {
    pub metagraph_sync: u64,
    pub weight_update: u64,
    pub score_save: u64,
    pub circuit_refresh: u64,
    pub perf_save: u64,
    pub replenish: u64,
    pub gc: u64,
    pub health_log: u64,
}

/// What the validator is at while it looks for things to do.
#[derive(Clone, Copy, Debug)]
pub struct PeriodicState {
    /// Whether it runs without a chain.
    pub loopback: bool,
    /// Whether no piece of any run waits.
    pub queues_empty: bool,
}

/// Where a task stands in the order.
pub open spec fn task_rank(t: PeriodicTask) -> int {
    match t {
        PeriodicTask::MetagraphSync => 0,
        PeriodicTask::WeightUpdate => 1,
        PeriodicTask::ScoreSave => 2,
        PeriodicTask::CircuitRefresh => 3,
        PeriodicTask::PerformanceSave => 4,
        PeriodicTask::Replenish => 5,
        PeriodicTask::CollectStale => 6,
        PeriodicTask::HealthLog => 7,
    }
}

/// The task at a place in the order.
pub open spec fn task_at(rank: int) -> PeriodicTask {
    if rank == 0 {
        PeriodicTask::MetagraphSync
    } else if rank == 1 {
        PeriodicTask::WeightUpdate
    } else if rank == 2 {
        PeriodicTask::ScoreSave
    } else if rank == 3 {
        PeriodicTask::CircuitRefresh
    } else if rank == 4 {
        PeriodicTask::PerformanceSave
    } else if rank == 5 {
        PeriodicTask::Replenish
    } else if rank == 6 {
        PeriodicTask::CollectStale
    } else {
        PeriodicTask::HealthLog
    }
}

/// When a task was last done.
pub open spec fn last_done(t: PeriodicTimings, task: PeriodicTask) -> u64 {
    match task {
        PeriodicTask::MetagraphSync => t.metagraph_sync,
        PeriodicTask::WeightUpdate => t.weight_update,
        PeriodicTask::ScoreSave => t.score_save,
        PeriodicTask::CircuitRefresh => t.circuit_refresh,
        PeriodicTask::PerformanceSave => t.perf_save,
        PeriodicTask::Replenish => t.replenish,
        PeriodicTask::CollectStale => t.gc,
        PeriodicTask::HealthLog => t.health_log,
    }
}

/// How often a task is done.
pub open spec fn interval_of(i: PeriodicIntervals, task: PeriodicTask) -> u64 {
    match task {
        PeriodicTask::MetagraphSync => i.metagraph_sync,
        PeriodicTask::WeightUpdate => i.weight_update,
        PeriodicTask::ScoreSave => i.score_save,
        PeriodicTask::CircuitRefresh => i.circuit_refresh,
        PeriodicTask::PerformanceSave => i.perf_save,
        PeriodicTask::Replenish => i.replenish,
        PeriodicTask::CollectStale => i.gc,
        PeriodicTask::HealthLog => i.health_log,
    }
}

/// Whether a task makes sense at all: without a chain nothing is fetched from it or
/// set on it, and a run of the validator's own is only started for want of work.
pub open spec fn applies(task: PeriodicTask, s: PeriodicState) -> bool {
    match task {
        PeriodicTask::MetagraphSync => !s.loopback,
        PeriodicTask::WeightUpdate => !s.loopback,
        PeriodicTask::Replenish => s.queues_empty,
        _ => true,
    }
}

/// Whether a task is due.
pub open spec fn is_due(
    t: PeriodicTimings,
    i: PeriodicIntervals,
    task: PeriodicTask,
    s: PeriodicState,
    now: u64,
) -> bool {
    applies(task, s) && minus(now, last_done(t, task)) > interval_of(i, task)
}

impl PeriodicTimings {
    /// Everything was done just now, but for the list of the network's members,
    /// which is to be fetched at once.
    pub fn new(now: u64, i: &PeriodicIntervals) -> (t: Self)
        ensures
            t.metagraph_sync == minus(minus(now, i.metagraph_sync) as u64, 1),
            t.weight_update == now,
            t.score_save == now,
            t.circuit_refresh == now,
            t.perf_save == now,
            t.replenish == now,
            t.gc == now,
            t.health_log == now,
    {
        PeriodicTimings {
            metagraph_sync: now.saturating_sub(i.metagraph_sync).saturating_sub(1),
            weight_update: now,
            score_save: now,
            circuit_refresh: now,
            perf_save: now,
            replenish: now,
            gc: now,
            health_log: now,
        }
    }

    /// Whether a task is due.
    pub fn due(&self, i: &PeriodicIntervals, task: PeriodicTask, s: PeriodicState, now: u64) -> (r:
        bool)
        ensures
            r == is_due(*self, *i, task, s, now),
    {
        let (last, interval, makes_sense): (u64, u64, bool) = match task {
            PeriodicTask::MetagraphSync => (self.metagraph_sync, i.metagraph_sync, !s.loopback),
            PeriodicTask::WeightUpdate => (self.weight_update, i.weight_update, !s.loopback),
            PeriodicTask::ScoreSave => (self.score_save, i.score_save, true),
            PeriodicTask::CircuitRefresh => (self.circuit_refresh, i.circuit_refresh, true),
            PeriodicTask::PerformanceSave => (self.perf_save, i.perf_save, true),
            PeriodicTask::Replenish => (self.replenish, i.replenish, s.queues_empty),
            PeriodicTask::CollectStale => (self.gc, i.gc, true),
            PeriodicTask::HealthLog => (self.health_log, i.health_log, true),
        };
        makes_sense && now.saturating_sub(last) > interval
    }

    /// The first task that is due from a place in the order on.
    pub fn next_due(&self, i: &PeriodicIntervals, from: u8, s: PeriodicState, now: u64) -> (r: Option<
        PeriodicTask,
    >)
        ensures
            match r {
                Some(task) => {
                    &&& task_rank(task) >= from
                    &&& is_due(*self, *i, task, s, now)
                    &&& forall|k: int|
                        from <= k < task_rank(task) ==> !is_due(
                            *self,
                            *i,
                            #[trigger] task_at(k),
                            s,
                            now,
                        )
                },
                None => forall|k: int|
                    from <= k < 8 ==> !is_due(*self, *i, #[trigger] task_at(k), s, now),
            },
    {
        let mut k: u8 = from;
        while k < 8
            invariant
                from <= k,
                k <= 8 || k == from,
                forall|j: int|
                    from <= j < k ==> !is_due(*self, *i, #[trigger] task_at(j), s, now),
            decreases 8 - k,
        {
            let task = match k {
                0 => PeriodicTask::MetagraphSync,
                1 => PeriodicTask::WeightUpdate,
                2 => PeriodicTask::ScoreSave,
                3 => PeriodicTask::CircuitRefresh,
                4 => PeriodicTask::PerformanceSave,
                5 => PeriodicTask::Replenish,
                6 => PeriodicTask::CollectStale,
                _ => PeriodicTask::HealthLog,
            };
            proof {
                assert(task == task_at(k as int));
                assert(task_rank(task) == k);
            }
            if self.due(i, task, s, now) {
                return Some(task);
            }
            k += 1;
        }
        None
    }

    /// Notes that a task was done.
    pub fn done(&mut self, task: PeriodicTask, now: u64)
        ensures
            last_done(*final(self), task) == now,
            forall|other: PeriodicTask|
                other != task ==> #[trigger] last_done(*final(self), other) == last_done(
                    *old(self),
                    other,
                ),
    {
        match task {
            PeriodicTask::MetagraphSync => self.metagraph_sync = now,
            PeriodicTask::WeightUpdate => self.weight_update = now,
            PeriodicTask::ScoreSave => self.score_save = now,
            PeriodicTask::CircuitRefresh => self.circuit_refresh = now,
            PeriodicTask::PerformanceSave => self.perf_save = now,
            PeriodicTask::Replenish => self.replenish = now,
            PeriodicTask::CollectStale => self.gc = now,
            PeriodicTask::HealthLog => self.health_log = now,
        }
    }
}

/// A task that was just done is not due, and all others are as due as they were.
pub proof fn done_tasks_wait(
    before: PeriodicTimings,
    after: PeriodicTimings,
    i: PeriodicIntervals,
    task: PeriodicTask,
    s: PeriodicState,
    now: u64,
)
    requires
        last_done(after, task) == now,
        forall|other: PeriodicTask|
            other != task ==> #[trigger] last_done(after, other) == last_done(before, other),
    ensures
        !is_due(after, i, task, s, now),
        forall|other: PeriodicTask|
            other != task ==> #[trigger] is_due(after, i, other, s, now) == is_due(
                before,
                i,
                other,
                s,
                now,
            ),
{
    assert forall|other: PeriodicTask| other != task implies #[trigger] is_due(
        after,
        i,
        other,
        s,
        now,
    ) == is_due(before, i, other, s, now) by {
        assert(last_done(after, other) == last_done(before, other));
    }
}

/// A validator on a chain fetches the list of the network's members first of all.
pub proof fn the_network_is_fetched_first(t: PeriodicTimings, i: PeriodicIntervals, now: u64)
    requires
        i.metagraph_sync < now,
        t.metagraph_sync == minus(minus(now, i.metagraph_sync) as u64, 1),
    ensures
        is_due(
            t,
            i,
            PeriodicTask::MetagraphSync,
            PeriodicState { loopback: false, queues_empty: false },
            now,
        ),
{
}

/// The hotkeys of the miners once the first `n` members of the network have been
/// looked at.
pub open spec fn hotkeys_noted(
    known: Map<u16, Seq<char>>,
    neurons: Seq<NeuronInfo>,
    n: nat,
) -> Map<u16, Seq<char>>
    decreases n,
{
    if n == 0 {
        known
    } else {
        hotkeys_noted(known, neurons, (n - 1) as nat).insert(
            neurons[n - 1].uid,
            neurons[n - 1].hotkey@,
        )
    }
}

/// The miners among the first `n` members of the network whose hotkey is another
/// one than before, in order, with the hotkey before.
pub open spec fn replaced_miners(
    known: Map<u16, Seq<char>>,
    neurons: Seq<NeuronInfo>,
    n: nat,
) -> Seq<(u16, Seq<char>)>
    decreases n,
{
    if n == 0 {
        Seq::empty()
    } else {
        let before = replaced_miners(known, neurons, (n - 1) as nat);
        let at = hotkeys_noted(known, neurons, (n - 1) as nat);
        let m = neurons[n - 1];
        if at.contains_key(m.uid) && at[m.uid] != m.hotkey@ {
            before.push((m.uid, at[m.uid]))
        } else {
            before
        }
    }
}

/// The hotkeys as texts.
pub open spec fn hotkey_texts(m: Map<u16, String>) -> Map<u16, Seq<char>> {
    m.map_values(|h: String| h@)
}

/// Miners with their hotkeys as texts.
pub open spec fn named_miners(s: Seq<(u16, String)>) -> Seq<(u16, Seq<char>)> {
    s.map_values(|m: (u16, String)| (m.0, m.1@))
}

/// Takes in the list of the network's members. The result is the miners whose
/// place was taken by another, with their hotkeys: what is known of them is of no
/// use any longer.
pub fn note_hotkeys(uid_hotkeys: &mut UidMap<String>, neurons: &[NeuronInfo]) -> (r: Vec<
    (u16, String),
>)
    ensures
        hotkey_texts(final(uid_hotkeys)@) == hotkeys_noted(
            hotkey_texts(old(uid_hotkeys)@),
            neurons@,
            neurons@.len(),
        ),
        named_miners(r@) == replaced_miners(
            hotkey_texts(old(uid_hotkeys)@),
            neurons@,
            neurons@.len(),
        ),
{
    let ghost known = hotkey_texts(uid_hotkeys@);
    let mut r: Vec<(u16, String)> = Vec::new();
    let mut i: usize = 0;
    proof {
        assert(named_miners(r@) =~= Seq::empty());
    }
    while i < neurons.len()
        invariant
            i <= neurons@.len(),
            known == hotkey_texts(old(uid_hotkeys)@),
            hotkey_texts(uid_hotkeys@) == hotkeys_noted(known, neurons@, i as nat),
            named_miners(r@) == replaced_miners(known, neurons@, i as nat),
        decreases neurons@.len() - i,
    {
        let uid: u16 = neurons[i].uid;
        let gone: Option<String> = match uid_hotkeys.get(&uid) {
            Some(h) => if str_eq(h.as_str(), neurons[i].hotkey.as_str()) {
                None
            } else {
                Some(h.clone())
            },
            None => None,
        };
        let ghost before = uid_hotkeys@;
        proof {
            assert(hotkey_texts(before).contains_key(uid) == before.contains_key(uid));
        }
        let ghost listed = r@;
        if let Some(h) = gone {
            r.push((uid, h));
            proof {
                assert(named_miners(r@) =~= named_miners(listed).push((uid, h@)));
            }
        }
        uid_hotkeys.insert(uid, neurons[i].hotkey.clone());
        proof {
            assert(hotkey_texts(uid_hotkeys@) =~= hotkey_texts(before).insert(
                uid,
                neurons@[i as int].hotkey@,
            ));
        }
        i += 1;
    }
    r
}

/// The uids of the network's members, in order.
pub open spec fn neuron_uids(s: Seq<NeuronInfo>) -> Seq<u16> {
    s.map_values(|n: NeuronInfo| n.uid)
}

/// What is remembered of the miners' work once some of them have been forgotten.
pub open spec fn all_forgotten(v: PerfV, gone: Seq<(u16, Seq<char>)>) -> PerfV
    decreases gone.len(),
{
    if gone.len() == 0 {
        v
    } else {
        all_forgotten(v, gone.drop_last()).reset(gone.last().0, gone.last().1)
    }
}

/// The uids of the members of the network that can be asked, in order.
pub open spec fn asked_uids(
    neurons: Seq<NeuronInfo>,
    authenticated: Map<Seq<char>, ()>,
    targets: Option<Seq<u16>>,
) -> Seq<u16> {
    picked(neurons.len(), |i: int| queryable(neurons[i], authenticated, targets)).map_values(
        |i: int| neurons[i].uid,
    )
}

/// Takes in the list of the network's members. Miners that left lose their score,
/// and, unless some were chosen, those that cannot be asked have theirs at zero.
/// What is out of date about strikes and rests is dropped. Where a miner's place
/// was taken by another, its work is forgotten; who that was is handed back.
pub fn sync_metagraph(
    scores: &mut ScoreManager,
    rsv: &mut RsvManager,
    tracker: &mut PerformanceTracker,
    uid_hotkeys: &mut UidMap<String>,
    neurons: &Vec<NeuronInfo>,
    authenticated: &HotkeySet,
    target_uids: &Option<Vec<u16>>,
    current_block: u64,
    blocks_per_tempo: u64,
) -> (gone: Vec<(u16, String)>)
    ensures
        ({
            let kept = synced_scores(old(scores).scores@, neuron_uids(neurons@));
            final(scores).scores@ == (if *target_uids is Some {
                kept
            } else {
                zeroed_scores(kept, asked_uids(neurons@, authenticated@, None))
            })
        }),
        final(scores).persistence_path == old(scores).persistence_path,
        exists|left: Set<Seq<char>>|
            {
                &&& #[trigger] old(rsv)@.expired(old(rsv).policy, current_block).oldest_beyond(
                    old(rsv).policy.history_cap as nat,
                    left,
                )
                &&& final(rsv)@ == old(rsv)@.expired(old(rsv).policy, current_block).without(left)
            },
        final(rsv).policy == old(rsv).policy,
        final(rsv).persistence_path == old(rsv).persistence_path,
        hotkey_texts(final(uid_hotkeys)@) == hotkeys_noted(
            hotkey_texts(old(uid_hotkeys)@),
            neurons@,
            neurons@.len(),
        ),
        named_miners(gone@) == replaced_miners(
            hotkey_texts(old(uid_hotkeys)@),
            neurons@,
            neurons@.len(),
        ),
        final(tracker)@ == all_forgotten(old(tracker)@, named_miners(gone@)),
        final(tracker).policy == old(tracker).policy,
        final(tracker).persistence_path == old(tracker).persistence_path,
{
    let mut uids: Vec<u16> = Vec::new();
    let mut i: usize = 0;
    while i < neurons.len()
        invariant
            i <= neurons@.len(),
            uids@ == neuron_uids(neurons@).take(i as int),
        decreases neurons@.len() - i,
    {
        uids.push(neurons[i].uid);
        i += 1;
        proof {
            assert(uids@ =~= neuron_uids(neurons@).take(i as int));
        }
    }
    proof {
        assert(uids@ =~= neuron_uids(neurons@));
    }
    scores.sync_uids(uids.as_slice());
    rsv.prune_expired(current_block, blocks_per_tempo);
    if target_uids.is_none() {
        let chosen = get_queryable_neurons(neurons, authenticated, target_uids);
        let ghost at = positions(chosen@);
        let ghost pred = |i: int| queryable(neurons@[i], authenticated@, None);
        proof {
            assert(at == picked(neurons@.len(), pred));
            lemma_picked(neurons@.len(), pred);
        }
        let mut asked: Vec<u16> = Vec::new();
        let mut k: usize = 0;
        while k < chosen.len()
            invariant
                k <= chosen@.len(),
                at == positions(chosen@),
                forall|j: int| 0 <= j < at.len() ==> 0 <= #[trigger] at[j] < neurons@.len(),
                asked@.len() == k,
                forall|j: int| 0 <= j < k ==> #[trigger] asked@[j] == neurons@[at[j]].uid,
            decreases chosen@.len() - k,
        {
            proof {
                assert(at[k as int] == chosen@[k as int]);
            }
            asked.push(neurons[chosen[k]].uid);
            k += 1;
        }
        proof {
            assert(asked@ =~= asked_uids(neurons@, authenticated@, None));
        }
        scores.zero_non_queryable(asked.as_slice());
    }
    let gone = note_hotkeys(uid_hotkeys, neurons.as_slice());
    let ghost names = named_miners(gone@);
    let ghost start = tracker@;
    let mut j: usize = 0;
    proof {
        assert(names.take(0).len() == 0);
    }
    while j < gone.len()
        invariant
            j <= gone@.len(),
            names == named_miners(gone@),
            tracker@ == all_forgotten(start, names.take(j as int)),
            tracker.policy == old(tracker).policy,
            tracker.persistence_path == old(tracker).persistence_path,
        decreases gone@.len() - j,
    {
        proof {
            assert(names.take(j + 1).drop_last() =~= names.take(j as int));
            assert(names.take(j + 1).last() == (gone@[j as int].0, gone@[j as int].1@));
        }
        tracker.reset_uid(gone[j].0, gone[j].1.as_str());
        j += 1;
    }
    proof {
        assert(names.take(j as int) =~= names);
    }
    gone
}

/// A miner whose place was taken by another is a stranger afterwards.
pub proof fn newcomers_start_afresh(v: PerfV, gone: Seq<(u16, Seq<char>)>, i: int)
    requires
        0 <= i < gone.len(),
    ensures
        !all_forgotten(v, gone).windows.contains_key(gone[i].0),
        !all_forgotten(v, gone).caps.caps.contains_key(gone[i].0),
    decreases gone.len(),
{
    if i < gone.len() - 1 {
        assert(gone.drop_last()[i] == gone[i]);
        newcomers_start_afresh(v, gone.drop_last(), i);
    }
}

/// Whether a member of the network can be connected to.
pub open spec fn connectable(n: NeuronInfo) -> bool {
    valid_ip(n.axon_ip@) && n.axon_port > 0
}

/// The members of the network that can be connected to, by position.
pub fn connectable_neurons(neurons: &[NeuronInfo]) -> (r: Vec<usize>)
    ensures
        positions(r@) == picked(neurons@.len(), |i: int| connectable(neurons@[i])),
{
    let ghost pred = |i: int| connectable(neurons@[i]);
    let mut r: Vec<usize> = Vec::new();
    let mut i: usize = 0;
    proof {
        assert(positions(r@) =~= picked(0, pred));
    }
    while i < neurons.len()
        invariant
            i <= neurons@.len(),
            pred == (|i: int| connectable(neurons@[i])),
            positions(r@) == picked(i as nat, pred),
        decreases neurons@.len() - i,
    {
        let ghost before = r@;
        if is_valid_ip(neurons[i].axon_ip.as_str()) && neurons[i].axon_port > 0 {
            r.push(i);
            proof {
                assert(positions(r@) =~= positions(before).push(i as int));
            }
        }
        i += 1;
    }
    r
}

/// Whether a miner is passed over, or counts as new, at a block. One without a
/// hotkey does neither.
pub open spec fn excluded(
    rsv: RsvManager,
    hotkeys: Map<u16, String>,
    uid: u16,
    block: u64,
) -> (bool, bool) {
    if hotkeys.contains_key(uid) && hotkeys[uid]@.len() > 0 {
        (rsv@.skips(hotkeys[uid]@, block), rsv@.is_new(rsv.policy, hotkeys[uid]@, block))
    } else {
        (false, false)
    }
}

/// Says of each miner whether it is passed over, and whether it counts as new.
pub fn weight_exclusions(
    rsv: &RsvManager,
    uid_hotkeys: &UidMap<String>,
    uids: &[u16],
    current_block: u64,
) -> (r: Vec<(bool, bool)>)
    ensures
        r@.len() == uids@.len(),
        forall|i: int|
            0 <= i < r@.len() ==> #[trigger] r@[i] == excluded(
                *rsv,
                uid_hotkeys@,
                uids@[i],
                current_block,
            ),
{
    let mut r: Vec<(bool, bool)> = Vec::new();
    let mut i: usize = 0;
    while i < uids.len()
        invariant
            i <= uids@.len(),
            r@.len() == i,
            forall|k: int|
                0 <= k < i ==> #[trigger] r@[k] == excluded(
                    *rsv,
                    uid_hotkeys@,
                    uids@[k],
                    current_block,
                ),
        decreases uids@.len() - i,
    {
        let one = match uid_hotkeys.get(&uids[i]) {
            Some(h) => {
                proof {
                    reveal_strlit("");
                    assert(""@ =~= Seq::<char>::empty());
                    if h@.len() == 0 {
                        assert(h@ =~= ""@);
                    }
                }
                if str_eq(h.as_str(), "") {
                    (false, false)
                } else {
                    (
                        rsv.is_skiplisted(h.as_str(), current_block),
                        rsv.is_in_coldstart(h.as_str(), current_block),
                    )
                }
            },
            None => (false, false),
        };
        r.push(one);
        i += 1;
    }
    r
}

/// Whether weights can be set again: enough blocks have passed since the last
/// time.
pub fn weights_allowed(blocks_since: u64, rate_limit_blocks: u64) -> (r: bool)
    ensures
        r == (blocks_since >= rate_limit_blocks),
{
    blocks_since >= rate_limit_blocks
}

/// Whether there is any weight to set.
pub fn any_weight(weights: &[u16]) -> (r: bool)
    ensures
        r == (exists|i: int| 0 <= i < weights@.len() && #[trigger] weights@[i] != 0),
{
    let mut i: usize = 0;
    while i < weights.len()
        invariant
            i <= weights@.len(),
            forall|k: int| 0 <= k < i ==> #[trigger] weights@[k] == 0,
        decreases weights@.len() - i,
    {
        if weights[i] != 0 {
            return true;
        }
        i += 1;
    }
    false
}

/// How many blocks a tempo has: what the chain says, unless it says none.
pub fn tempo_blocks(known: u64, said: u64) -> (r: u64)
    ensures
        r == (if said > 0 {
            said
        } else {
            known
        }),
{
    if said > 0 {
        said
    } else {
        known
    }
}

} // verus!
