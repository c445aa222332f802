//! A world of made-up miners to try the scheduling on: when their answers come,
//! which of them are checked, and who is given more work.

use std::collections::VecDeque;
use vstd::prelude::*;
use vstd::string::*;

use crate::dispatch::{capped, capped_product};
use crate::keyed::{StrMap, UidMap, VecMap};
use crate::text::{decimal, decimal_text, str_eq};

verus! {

/// A made-up miner. A rate, and a roll that is held against it, is written as the
/// bits of a floating-point number from 0 on: such bits order as the numbers do.
#[derive(Debug)]
pub struct MinerProfile {
    pub uid: u16,
    pub hotkey: String,
    pub response_time_ms: u64,
    pub success_rate: u64,
    pub cap_ceiling: usize,
    pub alive_after_secs: u64,
}

impl MinerProfile {
    /// Another value for the same miner.
    pub fn copy(&self) -> (p: MinerProfile)
        ensures
            p == *self,
    {
        MinerProfile {
            uid: self.uid,
            hotkey: self.hotkey.clone(),
            response_time_ms: self.response_time_ms,
            success_rate: self.success_rate,
            cap_ceiling: self.cap_ceiling,
            alive_after_secs: self.alive_after_secs,
        }
    }
}

/// What happens to the miners at a set time.
#[derive(Debug)]
pub enum EventKind {
    SetResponseTime { uid: u16, value_ms: u64 },
    SetSuccessRate { uid: u16, value: u64 },
    KillMiner { uid: u16 },
    AddMiner(MinerProfile),
}

/// Something that is to happen at a set time.
#[derive(Debug)]
pub struct ScheduledEvent {
    pub at_secs: u64,
    pub kind: EventKind,
}

/// How a world is run. The share of answers that are checked is written as a
/// miner's rate of success is.
#[derive(Debug)]
pub struct RunConfig {
    pub duration_secs: u64,
    pub tick_interval_ms: u64,
    pub verification_concurrency: usize,
    pub sample_rate: u64,
    pub sample_verify_ms: u64,
    pub output_path: String,
    pub health_every_secs: u64,
    pub rng_seed: u64,
    pub block_time_ms: u64,
}

/// A world: its miners, and what happens to them.
#[derive(Debug)]
pub struct Scenario {
    pub run: RunConfig,
    pub miners: Vec<MinerProfile>,
    pub events: Vec<ScheduledEvent>,
}

/// An answer that is on its way, or being checked.
#[derive(Debug)]
pub enum SimEventKind {
    NetworkResponse {
        uid: u16,
        hotkey: String,
        success: bool,
        response_time_ms: u64,
        was_at_capacity: bool,
    },
    VerifyCompletion { uid: u16, hotkey: String, response_time_ms: u64, was_at_capacity: bool },
}

/// Something that happens at a time. Of two things at one time, the one that was
/// set up first comes first.
#[derive(Debug)]
pub struct SimEvent {
    pub due_at_ms: u64,
    pub seq: u64,
    pub kind: SimEventKind,
}

/// Whether one thing comes before another.
pub open spec fn comes_before(a: SimEvent, b: SimEvent) -> bool {
    a.due_at_ms < b.due_at_ms || (a.due_at_ms == b.due_at_ms && a.seq < b.seq)
}

fn earlier(a: &SimEvent, b: &SimEvent) -> (r: bool)
    ensures
        r == comes_before(*a, *b),
{
    a.due_at_ms < b.due_at_ms || (a.due_at_ms == b.due_at_ms && a.seq < b.seq)
}

/// Whether nothing comes before the thing at a position.
pub open spec fn is_first(events: Seq<SimEvent>, i: int) -> bool {
    &&& 0 <= i < events.len()
    &&& forall|j: int| 0 <= j < events.len() ==> !comes_before(#[trigger] events[j], events[i])
}

/// A made-up miner at work.
#[derive(Debug)]
pub struct MinerRuntime {
    pub profile: MinerProfile,
    pub active: usize,
    pub dispatched_total: u64,
    pub succeeded_total: u64,
    pub failed_total: u64,
}

/// A miner that has done nothing yet.
pub open spec fn idle(p: MinerProfile) -> MinerRuntime {
    MinerRuntime {
        profile: p,
        active: 0,
        dispatched_total: 0,
        succeeded_total: 0,
        failed_total: 0,
    }
}

fn idle_miner(profile: MinerProfile) -> (m: MinerRuntime)
    ensures
        m == idle(profile),
{
    MinerRuntime {
        profile,
        active: 0,
        dispatched_total: 0,
        succeeded_total: 0,
        failed_total: 0,
    }
}

/// One more, as far as the number goes.
pub open spec fn one_more(n: u64) -> u64 {
    if n == u64::MAX {
        n
    } else {
        (n + 1) as u64
    }
}

/// A miner after one of its answers has come.
pub open spec fn after_answer(m: MinerRuntime, success: bool) -> MinerRuntime {
    MinerRuntime {
        active: if m.active > 0 {
            (m.active - 1) as usize
        } else {
            0
        },
        succeeded_total: if success {
            one_more(m.succeeded_total)
        } else {
            m.succeeded_total
        },
        failed_total: if success {
            m.failed_total
        } else {
            one_more(m.failed_total)
        },
        ..m
    }
}

/// An answer that waits to be checked.
#[derive(Debug)]
pub struct PendingCheck {
    pub uid: u16,
    pub hotkey: String,
    pub response_time_ms: u64,
    pub was_at_capacity: bool,
}

/// An answer that is over: what is to be remembered of it.
#[derive(Debug)]
pub struct Finish {
    pub uid: u16,
    pub hotkey: String,
    pub success: bool,
    pub response_time_ms: u64,
    pub was_at_capacity: bool,
}

/// The state of a world.
pub struct SimState {
    pub sim_time_ms: u64,
    pub current_block: u64,
    pub dispatch_cooldowns: StrMap<u64>,
    pub miners: UidMap<MinerRuntime>,
    pub uid_hotkeys: UidMap<String>,
    pub events: Vec<SimEvent>,
    pub pending_verifications: VecDeque<PendingCheck>,
    pub verify_in_flight: usize,
    pub verification_concurrency: usize,
    pub sample_verify_ms: u64,
    pub block_time_ms: u64,
    pub dispatch_halt_count: u64,
    pub seq: u64,
}

/// The miners of a world before anything happened: of two with one uid, the later
/// one counts.
pub open spec fn first_miners(s: Seq<MinerProfile>) -> Map<u16, MinerRuntime>
    decreases s.len(),
{
    if s.len() == 0 {
        Map::empty()
    } else {
        first_miners(s.drop_last()).insert(s.last().uid, idle(s.last()))
    }
}

/// The miners after something has happened to them.
pub open spec fn miners_after(m: Map<u16, MinerRuntime>, e: EventKind) -> Map<u16, MinerRuntime> {
    match e {
        EventKind::SetResponseTime { uid, value_ms } => if m.contains_key(uid) {
            m.insert(
                uid,
                MinerRuntime {
                    profile: MinerProfile { response_time_ms: value_ms, ..m[uid].profile },
                    ..m[uid]
                },
            )
        } else {
            m
        },
        EventKind::SetSuccessRate { uid, value } => if m.contains_key(uid) {
            m.insert(
                uid,
                MinerRuntime {
                    profile: MinerProfile { success_rate: value, ..m[uid].profile },
                    ..m[uid]
                },
            )
        } else {
            m
        },
        EventKind::KillMiner { uid } => m.remove(uid),
        EventKind::AddMiner(p) => m.insert(p.uid, idle(p)),
    }
}

/// Which hotkeys are known after something has happened to the miners.
pub open spec fn hotkeys_after(m: Map<u16, String>, e: EventKind) -> Map<u16, String> {
    match e {
        EventKind::AddMiner(p) => m.insert(p.uid, p.hotkey),
        _ => m,
    }
}

/// Which hotkeys are known after everything has happened that was to by a time.
pub open spec fn hotkeys_by(
    m: Map<u16, String>,
    s: Seq<ScheduledEvent>,
    now_secs: u64,
) -> Map<u16, String>
    decreases s.len(),
{
    if s.len() == 0 {
        m
    } else {
        let before = hotkeys_by(m, s.drop_last(), now_secs);
        if s.last().at_secs <= now_secs {
            hotkeys_after(before, s.last().kind)
        } else {
            before
        }
    }
}

/// The miners after everything has happened that was to by a time, in order.
pub open spec fn miners_by(
    m: Map<u16, MinerRuntime>,
    s: Seq<ScheduledEvent>,
    now_secs: u64,
) -> Map<u16, MinerRuntime>
    decreases s.len(),
{
    if s.len() == 0 {
        m
    } else {
        let before = miners_by(m, s.drop_last(), now_secs);
        if s.last().at_secs <= now_secs {
            miners_after(before, s.last().kind)
        } else {
            before
        }
    }
}

/// What is still to happen after a time, in order.
pub open spec fn still_to_come(s: Seq<ScheduledEvent>, now_secs: u64) -> Seq<ScheduledEvent>
    decreases s.len(),
{
    if s.len() == 0 {
        Seq::empty()
    } else {
        let before = still_to_come(s.drop_last(), now_secs);
        if s.last().at_secs <= now_secs {
            before
        } else {
            before.push(s.last())
        }
    }
}

/// Whether the check of an answer was set up.
pub open spec fn is_check_of(e: SimEvent, p: PendingCheck, due: u64, seq: u64) -> bool {
    &&& e.due_at_ms == due
    &&& e.seq == seq
    &&& e.kind matches SimEventKind::VerifyCompletion {
        uid,
        hotkey,
        response_time_ms,
        was_at_capacity,
    } && uid == p.uid && hotkey == p.hotkey && response_time_ms == p.response_time_ms
        && was_at_capacity == p.was_at_capacity
}

/// How many of the answers that wait can be checked at once.
pub open spec fn room_for(waiting: int, in_flight: int, concurrency: int) -> int {
    if in_flight >= concurrency {
        0
    } else if waiting < concurrency - in_flight {
        waiting
    } else {
        concurrency - in_flight
    }
}

/// Whether a miner can be given work: it is there by now, and not told to rest.
pub open spec fn can_work(
    m: MinerRuntime,
    cooldowns: Map<Seq<char>, u64>,
    now_ms: u64,
    block: u64,
) -> bool {
    &&& m.profile.alive_after_secs * 1000 <= now_ms
    &&& cooldowns.contains_key(m.profile.hotkey@) ==> block >= cooldowns[m.profile.hotkey@]
}

/// Whether a rest is over.
pub open spec fn rest_is_over(
    cooldowns: Map<Seq<char>, u64>,
    hotkey: Seq<char>,
    block: u64,
) -> bool {
    cooldowns.contains_key(hotkey) && cooldowns[hotkey] <= block
}

/// Whether a hotkey is among those of a list.
pub open spec fn names_hotkey(r: Seq<(u16, String)>, hotkey: Seq<char>) -> bool {
    exists|i: int| 0 <= i < r.len() && (#[trigger] r[i]).1@ == hotkey
}

/// How many pieces of work a miner may have at once: one, where nothing is known.
pub open spec fn cap_of(caps: Map<u16, usize>, uid: u16) -> usize {
    if caps.contains_key(uid) {
        caps[uid]
    } else {
        1
    }
}

impl SimState {
    /// Whether a miner can be given work and has room for it.
    pub open spec fn has_room(&self, caps: Map<u16, usize>, uid: u16) -> bool {
        &&& self.miners@.contains_key(uid)
        &&& can_work(
            self.miners@[uid],
            self.dispatch_cooldowns@,
            self.sim_time_ms,
            self.current_block,
        )
        &&& self.miners@[uid].active < cap_of(caps, uid)
    }

    /// A world in which nothing has happened.
    pub fn new(scenario: &Scenario) -> (s: SimState)
        ensures
            s.sim_time_ms == 0,
            s.current_block == 0,
            s.dispatch_cooldowns@ == Map::<Seq<char>, u64>::empty(),
            s.miners@ == first_miners(scenario.miners@),
            s.uid_hotkeys@.dom() == s.miners@.dom(),
            forall|u: u16| #[trigger]
                s.miners@.contains_key(u) ==> s.uid_hotkeys@[u] == s.miners@[u].profile.hotkey,
            s.events@.len() == 0,
            s.pending_verifications@.len() == 0,
            s.verify_in_flight == 0,
            s.verification_concurrency == scenario.run.verification_concurrency,
            s.sample_verify_ms == scenario.run.sample_verify_ms,
            s.block_time_ms == scenario.run.block_time_ms,
            s.dispatch_halt_count == 0,
            s.seq == 0,
    {
        let mut miners: UidMap<MinerRuntime> = VecMap::new();
        let mut uid_hotkeys: UidMap<String> = VecMap::new();
        let mut i: usize = 0;
        proof {
            assert(scenario.miners@.take(0).len() == 0);
        }
        while i < scenario.miners.len()
            invariant
                i <= scenario.miners@.len(),
                miners@ == first_miners(scenario.miners@.take(i as int)),
                uid_hotkeys@.dom() == miners@.dom(),
                forall|u: u16| #[trigger]
                    miners@.contains_key(u) ==> uid_hotkeys@[u] == miners@[u].profile.hotkey,
            decreases scenario.miners@.len() - i,
        {
            let p = &scenario.miners[i];
            proof {
                assert(scenario.miners@.take(i + 1).drop_last() =~= scenario.miners@.take(
                    i as int,
                ));
                assert(scenario.miners@.take(i + 1).last() == scenario.miners@[i as int]);
            }
            uid_hotkeys.insert(p.uid, p.hotkey.clone());
            miners.insert(p.uid, idle_miner(p.copy()));
            proof {
                assert(uid_hotkeys@.dom() =~= miners@.dom());
            }
            i += 1;
        }
        proof {
            assert(scenario.miners@.take(i as int) =~= scenario.miners@);
        }
        SimState {
            sim_time_ms: 0,
            current_block: 0,
            dispatch_cooldowns: VecMap::new(),
            miners,
            uid_hotkeys,
            events: Vec::new(),
            pending_verifications: VecDeque::new(),
            verify_in_flight: 0,
            verification_concurrency: scenario.run.verification_concurrency,
            sample_verify_ms: scenario.run.sample_verify_ms,
            block_time_ms: scenario.run.block_time_ms,
            dispatch_halt_count: 0,
            seq: 0,
        }
    }

    /// Sets something up for a time.
    pub fn push_event(&mut self, due_at_ms: u64, kind: SimEventKind)
        requires
            old(self).seq < u64::MAX,
        ensures
            final(self).seq == old(self).seq + 1,
            final(self).events@ == old(self).events@.push(
                SimEvent { due_at_ms, seq: (old(self).seq + 1) as u64, kind },
            ),
            *final(self) == (SimState {
                seq: final(self).seq,
                events: final(self).events,
                ..*old(self)
            }),
    {
        self.seq = self.seq + 1;
        self.events.push(SimEvent { due_at_ms, seq: self.seq, kind });
    }

    /// Takes the first thing out that was to happen by now.
    pub fn pop_due(&mut self) -> (r: Option<SimEvent>)
        ensures
            match r {
                Some(e) => {
                    &&& e.due_at_ms <= old(self).sim_time_ms
                    &&& exists|i: int| #[trigger]
                        is_first(old(self).events@, i) && e == old(self).events@[i]
                            && final(self).events@ == old(self).events@.remove(i)
                },
                None => {
                    &&& final(self).events@ == old(self).events@
                    &&& forall|i: int|
                        0 <= i < old(self).events@.len() ==> (
                        #[trigger] old(self).events@[i]).due_at_ms > old(self).sim_time_ms
                },
            },
            *final(self) == (SimState { events: final(self).events, ..*old(self) }),
    {
        let n: usize = self.events.len();
        if n == 0 {
            return None;
        }
        let mut best: usize = 0;
        let mut i: usize = 1;
        while i < n
            invariant
                n == self.events@.len(),
                best < i <= n,
                *self == *old(self),
                forall|j: int|
                    0 <= j < i ==> !comes_before(#[trigger] self.events@[j], self.events@[best as int]),
            decreases n - i,
        {
            if earlier(&self.events[i], &self.events[best]) {
                proof {
                    assert forall|j: int| 0 <= j < i + 1 implies !comes_before(
                        #[trigger] self.events@[j],
                        self.events@[i as int],
                    ) by {
                        if j < i {
                            assert(!comes_before(self.events@[j], self.events@[best as int]));
                        }
                    }
                }
                best = i;
            }
            i += 1;
        }
        proof {
            assert(is_first(self.events@, best as int));
        }
        if self.events[best].due_at_ms > self.sim_time_ms {
            proof {
                assert forall|j: int| 0 <= j < self.events@.len() implies (
                #[trigger] self.events@[j]).due_at_ms > self.sim_time_ms by {
                    assert(!comes_before(self.events@[j], self.events@[best as int]));
                }
            }
            return None;
        }
        Some(self.events.remove(best))
    }

    fn apply(&mut self, kind: EventKind)
        ensures
            final(self).miners@ == miners_after(old(self).miners@, kind),
            final(self).uid_hotkeys@ == hotkeys_after(old(self).uid_hotkeys@, kind),
            *final(self) == (SimState {
                miners: final(self).miners,
                uid_hotkeys: final(self).uid_hotkeys,
                ..*old(self)
            }),
    {
        match kind {
            EventKind::SetResponseTime { uid, value_ms } => {
                if let Some(m) = self.miners.remove(&uid) {
                    let changed = MinerRuntime {
                        profile: MinerProfile { response_time_ms: value_ms, ..m.profile },
                        active: m.active,
                        dispatched_total: m.dispatched_total,
                        succeeded_total: m.succeeded_total,
                        failed_total: m.failed_total,
                    };
                    self.miners.insert(uid, changed);
                }
                proof {
                    assert(self.miners@ =~= miners_after(old(self).miners@, kind));
                }
            },
            EventKind::SetSuccessRate { uid, value } => {
                if let Some(m) = self.miners.remove(&uid) {
                    let changed = MinerRuntime {
                        profile: MinerProfile { success_rate: value, ..m.profile },
                        active: m.active,
                        dispatched_total: m.dispatched_total,
                        succeeded_total: m.succeeded_total,
                        failed_total: m.failed_total,
                    };
                    self.miners.insert(uid, changed);
                }
                proof {
                    assert(self.miners@ =~= miners_after(old(self).miners@, kind));
                }
            },
            EventKind::KillMiner { uid } => {
                self.miners.remove(&uid);
            },
            EventKind::AddMiner(profile) => {
                let uid: u16 = profile.uid;
                self.uid_hotkeys.insert(uid, profile.hotkey.clone());
                self.miners.insert(uid, idle_miner(profile));
            },
        }
    }

    /// Lets happen what was to by now, in order. What is still to come is handed
    /// back.
    pub fn apply_scheduled_events(&mut self, scheduled: Vec<ScheduledEvent>) -> (r: Vec<
        ScheduledEvent,
    >)
        ensures
            final(self).miners@ == miners_by(
                old(self).miners@,
                scheduled@,
                (old(self).sim_time_ms / 1000) as u64,
            ),
            final(self).uid_hotkeys@ == hotkeys_by(
                old(self).uid_hotkeys@,
                scheduled@,
                (old(self).sim_time_ms / 1000) as u64,
            ),
            r@ == still_to_come(scheduled@, (old(self).sim_time_ms / 1000) as u64),
            *final(self) == (SimState {
                miners: final(self).miners,
                uid_hotkeys: final(self).uid_hotkeys,
                ..*old(self)
            }),
    {
        let now_secs: u64 = self.sim_time_ms / 1000;
        let ghost all = scheduled@;
        let mut rest = scheduled;
        let mut later: Vec<ScheduledEvent> = Vec::new();
        let n: usize = rest.len();
        let mut i: usize = 0;
        proof {
            assert(rest@ =~= all.skip(0));
            assert(all.take(0).len() == 0);
            assert(later@ =~= Seq::empty());
        }
        while i < n
            invariant
                n == all.len(),
                i <= n,
                rest@ == all.skip(i as int),
                now_secs == old(self).sim_time_ms / 1000,
                self.miners@ == miners_by(old(self).miners@, all.take(i as int), now_secs),
                self.uid_hotkeys@ == hotkeys_by(
                    old(self).uid_hotkeys@,
                    all.take(i as int),
                    now_secs,
                ),
                later@ == still_to_come(all.take(i as int), now_secs),
                *self == (SimState {
                    miners: self.miners,
                    uid_hotkeys: self.uid_hotkeys,
                    ..*old(self)
                }),
            decreases n - i,
        {
            let e = rest.remove(0);
            proof {
                assert(all.skip(i as int)[0] == all[i as int]);
                assert(rest@ =~= all.skip(i + 1));
                assert(all.take(i + 1).drop_last() =~= all.take(i as int));
                assert(all.take(i + 1).last() == all[i as int]);
            }
            if e.at_secs > now_secs {
                later.push(e);
            } else {
                self.apply(e.kind);
            }
            i += 1;
        }
        proof {
            assert(all.take(i as int) =~= all);
        }
        later
    }

    fn start_check(&mut self, p: PendingCheck)
        requires
            old(self).seq < u64::MAX,
            old(self).sim_time_ms + old(self).sample_verify_ms <= u64::MAX,
            old(self).verify_in_flight < usize::MAX,
        ensures
            final(self).verify_in_flight == old(self).verify_in_flight + 1,
            final(self).seq == old(self).seq + 1,
            final(self).events@.len() == old(self).events@.len() + 1,
            final(self).events@.drop_last() == old(self).events@,
            is_check_of(
                final(self).events@.last(),
                p,
                (old(self).sim_time_ms + old(self).sample_verify_ms) as u64,
                (old(self).seq + 1) as u64,
            ),
            *final(self) == (SimState {
                seq: final(self).seq,
                events: final(self).events,
                verify_in_flight: final(self).verify_in_flight,
                ..*old(self)
            }),
    {
        self.verify_in_flight = self.verify_in_flight + 1;
        let due: u64 = self.sim_time_ms + self.sample_verify_ms;
        self.push_event(
            due,
            SimEventKind::VerifyCompletion {
                uid: p.uid,
                hotkey: p.hotkey,
                response_time_ms: p.response_time_ms,
                was_at_capacity: p.was_at_capacity,
            },
        );
        proof {
            assert(self.events@.drop_last() =~= old(self).events@);
        }
    }

    /// Takes in that an answer has come. Where it is picked for a check, the check
    /// starts or waits for room; else the answer is over.
    pub fn network_response(
        &mut self,
        uid: u16,
        hotkey: String,
        success: bool,
        response_time_ms: u64,
        was_at_capacity: bool,
        sampled: bool,
    ) -> (r: Option<Finish>)
        requires
            old(self).seq < u64::MAX,
            old(self).sim_time_ms + old(self).sample_verify_ms <= u64::MAX,
        ensures
            final(self).miners@ == (if old(self).miners@.contains_key(uid) {
                old(self).miners@.insert(uid, after_answer(old(self).miners@[uid], success))
            } else {
                old(self).miners@
            }),
            r == (if sampled {
                None
            } else {
                Some(Finish { uid, hotkey, success, response_time_ms, was_at_capacity })
            }),
            ({
                let p = PendingCheck { uid, hotkey, response_time_ms, was_at_capacity };
                let room = old(self).verify_in_flight < old(self).verification_concurrency;
                if !sampled {
                    *final(self) == (SimState { miners: final(self).miners, ..*old(self) })
                } else if room {
                    &&& final(self).verify_in_flight == old(self).verify_in_flight + 1
                    &&& final(self).seq == old(self).seq + 1
                    &&& final(self).events@.len() == old(self).events@.len() + 1
                    &&& final(self).events@.drop_last() == old(self).events@
                    &&& is_check_of(
                        final(self).events@.last(),
                        p,
                        (old(self).sim_time_ms + old(self).sample_verify_ms) as u64,
                        (old(self).seq + 1) as u64,
                    )
                    &&& *final(self) == (SimState {
                        miners: final(self).miners,
                        seq: final(self).seq,
                        events: final(self).events,
                        verify_in_flight: final(self).verify_in_flight,
                        ..*old(self)
                    })
                } else {
                    &&& final(self).pending_verifications@ == old(
                        self,
                    ).pending_verifications@.push(p)
                    &&& *final(self) == (SimState {
                        miners: final(self).miners,
                        pending_verifications: final(self).pending_verifications,
                        ..*old(self)
                    })
                }
            }),
    {
        if let Some(m) = self.miners.remove(&uid) {
            let changed = MinerRuntime {
                profile: m.profile,
                active: m.active.saturating_sub(1),
                dispatched_total: m.dispatched_total,
                succeeded_total: if success {
                    m.succeeded_total.saturating_add(1)
                } else {
                    m.succeeded_total
                },
                failed_total: if success {
                    m.failed_total
                } else {
                    m.failed_total.saturating_add(1)
                },
            };
            self.miners.insert(uid, changed);
            proof {
                assert(self.miners@ =~= old(self).miners@.insert(
                    uid,
                    after_answer(old(self).miners@[uid], success),
                ));
            }
        } else {
            proof {
                assert(self.miners@ =~= old(self).miners@);
            }
        }
        if !sampled {
            return Some(Finish { uid, hotkey, success, response_time_ms, was_at_capacity });
        }
        let p = PendingCheck { uid, hotkey, response_time_ms, was_at_capacity };
        if self.verify_in_flight < self.verification_concurrency {
            self.start_check(p);
        } else {
            self.pending_verifications.push_back(p);
        }
        None
    }

    /// Takes in that a check is over: the answer counts as a success, and answers
    /// that wait are checked as far as there is room.
    pub fn verify_completion(
        &mut self,
        uid: u16,
        hotkey: String,
        response_time_ms: u64,
        was_at_capacity: bool,
    ) -> (r: Finish)
        requires
            old(self).seq + old(self).pending_verifications@.len() < u64::MAX,
            old(self).sim_time_ms + old(self).sample_verify_ms <= u64::MAX,
        ensures
            r == (Finish { uid, hotkey, success: true, response_time_ms, was_at_capacity }),
            ({
                let free = if old(self).verify_in_flight > 0 {
                    old(self).verify_in_flight - 1
                } else {
                    0
                };
                let waiting = old(self).pending_verifications@;
                let n = room_for(
                    waiting.len() as int,
                    free,
                    old(self).verification_concurrency as int,
                );
                &&& final(self).verify_in_flight == free + n
                &&& final(self).pending_verifications@ == waiting.skip(n)
                &&& final(self).seq == old(self).seq + n
                &&& final(self).events@.len() == old(self).events@.len() + n
                &&& final(self).events@.take(old(self).events@.len() as int) == old(self).events@
                &&& forall|i: int|
                    0 <= i < n ==> is_check_of(
                        #[trigger] final(self).events@[old(self).events@.len() + i],
                        waiting[i],
                        (old(self).sim_time_ms + old(self).sample_verify_ms) as u64,
                        (old(self).seq + i + 1) as u64,
                    )
            }),
            *final(self) == (SimState {
                seq: final(self).seq,
                events: final(self).events,
                verify_in_flight: final(self).verify_in_flight,
                pending_verifications: final(self).pending_verifications,
                ..*old(self)
            }),
    {
        let free: usize = self.verify_in_flight.saturating_sub(1);
        self.verify_in_flight = free;
        let ghost waiting = self.pending_verifications@;
        let ghost before = self.events@;
        let ghost mut i: int = 0;
        proof {
            assert(waiting.skip(0) =~= waiting);
            assert(before.take(before.len() as int) =~= before);
        }
        while self.verify_in_flight < self.verification_concurrency
            && self.pending_verifications.len() > 0
            invariant
                0 <= i <= waiting.len(),
                waiting == old(self).pending_verifications@,
                before == old(self).events@,
                old(self).seq + waiting.len() < u64::MAX,
                old(self).sim_time_ms + old(self).sample_verify_ms <= u64::MAX,
                self.verify_in_flight == free + i,
                i > 0 ==> free + i <= old(self).verification_concurrency,
                self.pending_verifications@ == waiting.skip(i),
                self.seq == old(self).seq + i,
                self.events@.len() == before.len() + i,
                self.events@.take(before.len() as int) == before,
                forall|k: int|
                    0 <= k < i ==> is_check_of(
                        #[trigger] self.events@[before.len() + k],
                        waiting[k],
                        (old(self).sim_time_ms + old(self).sample_verify_ms) as u64,
                        (old(self).seq + k + 1) as u64,
                    ),
                *self == (SimState {
                    seq: self.seq,
                    events: self.events,
                    verify_in_flight: self.verify_in_flight,
                    pending_verifications: self.pending_verifications,
                    ..*old(self)
                }),
            decreases waiting.len() - i,
        {
            if let Some(p) = self.pending_verifications.pop_front() {
                let ghost so_far = self.events@;
                proof {
                    assert(waiting.skip(i)[0] == waiting[i]);
                    assert(self.pending_verifications@ =~= waiting.skip(i + 1));
                }
                self.start_check(p);
                proof {
                    assert forall|k: int| 0 <= k < so_far.len() implies self.events@[k]
                        == so_far[k] by {
                        assert(self.events@.drop_last()[k] == so_far[k]);
                    }
                    assert(self.events@.take(before.len() as int) =~= before) by {
                        assert forall|k: int| 0 <= k < before.len() implies self.events@[k]
                            == before[k] by {
                            assert(so_far.take(before.len() as int)[k] == before[k]);
                        }
                    }
                    assert forall|k: int| 0 <= k < i + 1 implies is_check_of(
                        #[trigger] self.events@[before.len() + k],
                        waiting[k],
                        (old(self).sim_time_ms + old(self).sample_verify_ms) as u64,
                        (old(self).seq + k + 1) as u64,
                    ) by {
                        if k < i {
                            assert(self.events@[before.len() + k] == so_far[before.len() + k]);
                        }
                    }
                    i = i + 1;
                }
            }
        }
        Finish { uid, hotkey, success: true, response_time_ms, was_at_capacity }
    }

    /// Whether no work is given out because too many answers wait to be checked.
    /// It is counted how often that is so.
    pub fn dispatch_halted(&mut self) -> (r: bool)
        ensures
            r == (old(self).pending_verifications@.len() >= capped(
                old(self).verification_concurrency * 4,
            )),
            *final(self) == (SimState {
                dispatch_halt_count: if r {
                    one_more(old(self).dispatch_halt_count)
                } else {
                    old(self).dispatch_halt_count
                },
                ..*old(self)
            }),
    {
        let cap: usize = capped_product(self.verification_concurrency, 4);
        if self.pending_verifications.len() >= cap {
            self.dispatch_halt_count = self.dispatch_halt_count.saturating_add(1);
            return true;
        }
        false
    }

    /// Whether a miner can be given work.
    pub fn is_queryable(&self, uid: u16) -> (r: bool)
        ensures
            r == (self.miners@.contains_key(uid) && can_work(
                self.miners@[uid],
                self.dispatch_cooldowns@,
                self.sim_time_ms,
                self.current_block,
            )),
    {
        match self.miners.get(&uid) {
            None => false,
            Some(m) => {
                let there = match m.profile.alive_after_secs.checked_mul(1000) {
                    Some(t) => t <= self.sim_time_ms,
                    None => false,
                };
                let rested = match self.dispatch_cooldowns.get(m.profile.hotkey.as_str()) {
                    Some(until) => self.current_block >= *until,
                    None => true,
                };
                there && rested
            },
        }
    }

    /// The miners that can be given work and have room for it, with how many
    /// pieces each has room for.
    pub fn open_slots(&self, caps: &UidMap<usize>) -> (r: Vec<(u16, usize)>)
        ensures
            forall|i: int|
                0 <= i < r@.len() ==> {
                    &&& self.has_room(caps@, (#[trigger] r@[i]).0)
                    &&& r@[i].1 == cap_of(caps@, r@[i].0) - self.miners@[r@[i].0].active
                },
            forall|i: int, j: int|
                0 <= i < j < r@.len() ==> (#[trigger] r@[i]).0 != (#[trigger] r@[j]).0,
            forall|u: u16| #[trigger]
                self.has_room(caps@, u) ==> exists|i: int|
                    0 <= i < r@.len() && (#[trigger] r@[i]).0 == u,
    {
        let mut r: Vec<(u16, usize)> = Vec::new();
        let n: usize = self.miners.len();
        let ghost e = self.miners.entries();
        let mut i: usize = 0;
        while i < n
            invariant
                e == self.miners.entries(),
                n == e.len(),
                i <= n,
                forall|k: int|
                    0 <= k < e.len() ==> {
                        &&& self.miners@.contains_key((#[trigger] e[k]).0)
                        &&& self.miners@[e[k].0] == e[k].1
                    },
                forall|m: int, k: int|
                    0 <= m < k < e.len() ==> (#[trigger] e[m]).0 != (#[trigger] e[k]).0,
                forall|k: int|
                    0 <= k < r@.len() ==> {
                        &&& self.has_room(caps@, (#[trigger] r@[k]).0)
                        &&& r@[k].1 == cap_of(caps@, r@[k].0) - self.miners@[r@[k].0].active
                        &&& exists|m: int| 0 <= m < i && (#[trigger] e[m]).0 == r@[k].0
                    },
                forall|k: int, j: int|
                    0 <= k < j < r@.len() ==> (#[trigger] r@[k]).0 != (#[trigger] r@[j]).0,
                forall|m: int|
                    0 <= m < i && self.has_room(caps@, (#[trigger] e[m]).0) ==> exists|k: int|
                        0 <= k < r@.len() && (#[trigger] r@[k]).0 == e[m].0,
            decreases n - i,
        {
            let uid: u16 = *self.miners.key_at(i);
            let active: usize = self.miners.value_at(i).active;
            let cap: usize = match caps.get(&uid) {
                Some(c) => *c,
                None => 1,
            };
            let ghost before = r@;
            proof {
                assert(e[i as int].0 == uid);
                assert forall|k: int| 0 <= k < before.len() implies (#[trigger] before[k]).0
                    != uid by {
                    let m = choose|m: int| 0 <= m < i && (#[trigger] e[m]).0 == before[k].0;
                    assert(e[m].0 != e[i as int].0);
                }
            }
            if active < cap && self.is_queryable(uid) {
                r.push((uid, cap - active));
                proof {
                    assert(r@[before.len() as int].0 == uid);
                    assert forall|m: int| 0 <= m < i + 1 && self.has_room(
                        caps@,
                        (#[trigger] e[m]).0,
                    ) implies exists|k: int| 0 <= k < r@.len() && (#[trigger] r@[k]).0
                        == e[m].0 by {
                        if m < i {
                            let k = choose|k: int|
                                0 <= k < before.len() && (#[trigger] before[k]).0 == e[m].0;
                            assert(r@[k].0 == e[m].0);
                        }
                    }
                }
            }
            i += 1;
        }
        proof {
            assert forall|u: u16| #[trigger] self.has_room(caps@, u) implies exists|k: int|
                0 <= k < r@.len() && (#[trigger] r@[k]).0 == u by {
                let m = choose|m: int| 0 <= m < e.len() && (#[trigger] e[m]).0@ == u;
                assert(e[m].0 == u);
            }
        }
        r
    }

    /// Gives a miner a piece of work, if it has room for one. It goes well where
    /// the roll says so and the miner does not have too much at hand.
    pub fn dispatch_one(&mut self, uid: u16, cap: usize, roll: u64) -> (r: bool)
        requires
            old(self).seq < u64::MAX,
            old(self).miners@.contains_key(uid) ==> old(self).sim_time_ms
                + old(self).miners@[uid].profile.response_time_ms <= u64::MAX,
        ensures
            r == (old(self).miners@.contains_key(uid) && old(self).miners@[uid].active < cap),
            !r ==> final(self).miners@ == old(self).miners@ && *final(self) == (SimState {
                miners: final(self).miners,
                ..*old(self)
            }),
            r ==> {
                let m = old(self).miners@[uid];
                &&& final(self).miners@ == old(self).miners@.insert(
                    uid,
                    MinerRuntime {
                        active: (m.active + 1) as usize,
                        dispatched_total: one_more(m.dispatched_total),
                        ..m
                    },
                )
                &&& final(self).seq == old(self).seq + 1
                &&& final(self).events@ == old(self).events@.push(
                    SimEvent {
                        due_at_ms: (old(self).sim_time_ms + m.profile.response_time_ms) as u64,
                        seq: (old(self).seq + 1) as u64,
                        kind: SimEventKind::NetworkResponse {
                            uid,
                            hotkey: m.profile.hotkey,
                            success: roll < m.profile.success_rate && m.active
                                < m.profile.cap_ceiling,
                            response_time_ms: m.profile.response_time_ms,
                            was_at_capacity: m.active + 1 >= cap,
                        },
                    },
                )
                &&& *final(self) == (SimState {
                    miners: final(self).miners,
                    seq: final(self).seq,
                    events: final(self).events,
                    ..*old(self)
                })
            },
    {
        let m = match self.miners.remove(&uid) {
            Some(m) => m,
            None => {
                proof {
                    assert(self.miners@ =~= old(self).miners@);
                }
                return false;
            },
        };
        if m.active >= cap {
            self.miners.insert(uid, m);
            proof {
                assert(self.miners@ =~= old(self).miners@);
            }
            return false;
        }
        let success = roll < m.profile.success_rate && m.active < m.profile.cap_ceiling;
        let rt: u64 = m.profile.response_time_ms;
        let hotkey = m.profile.hotkey.clone();
        let was_at_capacity = m.active + 1 >= cap;
        let changed = MinerRuntime {
            profile: m.profile,
            active: m.active + 1,
            dispatched_total: m.dispatched_total.saturating_add(1),
            succeeded_total: m.succeeded_total,
            failed_total: m.failed_total,
        };
        self.miners.insert(uid, changed);
        proof {
            let was = old(self).miners@[uid];
            assert(self.miners@ =~= old(self).miners@.insert(
                uid,
                MinerRuntime {
                    active: (was.active + 1) as usize,
                    dispatched_total: one_more(was.dispatched_total),
                    ..was
                },
            ));
        }
        let due: u64 = self.sim_time_ms + rt;
        self.push_event(
            due,
            SimEventKind::NetworkResponse {
                uid,
                hotkey,
                success,
                response_time_ms: rt,
                was_at_capacity,
            },
        );
        true
    }

    /// The first miner with a hotkey.
    fn uid_of(&self, hotkey: &str) -> (r: Option<u16>)
        ensures
            match r {
                Some(u) => self.uid_hotkeys@.contains_key(u) && self.uid_hotkeys@[u]@ == hotkey@,
                None => forall|u: u16| #[trigger]
                    self.uid_hotkeys@.contains_key(u) ==> self.uid_hotkeys@[u]@ != hotkey@,
            },
    {
        let n: usize = self.uid_hotkeys.len();
        let ghost e = self.uid_hotkeys.entries();
        let mut i: usize = 0;
        while i < n
            invariant
                e == self.uid_hotkeys.entries(),
                n == e.len(),
                i <= n,
                forall|k: int|
                    0 <= k < e.len() ==> {
                        &&& self.uid_hotkeys@.contains_key((#[trigger] e[k]).0)
                        &&& self.uid_hotkeys@[e[k].0] == e[k].1
                    },
                forall|k: int| 0 <= k < i ==> (#[trigger] e[k]).1@ != hotkey@,
            decreases n - i,
        {
            if str_eq(self.uid_hotkeys.value_at(i).as_str(), hotkey) {
                let u: u16 = *self.uid_hotkeys.key_at(i);
                proof {
                    assert(e[i as int].0 == u);
                }
                return Some(u);
            }
            i += 1;
        }
        proof {
            assert forall|u: u16| #[trigger] self.uid_hotkeys@.contains_key(u) implies self.uid_hotkeys@[u]@
                != hotkey@ by {
                let k = choose|k: int| 0 <= k < e.len() && (#[trigger] e[k]).0@ == u;
                assert(e[k].1@ != hotkey@);
            }
        }
        None
    }

    /// Ends the rests that are over. The result is the miners whose rest is over,
    /// with their hotkeys, as far as they are known.
    pub fn expire_cooldowns(&mut self) -> (r: Vec<(u16, String)>)
        ensures
            final(self).dispatch_cooldowns@ == old(self).dispatch_cooldowns@.restrict(
                Set::new(
                    |k: Seq<char>|
                        old(self).dispatch_cooldowns@.contains_key(k) && old(
                            self,
                        ).dispatch_cooldowns@[k] > old(self).current_block,
                ),
            ),
            forall|i: int|
                0 <= i < r@.len() ==> {
                    let (u, h) = #[trigger] r@[i];
                    &&& old(self).uid_hotkeys@.contains_key(u)
                    &&& old(self).uid_hotkeys@[u]@ == h@
                    &&& old(self).dispatch_cooldowns@.contains_key(h@)
                    &&& old(self).dispatch_cooldowns@[h@] <= old(self).current_block
                },
            forall|i: int, j: int|
                0 <= i < j < r@.len() ==> (#[trigger] r@[i]).1@ != (#[trigger] r@[j]).1@,
            forall|u: u16| #[trigger]
                old(self).uid_hotkeys@.contains_key(u) && rest_is_over(
                    old(self).dispatch_cooldowns@,
                    old(self).uid_hotkeys@[u]@,
                    old(self).current_block,
                ) ==> names_hotkey(r@, old(self).uid_hotkeys@[u]@),
            *final(self) == (SimState {
                dispatch_cooldowns: final(self).dispatch_cooldowns,
                ..*old(self)
            }),
    {
        let ghost all = self.dispatch_cooldowns@;
        let ghost block = self.current_block;
        let mut kept: StrMap<u64> = VecMap::new();
        let mut r: Vec<(u16, String)> = Vec::new();
        let n: usize = self.dispatch_cooldowns.len();
        let ghost e = self.dispatch_cooldowns.entries();
        let mut i: usize = 0;
        while i < n
            invariant
                *self == *old(self),
                all == self.dispatch_cooldowns@,
                block == self.current_block,
                e == self.dispatch_cooldowns.entries(),
                n == e.len(),
                i <= n,
                forall|k: int|
                    0 <= k < e.len() ==> {
                        &&& all.contains_key((#[trigger] e[k]).0@)
                        &&& all[e[k].0@] == e[k].1
                    },
                forall|t: Seq<char>| #[trigger]
                    kept@.contains_key(t) ==> all.contains_key(t) && all[t] > block && kept@[t]
                        == all[t],
                forall|k: int|
                    0 <= k < i && (#[trigger] e[k]).1 > block ==> kept@.contains_key(e[k].0@),
                forall|k: int|
                    0 <= k < r@.len() ==> {
                        let (u, h) = #[trigger] r@[k];
                        &&& self.uid_hotkeys@.contains_key(u)
                        &&& self.uid_hotkeys@[u]@ == h@
                        &&& all.contains_key(h@)
                        &&& all[h@] <= block
                        &&& exists|m: int| 0 <= m < i && (#[trigger] e[m]).0@ == h@
                    },
                forall|m: int, k: int|
                    0 <= m < k < e.len() ==> (#[trigger] e[m]).0@ != (#[trigger] e[k]).0@,
                forall|m: int, k: int|
                    0 <= m < k < r@.len() ==> (#[trigger] r@[m]).1@ != (#[trigger] r@[k]).1@,
                forall|u: u16, k: int|
                    0 <= k < i && #[trigger] self.uid_hotkeys@.contains_key(u)
                        && self.uid_hotkeys@[u]@ == (#[trigger] e[k]).0@ && e[k].1 <= block
                        ==> names_hotkey(r@, e[k].0@),
            decreases n - i,
        {
            let until: u64 = *self.dispatch_cooldowns.value_at(i);
            let hotkey = self.dispatch_cooldowns.key_at(i).clone();
            proof {
                assert(e[i as int].0@ == hotkey@);
            }
            if self.current_block >= until {
                let ghost before = r@;
                if let Some(u) = self.uid_of(hotkey.as_str()) {
                    proof {
                        assert forall|k: int| 0 <= k < before.len() implies (
                        #[trigger] before[k]).1@ != hotkey@ by {
                            let m = choose|m: int|
                                0 <= m < i && (#[trigger] e[m]).0@ == before[k].1@;
                            assert(e[m].0@ != e[i as int].0@);
                        }
                    }
                    r.push((u, hotkey));
                    proof {
                        assert(r@[before.len() as int].1@ == hotkey@);
                        assert forall|u: u16, k: int|
                            0 <= k < i + 1 && #[trigger] self.uid_hotkeys@.contains_key(u)
                                && self.uid_hotkeys@[u]@ == (#[trigger] e[k]).0@ && e[k].1
                                <= block implies names_hotkey(r@, e[k].0@) by {
                            if k < i {
                                let m = choose|m: int|
                                    0 <= m < before.len() && (#[trigger] before[m]).1@ == e[k].0@;
                                assert(r@[m].1@ == e[k].0@);
                            }
                        }
                    }
                }
            } else {
                kept.insert(hotkey, until);
            }
            i += 1;
        }
        proof {
            let want = all.restrict(
                Set::new(|k: Seq<char>| all.contains_key(k) && all[k] > block),
            );
            assert forall|t: Seq<char>| #[trigger] want.contains_key(t) implies kept@.contains_key(
                t,
            ) by {
                let k = choose|k: int| 0 <= k < e.len() && (#[trigger] e[k]).0@ == t;
                assert(e[k].1 > block);
            }
            assert(kept@ =~= want);
            assert forall|u: u16| #[trigger]
                self.uid_hotkeys@.contains_key(u) && rest_is_over(
                    all,
                    self.uid_hotkeys@[u]@,
                    block,
                ) implies names_hotkey(r@, self.uid_hotkeys@[u]@) by {
                let k = choose|k: int|
                    0 <= k < e.len() && (#[trigger] e[k]).0@ == self.uid_hotkeys@[u]@;
                assert(e[k].1 <= block);
            }
        }
        self.dispatch_cooldowns = kept;
        r
    }

    /// Moves the clock on.
    pub fn advance(&mut self, tick_ms: u64)
        requires
            old(self).sim_time_ms + tick_ms <= u64::MAX,
        ensures
            final(self).sim_time_ms == old(self).sim_time_ms + tick_ms,
            final(self).current_block == (old(self).sim_time_ms + tick_ms) / (
            if old(self).block_time_ms > 1 {
                old(self).block_time_ms as int
            } else {
                1
            }),
            *final(self) == (SimState {
                sim_time_ms: final(self).sim_time_ms,
                current_block: final(self).current_block,
                ..*old(self)
            }),
    {
        self.sim_time_ms = self.sim_time_ms + tick_ms;
        let len: u64 = if self.block_time_ms > 1 {
            self.block_time_ms
        } else {
            1
        };
        self.current_block = self.sim_time_ms / len;
    }
}

/// What happens at one time.
pub open spec fn at_time(t: u64) -> spec_fn(ScheduledEvent) -> bool {
    |e: ScheduledEvent| e.at_secs == t
}

/// Whether things are in the order of their times.
pub open spec fn in_time_order(s: Seq<ScheduledEvent>) -> bool {
    forall|i: int, j: int|
        0 <= i < j < s.len() ==> (#[trigger] s[i]).at_secs <= (#[trigger] s[j]).at_secs
}

/// Things that happen at other times are none of those that happen at one.
proof fn lemma_none_at(s: Seq<ScheduledEvent>, t: u64)
    requires
        forall|i: int| 0 <= i < s.len() ==> (#[trigger] s[i]).at_secs != t,
    ensures
        s.filter(at_time(t)) =~= Seq::empty(),
    decreases s.len(),
{
    reveal(Seq::filter);
    if s.len() > 0 {
        assert forall|i: int| 0 <= i < s.drop_last().len() implies (
        #[trigger] s.drop_last()[i]).at_secs != t by {
            assert(s.drop_last()[i] == s[i]);
        }
        lemma_none_at(s.drop_last(), t);
        assert(s.last() == s[s.len() - 1]);
    }
}

/// One thing put in behind all that happen no later stands last of its time.
proof fn lemma_put_in(s: Seq<ScheduledEvent>, p: int, e: ScheduledEvent, t: u64)
    requires
        0 <= p <= s.len(),
        forall|i: int| p <= i < s.len() ==> (#[trigger] s[i]).at_secs > e.at_secs,
    ensures
        s.insert(p, e).filter(at_time(t)) == s.push(e).filter(at_time(t)),
{
    let a = s.take(p);
    let b = s.skip(p);
    let f = at_time(t);
    assert(s.insert(p, e) =~= (a + seq![e]) + b);
    assert(s.push(e) =~= (a + b) + seq![e]);
    Seq::filter_distributes_over_add(a + seq![e], b, f);
    Seq::filter_distributes_over_add(a, seq![e], f);
    Seq::filter_distributes_over_add(a + b, seq![e], f);
    Seq::filter_distributes_over_add(a, b, f);
    let x = a.filter(f);
    let y = b.filter(f);
    let z = seq![e].filter(f);
    if t == e.at_secs {
        lemma_none_at(b, t);
        assert((x + z) + y =~= (x + y) + z);
    } else {
        lemma_none_at(seq![e], t);
        assert((x + z) + y =~= (x + y) + z);
    }
}

/// Puts things in the order of their times; those of one time keep their order.
pub fn order_events(events: Vec<ScheduledEvent>) -> (r: Vec<ScheduledEvent>)
    ensures
        in_time_order(r@),
        forall|t: u64| #[trigger] r@.filter(at_time(t)) == events@.filter(at_time(t)),
        r@.len() == events@.len(),
{
    let ghost all = events@;
    let mut rest = events;
    let mut r: Vec<ScheduledEvent> = Vec::new();
    let n: usize = rest.len();
    let mut i: usize = 0;
    proof {
        assert(rest@ =~= all.skip(0));
        assert(r@ =~= all.take(0));
    }
    while i < n
        invariant
            n == all.len(),
            i <= n,
            rest@ == all.skip(i as int),
            r@.len() == i,
            in_time_order(r@),
            forall|t: u64| #[trigger]
                r@.filter(at_time(t)) == all.take(i as int).filter(at_time(t)),
        decreases n - i,
    {
        let e = rest.remove(0);
        let ghost before = r@;
        proof {
            assert(all.skip(i as int)[0] == all[i as int]);
            assert(rest@ =~= all.skip(i + 1));
        }
        let mut p: usize = i;
        while p > 0 && r[p - 1].at_secs > e.at_secs
            invariant
                p <= i,
                r@ == before,
                r@.len() == i,
                forall|k: int| p <= k < i ==> (#[trigger] before[k]).at_secs > e.at_secs,
            decreases p,
        {
            p -= 1;
        }
        let ghost item = e;
        r.insert(p, e);
        proof {
            assert(r@ == before.insert(p as int, item));
            assert forall|t: u64| #[trigger] r@.filter(at_time(t)) == all.take(i + 1).filter(
                at_time(t),
            ) by {
                lemma_put_in(before, p as int, item, t);
                let f = at_time(t);
                Seq::filter_distributes_over_add(before, seq![item], f);
                Seq::filter_distributes_over_add(all.take(i as int), seq![item], f);
                assert(before.push(item) =~= before + seq![item]);
                assert(all.take(i + 1) =~= all.take(i as int) + seq![item]);
                assert(before.filter(f) == all.take(i as int).filter(f));
            }
            assert forall|k: int, j: int| 0 <= k < j < r@.len() implies (#[trigger] r@[k]).at_secs
                <= (#[trigger] r@[j]).at_secs by {
                let bk = if k < p {
                    k
                } else {
                    k - 1
                };
                let bj = if j < p {
                    j
                } else {
                    j - 1
                };
                if k != p && j != p {
                    assert(before[bk].at_secs <= before[bj].at_secs);
                } else if k == p {
                    assert(before[bj].at_secs > item.at_secs);
                } else if p > 0 {
                    assert(before[p - 1].at_secs <= item.at_secs);
                    if k < p - 1 {
                        assert(before[k].at_secs <= before[p - 1].at_secs);
                    }
                }
            }
        }
        i += 1;
    }
    proof {
        assert(all.take(i as int) =~= all);
    }
    r
}

/// When the made-up world is looked after, and when its state is written down.
#[derive(Debug)]
pub struct RunClock {
    pub next_health_ms: u64,
    pub next_maintenance_ms: u64,
}

/// How often the made-up world is looked after.
pub const MAINTENANCE_EVERY_MS: u64 = 60_000;

impl RunClock {
    /// The state is written down at once, and the world looked after in a while.
    pub fn new() -> (c: RunClock)
        ensures
            c.next_health_ms == 0,
            c.next_maintenance_ms == MAINTENANCE_EVERY_MS,
    {
        RunClock { next_health_ms: 0, next_maintenance_ms: MAINTENANCE_EVERY_MS }
    }

    /// Whether the world is to be looked after now.
    pub fn maintenance_due(&mut self, now_ms: u64) -> (r: bool)
        requires
            old(self).next_maintenance_ms + MAINTENANCE_EVERY_MS <= u64::MAX,
        ensures
            r == (now_ms >= old(self).next_maintenance_ms),
            *final(self) == (RunClock {
                next_maintenance_ms: if r {
                    (old(self).next_maintenance_ms + MAINTENANCE_EVERY_MS) as u64
                } else {
                    old(self).next_maintenance_ms
                },
                ..*old(self)
            }),
    {
        if now_ms >= self.next_maintenance_ms {
            self.next_maintenance_ms = self.next_maintenance_ms + MAINTENANCE_EVERY_MS;
            true
        } else {
            false
        }
    }

    /// Whether the state is to be written down now.
    pub fn health_due(&mut self, now_ms: u64, health_every_ms: u64) -> (r: bool)
        requires
            old(self).next_health_ms + health_every_ms <= u64::MAX,
        ensures
            r == (now_ms >= old(self).next_health_ms),
            *final(self) == (RunClock {
                next_health_ms: if r {
                    (old(self).next_health_ms + health_every_ms) as u64
                } else {
                    old(self).next_health_ms
                },
                ..*old(self)
            }),
    {
        if now_ms >= self.next_health_ms {
            self.next_health_ms = self.next_health_ms + health_every_ms;
            true
        } else {
            false
        }
    }
}

/// The way the worlds that come with the program are run.
pub open spec fn is_baseline(run: RunConfig, suffix: Seq<char>) -> bool {
    &&& run.duration_secs == 1800
    &&& run.tick_interval_ms == 50
    &&& run.verification_concurrency == 128
    &&& run.sample_rate == 0x3fa4_7ae1_47ae_147b
    &&& run.sample_verify_ms == 200
    &&& run.output_path@ == "/tmp/sim_"@ + suffix + ".tsv"@
    &&& run.health_every_secs == 15
    &&& run.rng_seed == 42
    &&& run.block_time_ms == 12_000
}

fn baseline_run(output_suffix: &str) -> (r: RunConfig)
    ensures
        is_baseline(r, output_suffix@),
{
    let mut path = String::from_str("/tmp/sim_");
    path.append(output_suffix);
    path.append(".tsv");
    RunConfig {
        duration_secs: 1800,
        tick_interval_ms: 50,
        verification_concurrency: 128,
        sample_rate: 0x3fa4_7ae1_47ae_147b,
        sample_verify_ms: 200,
        output_path: path,
        health_every_secs: 15,
        rng_seed: 42,
        block_time_ms: 12_000,
    }
}

/// Whether a made-up miner is there from the start with these figures.
pub open spec fn is_miner(
    m: MinerProfile,
    uid: int,
    hotkey: Seq<char>,
    response_time_ms: u64,
    success_rate: u64,
    cap_ceiling: usize,
    alive_after_secs: u64,
) -> bool {
    &&& m.uid == uid
    &&& m.hotkey@ == hotkey
    &&& m.response_time_ms == response_time_ms
    &&& m.success_rate == success_rate
    &&& m.cap_ceiling == cap_ceiling
    &&& m.alive_after_secs == alive_after_secs
}

fn miner(
    uid: u16,
    hotkey: &str,
    response_time_ms: u64,
    success_rate: u64,
    cap_ceiling: usize,
    alive_after_secs: u64,
) -> (m: MinerProfile)
    ensures
        is_miner(
            m,
            uid as int,
            hotkey@,
            response_time_ms,
            success_rate,
            cap_ceiling,
            alive_after_secs,
        ),
{
    MinerProfile {
        uid,
        hotkey: String::from_str(hotkey),
        response_time_ms,
        success_rate,
        cap_ceiling,
        alive_after_secs,
    }
}

/// A world in which a fast miner comes in beside two that were there before.
pub open spec fn is_discovery(s: Scenario) -> bool {
    &&& is_baseline(s.run, "new_miner"@)
    &&& s.miners@.len() == 2
    &&& is_miner(s.miners@[0], 1, "hk_incumbent_a"@, 500, 0x3fee_6666_6666_6666, 100, 0)
    &&& is_miner(s.miners@[1], 2, "hk_incumbent_b"@, 800, 0x3fed_70a3_d70a_3d71, 80, 0)
    &&& s.events@.len() == 1
    &&& s.events@[0].at_secs == 600
    &&& s.events@[0].kind matches EventKind::AddMiner(p) && is_miner(
        p,
        99,
        "hk_new_fast"@,
        100,
        0x3fef_ae14_7ae1_47ae,
        500,
        600,
    )
}

fn scenario_new_miner_discovery() -> (s: Scenario)
    ensures
        is_discovery(s),
{
    let mut miners: Vec<MinerProfile> = Vec::new();
    miners.push(miner(1, "hk_incumbent_a", 500, 0x3fee_6666_6666_6666, 100, 0));
    miners.push(miner(2, "hk_incumbent_b", 800, 0x3fed_70a3_d70a_3d71, 80, 0));
    let mut events: Vec<ScheduledEvent> = Vec::new();
    let newcomer = miner(99, "hk_new_fast", 100, 0x3fef_ae14_7ae1_47ae, 500, 600);
    events.push(ScheduledEvent { at_secs: 600, kind: EventKind::AddMiner(newcomer) });
    Scenario { run: baseline_run("new_miner"), miners, events }
}

/// A world in which one of two miners becomes slow and unreliable.
pub open spec fn is_decay(s: Scenario) -> bool {
    &&& is_baseline(s.run, "old_miner_decay"@)
    &&& s.miners@.len() == 2
    &&& is_miner(s.miners@[0], 10, "hk_steady"@, 400, 0x3fef_0a3d_70a3_d70a, 200, 0)
    &&& is_miner(s.miners@[1], 20, "hk_degrading"@, 300, 0x3fef_ae14_7ae1_47ae, 1000, 0)
    &&& s.events@.len() == 2
    &&& s.events@[0].at_secs == 600
    &&& s.events@[0].kind == (EventKind::SetResponseTime { uid: 20, value_ms: 30_000 })
    &&& s.events@[1].at_secs == 600
    &&& s.events@[1].kind == (EventKind::SetSuccessRate { uid: 20, value: 0x3fd9_9999_9999_999a })
}

fn scenario_old_miner_decay() -> (s: Scenario)
    ensures
        is_decay(s),
{
    let mut miners: Vec<MinerProfile> = Vec::new();
    miners.push(miner(10, "hk_steady", 400, 0x3fef_0a3d_70a3_d70a, 200, 0));
    miners.push(miner(20, "hk_degrading", 300, 0x3fef_ae14_7ae1_47ae, 1000, 0));
    let mut events: Vec<ScheduledEvent> = Vec::new();
    events.push(
        ScheduledEvent {
            at_secs: 600,
            kind: EventKind::SetResponseTime { uid: 20, value_ms: 30_000 },
        },
    );
    events.push(
        ScheduledEvent {
            at_secs: 600,
            kind: EventKind::SetSuccessRate { uid: 20, value: 0x3fd9_9999_9999_999a },
        },
    );
    Scenario { run: baseline_run("old_miner_decay"), miners, events }
}

/// A number in at least three digits.
pub open spec fn three_digits(n: nat) -> Seq<char> {
    (if n < 10 {
        "00"@
    } else if n < 100 {
        "0"@
    } else {
        ""@
    }) + decimal_text(n)
}

/// A world with many equal miners.
pub open spec fn is_overload(s: Scenario) -> bool {
    &&& is_baseline(s.run, "overload"@)
    &&& s.miners@.len() == 200
    &&& forall|i: int|
        0 <= i < 200 ==> is_miner(
            #[trigger] s.miners@[i],
            i,
            "hk_"@ + three_digits(i as nat),
            50,
            0x3fef_5c28_f5c2_8f5c,
            5000,
            0,
        )
    &&& s.events@.len() == 0
}

fn scenario_overload() -> (s: Scenario)
    ensures
        is_overload(s),
{
    let mut miners: Vec<MinerProfile> = Vec::new();
    let mut i: u16 = 0;
    while i < 200
        invariant
            i <= 200,
            miners@.len() == i,
            forall|k: int|
                0 <= k < i ==> is_miner(
                    #[trigger] miners@[k],
                    k,
                    "hk_"@ + three_digits(k as nat),
                    50,
                    0x3fef_5c28_f5c2_8f5c,
                    5000,
                    0,
                ),
        decreases 200 - i,
    {
        let mut hotkey = String::from_str("hk_");
        let zeros = if i < 10 {
            "00"
        } else if i < 100 {
            "0"
        } else {
            ""
        };
        hotkey.append(zeros);
        let digits = decimal(i as u64);
        hotkey.append(digits.as_str());
        proof {
            assert(hotkey@ =~= "hk_"@ + three_digits(i as nat));
        }
        miners.push(miner(i, hotkey.as_str(), 50, 0x3fef_5c28_f5c2_8f5c, 5000, 0));
        i += 1;
    }
    Scenario { run: baseline_run("overload"), miners, events: Vec::new() }
}

/// The world of a name, among those that come with the program.
pub fn builtin_scenario(name: &str) -> (r: Option<Scenario>)
    ensures
        r is Some <==> name@ == "new-miner"@ || name@ == "old-miner-decay"@ || name@
            == "overload"@,
        name@ == "new-miner"@ ==> is_discovery(r->0),
        name@ == "old-miner-decay"@ ==> is_decay(r->0),
        name@ == "overload"@ ==> is_overload(r->0),
{
    proof {
        reveal_strlit("new-miner");
        reveal_strlit("old-miner-decay");
        reveal_strlit("overload");
    }
    if str_eq(name, "new-miner") {
        Some(scenario_new_miner_discovery())
    } else if str_eq(name, "old-miner-decay") {
        Some(scenario_old_miner_decay())
    } else if str_eq(name, "overload") {
        Some(scenario_overload())
    } else {
        None
    }
}

/// Things come out in the order of their times, and those of one time in the
/// order in which they were set up: what comes out first comes before all that
/// is left.
pub proof fn things_happen_in_order(events: Seq<SimEvent>, i: int, j: int)
    requires
        is_first(events, i),
        0 <= j < events.len(),
        i != j,
        events[i].seq != events[j].seq,
    ensures
        comes_before(events[i], events[j]),
{
    assert(!comes_before(events[j], events[i]));
}

} // verus!
