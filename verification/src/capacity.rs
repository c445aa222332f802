//! How much work a miner is given at a time, and how that changes.

use std::collections::VecDeque;
use vstd::prelude::*;
use vstd::string::*;

use crate::keyed::{UidMap, VecMap};
use crate::rsv::minus;
use crate::text::str_eq;
use crate::timed::{keep_newest_listed, newest};

verus! {

/// How many changes are remembered until they are reported.
pub const MAX_BUFFERED_CAP_EVENTS: usize = 4096;

/// The largest capacity that is taken over from an earlier session.
pub const RESTORED_CAP_MAX: usize = 32;

/// Which way a capacity changed.
#[derive(Clone, Copy, Debug, PartialEq, Eq, Structural)]
pub enum CapDirection {
    Ramp,
    Backoff,
    Evict,
    Rehab,
}

/// The word for a direction.
pub open spec fn direction_word(d: CapDirection) -> Seq<char> {
    match d {
        CapDirection::Ramp => "ramp"@,
        CapDirection::Backoff => "backoff"@,
        CapDirection::Evict => "evict"@,
        CapDirection::Rehab => "rehab"@,
    }
}

/// The word for a direction.
pub fn cap_dir_to_str(d: CapDirection) -> (r: &'static str)
    ensures
        r@ == direction_word(d),
{
    match d {
        CapDirection::Ramp => "ramp",
        CapDirection::Backoff => "backoff",
        CapDirection::Evict => "evict",
        CapDirection::Rehab => "rehab",
    }
}

/// A change of a capacity. The rate that brought it about is kept as its bits.
#[derive(Debug)]
pub struct CapEvent {
    pub uid: u16,
    pub hotkey: String,
    pub direction: CapDirection,
    pub cap_from: usize,
    pub cap_to: usize,
    pub success_rate: u64,
    pub at: u64,
}

/// A change of a capacity.
pub struct CapEventV {
    pub uid: u16,
    pub hotkey: Seq<char>,
    pub direction: CapDirection,
    pub cap_from: usize,
    pub cap_to: usize,
    pub success_rate: u64,
    pub at: u64,
}

impl View for CapEvent {
    type V = CapEventV;

    open spec fn view(&self) -> CapEventV {
        CapEventV {
            uid: self.uid,
            hotkey: self.hotkey@,
            direction: self.direction,
            cap_from: self.cap_from,
            cap_to: self.cap_to,
            success_rate: self.success_rate,
            at: self.at,
        }
    }
}

/// The changes that a list of them stands for.
pub open spec fn events_view(s: Seq<CapEvent>) -> Seq<CapEventV> {
    s.map_values(|e: CapEvent| e@)
}

/// The miners and their hotkeys that a list of them stands for.
pub open spec fn evictions_view(s: Seq<(u16, String)>) -> Seq<(u16, Seq<char>)> {
    s.map_values(|e: (u16, String)| (e.0, e.1@))
}

/// The capacities of the miners.
pub struct CapacityBook {
    pub adaptive_caps: UidMap<usize>,
    pub at_cap_results: UidMap<VecDeque<bool>>,
    pub cap_events: Vec<CapEvent>,
    pub pending_evictions: Vec<(u16, String)>,
    pub at_cap_last_touched: UidMap<u64>,
    pub cap_last_adjusted: UidMap<u64>,
}

/// The capacities of the miners, with what is remembered of them.
#[verifier::ext_equal]
pub struct CapsV {
    pub caps: Map<u16, usize>,
    pub results: Map<u16, Seq<bool>>,
    pub events: Seq<CapEventV>,
    pub evictions: Seq<(u16, Seq<char>)>,
    pub touched: Map<u16, u64>,
    pub adjusted: Map<u16, u64>,
}

impl View for CapacityBook {
    type V = CapsV;

    open spec fn view(&self) -> CapsV {
        CapsV {
            caps: self.adaptive_caps@,
            results: self.at_cap_results@.map_values(|q: VecDeque<bool>| q@),
            events: events_view(self.cap_events@),
            evictions: evictions_view(self.pending_evictions@),
            touched: self.at_cap_last_touched@,
            adjusted: self.cap_last_adjusted@,
        }
    }
}

/// The hotkey of a miner, empty where it is not known.
pub open spec fn hotkey_or_empty(hotkeys: Map<u16, String>, uid: u16) -> Seq<char> {
    if hotkeys.contains_key(uid) {
        hotkeys[uid]@
    } else {
        Seq::empty()
    }
}

/// Looks a miner's hotkey up.
pub fn hotkey_of(hotkeys: &UidMap<String>, uid: u16) -> (r: String)
    ensures
        r@ == hotkey_or_empty(hotkeys@, uid),
{
    match hotkeys.get(&uid) {
        Some(h) => h.clone(),
        None => String::new(),
    }
}

/// The changes that are not remembered under a hotkey.
pub open spec fn not_of_hotkey(hotkey: Seq<char>) -> spec_fn(CapEventV) -> bool {
    |e: CapEventV| e.hotkey != hotkey
}

/// The entries that are not those of a miner.
pub open spec fn not_of_uid(uid: u16) -> spec_fn((u16, Seq<char>)) -> bool {
    |e: (u16, Seq<char>)| e.0 != uid
}

impl CapsV {
    /// No miner has a capacity yet.
    pub open spec fn empty() -> CapsV {
        CapsV {
            caps: Map::empty(),
            results: Map::empty(),
            events: Seq::empty(),
            evictions: Seq::empty(),
            touched: Map::empty(),
            adjusted: Map::empty(),
        }
    }

    /// One more change is remembered; the oldest are forgotten.
    pub open spec fn noted(self, e: CapEventV) -> CapsV {
        CapsV {
            events: newest(self.events.push(e), MAX_BUFFERED_CAP_EVENTS as nat),
            ..self
        }
    }

    /// The results at capacity of a miner are forgotten.
    pub open spec fn results_cleared(self, uid: u16) -> CapsV {
        CapsV {
            results: if self.results.contains_key(uid) {
                self.results.insert(uid, Seq::empty())
            } else {
                self.results
            },
            ..self
        }
    }

    /// The capacity of a miner; one where nothing is known.
    pub open spec fn cap_or_one(self, uid: u16) -> usize {
        if self.caps.contains_key(uid) {
            self.caps[uid]
        } else {
            1
        }
    }

    /// A capacity has been lowered.
    pub open spec fn lowered(self, uid: u16, hotkey: Seq<char>, to: usize, at: u64) -> CapsV {
        CapsV { caps: self.caps.insert(uid, to), ..self }.results_cleared(uid).noted(
            CapEventV {
                uid,
                hotkey,
                direction: CapDirection::Backoff,
                cap_from: self.caps[uid],
                cap_to: to,
                success_rate: 0,
                at,
            },
        )
    }

    /// Some capacities have been lowered, one after the other: those whose target
    /// is below what the miner has.
    pub open spec fn all_lowered(
        self,
        targets: Seq<(u16, usize)>,
        hotkeys: Map<u16, String>,
        at: u64,
    ) -> CapsV
        decreases targets.len(),
    {
        if targets.len() == 0 {
            self
        } else {
            let before = self.all_lowered(targets.drop_last(), hotkeys, at);
            let (uid, to) = targets.last();
            if to < self.caps[uid] {
                before.lowered(uid, hotkey_or_empty(hotkeys, uid), to, at)
            } else {
                before
            }
        }
    }

    /// A miner has been given another chance.
    pub open spec fn rehabilitated(self, uid: u16, hotkey: Seq<char>, at: u64) -> CapsV {
        let touched = CapsV { touched: self.touched.insert(uid, at), ..self };
        if self.caps.contains_key(uid) && self.caps[uid] == 0 {
            CapsV { caps: self.caps.insert(uid, 1), ..touched }.results_cleared(uid).noted(
                CapEventV {
                    uid,
                    hotkey,
                    direction: CapDirection::Rehab,
                    cap_from: 0,
                    cap_to: 1,
                    success_rate: 0,
                    at,
                },
            )
        } else {
            touched
        }
    }

    /// Nothing is known of a miner any longer.
    pub open spec fn reset(self, uid: u16, hotkey: Seq<char>) -> CapsV {
        CapsV {
            caps: self.caps.remove(uid),
            results: self.results.remove(uid),
            events: self.events.filter(not_of_hotkey(hotkey)),
            evictions: self.evictions.filter(not_of_uid(uid)),
            touched: self.touched.remove(uid),
            adjusted: self.adjusted.remove(uid),
        }
    }
}

/// How many targets are below what the miners have.
pub open spec fn lower_count(caps: Map<u16, usize>, targets: Seq<(u16, usize)>) -> nat
    decreases targets.len(),
{
    if targets.len() == 0 {
        0
    } else {
        lower_count(caps, targets.drop_last()) + if targets.last().1 < caps[targets.last().0] {
            1nat
        } else {
            0
        }
    }
}

/// What is left of a capacity that is cut back: at least one is taken off, and at
/// least one is left.
pub open spec fn backed_off(cap: usize, decrement: usize) -> usize {
    let off: int = if decrement < 1 {
        1
    } else {
        decrement as int
    };
    if cap <= 1 {
        cap
    } else if cap - off < 1 {
        1
    } else {
        (cap - off) as usize
    }
}

/// A capacity on its way to a target: up by at most a step, or down by at most a
/// step where it is well above.
pub open spec fn adjusted_cap(from: usize, step: usize, target: usize, well_above: bool) -> int {
    if target > from {
        if from + step < target {
            from + step
        } else {
            target as int
        }
    } else if well_above {
        let down = if from >= step {
            from - step
        } else {
            0
        };
        let held = if down < target {
            target as int
        } else {
            down
        };
        if held < 1 {
            1
        } else {
            held
        }
    } else {
        from as int
    }
}

/// Whether two lists of capacities are for the same miners, in one order.
pub open spec fn targets_for(entries: Seq<(u16, usize)>, targets: Seq<(u16, usize)>) -> bool {
    &&& entries.len() == targets.len()
    &&& forall|i: int| 0 <= i < targets.len() ==> (#[trigger] targets[i]).0 == entries[i].0
}

proof fn lemma_lowered_caps(
    v: CapsV,
    targets: Seq<(u16, usize)>,
    hotkeys: Map<u16, String>,
    at: u64,
    uid: u16,
)
    requires
        forall|i: int| 0 <= i < targets.len() ==> (#[trigger] targets[i]).0 != uid,
    ensures
        v.all_lowered(targets, hotkeys, at).caps.contains_key(uid) == v.caps.contains_key(uid),
        v.caps.contains_key(uid) ==> v.all_lowered(targets, hotkeys, at).caps[uid] == v.caps[uid],
    decreases targets.len(),
{
    if targets.len() > 0 {
        let d = targets.drop_last();
        assert forall|i: int| 0 <= i < d.len() implies (#[trigger] d[i]).0 != uid by {
            assert(targets[i].0 != uid);
        }
        lemma_lowered_caps(v, d, hotkeys, at, uid);
        assert(targets[targets.len() - 1].0 != uid);
    }
}

impl CapacityBook {
    /// No miner has a capacity yet.
    pub fn new() -> (b: Self)
        ensures
            b@ == CapsV::empty(),
    {
        let b = CapacityBook {
            adaptive_caps: VecMap::new(),
            at_cap_results: VecMap::new(),
            cap_events: Vec::new(),
            pending_evictions: Vec::new(),
            at_cap_last_touched: VecMap::new(),
            cap_last_adjusted: VecMap::new(),
        };
        proof {
            assert(b@ =~= CapsV::empty());
        }
        b
    }

    fn trim_events(&mut self)
        ensures
            final(self)@ == (CapsV {
                events: newest(old(self)@.events, MAX_BUFFERED_CAP_EVENTS as nat),
                ..old(self)@
            }),
    {
        let mut events: Vec<CapEvent> = Vec::new();
        std::mem::swap(&mut events, &mut self.cap_events);
        let ghost before = events@;
        self.cap_events = keep_newest_listed(events, MAX_BUFFERED_CAP_EVENTS);
        proof {
            assert(events_view(newest(before, MAX_BUFFERED_CAP_EVENTS as nat)) =~= newest(
                events_view(before),
                MAX_BUFFERED_CAP_EVENTS as nat,
            ));
        }
    }

    fn note(&mut self, e: CapEvent)
        ensures
            final(self)@ == old(self)@.noted(e@),
    {
        let ghost before = self.cap_events@;
        self.cap_events.push(e);
        proof {
            assert(events_view(self.cap_events@) =~= events_view(before).push(e@));
            assert(self@ =~= CapsV { events: old(self)@.events.push(e@), ..old(self)@ });
        }
        self.trim_events();
    }

    fn clear_results(&mut self, uid: u16)
        ensures
            final(self)@ == old(self)@.results_cleared(uid),
    {
        if self.at_cap_results.contains_key(&uid) {
            let none: VecDeque<bool> = VecDeque::new();
            self.at_cap_results.insert(uid, none);
            proof {
                assert(none@ =~= Seq::empty());
            }
        }
        proof {
            assert(self@ =~= old(self)@.results_cleared(uid));
        }
    }

    fn lower(&mut self, uid: u16, hotkey: String, to: usize, now: u64)
        requires
            old(self)@.caps.contains_key(uid),
        ensures
            final(self)@ == old(self)@.lowered(uid, hotkey@, to, now),
    {
        if let Some(from) = self.adaptive_caps.insert(uid, to) {
            proof {
                assert(self@ =~= CapsV { caps: old(self)@.caps.insert(uid, to), ..old(self)@ });
            }
            self.clear_results(uid);
            self.note(
                CapEvent {
                    uid,
                    hotkey,
                    direction: CapDirection::Backoff,
                    cap_from: from,
                    cap_to: to,
                    success_rate: 0,
                    at: now,
                },
            );
        }
    }

    fn lower_all(
        &mut self,
        targets: &Vec<(u16, usize)>,
        hotkeys: &UidMap<String>,
        now: u64,
    ) -> (changed: usize)
        requires
            targets_for(old(self).adaptive_caps.entries(), targets@),
        ensures
            final(self)@ == old(self)@.all_lowered(targets@, hotkeys@, now),
            changed == lower_count(old(self)@.caps, targets@),
    {
        let ghost start = self@;
        let mut changed: usize = 0;
        let mut i: usize = 0;
        let n: usize = self.adaptive_caps.len();
        let ghost entries = self.adaptive_caps.entries();
        proof {
            assert(targets@.take(0).len() == 0);
        }
        while i < n
            invariant
                n == targets@.len(),
                i <= n,
                changed <= i,
                targets_for(entries, targets@),
                crate::keyed::distinct_keys(entries),
                forall|k: int|
                    0 <= k < entries.len() ==> {
                        &&& start.caps.contains_key((#[trigger] entries[k]).0)
                        &&& start.caps[entries[k].0] == entries[k].1
                    },
                self@ == start.all_lowered(targets@.take(i as int), hotkeys@, now),
                changed == lower_count(start.caps, targets@.take(i as int)),
            decreases n - i,
        {
            let (uid, to) = targets[i];
            proof {
                assert(targets@.take(i + 1).drop_last() =~= targets@.take(i as int));
                assert(targets@.take(i + 1).last() == targets@[i as int]);
                assert(targets@[i as int].0 == entries[i as int].0);
                assert forall|k: int| 0 <= k < targets@.take(i as int).len() implies (
                #[trigger] targets@.take(i as int)[k]).0 != uid by {
                    assert(targets@[k].0 == entries[k].0);
                    assert(entries[k].0@ != entries[i as int].0@);
                }
                lemma_lowered_caps(start, targets@.take(i as int), hotkeys@, now, uid);
            }
            if let Some(cap) = self.adaptive_caps.get(&uid) {
                if to < *cap {
                    let hotkey = hotkey_of(hotkeys, uid);
                    self.lower(uid, hotkey, to, now);
                    changed += 1;
                }
            }
            i += 1;
        }
        proof {
            assert(targets@.take(i as int) =~= targets@);
        }
        changed
    }

    /// Cuts every capacity back, as a rule by the decrement given for the miner;
    /// without one, by one. At the end only the newest changes are remembered.
    /// `decrements` says by how much.
    pub fn backoff_all_caps(
        &mut self,
        decrements: &UidMap<usize>,
        hotkeys: &UidMap<String>,
        now: u64,
    ) -> (changed: usize)
        ensures
            exists|targets: Seq<(u16, usize)>|
                {
                    &&& #[trigger] targets_for(old(self).adaptive_caps.entries(), targets)
                    &&& forall|i: int|
                        0 <= i < targets.len() ==> (#[trigger] targets[i]).1 == backed_off(
                            old(self).adaptive_caps.entries()[i].1,
                            if decrements@.contains_key(targets[i].0) {
                                decrements@[targets[i].0]
                            } else {
                                0
                            },
                        )
                    &&& final(self)@ == (CapsV {
                        events: newest(
                            old(self)@.all_lowered(targets, hotkeys@, now).events,
                            MAX_BUFFERED_CAP_EVENTS as nat,
                        ),
                        ..old(self)@.all_lowered(targets, hotkeys@, now)
                    })
                    &&& changed == lower_count(old(self)@.caps, targets)
                },
    {
        let n: usize = self.adaptive_caps.len();
        let ghost entries = self.adaptive_caps.entries();
        let mut targets: Vec<(u16, usize)> = Vec::new();
        let mut i: usize = 0;
        while i < n
            invariant
                n == entries.len(),
                entries == self.adaptive_caps.entries(),
                *self == *old(self),
                i <= n,
                targets@.len() == i,
                forall|k: int|
                    0 <= k < targets@.len() ==> {
                        &&& (#[trigger] targets@[k]).0 == entries[k].0
                        &&& targets@[k].1 == backed_off(
                            entries[k].1,
                            if decrements@.contains_key(targets@[k].0) {
                                decrements@[targets@[k].0]
                            } else {
                                0
                            },
                        )
                    },
            decreases n - i,
        {
            let uid: u16 = *self.adaptive_caps.key_at(i);
            let cap: usize = *self.adaptive_caps.value_at(i);
            let wanted: usize = match decrements.get(&uid) {
                Some(d) => *d,
                None => 0,
            };
            let off: usize = if wanted < 1 {
                1
            } else {
                wanted
            };
            let to: usize = if cap <= 1 {
                cap
            } else {
                let rest: usize = cap.saturating_sub(off);
                if rest < 1 {
                    1
                } else {
                    rest
                }
            };
            targets.push((uid, to));
            i += 1;
        }
        let changed = self.lower_all(&targets, hotkeys, now);
        self.trim_events();
        proof {
            assert(targets_for(old(self).adaptive_caps.entries(), targets@));
        }
        changed
    }

    /// Whether a miner was last busy longer ago than `idle`, or never.
    pub fn is_idle(&self, uid: u16, now: u64, idle: u64) -> (r: bool)
        ensures
            r == (!self@.touched.contains_key(uid) || minus(now, self@.touched[uid]) > idle),
    {
        match self.at_cap_last_touched.get(&uid) {
            Some(t) => now.saturating_sub(*t) > idle,
            None => true,
        }
    }

    /// Takes one off the capacity of every miner that was not busy for a while
    /// and has more than one. None falls below one.
    pub fn decay_idle_caps(&mut self, hotkeys: &UidMap<String>, now: u64, idle: u64) -> (decayed:
        usize)
        ensures
            exists|targets: Seq<(u16, usize)>|
                {
                    &&& #[trigger] targets_for(old(self).adaptive_caps.entries(), targets)
                    &&& forall|i: int|
                        0 <= i < targets.len() ==> (#[trigger] targets[i]).1 == decayed_cap(
                            old(self)@,
                            targets[i].0,
                            old(self).adaptive_caps.entries()[i].1,
                            now,
                            idle,
                        )
                    &&& final(self)@ == old(self)@.all_lowered(targets, hotkeys@, now)
                    &&& decayed == lower_count(old(self)@.caps, targets)
                },
    {
        let n: usize = self.adaptive_caps.len();
        let ghost entries = self.adaptive_caps.entries();
        let mut targets: Vec<(u16, usize)> = Vec::new();
        let mut i: usize = 0;
        while i < n
            invariant
                n == entries.len(),
                entries == self.adaptive_caps.entries(),
                *self == *old(self),
                i <= n,
                targets@.len() == i,
                forall|k: int|
                    0 <= k < targets@.len() ==> {
                        &&& (#[trigger] targets@[k]).0 == entries[k].0
                        &&& targets@[k].1 == decayed_cap(
                            self@,
                            targets@[k].0,
                            entries[k].1,
                            now,
                            idle,
                        )
                    },
            decreases n - i,
        {
            let uid: u16 = *self.adaptive_caps.key_at(i);
            let cap: usize = *self.adaptive_caps.value_at(i);
            let to: usize = if cap > 1 && self.is_idle(uid, now, idle) {
                cap - 1
            } else {
                cap
            };
            targets.push((uid, to));
            i += 1;
        }
        let decayed = self.lower_all(&targets, hotkeys, now);
        proof {
            assert(targets_for(old(self).adaptive_caps.entries(), targets@));
        }
        decayed
    }

    /// Gives a miner whose capacity is zero another chance.
    pub fn rehabilitate(&mut self, uid: u16, hotkey: &str, now: u64)
        ensures
            final(self)@ == old(self)@.rehabilitated(uid, hotkey@, now),
    {
        self.at_cap_last_touched.insert(uid, now);
        proof {
            assert(self@ =~= CapsV { touched: old(self)@.touched.insert(uid, now), ..old(self)@ });
        }
        let zero = match self.adaptive_caps.get(&uid) {
            Some(c) => *c == 0,
            None => false,
        };
        if zero {
            let ghost touched = self@;
            self.adaptive_caps.insert(uid, 1);
            proof {
                assert(self@ =~= CapsV { caps: touched.caps.insert(uid, 1), ..touched });
            }
            self.clear_results(uid);
            self.note(
                CapEvent {
                    uid,
                    hotkey: hotkey.to_owned(),
                    direction: CapDirection::Rehab,
                    cap_from: 0,
                    cap_to: 1,
                    success_rate: 0,
                    at: now,
                },
            );
        }
    }

    /// Whether it is time to look at a miner's capacity again.
    pub fn adjust_due(&self, uid: u16, now: u64, interval: u64) -> (r: bool)
        ensures
            r == (!self@.adjusted.contains_key(uid) || minus(now, self@.adjusted[uid])
                >= interval),
    {
        match self.cap_last_adjusted.get(&uid) {
            Some(t) => now.saturating_sub(*t) >= interval,
            None => true,
        }
    }

    /// Notes that a miner was busy.
    pub fn touch(&mut self, uid: u16, now: u64)
        ensures
            final(self)@ == (CapsV { touched: old(self)@.touched.insert(uid, now), ..old(self)@ }),
    {
        self.at_cap_last_touched.insert(uid, now);
        proof {
            assert(self@ =~= CapsV { touched: old(self)@.touched.insert(uid, now), ..old(self)@ });
        }
    }

    /// The capacity of a miner; one where nothing is known.
    pub fn cap_or_one(&self, uid: u16) -> (r: usize)
        ensures
            r == self@.cap_or_one(uid),
    {
        match self.adaptive_caps.get(&uid) {
            Some(c) => *c,
            None => 1,
        }
    }

    /// Moves a miner's capacity towards its target, by at most a step. `well_above`
    /// says whether the capacity is so far above its target that it is lowered,
    /// and `rate` is the rate that the target comes from, as its bits.
    pub fn update_adaptive_cap(
        &mut self,
        uid: u16,
        hotkey: &str,
        step: usize,
        target: usize,
        well_above: bool,
        rate: u64,
        now: u64,
    )
        ensures
            ({
                let from = old(self)@.cap_or_one(uid);
                let to = adjusted_cap(from, step, target, well_above) as usize;
                let looked_at = CapsV {
                    caps: old(self)@.caps.insert(uid, to),
                    adjusted: old(self)@.adjusted.insert(uid, now),
                    ..old(self)@
                };
                final(self)@ == if to == from {
                    looked_at
                } else {
                    looked_at.noted(
                        CapEventV {
                            uid,
                            hotkey: hotkey@,
                            direction: if to > from {
                                CapDirection::Ramp
                            } else {
                                CapDirection::Backoff
                            },
                            cap_from: from,
                            cap_to: to,
                            success_rate: rate,
                            at: now,
                        },
                    )
                }
            }),
    {
        self.cap_last_adjusted.insert(uid, now);
        let from: usize = self.cap_or_one(uid);
        let to: usize = if target > from {
            if step < target - from {
                from + step
            } else {
                target
            }
        } else if well_above {
            let down: usize = from.saturating_sub(step);
            let held: usize = if down < target {
                target
            } else {
                down
            };
            if held < 1 {
                1
            } else {
                held
            }
        } else {
            from
        };
        self.adaptive_caps.insert(uid, to);
        proof {
            assert(self@ =~= CapsV {
                caps: old(self)@.caps.insert(uid, to),
                adjusted: old(self)@.adjusted.insert(uid, now),
                ..old(self)@
            });
        }
        if to != from {
            let direction = if to > from {
                CapDirection::Ramp
            } else {
                CapDirection::Backoff
            };
            self.note(
                CapEvent {
                    uid,
                    hotkey: hotkey.to_owned(),
                    direction,
                    cap_from: from,
                    cap_to: to,
                    success_rate: rate,
                    at: now,
                },
            );
        }
    }

    /// The changes since they were last asked for.
    pub fn drain_cap_events(&mut self) -> (r: Vec<CapEvent>)
        ensures
            r == old(self).cap_events,
            final(self)@ == (CapsV { events: Seq::empty(), ..old(self)@ }),
    {
        let mut out: Vec<CapEvent> = Vec::new();
        std::mem::swap(&mut out, &mut self.cap_events);
        proof {
            assert(self@ =~= CapsV { events: Seq::empty(), ..old(self)@ });
        }
        out
    }

    /// The miners that were given up since they were last asked for.
    pub fn drain_pending_evictions(&mut self) -> (r: Vec<(u16, String)>)
        ensures
            r == old(self).pending_evictions,
            final(self)@ == (CapsV { evictions: Seq::empty(), ..old(self)@ }),
    {
        let mut out: Vec<(u16, String)> = Vec::new();
        std::mem::swap(&mut out, &mut self.pending_evictions);
        proof {
            assert(self@ =~= CapsV { evictions: Seq::empty(), ..old(self)@ });
        }
        out
    }

    /// Forgets a miner, and the changes that are remembered under its hotkey.
    pub fn reset_uid(&mut self, uid: u16, hotkey: &str)
        ensures
            final(self)@ == old(self)@.reset(uid, hotkey@),
    {
        self.adaptive_caps.remove(&uid);
        self.at_cap_results.remove(&uid);
        self.at_cap_last_touched.remove(&uid);
        self.cap_last_adjusted.remove(&uid);
        let mut events: Vec<CapEvent> = Vec::new();
        std::mem::swap(&mut events, &mut self.cap_events);
        self.cap_events = without_hotkey(events, hotkey);
        let mut evictions: Vec<(u16, String)> = Vec::new();
        std::mem::swap(&mut evictions, &mut self.pending_evictions);
        self.pending_evictions = without_uid(evictions, uid);
        proof {
            assert(self@.results =~= old(self)@.results.remove(uid));
            assert(self@ =~= old(self)@.reset(uid, hotkey@));
        }
    }

    /// Takes a miner's capacity over from an earlier session.
    pub fn restore(&mut self, uid: u16, cap: u64, results: VecDeque<bool>, now: u64)
        ensures
            final(self)@ == (CapsV {
                caps: old(self)@.caps.insert(uid, restored_cap(cap)),
                touched: old(self)@.touched.insert(uid, now),
                results: if results@.len() > 0 {
                    old(self)@.results.insert(uid, results@)
                } else {
                    old(self)@.results
                },
                ..old(self)@
            }),
    {
        let kept: usize = if cap < 1 {
            1
        } else if cap > RESTORED_CAP_MAX as u64 {
            RESTORED_CAP_MAX
        } else {
            cap as usize
        };
        self.adaptive_caps.insert(uid, kept);
        self.at_cap_last_touched.insert(uid, now);
        if results.len() > 0 {
            self.at_cap_results.insert(uid, results);
        }
        proof {
            let want = CapsV {
                caps: old(self)@.caps.insert(uid, restored_cap(cap)),
                touched: old(self)@.touched.insert(uid, now),
                results: if results@.len() > 0 {
                    old(self)@.results.insert(uid, results@)
                } else {
                    old(self)@.results
                },
                ..old(self)@
            };
            assert(self@.results =~= want.results);
            assert(self@ =~= want);
        }
    }
}

/// A capacity that is taken over from an earlier session: within limits, and
/// never zero.
pub open spec fn restored_cap(cap: u64) -> usize {
    if cap < 1 {
        1
    } else if cap > RESTORED_CAP_MAX {
        RESTORED_CAP_MAX
    } else {
        cap as usize
    }
}

/// What is left of a capacity while its miner has nothing to do.
pub open spec fn decayed_cap(v: CapsV, uid: u16, cap: usize, now: u64, idle: u64) -> usize {
    if cap > 1 && (!v.touched.contains_key(uid) || minus(now, v.touched[uid]) > idle) {
        (cap - 1) as usize
    } else {
        cap
    }
}

fn without_hotkey(events: Vec<CapEvent>, hotkey: &str) -> (r: Vec<CapEvent>)
    ensures
        events_view(r@) == events_view(events@).filter(not_of_hotkey(hotkey@)),
{
    let ghost keep = not_of_hotkey(hotkey@);
    let ghost all = events@;
    let mut rest = events;
    let mut r: Vec<CapEvent> = Vec::new();
    let n: usize = rest.len();
    let mut i: usize = 0;
    proof {
        assert(rest@ =~= all.skip(0));
        assert(events_view(all.take(0)) =~= Seq::empty());
        reveal_with_fuel(Seq::filter, 1);
        assert(events_view(r@) =~= events_view(all.take(0)).filter(keep));
    }
    while i < n
        invariant
            n == all.len(),
            i <= n,
            keep == not_of_hotkey(hotkey@),
            rest@ == all.skip(i as int),
            events_view(r@) == events_view(all.take(i as int)).filter(keep),
        decreases n - i,
    {
        let e = rest.remove(0);
        let ghost before = r@;
        proof {
            assert(all.skip(i as int)[0] == all[i as int]);
            assert(rest@ =~= all.skip(i + 1));
            assert(events_view(all.take(i + 1)) =~= events_view(all.take(i as int)).push(e@));
            assert(events_view(all.take(i + 1)).drop_last() =~= events_view(all.take(i as int)));
            reveal_with_fuel(Seq::filter, 2);
        }
        if !str_eq(e.hotkey.as_str(), hotkey) {
            r.push(e);
            proof {
                assert(events_view(r@) =~= events_view(before).push(e@));
            }
        }
        i += 1;
    }
    proof {
        assert(all.take(i as int) =~= all);
    }
    r
}

fn without_uid(list: Vec<(u16, String)>, uid: u16) -> (r: Vec<(u16, String)>)
    ensures
        evictions_view(r@) == evictions_view(list@).filter(not_of_uid(uid)),
{
    let ghost keep = not_of_uid(uid);
    let ghost all = list@;
    let mut rest = list;
    let mut r: Vec<(u16, String)> = Vec::new();
    let n: usize = rest.len();
    let mut i: usize = 0;
    proof {
        assert(rest@ =~= all.skip(0));
        assert(evictions_view(all.take(0)) =~= Seq::empty());
        reveal_with_fuel(Seq::filter, 1);
        assert(evictions_view(r@) =~= evictions_view(all.take(0)).filter(keep));
    }
    while i < n
        invariant
            n == all.len(),
            i <= n,
            keep == not_of_uid(uid),
            rest@ == all.skip(i as int),
            evictions_view(r@) == evictions_view(all.take(i as int)).filter(keep),
        decreases n - i,
    {
        let e = rest.remove(0);
        let ghost before = r@;
        proof {
            assert(all.skip(i as int)[0] == all[i as int]);
            assert(rest@ =~= all.skip(i + 1));
            assert(evictions_view(all.take(i + 1)) =~= evictions_view(all.take(i as int)).push(
                (e.0, e.1@),
            ));
            assert(evictions_view(all.take(i + 1)).drop_last() =~= evictions_view(
                all.take(i as int),
            ));
            reveal_with_fuel(Seq::filter, 2);
        }
        if e.0 != uid {
            r.push(e);
            proof {
                assert(evictions_view(r@) =~= evictions_view(before).push((e.0, e.1@)));
            }
        }
        i += 1;
    }
    proof {
        assert(all.take(i as int) =~= all);
    }
    r
}

/// A capacity moves towards its target by at most a step, does not go past it,
/// and stays above zero.
pub proof fn capacities_approach_their_target(
    from: usize,
    step: usize,
    target: usize,
    well_above: bool,
)
    requires
        from >= 1,
        target >= 1,
    ensures
        adjusted_cap(from, step, target, well_above) >= 1,
        adjusted_cap(from, step, target, well_above) <= usize::MAX,
        from - step <= adjusted_cap(from, step, target, well_above) <= from + step,
        target >= from ==> from <= adjusted_cap(from, step, target, well_above) <= target,
        target <= from ==> target <= adjusted_cap(from, step, target, well_above) <= from,
{
}

/// A capacity that is cut back or that decays is not raised, and does not reach
/// zero.
pub proof fn lowered_capacities_stay_positive(
    v: CapsV,
    uid: u16,
    cap: usize,
    decrement: usize,
    now: u64,
    idle: u64,
)
    requires
        cap >= 1,
    ensures
        1 <= backed_off(cap, decrement) <= cap,
        1 <= decayed_cap(v, uid, cap, now, idle) <= cap,
{
}

/// No change makes the list of remembered changes longer than its limit.
pub proof fn remembered_changes_are_bounded(v: CapsV, e: CapEventV)
    ensures
        v.noted(e).events.len() <= MAX_BUFFERED_CAP_EVENTS,
        v.noted(e).events.last() == e,
{
    let s = v.events.push(e);
    assert(s.last() == e);
}

/// A miner that is given another chance ends with a capacity above zero, and one
/// that has any keeps it.
pub proof fn rehabilitation_never_lowers(v: CapsV, uid: u16, hotkey: Seq<char>, at: u64)
    requires
        v.caps.contains_key(uid),
    ensures
        v.rehabilitated(uid, hotkey, at).caps[uid] >= 1,
        v.caps[uid] >= 1 ==> v.rehabilitated(uid, hotkey, at).caps == v.caps,
{
}

} // verus!
