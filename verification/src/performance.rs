//! What is remembered of the miners' work: how it went, how long it took, and
//! how much work each of them is given at a time. Times taken are numbers that
//! are ordered as the times they stand for.

use std::collections::VecDeque;
use vstd::prelude::*;
use vstd::string::*;

use crate::capacity::{
    backed_off, decayed_cap, lower_count, restored_cap, targets_for, CapEvent, CapacityBook, CapsV,
    MAX_BUFFERED_CAP_EVENTS,
};
use crate::delivery::{
    running, uncredited, with_bucket, with_completion, DeliveryBook, DeliveryV, WorkBucket,
};
use crate::json::{
    distinct_members, items, json_bytes, json_normal, json_parsed, lemma_items, lists_members, put,
    Json, JsonV,
};
use crate::keyed::{UidMap, VecMap};
use crate::rsv::minus;
use crate::text::{decimal, decimal_reads_back, decimal_text, parse_unsigned, unsigned_up_to};
use crate::timed::{
    evict_timed, fresh, newest, push_sample, queues, samples_of, sort_numbers, unexpired, values,
    Timed,
};
use crate::units::{ranked, UnitBook, UnitsV};

verus! {

/// How a piece of work went: whether the miner did it, and how long it took.
pub type Outcome = (bool, u64);

/// The limits of what is remembered. Spans of time are counted in ticks.
#[derive(Clone, Copy, Debug)]
pub struct PerformancePolicy {
    /// For how long an outcome counts.
    pub window_ttl: u64,
    /// How many outcomes of a miner count.
    pub window_size: usize,
    /// How many outcomes it takes to trust a miner with more than one piece.
    pub min_samples: usize,
    /// How many times it takes to set a time limit by them.
    pub timeout_min_samples: usize,
    /// The time that a piece counts with which had to be given to another miner.
    pub reschedule_penalty: u64,
    /// The span over which completed pieces are counted together.
    pub rate_bin: u64,
    /// How many such counts are kept.
    pub rate_filter_bins: usize,
    /// How many ticks a second has.
    pub ticks_per_sec: u64,
}

/// What is remembered of the miners' work.
pub struct PerformanceTracker {
    pub policy: PerformancePolicy,
    pub windows: UidMap<VecDeque<Timed<Outcome>>>,
    pub caps: CapacityBook,
    pub units: UnitBook,
    pub delivery: DeliveryBook,
    pub persistence_path: Option<String>,
}

/// What is remembered of the miners' work.
#[verifier::ext_equal]
pub struct PerfV {
    pub windows: Map<u16, Seq<Timed<Outcome>>>,
    pub caps: CapsV,
    pub units: UnitsV,
    pub delivery: DeliveryV,
}

impl View for PerformanceTracker {
    type V = PerfV;

    open spec fn view(&self) -> PerfV {
        PerfV {
            windows: queues(self.windows@),
            caps: self.caps@,
            units: self.units@,
            delivery: self.delivery@,
        }
    }
}

/// What counts of a miner's outcomes.
pub open spec fn counting_outcomes(
    s: Seq<Timed<Outcome>>,
    p: PerformancePolicy,
    now: u64,
) -> Seq<Timed<Outcome>> {
    newest(unexpired(s, now, p.window_ttl), p.window_size as nat)
}

impl PerfV {
    /// Nothing is remembered.
    pub open spec fn empty() -> PerfV {
        PerfV {
            windows: Map::empty(),
            caps: CapsV::empty(),
            units: UnitsV::empty(),
            delivery: DeliveryV { work: Map::empty(), bins: Map::empty() },
        }
    }

    /// One more outcome of a miner counts.
    pub open spec fn with_outcome(
        self,
        p: PerformancePolicy,
        uid: u16,
        outcome: Outcome,
        at: u64,
        now: u64,
    ) -> PerfV {
        PerfV {
            windows: self.windows.insert(
                uid,
                counting_outcomes(
                    samples_of(self.windows, uid).push(Timed { at, what: outcome }),
                    p,
                    now,
                ),
            ),
            ..self
        }
    }

    /// A failure of a miner has been charged: with the debit that the running span
    /// comes to, or as one more failure that no debit stands for.
    pub open spec fn charged(
        self,
        uid: u16,
        debit: Option<u64>,
        now: u64,
        len: u64,
        ttl: u64,
    ) -> PerfV {
        let s = samples_of(self.delivery.work, uid);
        let open = running(s, now, len);
        let bucket = match debit {
            Some(d) => WorkBucket { debit: d, ..open },
            None => WorkBucket {
                uncredited_failures: if open.uncredited_failures == u64::MAX {
                    u64::MAX
                } else {
                    (open.uncredited_failures + 1) as u64
                },
                ..open
            },
        };
        PerfV {
            delivery: DeliveryV {
                work: self.delivery.work.insert(
                    uid,
                    unexpired(with_bucket(s, now, bucket, len), now, ttl),
                ),
                ..self.delivery
            },
            ..self
        }
    }

    /// The records are counted.
    pub open spec fn counted(self) -> PerfV {
        PerfV {
            units: UnitsV {
                total: if self.units.total == u64::MAX {
                    0
                } else {
                    (self.units.total + 1) as u64
                },
                ..self.units
            },
            ..self
        }
    }

    /// An outcome has been taken in.
    pub open spec fn recorded(
        self,
        p: PerformancePolicy,
        uid: u16,
        unit: Seq<char>,
        outcome: Outcome,
        at: u64,
        now: u64,
    ) -> PerfV {
        let seen = self.counted().with_outcome(p, uid, outcome, at, now);
        if outcome.0 {
            PerfV {
                units: if outcome.1 > 0 {
                    seen.units.timed(uid, unit, outcome.1, at, now, p.window_ttl)
                } else {
                    seen.units
                },
                delivery: DeliveryV {
                    bins: self.delivery.bins.insert(
                        uid,
                        newest(
                            with_completion(samples_of(self.delivery.bins, uid), at, p.rate_bin),
                            p.rate_filter_bins as nat,
                        ),
                    ),
                    ..self.delivery
                },
                caps: CapsV { touched: self.caps.touched.insert(uid, at), ..self.caps },
                ..seen
            }
        } else {
            seen
        }
    }

    /// How many pieces each miner is given at a time: one until enough is known
    /// of it.
    pub open spec fn capacities(self, p: PerformancePolicy) -> Map<u16, usize> {
        Map::new(
            |uid: u16| self.windows.contains_key(uid),
            |uid: u16|
                if self.windows[uid].len() < p.min_samples {
                    1
                } else {
                    self.caps.cap_or_one(uid)
                },
        )
    }

    /// Only the outcomes that count are left, and only the miners that have some.
    pub open spec fn without_stale(self, p: PerformancePolicy, now: u64) -> PerfV {
        PerfV {
            windows: Map::new(
                |uid: u16|
                    self.windows.contains_key(uid) && counting_outcomes(
                        self.windows[uid],
                        p,
                        now,
                    ).len() > 0,
                |uid: u16| counting_outcomes(self.windows[uid], p, now),
            ),
            ..self
        }
    }

    /// Nothing is remembered of a miner any longer.
    pub open spec fn reset(self, uid: u16, hotkey: Seq<char>) -> PerfV {
        PerfV {
            windows: self.windows.remove(uid),
            caps: self.caps.reset(uid, hotkey),
            units: self.units.reset(uid),
            delivery: DeliveryV {
                work: self.delivery.work.remove(uid),
                bins: self.delivery.bins.remove(uid),
            },
        }
    }
}

/// The times of the pieces that went well.
pub open spec fn success_times(s: Seq<Timed<Outcome>>) -> Seq<u64>
    decreases s.len(),
{
    if s.len() == 0 {
        Seq::empty()
    } else {
        let r = success_times(s.drop_last());
        if s.last().what.0 {
            r.push(s.last().what.1)
        } else {
            r
        }
    }
}

/// The times of the pieces that went well, of all miners.
pub open spec fn all_success_times(entries: Seq<(u16, VecDeque<Timed<Outcome>>)>) -> Seq<u64>
    decreases entries.len(),
{
    if entries.len() == 0 {
        Seq::empty()
    } else {
        all_success_times(entries.drop_last()) + success_times(entries.last().1@)
    }
}

/// When something was by the calendar, in seconds.
pub open spec fn calendar_secs(at: u64, p: PerformancePolicy, now: u64, now_secs: u64) -> u64 {
    minus(now_secs, minus(now, at) / p.ticks_per_sec)
}

/// An outcome as it is stored: when it was, whether it went well, and how long
/// it took.
pub open spec fn outcome_json(
    t: Timed<Outcome>,
    number: JsonV,
    p: PerformancePolicy,
    now: u64,
    now_secs: u64,
) -> JsonV {
    JsonV::Array(
        seq![
            JsonV::Int(calendar_secs(t.at, p, now, now_secs) as int),
            JsonV::Bool(t.what.0),
            number,
        ],
    )
}

/// The outcomes of a miner as they are stored. `numbers` are its times.
pub open spec fn window_json(
    s: Seq<Timed<Outcome>>,
    numbers: Seq<Json>,
    p: PerformancePolicy,
    now: u64,
    now_secs: u64,
) -> JsonV {
    JsonV::Array(
        Seq::new(s.len(), |i: int| outcome_json(s[i], numbers[i]@, p, now, now_secs)),
    )
}

/// The miner of a name.
pub open spec fn uid_named(name: Seq<char>) -> u16 {
    unsigned_up_to(name, u16::MAX as nat)->0 as u16
}

/// What there is to say of some miners, each under its number.
pub open spec fn by_uid(uids: Set<u16>, what: spec_fn(u16) -> JsonV) -> Map<Seq<char>, JsonV> {
    Map::new(
        |name: Seq<char>| exists|u: u16| uids.contains(u) && name == #[trigger] decimal_text(u as nat),
        |name: Seq<char>| what(uid_named(name)),
    )
}

/// One more miner is listed.
proof fn lemma_by_uid_insert(uids: Set<u16>, what: spec_fn(u16) -> JsonV, u: u16)
    ensures
        by_uid(uids, what).insert(decimal_text(u as nat), what(u)) == by_uid(uids.insert(u), what),
{
    decimal_reads_back(u as nat);
    let a = by_uid(uids, what).insert(decimal_text(u as nat), what(u));
    let b = by_uid(uids.insert(u), what);
    assert forall|name: Seq<char>| a.contains_key(name) == b.contains_key(name) by {
        if b.contains_key(name) {
            let w = choose|w: u16|
                uids.insert(u).contains(w) && name == #[trigger] decimal_text(w as nat);
            assert(w == u || uids.contains(w));
        }
        if a.contains_key(name) {
            if name == decimal_text(u as nat) {
                assert(uids.insert(u).contains(u));
            } else {
                let w = choose|w: u16| uids.contains(w) && name == #[trigger] decimal_text(w as nat);
                assert(uids.insert(u).contains(w));
            }
        }
    }
    assert(a =~= b);
}

/// Everything that is stored of a tracker: the outcomes that count and the
/// capacities. `numbers` are the times of the outcomes.
pub open spec fn stored_json(
    v: PerfV,
    numbers: Map<u16, Vec<Json>>,
    p: PerformancePolicy,
    now: u64,
    now_secs: u64,
) -> JsonV {
    JsonV::Object(
        Map::<Seq<char>, JsonV>::empty().insert(
            "windows"@,
            JsonV::Object(
                by_uid(
                    v.windows.dom(),
                    |u: u16| window_json(v.windows[u], numbers[u]@, p, now, now_secs),
                ),
            ),
        ).insert(
            "capacities"@,
            JsonV::Object(
                by_uid(
                    v.caps.caps.dom(),
                    |u: u16| capacity_json(v.caps.caps[u], results_of(v.caps.results, u)),
                ),
            ),
        ),
    )
}

/// Truth values as they are stored.
pub open spec fn bools_json(s: Seq<bool>) -> JsonV {
    JsonV::Array(Seq::new(s.len(), |i: int| JsonV::Bool(s[i])))
}

/// A capacity as it is stored, with the results that came with it.
pub open spec fn capacity_json(cap: usize, results: Seq<bool>) -> JsonV {
    JsonV::Array(seq![JsonV::Int(cap as int), bools_json(results)])
}

/// The results that came with a capacity.
pub open spec fn results_of(results: Map<u16, Seq<bool>>, uid: u16) -> Seq<bool> {
    if results.contains_key(uid) {
        results[uid]
    } else {
        Seq::empty()
    }
}

/// A stored outcome that can be read: when it was, whether it went well, and the
/// number that says how long it took.
#[derive(Debug)]
pub struct StoredOutcome {
    pub secs: u64,
    pub success: bool,
    pub time: Json,
}

/// Whether a value is a number.
pub open spec fn is_number(v: JsonV) -> bool {
    v is Int || v is Decimal
}

/// Whether a value is a stored outcome.
pub open spec fn is_outcome(v: JsonV) -> bool {
    &&& v.list() is Some
    &&& v.list()->0.len() == 3
    &&& v.list()->0[0].unsigned() is Some
    &&& v.list()->0[1] is Bool
    &&& is_number(v.list()->0[2])
}

/// What a stored outcome says.
pub open spec fn outcome_in(v: JsonV) -> (u64, bool, JsonV) {
    (v.list()->0[0].unsigned()->0, v.list()->0[1]->Bool_0, v.list()->0[2])
}

/// What the stored outcomes in a list say.
pub open spec fn outcomes_in(s: Seq<JsonV>) -> Seq<(u64, bool, JsonV)>
    decreases s.len(),
{
    if s.len() == 0 {
        Seq::empty()
    } else {
        let r = outcomes_in(s.drop_last());
        if is_outcome(s.last()) {
            r.push(outcome_in(s.last()))
        } else {
            r
        }
    }
}

/// What is read of stored outcomes.
pub open spec fn outcomes_view(s: Seq<StoredOutcome>) -> Seq<(u64, bool, JsonV)> {
    s.map_values(|o: StoredOutcome| (o.secs, o.success, o.time@))
}

/// The stored outcomes that a list of members holds, miner by miner.
pub open spec fn windows_in(list: Seq<(String, Json)>) -> Seq<(u16, Seq<(u64, bool, JsonV)>)>
    decreases list.len(),
{
    if list.len() == 0 {
        Seq::empty()
    } else {
        let r = windows_in(list.drop_last());
        match (unsigned_up_to(list.last().0@, u16::MAX as nat), list.last().1@.list()) {
            (Some(uid), Some(s)) => r.push((uid as u16, outcomes_in(s))),
            _ => r,
        }
    }
}

/// What is read of stored outcomes, miner by miner.
pub open spec fn windows_view(s: Seq<(u16, Vec<StoredOutcome>)>) -> Seq<
    (u16, Seq<(u64, bool, JsonV)>),
> {
    s.map_values(|w: (u16, Vec<StoredOutcome>)| (w.0, outcomes_view(w.1@)))
}

/// A member of a value that is an object, as its list of members.
pub open spec fn member_list(v: Option<&Vec<(String, Json)>>) -> Seq<(String, Json)> {
    match v {
        Some(list) => list@,
        None => Seq::empty(),
    }
}

/// A stored time in terms of the clock, which may not reach back that far.
pub open spec fn clock_time(secs: u64, p: PerformancePolicy, now: u64, now_secs: u64) -> u64 {
    let back = minus(now_secs, secs) * p.ticks_per_sec;
    if back <= now {
        (now - back) as u64
    } else {
        now
    }
}

/// The outcomes that still count of those that were stored.
pub open spec fn restored_outcomes(
    s: Seq<(u64, bool, u64)>,
    p: PerformancePolicy,
    now: u64,
    now_secs: u64,
) -> Seq<Timed<Outcome>>
    decreases s.len(),
{
    if s.len() == 0 {
        Seq::empty()
    } else {
        let r = restored_outcomes(s.drop_last(), p, now, now_secs);
        let (secs, success, time) = s.last();
        if minus(now_secs, secs) > p.window_ttl as int / p.ticks_per_sec as int {
            r
        } else {
            r.push(Timed { at: clock_time(secs, p, now, now_secs), what: (success, time) })
        }
    }
}

/// The windows once stored ones have been put back, in order.
pub open spec fn windows_restored(
    w: Map<u16, Seq<Timed<Outcome>>>,
    stored: Seq<(u16, Vec<(u64, bool, u64)>)>,
    p: PerformancePolicy,
    now: u64,
    now_secs: u64,
) -> Map<u16, Seq<Timed<Outcome>>>
    decreases stored.len(),
{
    if stored.len() == 0 {
        w
    } else {
        let before = windows_restored(w, stored.drop_last(), p, now, now_secs);
        let s = restored_outcomes(stored.last().1@, p, now, now_secs);
        if s.len() > 0 {
            before.insert(stored.last().0, s)
        } else {
            before
        }
    }
}

/// The truth values in a list.
pub open spec fn bools_in(s: Seq<JsonV>) -> Seq<bool>
    decreases s.len(),
{
    if s.len() == 0 {
        Seq::empty()
    } else {
        match s.last() {
            JsonV::Bool(b) => bools_in(s.drop_last()).push(b),
            _ => bools_in(s.drop_last()),
        }
    }
}

/// A stored capacity and the results that came with it.
pub open spec fn capacity_in(v: JsonV) -> Option<(u64, Seq<bool>)> {
    match v.list() {
        Some(s) => if s.len() != 2 || s[0].unsigned() is None {
            None
        } else {
            Some(
                (
                    s[0].unsigned()->0,
                    match s[1].list() {
                        Some(r) => bools_in(r),
                        None => Seq::empty(),
                    },
                ),
            )
        },
        None => None,
    }
}

/// The capacities once stored ones have been put back, in order.
pub open spec fn capacities_restored(v: CapsV, list: Seq<(String, Json)>, now: u64) -> CapsV
    decreases list.len(),
{
    if list.len() == 0 {
        v
    } else {
        let before = capacities_restored(v, list.drop_last(), now);
        match (unsigned_up_to(list.last().0@, u16::MAX as nat), capacity_in(list.last().1@)) {
            (Some(uid), Some((cap, results))) => CapsV {
                caps: before.caps.insert(uid as u16, restored_cap(cap)),
                touched: before.touched.insert(uid as u16, now),
                results: if results.len() > 0 {
                    before.results.insert(uid as u16, results)
                } else {
                    before.results
                },
                ..before
            },
            _ => before,
        }
    }
}

fn read_bools(v: &Vec<Json>) -> (r: VecDeque<bool>)
    ensures
        r@ == bools_in(items(v@)),
{
    proof {
        lemma_items(v@);
    }
    let ghost s = items(v@);
    let mut r: VecDeque<bool> = VecDeque::new();
    let mut i: usize = 0;
    proof {
        assert(s.take(0).len() == 0);
        assert(r@ =~= Seq::empty());
    }
    while i < v.len()
        invariant
            s == items(v@),
            s.len() == v@.len(),
            forall|k: int| 0 <= k < v@.len() ==> s[k] == (#[trigger] v@[k])@,
            i <= v@.len(),
            r@ == bools_in(s.take(i as int)),
        decreases v@.len() - i,
    {
        proof {
            assert(s.take(i + 1).drop_last() =~= s.take(i as int));
            assert(s.take(i + 1).last() == v@[i as int]@);
        }
        if let Json::Bool(b) = &v[i] {
            r.push_back(*b);
        }
        i += 1;
    }
    proof {
        assert(s.take(i as int) =~= s);
    }
    r
}

fn read_capacity(j: &Json) -> (r: Option<(u64, VecDeque<bool>)>)
    ensures
        match r {
            Some((cap, results)) => capacity_in(j@) == Some((cap, results@)),
            None => capacity_in(j@) is None,
        },
{
    let pair = match j.as_array() {
        Some(p) => p,
        None => {
            return None;
        },
    };
    proof {
        lemma_items(pair@);
    }
    if pair.len() != 2 {
        return None;
    }
    let cap: u64 = match pair[0].as_u64() {
        Some(c) => c,
        None => {
            return None;
        },
    };
    let results: VecDeque<bool> = match pair[1].as_array() {
        Some(v) => read_bools(v),
        None => {
            let none: VecDeque<bool> = VecDeque::new();
            proof {
                assert(none@ =~= Seq::empty());
            }
            none
        },
    };
    Some((cap, results))
}

fn read_outcome(j: &Json) -> (r: Option<StoredOutcome>)
    ensures
        match r {
            Some(o) => is_outcome(j@) && (o.secs, o.success, o.time@) == outcome_in(j@),
            None => !is_outcome(j@),
        },
{
    let triple = match j.as_array() {
        Some(t) => t,
        None => {
            return None;
        },
    };
    proof {
        lemma_items(triple@);
    }
    if triple.len() != 3 {
        return None;
    }
    let secs: u64 = match triple[0].as_u64() {
        Some(s) => s,
        None => {
            return None;
        },
    };
    let success = match &triple[1] {
        Json::Bool(b) => *b,
        _ => {
            return None;
        },
    };
    let number = match &triple[2] {
        Json::Unsigned(_) => true,
        Json::Negative(_) => true,
        Json::Decimal(_) => true,
        _ => false,
    };
    if number {
        Some(StoredOutcome { secs, success, time: triple[2].copy() })
    } else {
        None
    }
}

fn read_outcomes(v: &Vec<Json>) -> (r: Vec<StoredOutcome>)
    ensures
        outcomes_view(r@) == outcomes_in(items(v@)),
{
    proof {
        lemma_items(v@);
    }
    let ghost s = items(v@);
    let mut r: Vec<StoredOutcome> = Vec::new();
    let mut i: usize = 0;
    proof {
        assert(s.take(0).len() == 0);
        assert(outcomes_view(r@) =~= Seq::empty());
    }
    while i < v.len()
        invariant
            s == items(v@),
            s.len() == v@.len(),
            forall|k: int| 0 <= k < v@.len() ==> s[k] == (#[trigger] v@[k])@,
            i <= v@.len(),
            outcomes_view(r@) == outcomes_in(s.take(i as int)),
        decreases v@.len() - i,
    {
        let ghost before = r@;
        proof {
            assert(s.take(i + 1).drop_last() =~= s.take(i as int));
            assert(s.take(i + 1).last() == v@[i as int]@);
        }
        if let Some(o) = read_outcome(&v[i]) {
            r.push(o);
            proof {
                assert(outcomes_view(r@) =~= outcomes_view(before).push(
                    (o.secs, o.success, o.time@),
                ));
            }
        }
        i += 1;
    }
    proof {
        assert(s.take(i as int) =~= s);
    }
    r
}

/// Reads the outcomes that a list of members holds, miner by miner. What cannot
/// be read is passed over.
pub fn stored_windows(list: &Vec<(String, Json)>) -> (r: Vec<(u16, Vec<StoredOutcome>)>)
    ensures
        windows_view(r@) == windows_in(list@),
{
    let mut r: Vec<(u16, Vec<StoredOutcome>)> = Vec::new();
    let mut i: usize = 0;
    proof {
        assert(list@.take(0).len() == 0);
        assert(windows_view(r@) =~= Seq::empty());
    }
    while i < list.len()
        invariant
            i <= list@.len(),
            windows_view(r@) == windows_in(list@.take(i as int)),
        decreases list@.len() - i,
    {
        let ghost before = r@;
        proof {
            assert(list@.take(i + 1).drop_last() =~= list@.take(i as int));
            assert(list@.take(i + 1).last() == list@[i as int]);
        }
        if let Some(uid) = parse_unsigned(list[i].0.as_str(), u16::MAX as u64) {
            if let Some(a) = list[i].1.as_array() {
                let o = read_outcomes(a);
                r.push((uid as u16, o));
                proof {
                    assert(windows_view(r@) =~= windows_view(before).push(
                        (uid as u16, outcomes_view(o@)),
                    ));
                }
            }
        }
        i += 1;
    }
    proof {
        assert(list@.take(i as int) =~= list@);
    }
    r
}

/// The members of an object that is itself a member of a value.
pub open spec fn inner_object(v: JsonV, name: Seq<char>) -> Option<Map<Seq<char>, JsonV>> {
    match v.member(name) {
        Some(m) => m.object(),
        None => None,
    }
}

/// What is stored of a tracker: outcomes miner by miner, and capacities.
#[derive(Debug)]
pub struct StoredState {
    pub windows: Vec<(u16, Vec<StoredOutcome>)>,
    pub capacities: Option<Vec<(String, Json)>>,
}

/// `s` is what a stored value says of outcomes and capacities. In which order the
/// miners are listed is left open.
pub open spec fn is_state_in(s: StoredState, v: JsonV) -> bool {
    &&& match inner_object(v, "windows"@) {
        Some(m) => exists|list: Seq<(String, Json)>| #[trigger]
            lists_members(list, m) && windows_view(s.windows@) == windows_in(list),
        None => s.windows@.len() == 0,
    }
    &&& match (inner_object(v, "capacities"@), s.capacities) {
        (Some(m), Some(list)) => lists_members(list@, m),
        (None, None) => true,
        _ => false,
    }
}

/// Reads what was stored of a tracker. Text that does not parse says nothing.
pub fn stored_state(text: &[u8]) -> (r: Option<StoredState>)
    ensures
        match json_parsed(text@) {
            Some(v) => r matches Some(s) && is_state_in(s, v),
            None => r is None,
        },
{
    let parsed = match Json::parse(text) {
        Ok(parsed) => parsed,
        Err(_) => {
            return None;
        },
    };
    let windows: Vec<(u16, Vec<StoredOutcome>)> = match object_member(&parsed, "windows") {
        Some(list) => {
            let named = distinct_members(list);
            let windows = stored_windows(&named);
            proof {
                let m = inner_object(parsed@, "windows"@)->0;
                assert(lists_members(named@, m));
            }
            windows
        },
        None => Vec::new(),
    };
    let capacities: Option<Vec<(String, Json)>> = match object_member(&parsed, "capacities") {
        Some(list) => Some(distinct_members(list)),
        None => None,
    };
    Some(StoredState { windows, capacities })
}

/// A member of a value, where both are objects.
pub fn object_member<'a>(parsed: &'a Json, name: &str) -> (r: Option<&'a Vec<(String, Json)>>)
    ensures
        match r {
            Some(list) => parsed@.member(name@) == Some(
                JsonV::Object(crate::json::members(list@)),
            ),
            None => parsed@.member(name@) is None || parsed@.member(name@)->0.object() is None,
        },
{
    match parsed.get(name) {
        Some(v) => v.as_object(),
        None => None,
    }
}

fn restore_outcomes(
    s: &Vec<(u64, bool, u64)>,
    p: PerformancePolicy,
    now: u64,
    now_secs: u64,
) -> (r: VecDeque<Timed<Outcome>>)
    requires
        p.ticks_per_sec > 0,
    ensures
        r@ == restored_outcomes(s@, p, now, now_secs),
{
    let ttl_secs: u64 = p.window_ttl / p.ticks_per_sec;
    let mut r: VecDeque<Timed<Outcome>> = VecDeque::new();
    let mut i: usize = 0;
    proof {
        assert(s@.take(0).len() == 0);
        assert(r@ =~= Seq::empty());
    }
    while i < s.len()
        invariant
            p.ticks_per_sec > 0,
            ttl_secs == p.window_ttl as int / p.ticks_per_sec as int,
            i <= s@.len(),
            r@ == restored_outcomes(s@.take(i as int), p, now, now_secs),
        decreases s@.len() - i,
    {
        let (secs, success, time) = s[i];
        proof {
            assert(s@.take(i + 1).drop_last() =~= s@.take(i as int));
            assert(s@.take(i + 1).last() == s@[i as int]);
        }
        let elapsed: u64 = now_secs.saturating_sub(secs);
        if elapsed <= ttl_secs {
            let at: u64 = match elapsed.checked_mul(p.ticks_per_sec) {
                Some(back) => if back <= now {
                    now - back
                } else {
                    now
                },
                None => now,
            };
            r.push_back(Timed { at, what: (success, time) });
        }
        i += 1;
    }
    proof {
        assert(s@.take(i as int) =~= s@);
    }
    r
}

impl PerformanceTracker {
    /// Nothing is remembered.
    pub fn new(policy: PerformancePolicy, persistence_path: Option<String>) -> (t: Self)
        ensures
            t@ == PerfV::empty(),
            t.policy == policy,
            t.persistence_path == persistence_path,
    {
        let t = PerformanceTracker {
            policy,
            windows: VecMap::new(),
            caps: CapacityBook::new(),
            units: UnitBook::new(),
            delivery: DeliveryBook::new(),
            persistence_path,
        };
        proof {
            assert(t@ =~= PerfV::empty());
        }
        t
    }

    fn push_outcome(&mut self, uid: u16, outcome: Outcome, at: u64, now: u64)
        ensures
            final(self)@ == old(self)@.with_outcome(old(self).policy, uid, outcome, at, now),
            final(self).policy == old(self).policy,
            final(self).persistence_path == old(self).persistence_path,
    {
        push_sample(
            &mut self.windows,
            uid,
            Timed { at, what: outcome },
            now,
            self.policy.window_ttl,
            self.policy.window_size,
        );
    }

    /// Takes in how a piece of work went that ended at `at`. Where it went well
    /// and took any time, the result is the miner's best time at such a piece.
    pub fn record_with_time(
        &mut self,
        uid: u16,
        work_key: &str,
        success: bool,
        response_time: u64,
        at: u64,
        now: u64,
    ) -> (best: Option<u64>)
        ensures
            final(self)@ == old(self)@.recorded(
                old(self).policy,
                uid,
                work_key@,
                (success, response_time),
                at,
                now,
            ),
            best == (if success && response_time > 0 {
                Some(
                    old(self)@.units.best_after(
                        uid,
                        work_key@,
                        response_time,
                        at,
                        old(self).policy.window_ttl,
                    ).1,
                )
            } else {
                None
            }),
            final(self).policy == old(self).policy,
            final(self).persistence_path == old(self).persistence_path,
    {
        self.units.count_record();
        proof {
            assert(self@ =~= old(self)@.counted());
        }
        self.push_outcome(uid, (success, response_time), at, now);
        let mut best: Option<u64> = None;
        if success && response_time > 0 {
            best = Some(
                self.units.note_time(
                    uid,
                    work_key,
                    response_time,
                    at,
                    now,
                    self.policy.window_ttl,
                ),
            );
        }
        if success {
            self.delivery.count_completion(
                uid,
                at,
                self.policy.rate_bin,
                self.policy.rate_filter_bins,
            );
            self.caps.touch(uid, at);
        }
        proof {
            assert(self@ =~= old(self)@.recorded(
                old(self).policy,
                uid,
                work_key@,
                (success, response_time),
                at,
                now,
            ));
        }
        best
    }

    /// Takes in that a piece of no known kind had to be given to another miner: the
    /// failure counts, and no debit stands for it.
    pub fn record_reschedule(&mut self, uid: u16, now: u64, len: u64, ttl: u64)
        ensures
            final(self)@ == old(self)@.with_outcome(
                old(self).policy,
                uid,
                (false, old(self).policy.reschedule_penalty),
                now,
                now,
            ).charged(uid, None, now, len, ttl),
            final(self).policy == old(self).policy,
            final(self).persistence_path == old(self).persistence_path,
    {
        self.push_outcome(uid, (false, self.policy.reschedule_penalty), now, now);
        self.charge_failure(uid, None, now, len, ttl);
    }

    /// Takes in how a piece of work went that has just ended.
    pub fn record_keyed(
        &mut self,
        uid: u16,
        success: bool,
        response_time: u64,
        work_key: &str,
        now: u64,
    ) -> (best: Option<u64>)
        ensures
            final(self)@ == old(self)@.recorded(
                old(self).policy,
                uid,
                work_key@,
                (success, response_time),
                now,
                now,
            ),
            best == (if success && response_time > 0 {
                Some(
                    old(self)@.units.best_after(
                        uid,
                        work_key@,
                        response_time,
                        now,
                        old(self).policy.window_ttl,
                    ).1,
                )
            } else {
                None
            }),
            final(self).policy == old(self).policy,
            final(self).persistence_path == old(self).persistence_path,
    {
        self.record_with_time(uid, work_key, success, response_time, now, now)
    }

    /// Takes in that a piece had to be given to another miner. The result is the
    /// reference time of such a piece, or 0 where it has none: what `charge_failure`
    /// is to charge comes from it.
    pub fn record_reschedule_keyed(&mut self, uid: u16, work_key: &str, index: usize, now: u64) -> (r:
        u64)
        ensures
            final(self)@.windows == old(self)@.with_outcome(
                old(self).policy,
                uid,
                (false, old(self).policy.reschedule_penalty),
                now,
                now,
            ).windows,
            final(self)@ == (PerfV {
                windows: final(self)@.windows,
                units: final(self)@.units,
                ..old(self)@
            }),
            r == (if work_key@.len() == 0 {
                0
            } else if old(self)@.units.is_cached(work_key@) {
                old(self)@.units.cache[work_key@].1
            } else {
                old(self)@.units.reference(work_key@, index)
            }),
            final(self)@.units == (if work_key@.len() == 0 || old(self)@.units.is_cached(work_key@)
                || r == 0 {
                old(self)@.units
            } else {
                UnitsV {
                    cache: old(self)@.units.cache.insert(
                        work_key@,
                        (old(self)@.units.total, r),
                    ),
                    ..old(self)@.units
                }
            }),
            final(self).policy == old(self).policy,
            final(self).persistence_path == old(self).persistence_path,
    {
        self.push_outcome(uid, (false, self.policy.reschedule_penalty), now, now);
        if work_key.unicode_len() == 0 {
            return 0;
        }
        self.units.cached_unit_reference(work_key, index)
    }

    /// Charges a miner for a failure: with the debit that the running span comes
    /// to, or, where the piece has no reference time, with a failure that no debit
    /// stands for.
    pub fn charge_failure(&mut self, uid: u16, debit: Option<u64>, now: u64, len: u64, ttl: u64)
        ensures
            final(self)@ == old(self)@.charged(uid, debit, now, len, ttl),
            final(self).policy == old(self).policy,
            final(self).persistence_path == old(self).persistence_path,
    {
        let open = self.delivery.running_bucket(uid, now, len);
        let bucket = match debit {
            Some(d) => WorkBucket {
                credit: open.credit,
                debit: d,
                uncredited_failures: open.uncredited_failures,
            },
            None => WorkBucket {
                credit: open.credit,
                debit: open.debit,
                uncredited_failures: open.uncredited_failures.saturating_add(1),
            },
        };
        self.delivery.push_bucketed(uid, now, bucket, len, ttl);
    }

    /// Credits a miner with delivered work: with the credit that the running span
    /// comes to.
    pub fn credit_work(&mut self, uid: u16, credit: u64, now: u64, len: u64, ttl: u64)
        ensures
            ({
                let s = samples_of(old(self)@.delivery.work, uid);
                let open = running(s, now, len);
                final(self)@ == (PerfV {
                    delivery: DeliveryV {
                        work: old(self)@.delivery.work.insert(
                            uid,
                            unexpired(
                                with_bucket(s, now, WorkBucket { credit, ..open }, len),
                                now,
                                ttl,
                            ),
                        ),
                        ..old(self)@.delivery
                    },
                    ..old(self)@
                })
            }),
            final(self).policy == old(self).policy,
            final(self).persistence_path == old(self).persistence_path,
    {
        let open = self.delivery.running_bucket(uid, now, len);
        let bucket = WorkBucket {
            credit,
            debit: open.debit,
            uncredited_failures: open.uncredited_failures,
        };
        self.delivery.push_bucketed(uid, now, bucket, len, ttl);
    }

    /// The spans of a miner's work of late, whose credits and debits add up to what
    /// it has delivered and lost, and its failures that no debit stands for.
    pub fn delivered_breakdown(&self, uid: u16, now: u64, ttl: u64) -> (r: (
        Vec<Timed<WorkBucket>>,
        u64,
    ))
        ensures
            ({
                let s = fresh(samples_of(self@.delivery.work, uid), now, ttl);
                &&& r.0@ == s
                &&& r.1 == (if uncredited(s) > u64::MAX {
                    u64::MAX as int
                } else {
                    uncredited(s)
                })
            }),
    {
        (self.delivery.delivered(uid, now, ttl), self.delivery.uncredited_failures(uid, now, ttl))
    }

    /// The capacities of the miners.
    pub fn cap_snapshot(&self) -> (r: UidMap<usize>)
        ensures
            r@ == self@.caps.caps,
    {
        let n: usize = self.caps.adaptive_caps.len();
        let ghost e = self.caps.adaptive_caps.entries();
        let ghost all = self.caps.adaptive_caps@;
        let mut r: UidMap<usize> = VecMap::new();
        let mut i: usize = 0;
        while i < n
            invariant
                e == self.caps.adaptive_caps.entries(),
                all == self.caps.adaptive_caps@,
                n == e.len(),
                i <= n,
                forall|k: int|
                    0 <= k < e.len() ==> {
                        &&& all.contains_key((#[trigger] e[k]).0)
                        &&& all[e[k].0] == e[k].1
                    },
                forall|u: u16| #[trigger]
                    r@.contains_key(u) ==> all.contains_key(u) && r@[u] == all[u],
                forall|k: int| 0 <= k < i ==> r@.contains_key((#[trigger] e[k]).0),
            decreases n - i,
        {
            let uid: u16 = *self.caps.adaptive_caps.key_at(i);
            let cap: usize = *self.caps.adaptive_caps.value_at(i);
            proof {
                assert(e[i as int].0 == uid);
            }
            r.insert(uid, cap);
            i += 1;
        }
        proof {
            assert forall|u: u16| #[trigger] all.contains_key(u) implies r@.contains_key(u) by {
                let k = choose|k: int| 0 <= k < e.len() && (#[trigger] e[k]).0@ == u;
                assert(r@.contains_key(e[k].0));
            }
            assert(r@ =~= all);
        }
        r
    }

    /// The changes of capacities since they were last asked for.
    pub fn drain_cap_events(&mut self) -> (r: Vec<CapEvent>)
        ensures
            r == old(self).caps.cap_events,
            final(self)@ == (PerfV {
                caps: CapsV { events: Seq::empty(), ..old(self)@.caps },
                ..old(self)@
            }),
            final(self).policy == old(self).policy,
            final(self).persistence_path == old(self).persistence_path,
    {
        self.caps.drain_cap_events()
    }

    /// The miners that were given up since they were last asked for.
    pub fn drain_pending_evictions(&mut self) -> (r: Vec<(u16, String)>)
        ensures
            r == old(self).caps.pending_evictions,
            final(self)@ == (PerfV {
                caps: CapsV { evictions: Seq::empty(), ..old(self)@.caps },
                ..old(self)@
            }),
            final(self).policy == old(self).policy,
            final(self).persistence_path == old(self).persistence_path,
    {
        self.caps.drain_pending_evictions()
    }

    /// Takes one off the capacity of every miner that was not busy for a while and
    /// has more than one. The result is how many were lowered.
    pub fn decay_idle_caps(&mut self, hotkeys: &UidMap<String>, now: u64, idle: u64) -> (decayed:
        usize)
        ensures
            exists|targets: Seq<(u16, usize)>|
                {
                    &&& #[trigger] targets_for(old(self).caps.adaptive_caps.entries(), targets)
                    &&& forall|i: int|
                        0 <= i < targets.len() ==> (#[trigger] targets[i]).1 == decayed_cap(
                            old(self)@.caps,
                            targets[i].0,
                            old(self).caps.adaptive_caps.entries()[i].1,
                            now,
                            idle,
                        )
                    &&& final(self)@.caps == old(self)@.caps.all_lowered(targets, hotkeys@, now)
                    &&& decayed == lower_count(old(self)@.caps.caps, targets)
                },
            final(self)@ == (PerfV { caps: final(self)@.caps, ..old(self)@ }),
            final(self).policy == old(self).policy,
            final(self).persistence_path == old(self).persistence_path,
    {
        self.caps.decay_idle_caps(hotkeys, now, idle)
    }

    /// Gives a miner that was given up another chance.
    pub fn rehabilitate(&mut self, uid: u16, hotkey: &str, now: u64)
        ensures
            final(self)@ == (PerfV {
                caps: old(self)@.caps.rehabilitated(uid, hotkey@, now),
                ..old(self)@
            }),
            final(self).policy == old(self).policy,
            final(self).persistence_path == old(self).persistence_path,
    {
        self.caps.rehabilitate(uid, hotkey, now)
    }

    /// Lowers every capacity while the host is short of memory, each by its
    /// decrement or else by one, to no less than one. The result is how many were
    /// lowered.
    pub fn backoff_all_caps_under_pressure(
        &mut self,
        under_pressure: bool,
        decrements: &UidMap<usize>,
        hotkeys: &UidMap<String>,
        now: u64,
    ) -> (changed: usize)
        ensures
            !under_pressure ==> changed == 0 && *final(self) == *old(self),
            under_pressure ==> exists|targets: Seq<(u16, usize)>|
                {
                    &&& #[trigger] targets_for(old(self).caps.adaptive_caps.entries(), targets)
                    &&& forall|i: int|
                        0 <= i < targets.len() ==> (#[trigger] targets[i]).1 == backed_off(
                            old(self).caps.adaptive_caps.entries()[i].1,
                            if decrements@.contains_key(targets[i].0) {
                                decrements@[targets[i].0]
                            } else {
                                0
                            },
                        )
                    &&& final(self)@.caps == (CapsV {
                        events: newest(
                            old(self)@.caps.all_lowered(targets, hotkeys@, now).events,
                            MAX_BUFFERED_CAP_EVENTS as nat,
                        ),
                        ..old(self)@.caps.all_lowered(targets, hotkeys@, now)
                    })
                    &&& changed == lower_count(old(self)@.caps.caps, targets)
                },
            final(self)@ == (PerfV { caps: final(self)@.caps, ..old(self)@ }),
            final(self).policy == old(self).policy,
            final(self).persistence_path == old(self).persistence_path,
    {
        if !under_pressure {
            return 0;
        }
        self.caps.backoff_all_caps(decrements, hotkeys, now)
    }

    /// How fast each miner was of late compared with others, and how many outcomes
    /// of it count.
    pub fn snapshot(&self, now: u64) -> (r: Vec<(u16, Vec<u64>, usize)>)
        ensures
            r@.len() == self.windows.entries().len(),
            forall|i: int|
                0 <= i < r@.len() ==> {
                    let w = self.windows.entries()[i];
                    &&& (#[trigger] r@[i]).0 == w.0
                    &&& r@[i].1@ == values(
                        fresh(samples_of(self@.units.rel_speed, w.0), now, self.policy.window_ttl),
                    )
                    &&& r@[i].2 == w.1@.len()
                },
    {
        let n: usize = self.windows.len();
        let ghost e = self.windows.entries();
        let mut r: Vec<(u16, Vec<u64>, usize)> = Vec::new();
        let mut i: usize = 0;
        while i < n
            invariant
                e == self.windows.entries(),
                n == e.len(),
                i <= n,
                r@.len() == i,
                forall|k: int|
                    0 <= k < i ==> {
                        &&& (#[trigger] r@[k]).0 == e[k].0
                        &&& r@[k].1@ == values(
                            fresh(
                                samples_of(self@.units.rel_speed, e[k].0),
                                now,
                                self.policy.window_ttl,
                            ),
                        )
                        &&& r@[k].2 == e[k].1@.len()
                    },
            decreases n - i,
        {
            let uid: u16 = *self.windows.key_at(i);
            let speeds = self.units.rel_speeds(uid, now, self.policy.window_ttl);
            r.push((uid, speeds, self.windows.value_at(i).len()));
            i += 1;
        }
        r
    }

    /// What each miner delivered of late, its capacity, and how many outcomes of it
    /// count.
    pub fn throughput_snapshot(&self, now: u64, ttl: u64) -> (r: Vec<
        (u16, Vec<Timed<WorkBucket>>, usize, usize),
    >)
        ensures
            r@.len() == self.windows.entries().len(),
            forall|i: int|
                0 <= i < r@.len() ==> {
                    let w = self.windows.entries()[i];
                    &&& (#[trigger] r@[i]).0 == w.0
                    &&& r@[i].1@ == fresh(samples_of(self@.delivery.work, w.0), now, ttl)
                    &&& r@[i].2 == self@.caps.cap_or_one(w.0)
                    &&& r@[i].3 == w.1@.len()
                },
    {
        let n: usize = self.windows.len();
        let ghost e = self.windows.entries();
        let mut r: Vec<(u16, Vec<Timed<WorkBucket>>, usize, usize)> = Vec::new();
        let mut i: usize = 0;
        while i < n
            invariant
                e == self.windows.entries(),
                n == e.len(),
                i <= n,
                r@.len() == i,
                forall|k: int|
                    0 <= k < i ==> {
                        &&& (#[trigger] r@[k]).0 == e[k].0
                        &&& r@[k].1@ == fresh(samples_of(self@.delivery.work, e[k].0), now, ttl)
                        &&& r@[k].2 == self@.caps.cap_or_one(e[k].0)
                        &&& r@[k].3 == e[k].1@.len()
                    },
            decreases n - i,
        {
            let uid: u16 = *self.windows.key_at(i);
            let work = self.delivery.delivered(uid, now, ttl);
            let cap: usize = self.caps.cap_or_one(uid);
            r.push((uid, work, cap, self.windows.value_at(i).len()));
            i += 1;
        }
        r
    }

    fn listed_success_times(&self) -> (r: Vec<u64>)
        ensures
            r@ == all_success_times(self.windows.entries()),
    {
        let n: usize = self.windows.len();
        let ghost entries = self.windows.entries();
        let mut r: Vec<u64> = Vec::new();
        let mut i: usize = 0;
        proof {
            assert(entries.take(0).len() == 0);
        }
        while i < n
            invariant
                entries == self.windows.entries(),
                n == entries.len(),
                i <= n,
                r@ == all_success_times(entries.take(i as int)),
            decreases n - i,
        {
            let q = self.windows.value_at(i);
            let m: usize = q.len();
            let mut k: usize = 0;
            let ghost before = r@;
            proof {
                assert(entries.take(i + 1).drop_last() =~= entries.take(i as int));
                assert(entries.take(i + 1).last() == entries[i as int]);
                assert(q@.take(0).len() == 0);
                assert(r@ =~= before + success_times(q@.take(0)));
            }
            while k < m
                invariant
                    m == q@.len(),
                    k <= m,
                    r@ == before + success_times(q@.take(k as int)),
                decreases m - k,
            {
                proof {
                    assert(q@.take(k + 1).drop_last() =~= q@.take(k as int));
                    assert(q@.take(k + 1).last() == q@[k as int]);
                }
                let ghost mid = r@;
                if q[k].what.0 {
                    r.push(q[k].what.1);
                    proof {
                        assert(r@ =~= before + success_times(q@.take(k as int)).push(
                            q@[k as int].what.1,
                        ));
                    }
                }
                k += 1;
            }
            proof {
                assert(q@.take(k as int) =~= q@);
            }
            i += 1;
        }
        proof {
            assert(entries.take(i as int) =~= entries);
        }
        r
    }

    /// How many pieces went well of those that count.
    pub fn success_count(&self) -> (n: usize)
        ensures
            n == all_success_times(self.windows.entries()).len(),
    {
        self.listed_success_times().len()
    }

    /// The time at a position among those of all pieces that went well, from the
    /// shortest; none where there are too few of them to set a limit by.
    pub fn timeout_sample(&self, index: usize) -> (r: Option<u64>)
        requires
            self.policy.timeout_min_samples > 0,
        ensures
            ({
                let times = all_success_times(self.windows.entries());
                r == (if times.len() < self.policy.timeout_min_samples {
                    None
                } else {
                    Some(ranked(times, index))
                })
            }),
    {
        let times = self.listed_success_times();
        let n: usize = times.len();
        if n < self.policy.timeout_min_samples {
            return None;
        }
        let sorted = sort_numbers(times);
        let at: usize = if index < n {
            index
        } else {
            n - 1
        };
        Some(sorted[at])
    }

    /// How many pieces each miner is given at a time.
    pub fn miner_capacities(&self) -> (r: UidMap<usize>)
        ensures
            r@ == self@.capacities(self.policy),
            forall|u: u16|
                self@.windows.contains_key(u) && self@.windows[u].len() >= self.policy.min_samples
                    && self@.caps.caps.contains_key(u) ==> #[trigger] r@.contains_key(u) && r@[u]
                    == self@.caps.caps[u],
            forall|u: u16|
                self@.windows.contains_key(u) && self@.windows[u].len() < self.policy.min_samples
                    ==> #[trigger] r@.contains_key(u) && r@[u] == 1,
    {
        let n: usize = self.windows.len();
        let ghost entries = self.windows.entries();
        let mut r: UidMap<usize> = VecMap::new();
        let mut i: usize = 0;
        while i < n
            invariant
                entries == self.windows.entries(),
                n == entries.len(),
                i <= n,
                forall|k: int|
                    0 <= k < entries.len() ==> {
                        &&& self.windows@.contains_key((#[trigger] entries[k]).0)
                        &&& self.windows@[entries[k].0] == entries[k].1
                    },
                forall|u: u16| #[trigger]
                    r@.contains_key(u) ==> self@.windows.contains_key(u) && r@[u]
                        == self@.capacities(self.policy)[u],
                forall|k: int| 0 <= k < i ==> r@.contains_key((#[trigger] entries[k]).0),
            decreases n - i,
        {
            let uid: u16 = *self.windows.key_at(i);
            let cap: usize = if self.windows.value_at(i).len() < self.policy.min_samples {
                1
            } else {
                self.caps.cap_or_one(uid)
            };
            proof {
                assert(entries[i as int].0 == uid);
                assert(self@.windows.contains_key(uid));
                assert(self@.windows[uid] == entries[i as int].1@);
            }
            r.insert(uid, cap);
            i += 1;
        }
        proof {
            let want = self@.capacities(self.policy);
            assert forall|u: u16| #[trigger] want.contains_key(u) implies r@.contains_key(u) by {
                assert(self.windows@.contains_key(u));
                let k = choose|k: int| 0 <= k < entries.len() && (#[trigger] entries[k]).0@ == u;
                assert(r@.contains_key(entries[k].0));
            }
            assert(r@ =~= want);
        }
        r
    }

    /// How many outcomes of each miner count.
    pub fn sample_counts(&self) -> (r: UidMap<usize>)
        ensures
            r@.dom() == self@.windows.dom(),
            forall|u: u16| #[trigger] r@.contains_key(u) ==> r@[u] == self@.windows[u].len(),
    {
        let n: usize = self.windows.len();
        let ghost entries = self.windows.entries();
        let mut r: UidMap<usize> = VecMap::new();
        let mut i: usize = 0;
        while i < n
            invariant
                entries == self.windows.entries(),
                n == entries.len(),
                i <= n,
                forall|k: int|
                    0 <= k < entries.len() ==> {
                        &&& self.windows@.contains_key((#[trigger] entries[k]).0)
                        &&& self.windows@[entries[k].0] == entries[k].1
                    },
                forall|u: u16| #[trigger]
                    r@.contains_key(u) ==> self@.windows.contains_key(u) && r@[u]
                        == self@.windows[u].len(),
                forall|k: int| 0 <= k < i ==> r@.contains_key((#[trigger] entries[k]).0),
            decreases n - i,
        {
            let uid: u16 = *self.windows.key_at(i);
            let count: usize = self.windows.value_at(i).len();
            proof {
                assert(entries[i as int].0 == uid);
                assert(self@.windows.contains_key(uid));
                assert(self@.windows[uid] == entries[i as int].1@);
            }
            r.insert(uid, count);
            i += 1;
        }
        proof {
            assert forall|u: u16| #[trigger] self@.windows.contains_key(u) implies r@.contains_key(
                u,
            ) by {
                assert(self.windows@.contains_key(u));
                let k = choose|k: int| 0 <= k < entries.len() && (#[trigger] entries[k]).0@ == u;
                assert(r@.contains_key(entries[k].0));
            }
            assert(r@.dom() =~= self@.windows.dom());
        }
        r
    }

    /// Forgets the outcomes that no longer count, and the miners of which none is
    /// left.
    pub fn evict_all_stale(&mut self, now: u64)
        ensures
            final(self)@ == old(self)@.without_stale(old(self).policy, now),
            final(self).policy == old(self).policy,
            final(self).persistence_path == old(self).persistence_path,
    {
        let ghost p = self.policy;
        let ghost all = self@.windows;
        let mut rest: UidMap<VecDeque<Timed<Outcome>>> = VecMap::new();
        std::mem::swap(&mut rest, &mut self.windows);
        let mut kept: UidMap<VecDeque<Timed<Outcome>>> = VecMap::new();
        let ghost mut done: Set<u16> = Set::empty();
        proof {
            assert(queues(rest@) =~= all.remove_keys(done));
            assert(queues(kept@) =~= all.restrict(done));
        }
        let mut left: usize = rest.len();
        while left > 0
            invariant
                left == rest.entries().len(),
                p == self.policy,
                queues(rest@) == all.remove_keys(done),
                forall|u: u16| #[trigger]
                    queues(kept@).contains_key(u) <==> (done.contains(u) && all.contains_key(u)
                        && counting_outcomes(all[u], p, now).len() > 0),
                forall|u: u16| #[trigger]
                    queues(kept@).contains_key(u) ==> queues(kept@)[u] == counting_outcomes(
                        all[u],
                        p,
                        now,
                    ),
                self.caps == old(self).caps,
                self.units == old(self).units,
                self.delivery == old(self).delivery,
                self.policy == old(self).policy,
                self.persistence_path == old(self).persistence_path,
            decreases left,
        {
            let ghost before = rest@;
            let ghost kept_before = kept@;
            let _ = rest.len();
            let (uid, mut q) = rest.remove_at(0);
            proof {
                assert(before.contains_key(uid) && before[uid] == q);
                assert(queues(before).contains_key(uid) && queues(before)[uid] == q@);
                assert(all.contains_key(uid) && all[uid] == q@);
                assert(!done.contains(uid));
            }
            evict_timed(&mut q, now, self.policy.window_ttl, self.policy.window_size);
            if q.len() > 0 {
                kept.insert(uid, q);
                proof {
                    assert(queues(kept@) =~= queues(kept_before).insert(uid, q@));
                }
            }
            proof {
                assert(queues(rest@) =~= queues(before).remove(uid));
                assert(queues(before).remove(uid) =~= all.remove_keys(done.insert(uid)));
                done = done.insert(uid);
            }
            left -= 1;
        }
        let none = rest.is_empty();
        proof {
            assert(none);
            assert forall|u: u16| all.contains_key(u) implies done.contains(u) by {
                if !done.contains(u) {
                    assert(queues(rest@).contains_key(u));
                    assert(rest@.contains_key(u));
                }
            }
        }
        self.windows = kept;
        proof {
            assert(self@ =~= old(self)@.without_stale(p, now));
        }
    }

    fn window_to_json(
        &self,
        q: &VecDeque<Timed<Outcome>>,
        numbers: &Vec<Json>,
        now: u64,
        now_secs: u64,
    ) -> (r: Json)
        requires
            self.policy.ticks_per_sec > 0,
            numbers@.len() == q@.len(),
        ensures
            r@ == window_json(q@, numbers@, self.policy, now, now_secs),
    {
        let n: usize = q.len();
        let mut list: Vec<Json> = Vec::new();
        let mut i: usize = 0;
        while i < n
            invariant
                n == q@.len(),
                numbers@.len() == n,
                self.policy.ticks_per_sec > 0,
                i <= n,
                list@.len() == i,
                forall|k: int|
                    0 <= k < i ==> (#[trigger] list@[k])@ == outcome_json(
                        q@[k],
                        numbers@[k]@,
                        self.policy,
                        now,
                        now_secs,
                    ),
            decreases n - i,
        {
            let t = &q[i];
            let elapsed: u64 = now.saturating_sub(t.at) / self.policy.ticks_per_sec;
            let mut triple: Vec<Json> = Vec::new();
            triple.push(Json::Unsigned(now_secs.saturating_sub(elapsed)));
            triple.push(Json::Bool(t.what.0));
            triple.push(numbers[i].copy());
            proof {
                lemma_items(triple@);
                assert(items(triple@) =~= seq![
                    triple@[0]@,
                    JsonV::Bool(t.what.0),
                    numbers@[i as int]@,
                ]);
                reveal_with_fuel(items, 2);
            }
            let one = Json::Array(triple);
            proof {
                assert(one@ == JsonV::Array(items(triple@)));
                assert(one@ == outcome_json(
                    q@[i as int],
                    numbers@[i as int]@,
                    self.policy,
                    now,
                    now_secs,
                ));
            }
            list.push(one);
            i += 1;
        }
        proof {
            lemma_items(list@);
            assert(items(list@) =~= Seq::new(
                q@.len(),
                |k: int| outcome_json(q@[k], numbers@[k]@, self.policy, now, now_secs),
            ));
        }
        Json::Array(list)
    }

    fn capacity_to_json(&self, uid: u16, cap: usize) -> (r: Json)
        ensures
            r@ == capacity_json(cap, results_of(self@.caps.results, uid)),
    {
        let ghost results = results_of(self@.caps.results, uid);
        let mut bools: Vec<Json> = Vec::new();
        match self.caps.at_cap_results.get(&uid) {
            Some(q) => {
                let n: usize = q.len();
                let mut i: usize = 0;
                while i < n
                    invariant
                        n == q@.len(),
                        i <= n,
                        bools@.len() == i,
                        forall|k: int|
                            0 <= k < i ==> (#[trigger] bools@[k])@ == JsonV::Bool(q@[k]),
                    decreases n - i,
                {
                    bools.push(Json::Bool(q[i]));
                    i += 1;
                }
            },
            None => {},
        }
        proof {
            lemma_items(bools@);
            assert(items(bools@) =~= Seq::new(results.len(), |i: int| JsonV::Bool(results[i])));
        }
        let mut pair: Vec<Json> = Vec::new();
        pair.push(Json::Unsigned(cap as u64));
        pair.push(Json::Array(bools));
        proof {
            lemma_items(pair@);
            assert(items(pair@) =~= seq![JsonV::Int(cap as int), bools_json(results)]);
        }
        Json::Array(pair)
    }

    /// Everything that is stored: the outcomes that count and the capacities.
    /// `numbers` holds the times of each miner's outcomes as numbers.
    pub fn to_json(&self, numbers: &UidMap<Vec<Json>>, now: u64, now_secs: u64) -> (r: Json)
        requires
            self.policy.ticks_per_sec > 0,
            forall|u: u16| #[trigger]
                self@.windows.contains_key(u) ==> numbers@.contains_key(u) && numbers@[u]@.len()
                    == self@.windows[u].len(),
        ensures
            r@ == stored_json(self@, numbers@, self.policy, now, now_secs),
    {
        let n: usize = self.windows.len();
        let ghost entries = self.windows.entries();
        let ghost window = |u: u16|
            window_json(self@.windows[u], numbers@[u]@, self.policy, now, now_secs);
        let mut windows: Vec<(String, Json)> = Vec::new();
        let mut i: usize = 0;
        let ghost mut done: Set<u16> = Set::empty();
        proof {
            crate::json::lemma_members_empty(windows@);
            assert(by_uid(done, window) =~= Map::<Seq<char>, JsonV>::empty());
        }
        while i < n
            invariant
                self.policy.ticks_per_sec > 0,
                entries == self.windows.entries(),
                n == entries.len(),
                i <= n,
                window == (|u: u16|
                    window_json(self@.windows[u], numbers@[u]@, self.policy, now, now_secs)),
                forall|k: int|
                    0 <= k < entries.len() ==> {
                        &&& self.windows@.contains_key((#[trigger] entries[k]).0)
                        &&& self.windows@[entries[k].0] == entries[k].1
                    },
                forall|u: u16| #[trigger]
                    self@.windows.contains_key(u) ==> numbers@.contains_key(u)
                        && numbers@[u]@.len() == self@.windows[u].len(),
                forall|u: u16| #[trigger] done.contains(u) ==> self@.windows.contains_key(u),
                forall|k: int| 0 <= k < i ==> done.contains((#[trigger] entries[k]).0),
                crate::json::members(windows@) == by_uid(done, window),
            decreases n - i,
        {
            let uid: u16 = *self.windows.key_at(i);
            let q = self.windows.value_at(i);
            proof {
                assert(entries[i as int].0 == uid);
                assert(self@.windows.contains_key(uid));
                assert(self@.windows[uid] == q@);
            }
            if let Some(times) = numbers.get(&uid) {
                let one = self.window_to_json(q, times, now, now_secs);
                proof {
                    assert(one@ == window(uid));
                    lemma_by_uid_insert(done, window, uid);
                    done = done.insert(uid);
                }
                put(&mut windows, decimal(uid as u64).as_str(), one);
            }
            i += 1;
        }
        proof {
            assert forall|u: u16| #[trigger] self@.windows.contains_key(u) implies done.contains(
                u,
            ) by {
                assert(self.windows@.contains_key(u));
                let k = choose|k: int| 0 <= k < entries.len() && (#[trigger] entries[k]).0@ == u;
                assert(done.contains(entries[k].0));
            }
            assert(done =~= self@.windows.dom());
        }
        let m: usize = self.caps.adaptive_caps.len();
        let ghost caps = self.caps.adaptive_caps.entries();
        let ghost capacity = |u: u16|
            capacity_json(self@.caps.caps[u], results_of(self@.caps.results, u));
        let mut capacities: Vec<(String, Json)> = Vec::new();
        let mut k: usize = 0;
        let ghost mut named: Set<u16> = Set::empty();
        proof {
            crate::json::lemma_members_empty(capacities@);
            assert(by_uid(named, capacity) =~= Map::<Seq<char>, JsonV>::empty());
        }
        while k < m
            invariant
                caps == self.caps.adaptive_caps.entries(),
                m == caps.len(),
                k <= m,
                capacity == (|u: u16|
                    capacity_json(self@.caps.caps[u], results_of(self@.caps.results, u))),
                forall|j: int|
                    0 <= j < caps.len() ==> {
                        &&& self.caps.adaptive_caps@.contains_key((#[trigger] caps[j]).0)
                        &&& self.caps.adaptive_caps@[caps[j].0] == caps[j].1
                    },
                forall|u: u16| #[trigger] named.contains(u) ==> self@.caps.caps.contains_key(u),
                forall|j: int| 0 <= j < k ==> named.contains((#[trigger] caps[j]).0),
                crate::json::members(capacities@) == by_uid(named, capacity),
            decreases m - k,
        {
            let uid: u16 = *self.caps.adaptive_caps.key_at(k);
            let cap: usize = *self.caps.adaptive_caps.value_at(k);
            let one = self.capacity_to_json(uid, cap);
            proof {
                assert(caps[k as int].0 == uid);
                assert(one@ == capacity(uid));
                lemma_by_uid_insert(named, capacity, uid);
                named = named.insert(uid);
            }
            put(&mut capacities, decimal(uid as u64).as_str(), one);
            k += 1;
        }
        proof {
            assert forall|u: u16| #[trigger] self@.caps.caps.contains_key(u) implies named.contains(
                u,
            ) by {
                let j = choose|j: int| 0 <= j < caps.len() && (#[trigger] caps[j]).0@ == u;
                assert(named.contains(caps[j].0));
            }
            assert(named =~= self@.caps.caps.dom());
        }
        let mut list: Vec<(String, Json)> = Vec::new();
        proof {
            crate::json::lemma_members_empty(list@);
        }
        put(&mut list, "windows", Json::Object(windows));
        put(&mut list, "capacities", Json::Object(capacities));
        Json::Object(list)
    }

    /// Where everything is to be stored and as what text, if there is a place.
    pub fn save(&self, numbers: &UidMap<Vec<Json>>, now: u64, now_secs: u64) -> (r: Option<
        (String, Vec<u8>),
    >)
        requires
            self.policy.ticks_per_sec > 0,
            forall|u: u16| #[trigger]
                self@.windows.contains_key(u) ==> numbers@.contains_key(u) && numbers@[u]@.len()
                    == self@.windows[u].len(),
        ensures
            r is Some == self.persistence_path is Some,
            r matches Some((path, text)) ==> Some(path) == self.persistence_path && text@
                == json_bytes(
                json_normal(stored_json(self@, numbers@, self.policy, now, now_secs)),
            ),
    {
        match &self.persistence_path {
            Some(path) => Some(
                (path.clone(), self.to_json(numbers, now, now_secs).to_bytes()),
            ),
            None => None,
        }
    }

    /// Takes over what was stored in an earlier session: the outcomes that still
    /// count, and the capacities, as far as they can be read.
    pub fn load(
        &mut self,
        windows: &Vec<(u16, Vec<(u64, bool, u64)>)>,
        capacities: Option<&Vec<(String, Json)>>,
        now: u64,
        now_secs: u64,
    )
        requires
            old(self).policy.ticks_per_sec > 0,
        ensures
            final(self)@ == (PerfV {
                windows: windows_restored(
                    old(self)@.windows,
                    windows@,
                    old(self).policy,
                    now,
                    now_secs,
                ),
                caps: capacities_restored(old(self)@.caps, member_list(capacities), now),
                ..old(self)@
            }),
            final(self).policy == old(self).policy,
            final(self).persistence_path == old(self).persistence_path,
    {
        let ghost p = self.policy;
        let mut i: usize = 0;
        proof {
            assert(windows@.take(0).len() == 0);
        }
        while i < windows.len()
            invariant
                p == self.policy,
                p == old(self).policy,
                p.ticks_per_sec > 0,
                i <= windows@.len(),
                queues(self.windows@) == windows_restored(
                    old(self)@.windows,
                    windows@.take(i as int),
                    p,
                    now,
                    now_secs,
                ),
                self.caps == old(self).caps,
                self.units == old(self).units,
                self.delivery == old(self).delivery,
                self.persistence_path == old(self).persistence_path,
            decreases windows@.len() - i,
        {
            let ghost before = self.windows@;
            proof {
                assert(windows@.take(i + 1).drop_last() =~= windows@.take(i as int));
                assert(windows@.take(i + 1).last() == windows@[i as int]);
            }
            let q = restore_outcomes(&windows[i].1, self.policy, now, now_secs);
            if q.len() > 0 {
                self.windows.insert(windows[i].0, q);
                proof {
                    assert(queues(self.windows@) =~= queues(before).insert(
                        windows@[i as int].0,
                        q@,
                    ));
                }
            }
            i += 1;
        }
        proof {
            assert(windows@.take(i as int) =~= windows@);
        }
        if let Some(list) = capacities {
            self.load_capacities(list, now);
        }
        proof {
            assert(self@ =~= PerfV {
                windows: windows_restored(old(self)@.windows, windows@, p, now, now_secs),
                caps: capacities_restored(old(self)@.caps, member_list(capacities), now),
                ..old(self)@
            });
        }
    }

    fn load_capacities(&mut self, list: &Vec<(String, Json)>, now: u64)
        ensures
            final(self)@ == (PerfV {
                caps: capacities_restored(old(self)@.caps, list@, now),
                ..old(self)@
            }),
            final(self).policy == old(self).policy,
            final(self).persistence_path == old(self).persistence_path,
    {
        let mut i: usize = 0;
        proof {
            assert(list@.take(0).len() == 0);
        }
        while i < list.len()
            invariant
                i <= list@.len(),
                self@.caps == capacities_restored(old(self)@.caps, list@.take(i as int), now),
                self.windows == old(self).windows,
                self.units == old(self).units,
                self.delivery == old(self).delivery,
                self.policy == old(self).policy,
                self.persistence_path == old(self).persistence_path,
            decreases list@.len() - i,
        {
            proof {
                assert(list@.take(i + 1).drop_last() =~= list@.take(i as int));
                assert(list@.take(i + 1).last() == list@[i as int]);
            }
            if let Some(uid) = parse_unsigned(list[i].0.as_str(), u16::MAX as u64) {
                if let Some((cap, results)) = read_capacity(&list[i].1) {
                    self.caps.restore(uid as u16, cap, results, now);
                }
            }
            i += 1;
        }
        proof {
            assert(list@.take(i as int) =~= list@);
        }
    }

    /// Forgets a miner, and the changes that are remembered under its hotkey.
    pub fn reset_uid(&mut self, uid: u16, hotkey: &str)
        ensures
            final(self)@ == old(self)@.reset(uid, hotkey@),
            final(self).policy == old(self).policy,
            final(self).persistence_path == old(self).persistence_path,
    {
        self.windows.remove(&uid);
        self.caps.reset_uid(uid, hotkey);
        self.units.reset_uid(uid);
        self.delivery.reset_uid(uid);
        proof {
            assert(self@.windows =~= old(self)@.windows.remove(uid));
            assert(self@ =~= old(self)@.reset(uid, hotkey@));
        }
    }
}

/// A capacity that was stored is read back, but for the limits, with its results.
pub proof fn stored_capacities_read_back(cap: usize, results: Seq<bool>)
    requires
        cap <= u64::MAX,
    ensures
        capacity_in(capacity_json(cap, results)) == Some((cap as u64, results)),
        1 <= restored_cap(cap as u64),
        1 <= cap <= crate::capacity::RESTORED_CAP_MAX ==> restored_cap(cap as u64) == cap,
{
    let v = capacity_json(cap, results);
    assert(v.list()->0[1] == bools_json(results));
    lemma_bools(results);
    assert(bools_json(results).list() == Some(
        Seq::new(results.len(), |i: int| JsonV::Bool(results[i])),
    ));
}

proof fn lemma_bools(s: Seq<bool>)
    ensures
        bools_in(Seq::new(s.len(), |i: int| JsonV::Bool(s[i]))) == s,
    decreases s.len(),
{
    let t = Seq::new(s.len(), |i: int| JsonV::Bool(s[i]));
    if s.len() > 0 {
        let d = s.drop_last();
        lemma_bools(d);
        assert(t.drop_last() =~= Seq::new(d.len(), |i: int| JsonV::Bool(d[i])));
        assert(t.last() == JsonV::Bool(s.last()));
        assert(d.push(s.last()) =~= s);
    } else {
        assert(s =~= Seq::empty());
    }
}

/// An outcome that was stored can be read back: it went as well as it did, and
/// took as long.
pub proof fn stored_outcomes_read_back(
    t: Timed<Outcome>,
    number: JsonV,
    p: PerformancePolicy,
    now: u64,
    now_secs: u64,
)
    requires
        is_number(number),
        p.ticks_per_sec > 0,
    ensures
        is_outcome(outcome_json(t, number, p, now, now_secs)),
        outcome_in(outcome_json(t, number, p, now, now_secs)).1 == t.what.0,
        outcome_in(outcome_json(t, number, p, now, now_secs)).2 == number,
{
    let v = outcome_json(t, number, p, now, now_secs);
    let elapsed = minus(now, t.at) / p.ticks_per_sec;
    assert(elapsed >= 0) by (nonlinear_arith)
        requires
            p.ticks_per_sec > 0,
            minus(now, t.at) >= 0,
            elapsed == minus(now, t.at) / p.ticks_per_sec,
    ;
    assert(v.list()->0[0].unsigned() is Some);
    assert(v.list()->0[1] is Bool);
    assert(v.list()->0[2] == number);
}

/// A miner of which nothing is remembered is given one piece at a time, whatever
/// others were given.
pub proof fn forgotten_miners_start_over(v: PerfV, p: PerformancePolicy, uid: u16, hotkey: Seq<char>)
    ensures
        !v.reset(uid, hotkey).windows.contains_key(uid),
        !v.reset(uid, hotkey).capacities(p).contains_key(uid),
        v.reset(uid, hotkey).caps.cap_or_one(uid) == 1,
        forall|other: u16|
            other != uid && #[trigger] v.capacities(p).contains_key(other) ==> v.reset(
                uid,
                hotkey,
            ).capacities(p)[other] == v.capacities(p)[other],
{
}

} // verus!
