//! How long miners take for the different units of work. Times are numbers that
//! are ordered as the times they stand for, and zero stands for no time.

use std::collections::VecDeque;
use vstd::prelude::*;
use vstd::string::*;

use crate::keyed::{MapKey, StrMap, UidMap, VecMap};
use crate::rsv::minus;
use crate::text::str_eq;
use crate::timed::{
    ascending, fresh, fresh_samples, newest, push_sample, queues, samples_of, sort_numbers,
    unexpired, values, Timed,
};

verus! {

/// After how many records a reference time is worked out anew.
pub const UNIT_REFERENCE_REFRESH_RECORDS: u64 = 64;

/// How many times are kept for a unit.
pub const UNIT_TIMES_CAP: usize = 256;

/// How many times a reference time takes.
pub const UNIT_REFERENCE_MIN_SAMPLES: usize = 8;

/// How many speeds are kept for a miner.
pub const REL_SPEED_WINDOW: usize = 64;

/// A miner at a unit of work.
#[derive(Debug)]
pub struct MinerUnit {
    pub uid: u16,
    pub unit: String,
}

impl View for MinerUnit {
    type V = (u16, Seq<char>);

    open spec fn view(&self) -> (u16, Seq<char>) {
        (self.uid, self.unit@)
    }
}

impl MapKey for MinerUnit {
    type Query = MinerUnit;

    open spec fn query_view(q: &MinerUnit) -> (u16, Seq<char>) {
        q@
    }

    fn matches(&self, q: &MinerUnit) -> (r: bool) {
        self.uid == q.uid && str_eq(self.unit.as_str(), q.unit.as_str())
    }

    fn as_query(&self) -> (q: &MinerUnit) {
        self
    }
}

/// The times that were taken.
pub struct UnitBook {
    pub unit_times: StrMap<VecDeque<Timed<u64>>>,
    pub unit_reference_cache: StrMap<(u64, u64)>,
    pub rel_speed: UidMap<VecDeque<Timed<u64>>>,
    pub unit_own_best: VecMap<MinerUnit, (u64, u64)>,
    pub min_service: UidMap<VecDeque<Timed<u64>>>,
    pub total_records: u64,
}

/// The times that were taken: for each unit, for each miner, and the best of each
/// miner at each unit with when it was taken.
#[verifier::ext_equal]
pub struct UnitsV {
    pub times: Map<Seq<char>, Seq<Timed<u64>>>,
    pub cache: Map<Seq<char>, (u64, u64)>,
    pub rel_speed: Map<u16, Seq<Timed<u64>>>,
    pub best: Map<(u16, Seq<char>), (u64, u64)>,
    pub min_service: Map<u16, Seq<Timed<u64>>>,
    pub total: u64,
}

impl View for UnitBook {
    type V = UnitsV;

    open spec fn view(&self) -> UnitsV {
        UnitsV {
            times: queues(self.unit_times@),
            cache: self.unit_reference_cache@,
            rel_speed: queues(self.rel_speed@),
            best: self.unit_own_best@,
            min_service: queues(self.min_service@),
            total: self.total_records,
        }
    }
}

/// The item of a sorted list at a position, or its last one.
pub open spec fn ranked(s: Seq<u64>, index: usize) -> u64 {
    ascending(s)[if index < s.len() {
        index as int
    } else {
        s.len() - 1
    }]
}

impl UnitsV {
    /// No time has been taken.
    pub open spec fn empty() -> UnitsV {
        UnitsV {
            times: Map::empty(),
            cache: Map::empty(),
            rel_speed: Map::empty(),
            best: Map::empty(),
            min_service: Map::empty(),
            total: 0,
        }
    }

    /// A miner's best time at a unit once it has taken one more, with when it was
    /// taken. The best stands for a while, and only then gives way to a slower one.
    pub open spec fn best_after(self, uid: u16, unit: Seq<char>, time: u64, at: u64, ttl: u64) -> (
        u64,
        u64,
    ) {
        if self.best.contains_key((uid, unit)) && time > self.best[(uid, unit)].1 && minus(
            at,
            self.best[(uid, unit)].0,
        ) <= ttl {
            self.best[(uid, unit)]
        } else {
            (at, time)
        }
    }

    /// One more time has been taken.
    pub open spec fn timed(
        self,
        uid: u16,
        unit: Seq<char>,
        time: u64,
        at: u64,
        now: u64,
        ttl: u64,
    ) -> UnitsV {
        let best = self.best_after(uid, unit, time, at, ttl);
        UnitsV {
            times: self.times.insert(
                unit,
                newest(
                    unexpired(
                        samples_of(self.times, unit).push(Timed { at, what: time }),
                        now,
                        ttl,
                    ),
                    UNIT_TIMES_CAP as nat,
                ),
            ),
            best: self.best.insert((uid, unit), best),
            min_service: if best.1 > 0 {
                self.min_service.insert(
                    uid,
                    newest(
                        unexpired(
                            samples_of(self.min_service, uid).push(Timed { at, what: best.1 }),
                            now,
                            ttl,
                        ),
                        REL_SPEED_WINDOW as nat,
                    ),
                )
            } else {
                self.min_service
            },
            ..self
        }
    }

    /// The reference time of a unit: the one at a position among all that were
    /// taken, from the shortest; zero where there are too few.
    pub open spec fn reference(self, unit: Seq<char>, index: usize) -> u64 {
        let s = samples_of(self.times, unit);
        if s.len() < UNIT_REFERENCE_MIN_SAMPLES {
            0
        } else {
            ranked(values(s), index)
        }
    }

    /// Whether the reference time of a unit need not be worked out anew.
    pub open spec fn is_cached(self, unit: Seq<char>) -> bool {
        self.cache.contains_key(unit) && minus(self.total, self.cache[unit].0)
            < UNIT_REFERENCE_REFRESH_RECORDS
    }

    /// Nothing is known of a miner any longer.
    pub open spec fn reset(self, uid: u16) -> UnitsV {
        UnitsV {
            rel_speed: self.rel_speed.remove(uid),
            best: self.best.remove_keys(units_of(uid)),
            min_service: self.min_service.remove(uid),
            ..self
        }
    }
}

/// A miner with any unit.
pub open spec fn units_of(uid: u16) -> Set<(u16, Seq<char>)> {
    Set::new(|k: (u16, Seq<char>)| k.0 == uid)
}

impl UnitBook {
    /// No time has been taken.
    pub fn new() -> (b: Self)
        ensures
            b@ == UnitsV::empty(),
    {
        let b = UnitBook {
            unit_times: VecMap::new(),
            unit_reference_cache: VecMap::new(),
            rel_speed: VecMap::new(),
            unit_own_best: VecMap::new(),
            min_service: VecMap::new(),
            total_records: 0,
        };
        proof {
            assert(b@ =~= UnitsV::empty());
        }
        b
    }

    /// Counts a record.
    pub fn count_record(&mut self)
        ensures
            final(self)@ == (UnitsV {
                total: if old(self)@.total == u64::MAX {
                    0
                } else {
                    (old(self)@.total + 1) as u64
                },
                ..old(self)@
            }),
    {
        self.total_records = if self.total_records == u64::MAX {
            0
        } else {
            self.total_records + 1
        };
    }

    /// Takes in how long a miner took for a unit. The result is the miner's best
    /// time at it.
    pub fn note_time(&mut self, uid: u16, unit: &str, time: u64, at: u64, now: u64, ttl: u64) -> (best:
        u64)
        ensures
            final(self)@ == old(self)@.timed(uid, unit@, time, at, now, ttl),
            best == old(self)@.best_after(uid, unit@, time, at, ttl).1,
    {
        push_sample(
            &mut self.unit_times,
            unit.to_owned(),
            Timed { at, what: time },
            now,
            ttl,
            UNIT_TIMES_CAP,
        );
        let key = MinerUnit { uid, unit: unit.to_owned() };
        let best: (u64, u64) = match self.unit_own_best.get(&key) {
            Some(b) => if time > b.1 && at.saturating_sub(b.0) <= ttl {
                *b
            } else {
                (at, time)
            },
            None => (at, time),
        };
        self.unit_own_best.insert(key, best);
        if best.1 > 0 {
            push_sample(
                &mut self.min_service,
                uid,
                Timed { at, what: best.1 },
                now,
                ttl,
                REL_SPEED_WINDOW,
            );
        }
        proof {
            assert(self@ =~= old(self)@.timed(uid, unit@, time, at, now, ttl));
        }
        best.1
    }

    /// How many times are kept for a unit.
    pub fn reference_samples(&self, unit: &str) -> (n: usize)
        ensures
            n == samples_of(self@.times, unit@).len(),
    {
        match self.unit_times.get(unit) {
            Some(q) => q.len(),
            None => 0,
        }
    }

    /// The reference time of a unit.
    pub fn unit_reference(&self, unit: &str, index: usize) -> (r: u64)
        ensures
            r == self@.reference(unit@, index),
    {
        match self.unit_times.get(unit) {
            None => 0,
            Some(q) => {
                let n: usize = q.len();
                if n < UNIT_REFERENCE_MIN_SAMPLES {
                    return 0;
                }
                let sorted = sort_numbers(listed_values(q));
                let at: usize = if index < n {
                    index
                } else {
                    n - 1
                };
                sorted[at]
            },
        }
    }

    /// The reference time of a unit, worked out anew once in a while.
    pub fn cached_unit_reference(&mut self, unit: &str, index: usize) -> (r: u64)
        ensures
            old(self)@.is_cached(unit@) ==> r == old(self)@.cache[unit@].1 && final(self)@ == old(
                self,
            )@,
            !old(self)@.is_cached(unit@) ==> r == old(self)@.reference(unit@, index)
                && final(self)@ == (UnitsV {
                cache: if r > 0 {
                    old(self)@.cache.insert(unit@, (old(self)@.total, r))
                } else {
                    old(self)@.cache
                },
                ..old(self)@
            }),
    {
        if let Some(c) = self.unit_reference_cache.get(unit) {
            if self.total_records.saturating_sub(c.0) < UNIT_REFERENCE_REFRESH_RECORDS {
                return c.1;
            }
        }
        let reference: u64 = self.unit_reference(unit, index);
        if reference > 0 {
            self.unit_reference_cache.insert(unit.to_owned(), (self.total_records, reference));
        }
        reference
    }

    /// Takes in how fast a miner is compared with others.
    pub fn note_rel_speed(&mut self, uid: u16, rel: u64, at: u64, now: u64, ttl: u64)
        ensures
            final(self)@ == (UnitsV {
                rel_speed: old(self)@.rel_speed.insert(
                    uid,
                    newest(
                        unexpired(
                            samples_of(old(self)@.rel_speed, uid).push(Timed { at, what: rel }),
                            now,
                            ttl,
                        ),
                        REL_SPEED_WINDOW as nat,
                    ),
                ),
                ..old(self)@
            }),
    {
        push_sample(
            &mut self.rel_speed,
            uid,
            Timed { at, what: rel },
            now,
            ttl,
            REL_SPEED_WINDOW,
        );
    }

    /// How fast a miner was of late, sample by sample.
    pub fn rel_speeds(&self, uid: u16, now: u64, ttl: u64) -> (r: Vec<u64>)
        ensures
            r@ == values(fresh(samples_of(self@.rel_speed, uid), now, ttl)),
    {
        fresh_values(&self.rel_speed, uid, now, ttl)
    }

    /// How long a miner takes when it is not kept waiting: the median of its best
    /// times for the units that it completed of late.
    pub fn uncongested_service_time(&self, uid: u16, now: u64, ttl: u64) -> (r: Option<u64>)
        ensures
            ({
                let times = values(fresh(samples_of(self@.min_service, uid), now, ttl));
                match r {
                    Some(t) => times.len() > 0 && t == ascending(times)[times.len() as int / 2],
                    None => times.len() == 0,
                }
            }),
    {
        let times = fresh_values(&self.min_service, uid, now, ttl);
        let n: usize = times.len();
        if n == 0 {
            return None;
        }
        let sorted = sort_numbers(times);
        Some(sorted[n / 2])
    }

    /// Forgets a miner.
    pub fn reset_uid(&mut self, uid: u16)
        ensures
            final(self)@ == old(self)@.reset(uid),
    {
        self.rel_speed.remove(&uid);
        self.min_service.remove(&uid);
        let mut i: usize = 0;
        let ghost start = self.unit_own_best@;
        let n: usize = self.unit_own_best.len();
        let ghost entries = self.unit_own_best.entries();
        let ghost mut gone: Set<(u16, Seq<char>)> = Set::empty();
        proof {
            assert(start.remove_keys(gone) =~= start);
        }
        while i < self.unit_own_best.len()
            invariant
                i <= self.unit_own_best.entries().len(),
                start == old(self).unit_own_best@,
                self.unit_own_best@ == start.remove_keys(gone),
                gone.subset_of(units_of(uid)),
                forall|k: int|
                    0 <= k < i ==> (#[trigger] self.unit_own_best.entries()[k]).0.uid != uid,
                self.unit_times == old(self).unit_times,
                self.unit_reference_cache == old(self).unit_reference_cache,
                self.rel_speed@ == old(self).rel_speed@.remove(uid),
                self.min_service@ == old(self).min_service@.remove(uid),
                self.total_records == old(self).total_records,
            decreases self.unit_own_best.entries().len() - i,
        {
            if self.unit_own_best.key_at(i).uid == uid {
                let ghost k = self.unit_own_best.entries()[i as int].0@;
                let ghost before = self.unit_own_best.entries();
                let ghost m = self.unit_own_best@;
                self.unit_own_best.remove_at(i);
                proof {
                    gone = gone.insert(k);
                    assert(m.remove(k) =~= start.remove_keys(gone));
                    assert forall|j: int| 0 <= j < i implies (
                    #[trigger] self.unit_own_best.entries()[j]).0.uid != uid by {
                        assert(self.unit_own_best.entries()[j] == before[j]);
                    }
                }
            } else {
                i += 1;
            }
        }
        proof {
            let kept = self.unit_own_best@;
            assert(kept =~= start.remove_keys(units_of(uid))) by {
                assert forall|k: (u16, Seq<char>)| kept.contains_key(k) implies k.0 != uid by {
                    let e = self.unit_own_best.entries();
                    let j = choose|j: int| 0 <= j < e.len() && (#[trigger] e[j]).0@ == k;
                    assert(e[j].0.uid != uid);
                }
            }
            assert(self@.rel_speed =~= old(self)@.rel_speed.remove(uid));
            assert(self@.min_service =~= old(self)@.min_service.remove(uid));
            assert(self@ =~= old(self)@.reset(uid));
        }
    }
}

fn listed_values(q: &VecDeque<Timed<u64>>) -> (r: Vec<u64>)
    ensures
        r@ == values(q@),
{
    let n: usize = q.len();
    let mut r: Vec<u64> = Vec::new();
    let mut i: usize = 0;
    while i < n
        invariant
            n == q@.len(),
            i <= n,
            r@ == values(q@).take(i as int),
        decreases n - i,
    {
        r.push(q[i].what);
        proof {
            assert(r@ =~= values(q@).take(i + 1));
        }
        i += 1;
    }
    proof {
        assert(values(q@).take(i as int) =~= values(q@));
    }
    r
}

fn fresh_values(m: &UidMap<VecDeque<Timed<u64>>>, uid: u16, now: u64, ttl: u64) -> (r: Vec<u64>)
    ensures
        r@ == values(fresh(samples_of(queues(m@), uid), now, ttl)),
{
    let mut r: Vec<u64> = Vec::new();
    match m.get(&uid) {
        None => {
            proof {
                assert(fresh(Seq::<Timed<u64>>::empty(), now, ttl) =~= Seq::empty());
                assert(r@ =~= values(Seq::<Timed<u64>>::empty()));
            }
        },
        Some(q) => {
            let kept = fresh_samples(q, now, ttl);
            let mut i: usize = 0;
            while i < kept.len()
                invariant
                    i <= kept@.len(),
                    r@ == values(kept@).take(i as int),
                decreases kept@.len() - i,
            {
                r.push(kept[i].what);
                proof {
                    assert(r@ =~= values(kept@).take(i + 1));
                }
                i += 1;
            }
            proof {
                assert(values(kept@).take(i as int) =~= values(kept@));
            }
        },
    }
    r
}

/// A miner's best time at a unit is not made worse by a slower one that follows
/// soon enough.
pub proof fn best_times_stand(v: UnitsV, uid: u16, unit: Seq<char>, time: u64, at: u64, now: u64, ttl: u64)
    requires
        v.best.contains_key((uid, unit)),
        minus(at, v.best[(uid, unit)].0) <= ttl,
    ensures
        v.timed(uid, unit, time, at, now, ttl).best[(uid, unit)].1 <= v.best[(uid, unit)].1,
        v.timed(uid, unit, time, at, now, ttl).best[(uid, unit)].1 <= time,
{
}

} // verus!
