//! What miners delivered of late: work that earns them credit, and how many
//! pieces they completed.

use std::collections::VecDeque;
use vstd::prelude::*;

use crate::keyed::{UidMap, VecMap};
use crate::rsv::minus;
use crate::timed::{
    evict_old, fresh, fresh_samples, keep_newest, newest, queues, samples_of, take_samples,
    unexpired, Timed,
};

verus! {

/// The work of a span of time. Credit and debit are amounts that only their sum
/// means something of, kept as their bits.
#[derive(Clone, Copy, Debug, PartialEq, Eq, Structural)]
pub struct WorkBucket {
    pub credit: u64,
    pub debit: u64,
    pub uncredited_failures: u64,
}

/// No work at all.
pub open spec fn no_work() -> WorkBucket {
    WorkBucket { credit: 0, debit: 0, uncredited_failures: 0 }
}

/// The span of a miner's work that is still running, or one without any work.
pub open spec fn running(s: Seq<Timed<WorkBucket>>, now: u64, len: u64) -> WorkBucket {
    if last_is_open(s, now, len) {
        s.last().what
    } else {
        no_work()
    }
}

/// What miners delivered of late.
pub struct DeliveryBook {
    pub delivered_work: UidMap<VecDeque<Timed<WorkBucket>>>,
    pub completion_bins: UidMap<VecDeque<Timed<u32>>>,
}

/// What miners delivered of late.
#[verifier::ext_equal]
pub struct DeliveryV {
    pub work: Map<u16, Seq<Timed<WorkBucket>>>,
    pub bins: Map<u16, Seq<Timed<u32>>>,
}

impl View for DeliveryBook {
    type V = DeliveryV;

    open spec fn view(&self) -> DeliveryV {
        DeliveryV { work: queues(self.delivered_work@), bins: queues(self.completion_bins@) }
    }
}

/// Whether the last span of a list is still running.
pub open spec fn last_is_open<T>(s: Seq<Timed<T>>, now: u64, len: u64) -> bool {
    s.len() > 0 && minus(now, s.last().at) < len
}

/// A list of spans with one put at its end: in the place of the last one while
/// that is running.
pub open spec fn with_bucket(
    s: Seq<Timed<WorkBucket>>,
    now: u64,
    bucket: WorkBucket,
    len: u64,
) -> Seq<Timed<WorkBucket>> {
    if last_is_open(s, now, len) {
        s.drop_last().push(Timed { at: s.last().at, what: bucket })
    } else {
        s.push(Timed { at: now, what: bucket })
    }
}

/// A list of counts with one more completion.
pub open spec fn with_completion(s: Seq<Timed<u32>>, now: u64, len: u64) -> Seq<Timed<u32>> {
    if last_is_open(s, now, len) {
        s.drop_last().push(
            Timed {
                at: s.last().at,
                what: if s.last().what == u32::MAX {
                    u32::MAX
                } else {
                    (s.last().what + 1) as u32
                },
            },
        )
    } else {
        s.push(Timed { at: now, what: 1 })
    }
}

/// What was counted from the start of a list on within a span of time.
pub open spec fn window_count(s: Seq<Timed<u32>>, start: u64, len: u64) -> int
    decreases s.len(),
{
    if s.len() == 0 || minus(s[0].at, start) >= len {
        0
    } else {
        s[0].what + window_count(s.drop_first(), start, len)
    }
}

/// The most that was counted in any span of time that begins with a count.
pub open spec fn best_count(s: Seq<Timed<u32>>, len: u64) -> int
    decreases s.len(),
{
    if s.len() == 0 {
        0
    } else {
        let here = window_count(s, s[0].at, len);
        let later = best_count(s.drop_first(), len);
        if here > later {
            here
        } else {
            later
        }
    }
}

/// The failures in a list of spans that no debit stands for.
pub open spec fn uncredited(s: Seq<Timed<WorkBucket>>) -> int
    decreases s.len(),
{
    if s.len() == 0 {
        0
    } else {
        uncredited(s.drop_last()) + s.last().what.uncredited_failures
    }
}

fn count_in_window(v: &Vec<Timed<u32>>, from: usize, len: u64) -> (r: u128)
    requires
        from < v@.len(),
    ensures
        r == window_count(v@.skip(from as int), v@[from as int].at, len),
{
    let start: u64 = v[from].at;
    let ghost all = v@.skip(from as int);
    let mut total: u128 = 0;
    let mut i: usize = from;
    let n: usize = v.len();
    while i < n && v[i].at.saturating_sub(start) < len
        invariant
            from <= i <= n,
            n == v@.len(),
            all == v@.skip(from as int),
            total <= (i - from) * u32::MAX,
            window_count(all, start, len) == total + window_count(v@.skip(i as int), start, len),
        decreases v@.len() - i,
    {
        let ghost rest = v@.skip(i as int);
        proof {
            assert(rest[0] == v@[i as int]);
            assert(rest.drop_first() =~= v@.skip(i + 1));
            assert((i - from) * u32::MAX + u32::MAX == (i + 1 - from) * u32::MAX)
                by (nonlinear_arith);
            assert((i - from) * u32::MAX <= usize::MAX * u32::MAX) by (nonlinear_arith)
                requires
                    0 <= i - from <= usize::MAX,
            ;
        }
        total = total + v[i].what as u128;
        i += 1;
    }
    proof {
        let rest = v@.skip(i as int);
        if i < v@.len() {
            assert(rest[0] == v@[i as int]);
        }
    }
    total
}

impl DeliveryBook {
    /// Nothing has been delivered.
    pub fn new() -> (b: Self)
        ensures
            b@ == (DeliveryV { work: Map::empty(), bins: Map::empty() }),
    {
        let b = DeliveryBook { delivered_work: VecMap::new(), completion_bins: VecMap::new() };
        proof {
            assert(b@ =~= (DeliveryV { work: Map::empty(), bins: Map::empty() }));
        }
        b
    }

    /// The span of a miner's work that is still running.
    pub fn open_bucket(&self, uid: u16, now: u64, len: u64) -> (r: Option<WorkBucket>)
        ensures
            ({
                let s = samples_of(self@.work, uid);
                match r {
                    Some(b) => last_is_open(s, now, len) && b == s.last().what,
                    None => !last_is_open(s, now, len),
                }
            }),
    {
        match self.delivered_work.get(&uid) {
            None => None,
            Some(q) => {
                let n: usize = q.len();
                if n > 0 && now.saturating_sub(q[n - 1].at) < len {
                    Some(q[n - 1].what)
                } else {
                    None
                }
            },
        }
    }

    /// The span of a miner's work that is still running, or one without any work.
    pub fn running_bucket(&self, uid: u16, now: u64, len: u64) -> (r: WorkBucket)
        ensures
            r == running(samples_of(self@.work, uid), now, len),
    {
        match self.open_bucket(uid, now, len) {
            Some(b) => b,
            None => WorkBucket { credit: 0, debit: 0, uncredited_failures: 0 },
        }
    }

    /// Puts a span of a miner's work at the end, in the place of the last one while
    /// that is running, and forgets those that are older than `ttl`.
    pub fn push_bucketed(&mut self, uid: u16, now: u64, bucket: WorkBucket, len: u64, ttl: u64)
        ensures
            final(self)@ == (DeliveryV {
                work: old(self)@.work.insert(
                    uid,
                    unexpired(
                        with_bucket(samples_of(old(self)@.work, uid), now, bucket, len),
                        now,
                        ttl,
                    ),
                ),
                ..old(self)@
            }),
    {
        let mut q = take_samples(&mut self.delivered_work, &uid);
        let ghost s = q@;
        let n: usize = q.len();
        let mut at: u64 = now;
        if n > 0 && now.saturating_sub(q[n - 1].at) < len {
            if let Some(last) = q.pop_back() {
                at = last.at;
            }
        }
        q.push_back(Timed { at, what: bucket });
        proof {
            assert(q@ =~= with_bucket(s, now, bucket, len));
        }
        evict_old(&mut q, now, ttl);
        self.delivered_work.insert(uid, q);
        proof {
            assert(queues(self.delivered_work@) =~= queues(old(self).delivered_work@).insert(uid, q@));
        }
    }

    /// The spans of a miner's work that are not too old.
    pub fn delivered(&self, uid: u16, now: u64, ttl: u64) -> (r: Vec<Timed<WorkBucket>>)
        ensures
            r@ == fresh(samples_of(self@.work, uid), now, ttl),
    {
        match self.delivered_work.get(&uid) {
            Some(q) => fresh_samples(q, now, ttl),
            None => {
                let r: Vec<Timed<WorkBucket>> = Vec::new();
                proof {
                    assert(fresh(Seq::<Timed<WorkBucket>>::empty(), now, ttl) =~= r@);
                }
                r
            },
        }
    }

    /// A miner's failures of late that no debit stands for, as far as a machine
    /// number goes.
    pub fn uncredited_failures(&self, uid: u16, now: u64, ttl: u64) -> (r: u64)
        ensures
            ({
                let n = uncredited(fresh(samples_of(self@.work, uid), now, ttl));
                r == (if n > u64::MAX {
                    u64::MAX as int
                } else {
                    n
                })
            }),
    {
        let v = self.delivered(uid, now, ttl);
        let mut total: u64 = 0;
        let mut i: usize = 0;
        proof {
            assert(v@.take(0).len() == 0);
        }
        while i < v.len()
            invariant
                i <= v@.len(),
                uncredited(v@.take(i as int)) >= 0,
                total == (if uncredited(v@.take(i as int)) > u64::MAX {
                    u64::MAX as int
                } else {
                    uncredited(v@.take(i as int))
                }),
            decreases v@.len() - i,
        {
            proof {
                assert(v@.take(i + 1).drop_last() =~= v@.take(i as int));
                assert(v@.take(i + 1).last() == v@[i as int]);
            }
            total = total.saturating_add(v[i].what.uncredited_failures);
            i += 1;
        }
        proof {
            assert(v@.take(i as int) =~= v@);
        }
        total
    }

    /// Counts a piece that a miner completed. At most `max_bins` counts are kept.
    pub fn count_completion(&mut self, uid: u16, now: u64, len: u64, max_bins: usize)
        ensures
            final(self)@ == (DeliveryV {
                bins: old(self)@.bins.insert(
                    uid,
                    newest(
                        with_completion(samples_of(old(self)@.bins, uid), now, len),
                        max_bins as nat,
                    ),
                ),
                ..old(self)@
            }),
    {
        let mut q = take_samples(&mut self.completion_bins, &uid);
        let ghost s = q@;
        let n: usize = q.len();
        let mut next = Timed { at: now, what: 1u32 };
        if n > 0 && now.saturating_sub(q[n - 1].at) < len {
            if let Some(last) = q.pop_back() {
                next = Timed { at: last.at, what: last.what.saturating_add(1) };
            }
        }
        q.push_back(next);
        proof {
            assert(q@ =~= with_completion(s, now, len));
        }
        keep_newest(&mut q, max_bins);
        self.completion_bins.insert(uid, q);
        proof {
            assert(queues(self.completion_bins@) =~= queues(old(self).completion_bins@).insert(
                uid,
                q@,
            ));
        }
    }

    /// The most that a miner completed in any span of `window` of late: among the
    /// counts that are at most `horizon` old.
    pub fn delivered_peak(&self, uid: u16, now: u64, window: u64, horizon: u64) -> (r: u128)
        ensures
            r == best_count(fresh(samples_of(self@.bins, uid), now, horizon), window),
    {
        let v: Vec<Timed<u32>> = match self.completion_bins.get(&uid) {
            Some(q) => fresh_samples(q, now, horizon),
            None => {
                proof {
                    assert(fresh(Seq::<Timed<u32>>::empty(), now, horizon).len() == 0);
                }
                return 0;
            },
        };
        let n: usize = v.len();
        let mut best: u128 = 0;
        let mut i: usize = n;
        proof {
            assert(v@.skip(n as int).len() == 0);
        }
        while i > 0
            invariant
                i <= n,
                n == v@.len(),
                best == best_count(v@.skip(i as int), window),
            decreases i,
        {
            i -= 1;
            let here: u128 = count_in_window(&v, i, window);
            proof {
                assert(v@.skip(i as int)[0] == v@[i as int]);
                assert(v@.skip(i as int).drop_first() =~= v@.skip(i + 1));
            }
            if here > best {
                best = here;
            }
        }
        proof {
            assert(v@.skip(0) =~= v@);
        }
        best
    }

    /// Forgets a miner.
    pub fn reset_uid(&mut self, uid: u16)
        ensures
            final(self)@ == (DeliveryV {
                work: old(self)@.work.remove(uid),
                bins: old(self)@.bins.remove(uid),
            }),
    {
        self.delivered_work.remove(&uid);
        self.completion_bins.remove(&uid);
        proof {
            assert(self@.work =~= old(self)@.work.remove(uid));
            assert(self@.bins =~= old(self)@.bins.remove(uid));
        }
    }
}

} // verus!
