//! Samples with the time at which they were taken, and their order.

use std::collections::VecDeque;
use vstd::prelude::*;
use vstd::relations::{sorted_by, total_ordering};

use crate::keyed::{MapKey, VecMap};
use crate::rsv::minus;

verus! {

/// A sample and when it was taken.
#[derive(Debug)]
pub struct Timed<T> {
    pub at: u64,
    pub what: T,
}

/// Samples without those at the front that are older than `ttl`.
pub open spec fn unexpired<T>(s: Seq<Timed<T>>, now: u64, ttl: u64) -> Seq<Timed<T>>
    decreases s.len(),
{
    if s.len() > 0 && minus(now, s[0].at) > ttl {
        unexpired(s.drop_first(), now, ttl)
    } else {
        s
    }
}

/// The last `n` items, or all where there are fewer.
pub open spec fn newest<A>(s: Seq<A>, n: nat) -> Seq<A> {
    if s.len() > n {
        s.skip(s.len() - n)
    } else {
        s
    }
}

/// Takes samples off the front that are too old.
pub fn evict_old<T>(samples: &mut VecDeque<Timed<T>>, now: u64, ttl: u64)
    ensures
        final(samples)@ == unexpired(old(samples)@, now, ttl),
{
    let ghost all = samples@;
    while samples.len() > 0 && now.saturating_sub(samples[0].at) > ttl
        invariant
            unexpired(all, now, ttl) == unexpired(samples@, now, ttl),
            all == old(samples)@,
        decreases samples@.len(),
    {
        let ghost before = samples@;
        let _ = samples.pop_front();
        proof {
            assert(samples@ =~= before.drop_first());
        }
    }
}

/// Takes items off the front while there are more than `cap`.
pub fn keep_newest<A>(items: &mut VecDeque<A>, cap: usize)
    ensures
        final(items)@ == newest(old(items)@, cap as nat),
{
    let ghost all = items@;
    while items.len() > cap
        invariant
            items@.len() <= all.len(),
            all == old(items)@,
            items@ == all.skip(all.len() - items@.len()),
            items@.len() >= cap || items@ == all,
        decreases items@.len(),
    {
        let ghost before = items@;
        let _ = items.pop_front();
        proof {
            assert(items@ =~= before.drop_first());
            assert(items@ =~= all.skip(all.len() - items@.len()));
        }
    }
}

/// Takes items off the front of a list while there are more than `cap`.
pub fn keep_newest_listed<A>(items: Vec<A>, cap: usize) -> (r: Vec<A>)
    ensures
        r@ == newest(items@, cap as nat),
{
    let n: usize = items.len();
    if n <= cap {
        return items;
    }
    let mut head = items;
    head.split_off(n - cap)
}

/// Takes samples off the front that are too old, and then those beyond `cap`.
pub fn evict_timed<T>(samples: &mut VecDeque<Timed<T>>, now: u64, ttl: u64, cap: usize)
    ensures
        final(samples)@ == newest(unexpired(old(samples)@, now, ttl), cap as nat),
{
    evict_old(samples, now, ttl);
    keep_newest(samples, cap);
}

/// The samples that are not too old.
pub open spec fn fresh<T>(s: Seq<Timed<T>>, now: u64, ttl: u64) -> Seq<Timed<T>>
    decreases s.len(),
{
    if s.len() == 0 {
        Seq::empty()
    } else {
        let r = fresh(s.drop_last(), now, ttl);
        if minus(now, s.last().at) <= ttl {
            r.push(s.last())
        } else {
            r
        }
    }
}

/// What the samples are.
pub open spec fn values<T>(s: Seq<Timed<T>>) -> Seq<T> {
    s.map_values(|t: Timed<T>| t.what)
}

/// Lists the samples that are not too old.
pub fn fresh_samples<T: Copy>(samples: &VecDeque<Timed<T>>, now: u64, ttl: u64) -> (r: Vec<
    Timed<T>,
>)
    ensures
        r@ == fresh(samples@, now, ttl),
{
    let n: usize = samples.len();
    let mut r: Vec<Timed<T>> = Vec::new();
    let mut i: usize = 0;
    proof {
        assert(samples@.take(0).len() == 0);
    }
    while i < n
        invariant
            n == samples@.len(),
            i <= n,
            r@ == fresh(samples@.take(i as int), now, ttl),
        decreases n - i,
    {
        proof {
            assert(samples@.take(i + 1).drop_last() =~= samples@.take(i as int));
            assert(samples@.take(i + 1).last() == samples@[i as int]);
        }
        let t = &samples[i];
        if now.saturating_sub(t.at) <= ttl {
            r.push(Timed { at: t.at, what: t.what });
        }
        i += 1;
    }
    proof {
        assert(samples@.take(i as int) =~= samples@);
    }
    r
}

/// The order of numbers.
pub open spec fn number_order() -> spec_fn(u64, u64) -> bool {
    |a: u64, b: u64| a <= b
}

/// Numbers from the smallest to the largest.
pub open spec fn ascending(s: Seq<u64>) -> Seq<u64> {
    s.sort_by(number_order())
}

/// Sorts numbers from the smallest to the largest.
pub fn sort_numbers(v: Vec<u64>) -> (r: Vec<u64>)
    ensures
        r@ == ascending(v@),
        r@.len() == v@.len(),
{
    broadcast use vstd::seq_lib::group_to_multiset_ensures;
    broadcast use vstd::multiset::group_multiset_axioms;

    let n: usize = v.len();
    let mut r: Vec<u64> = Vec::new();
    let mut i: usize = 0;
    proof {
        assert(v@.take(0) =~= Seq::empty());
    }
    while i < n
        invariant
            n == v@.len(),
            i <= n,
            r@.len() == i,
            sorted_by(r@, number_order()),
            r@.to_multiset() =~= v@.take(i as int).to_multiset(),
        decreases n - i,
    {
        let x: u64 = v[i];
        let mut k: usize = r.len();
        while k > 0 && r[k - 1] > x
            invariant
                k <= r@.len(),
                sorted_by(r@, number_order()),
                forall|j: int| k <= j < r@.len() ==> #[trigger] r@[j] > x,
            decreases k,
        {
            k -= 1;
            proof {
                assert forall|j: int| k <= j < r@.len() implies #[trigger] r@[j] > x by {
                    if j > k {
                        assert(r@[j] > x);
                    }
                }
            }
        }
        let ghost before = r@;
        r.insert(k, x);
        proof {
            let leq = number_order();
            assert forall|a: int, b: int| 0 <= a < b < r@.len() implies #[trigger] leq(r@[a], r@[b]) by {
                let a2 = if a < k {
                    a
                } else {
                    a - 1
                };
                let b2 = if b < k {
                    b
                } else {
                    b - 1
                };
                if a == k {
                    assert(r@[b] == before[b - 1]);
                    assert(before[b - 1] > x);
                } else if b == k {
                    assert(r@[a] == before[a]);
                    if k > 0 {
                        assert(before[k - 1] <= x);
                        if a < k - 1 {
                            assert(leq(before[a], before[k - 1]));
                        }
                    }
                } else {
                    assert(r@[a] == before[a2] && r@[b] == before[b2]);
                    assert(leq(before[a2], before[b2]));
                }
            }
            vstd::seq_lib::to_multiset_insert(before, k as int, x);
            vstd::seq_lib::to_multiset_build(v@.take(i as int), x);
            assert(r@ =~= before.insert(k as int, x));
            assert(v@.take(i + 1) =~= v@.take(i as int).push(x));
        }
        i += 1;
    }
    proof {
        assert(v@.take(i as int) =~= v@);
        let leq = number_order();
        assert(total_ordering(leq));
        v@.lemma_sort_by_ensures(leq);
        vstd::seq_lib::lemma_sorted_unique(r@, ascending(v@), leq);
    }
    r
}

/// The samples under each key.
pub open spec fn queues<KV, T>(m: Map<KV, VecDeque<Timed<T>>>) -> Map<KV, Seq<Timed<T>>> {
    m.map_values(|q: VecDeque<Timed<T>>| q@)
}

/// The samples under a key.
pub open spec fn samples_of<KV, T>(m: Map<KV, Seq<Timed<T>>>, k: KV) -> Seq<Timed<T>> {
    if m.contains_key(k) {
        m[k]
    } else {
        Seq::empty()
    }
}

/// Takes the samples under a key out, to be put back.
pub fn take_samples<K: MapKey, T>(
    m: &mut VecMap<K, VecDeque<Timed<T>>>,
    k: &K::Query,
) -> (r: VecDeque<Timed<T>>)
    ensures
        r@ == samples_of(queues(old(m)@), K::query_view(k)),
        final(m)@ == old(m)@.remove(K::query_view(k)),
{
    match m.remove(k) {
        Some(q) => q,
        None => {
            let q: VecDeque<Timed<T>> = VecDeque::new();
            proof {
                assert(q@ =~= Seq::empty());
            }
            q
        },
    }
}

/// Adds a sample under a key, and takes off the front what is too old or too
/// much.
pub fn push_sample<K: MapKey, T>(
    m: &mut VecMap<K, VecDeque<Timed<T>>>,
    k: K,
    sample: Timed<T>,
    now: u64,
    ttl: u64,
    cap: usize,
)
    ensures
        queues(final(m)@) == queues(old(m)@).insert(
            k@,
            newest(
                unexpired(samples_of(queues(old(m)@), k@).push(sample), now, ttl),
                cap as nat,
            ),
        ),
{
    let mut q = take_samples(m, k.as_query());
    q.push_back(sample);
    evict_timed(&mut q, now, ttl, cap);
    m.insert(k, q);
    proof {
        assert(queues(m@) =~= queues(old(m)@).insert(k@, q@));
    }
}

} // verus!
