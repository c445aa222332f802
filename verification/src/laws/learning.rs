//! What is learned of miners: outcomes, times, capacities, delivered work and scores.

use vstd::prelude::*;

use crate::capacity::{
    adjusted_cap, backed_off, decayed_cap, direction_word, lower_count, restored_cap, CapDirection,
    CapsV,
};
use crate::delivery::{
    best_count, running, uncredited, window_count, with_bucket, with_completion, WorkBucket,
};
use crate::performance::{all_success_times, success_times, Outcome, PerfV, PerformancePolicy};
use crate::rsv::minus;
use crate::scoring::{
    at_least_zero, capped_out, pow_scored, scores_in, synced_scores, zeroed_scores,
};
use crate::json::JsonV;
use crate::text::decimal_text;
use crate::timed::{ascending, fresh, newest, number_order, samples_of, unexpired, Timed};
use crate::units::{ranked, UnitsV};
use std::collections::VecDeque;

verus! {

/// A miner that is known well enough is given as many pieces at a time as it has
/// shown it can take, and any other one.
pub proof fn learned_capacities_are_given(v: PerfV, p: PerformancePolicy, uid: u16)
    ensures
        v.capacities(p).contains_key(uid) <==> v.windows.contains_key(uid),
        v.windows.contains_key(uid) && v.windows[uid].len() >= p.min_samples
            && v.caps.caps.contains_key(uid) ==> v.capacities(p)[uid] == v.caps.caps[uid],
        v.windows.contains_key(uid) && (v.windows[uid].len() < p.min_samples
            || !v.caps.caps.contains_key(uid)) ==> v.capacities(p)[uid] == 1,
        v.caps.caps.contains_key(uid) ==> v.caps.cap_or_one(uid) == v.caps.caps[uid],
        !v.caps.caps.contains_key(uid) ==> v.caps.cap_or_one(uid) == 1,
{
}

/// What is too old goes from the front of a list, and nothing else does: what is left
/// is its end, from the first item on that is young enough.
pub proof fn only_the_old_expire<T>(s: Seq<Timed<T>>, now: u64, ttl: u64)
    ensures
        ({
            let r = unexpired(s, now, ttl);
            &&& r.len() <= s.len()
            &&& r == s.skip(s.len() - r.len())
            &&& r.len() > 0 ==> r[0].at + ttl >= now
            &&& forall|i: int| 0 <= i < s.len() - r.len() ==> (#[trigger] s[i]).at + ttl < now
        }),
    decreases s.len(),
{
    let r = unexpired(s, now, ttl);
    if s.len() > 0 && minus(now, s[0].at) > ttl {
        let d = s.drop_first();
        only_the_old_expire(d, now, ttl);
        assert(r =~= s.skip(s.len() - r.len()));
        assert forall|i: int| 0 <= i < s.len() - r.len() implies (#[trigger] s[i]).at + ttl < now by {
            if i > 0 {
                assert(d[i - 1] == s[i]);
            }
        }
    } else {
        assert(r =~= s.skip(0));
    }
}

/// Of a list that is too long the end is kept, as long as it may be.
pub proof fn the_newest_are_kept<A>(s: Seq<A>, n: nat, i: int)
    requires
        0 <= i < newest(s, n).len(),
    ensures
        s.len() <= n ==> newest(s, n) == s,
        s.len() > n ==> newest(s, n).len() == n,
        newest(s, n)[i] == s[i + s.len() - newest(s, n).len()],
{
}

/// The samples that count are those that are young enough, in their order.
pub proof fn the_young_count<T>(s: Seq<Timed<T>>, t: Timed<T>, now: u64, ttl: u64)
    ensures
        fresh(Seq::<Timed<T>>::empty(), now, ttl).len() == 0,
        t.at + ttl >= now ==> fresh(s.push(t), now, ttl) == fresh(s, now, ttl).push(t),
        t.at + ttl < now ==> fresh(s.push(t), now, ttl) == fresh(s, now, ttl),
{
    assert(s.push(t).drop_last() =~= s);
}

/// An outcome counts from when it is taken in: it is the last of the miner's, behind
/// those that still count, and other miners keep theirs.
pub proof fn outcomes_count(
    v: PerfV,
    p: PerformancePolicy,
    uid: u16,
    other: u16,
    outcome: Outcome,
    at: u64,
    now: u64,
)
    requires
        p.window_size > 0,
        at + p.window_ttl >= now,
        other != uid,
    ensures
        ({
            let w = v.with_outcome(p, uid, outcome, at, now).windows;
            let before = if v.windows.contains_key(uid) {
                v.windows[uid]
            } else {
                Seq::empty()
            };
            &&& w.contains_key(uid) && w[uid].len() > 0 && w[uid].last() == (Timed {
                at,
                what: outcome,
            })
            &&& w[uid].len() <= p.window_size
            &&& before.len() < p.window_size && (before.len() > 0 ==> before[0].at + p.window_ttl
                >= now) ==> w[uid] == before.push(Timed { at, what: outcome })
            &&& w.contains_key(other) == v.windows.contains_key(other)
            &&& v.windows.contains_key(other) ==> w[other] == v.windows[other]
        }),
{
    let s = samples_of(v.windows, uid).push(Timed { at, what: outcome });
    only_the_old_expire(s, now, p.window_ttl);
    let u = unexpired(s, now, p.window_ttl);
    assert(u.len() > 0) by {
        if u.len() == 0 {
            assert(s[s.len() - 1].at + p.window_ttl < now);
        }
    }
    assert(u.last() == s.last());
    let n = newest(u, p.window_size as nat);
    the_newest_are_kept(u, p.window_size as nat, n.len() - 1);
    if samples_of(v.windows, uid).len() > 0 {
        assert(s[0] == samples_of(v.windows, uid)[0]);
    }
}

/// Taking an outcome in counts it as a record. One that went well also counts as
/// delivered and keeps the miner's capacity from decaying; one that did not leaves
/// both as they are. No capacity changes by it.
pub proof fn successes_are_credited(
    v: PerfV,
    p: PerformancePolicy,
    uid: u16,
    unit: Seq<char>,
    time: u64,
    success: bool,
    at: u64,
    now: u64,
)
    requires
        p.rate_filter_bins > 0,
        v.units.total < u64::MAX,
    ensures
        ({
            let r = v.recorded(p, uid, unit, (success, time), at, now);
            &&& r.units.total == v.units.total + 1
            &&& r.caps.caps == v.caps.caps && r.caps.results == v.caps.results
            &&& r.windows.contains_key(uid)
            &&& success ==> r.caps.touched.contains_key(uid) && r.caps.touched[uid] == at
            &&& success ==> r.delivery.bins.contains_key(uid) && r.delivery.bins[uid].len() > 0
                && r.delivery.bins[uid].last().what >= 1
            &&& success && time > 0 ==> r.units.best.contains_key((uid, unit)) && r.units.best[(
                uid,
                unit,
            )].1 <= time
            &&& !success ==> r.caps == v.caps && r.delivery == v.delivery && r.units.times
                == v.units.times && r.units.best == v.units.best
            &&& r.delivery.work == v.delivery.work
        }),
{
    let s = with_completion(samples_of(v.delivery.bins, uid), at, p.rate_bin);
    assert(s.len() > 0 && s.last().what >= 1);
    let n = newest(s, p.rate_filter_bins as nat);
    the_newest_are_kept(s, p.rate_filter_bins as nat, n.len() - 1);
}

/// What is out of date is forgotten, with miners of which nothing else is known; no
/// miner with an outcome that counts is.
pub proof fn only_stale_miners_are_forgotten(v: PerfV, p: PerformancePolicy, now: u64, uid: u16)
    requires
        p.window_size > 0,
    ensures
        ({
            let r = v.without_stale(p, now);
            &&& r.windows.contains_key(uid) ==> v.windows.contains_key(uid) && r.windows[uid].len() > 0
            &&& v.windows.contains_key(uid) && v.windows[uid].len() > 0 && v.windows[uid].last().at
                + p.window_ttl >= now ==> r.windows.contains_key(uid) && r.windows[uid].last()
                == v.windows[uid].last()
            &&& v.windows.contains_key(uid) && (forall|i: int|
                0 <= i < v.windows[uid].len() ==> (#[trigger] v.windows[uid][i]).at + p.window_ttl
                    < now) ==> !r.windows.contains_key(uid)
            &&& r.caps == v.caps && r.units == v.units && r.delivery == v.delivery
        }),
{
    if v.windows.contains_key(uid) {
        let s = v.windows[uid];
        only_the_old_expire(s, now, p.window_ttl);
        let u = unexpired(s, now, p.window_ttl);
        if s.len() > 0 && s.last().at + p.window_ttl >= now {
            if u.len() == 0 {
                assert(s[s.len() - 1].at + p.window_ttl < now);
            }
            assert(u.last() == s.last());
            let n = newest(u, p.window_size as nat);
            the_newest_are_kept(u, p.window_size as nat, n.len() - 1);
        }
        if u.len() > 0 {
            assert(u[0] == s[s.len() - u.len()]);
        }
    }
}

/// The times of pieces that went well are all taken, and no others.
pub proof fn only_successes_are_timed(
    s: Seq<Timed<Outcome>>,
    t: Timed<Outcome>,
    e: Seq<(u16, VecDeque<Timed<Outcome>>)>,
    x: (u16, VecDeque<Timed<Outcome>>),
)
    ensures
        success_times(Seq::empty()).len() == 0,
        t.what.0 ==> success_times(s.push(t)) == success_times(s).push(t.what.1),
        !t.what.0 ==> success_times(s.push(t)) == success_times(s),
        all_success_times(Seq::empty()).len() == 0,
        all_success_times(e.push(x)) == all_success_times(e) + success_times(x.1@),
{
    assert(s.push(t).drop_last() =~= s);
    assert(e.push(x).drop_last() =~= e);
}

/// A failure that no debit stands for is counted; one with a debit brings the running
/// span to it. What was credited stays, and so do other miners' spans.
pub proof fn failures_are_charged(
    v: PerfV,
    uid: u16,
    other: u16,
    debit: u64,
    now: u64,
    len: u64,
    ttl: u64,
)
    requires
        0 < len <= ttl,
        other != uid,
    ensures
        ({
            let s = samples_of(v.delivery.work, uid);
            let open = s.len() > 0 && (s.last().at > now || now - s.last().at < len);
            let none = v.charged(uid, None, now, len, ttl).delivery.work;
            let some = v.charged(uid, Some(debit), now, len, ttl).delivery.work;
            &&& none.contains_key(uid) && none[uid].len() > 0
            &&& some.contains_key(uid) && some[uid].len() > 0
            &&& some[uid].last().what.debit == debit
            &&& !open ==> none[uid].last() == (Timed {
                at: now,
                what: WorkBucket { credit: 0, debit: 0, uncredited_failures: 1 },
            })
            &&& open ==> none[uid].last().at == s.last().at && none[uid].last().what.credit
                == s.last().what.credit && none[uid].last().what.debit == s.last().what.debit && (
            s.last().what.uncredited_failures < u64::MAX
                ==> none[uid].last().what.uncredited_failures
                == s.last().what.uncredited_failures + 1)
            &&& open ==> some[uid].last().what.credit == s.last().what.credit
                && some[uid].last().what.uncredited_failures == s.last().what.uncredited_failures
            &&& none.contains_key(other) == v.delivery.work.contains_key(other)
            &&& v.delivery.work.contains_key(other) ==> none[other] == v.delivery.work[other]
            &&& v.charged(uid, None, now, len, ttl).windows == v.windows
            &&& v.charged(uid, None, now, len, ttl).caps == v.caps
        }),
{
    let s = samples_of(v.delivery.work, uid);
    let b = running(s, now, len);
    lemma_kept_bucket(s, now, WorkBucket { debit, ..b }, len, ttl);
    lemma_kept_bucket(
        s,
        now,
        WorkBucket {
            uncredited_failures: if b.uncredited_failures == u64::MAX {
                u64::MAX
            } else {
                (b.uncredited_failures + 1) as u64
            },
            ..b
        },
        len,
        ttl,
    );
}

proof fn lemma_kept_bucket(s: Seq<Timed<WorkBucket>>, now: u64, b: WorkBucket, len: u64, ttl: u64)
    requires
        0 < len <= ttl,
    ensures
        unexpired(with_bucket(s, now, b, len), now, ttl).len() > 0,
        unexpired(with_bucket(s, now, b, len), now, ttl).last() == with_bucket(
            s,
            now,
            b,
            len,
        ).last(),
{
    let w = with_bucket(s, now, b, len);
    only_the_old_expire(w, now, ttl);
    let u = unexpired(w, now, ttl);
    if u.len() == 0 {
        assert(w[w.len() - 1].at + ttl < now);
    }
}

/// Spans follow one another: while the last one runs it is added to, and after it a
/// new one begins; those before stay as they are.
pub proof fn spans_follow_one_another(
    s: Seq<Timed<WorkBucket>>,
    c: Seq<Timed<u32>>,
    now: u64,
    b: WorkBucket,
    len: u64,
    i: int,
)
    ensures
        ({
            let open = s.len() > 0 && (s.last().at > now && len > 0 || s.last().at <= now && now
                - s.last().at < len);
            let r = with_bucket(s, now, b, len);
            &&& r.last().what == b
            &&& open ==> r.len() == s.len() && r.last().at == s.last().at
            &&& !open ==> r.len() == s.len() + 1 && r.last().at == now
            &&& 0 <= i < r.len() - 1 ==> r[i] == s[i]
            &&& open ==> running(s, now, len) == s.last().what
            &&& !open ==> running(s, now, len) == (WorkBucket {
                credit: 0,
                debit: 0,
                uncredited_failures: 0,
            })
        }),
        ({
            let open = c.len() > 0 && (c.last().at > now && len > 0 || c.last().at <= now && now
                - c.last().at < len);
            let r = with_completion(c, now, len);
            &&& open && c.last().what < u32::MAX ==> r.len() == c.len() && r.last().what
                == c.last().what + 1 && r.last().at == c.last().at
            &&& !open ==> r.len() == c.len() + 1 && r.last() == (Timed { at: now, what: 1u32 })
            &&& 0 <= i < r.len() - 1 ==> r[i] == c[i]
        }),
{
}

/// The most that was counted within a span of time is what was counted in one of
/// them, and no less than in any other.
pub proof fn the_best_span_counts(s: Seq<Timed<u32>>, len: u64, i: int)
    requires
        0 <= i < s.len(),
    ensures
        best_count(s, len) >= window_count(s.skip(i), s[i].at, len),
        exists|k: int|
            0 <= k < s.len() && best_count(s, len) == #[trigger] window_count(
                s.skip(k),
                s[k].at,
                len,
            ),
        len > 0 ==> best_count(s, len) >= s[i].what,
    decreases s.len(),
{
    assert(s.skip(0) =~= s);
    let d = s.drop_first();
    let here = window_count(s, s[0].at, len);
    lemma_counts_positive(s, s[0].at, len);
    lemma_counts_positive(d, s[0].at, len);
    if d.len() > 0 {
        let m = if i > 0 {
            i - 1
        } else {
            0
        };
        the_best_span_counts(d, len, m);
        assert(d.skip(m) =~= s.skip(m + 1));
        let k = choose|k: int|
            0 <= k < d.len() && best_count(d, len) == #[trigger] window_count(d.skip(k), d[k].at, len);
        assert(d.skip(k) =~= s.skip(k + 1));
        assert(window_count(s.skip(k + 1), s[k + 1].at, len) == best_count(d, len));
    }
    assert(here == window_count(s.skip(0), s[0].at, len));
}

proof fn lemma_counts_positive(s: Seq<Timed<u32>>, start: u64, len: u64)
    ensures
        window_count(s, start, len) >= 0,
        best_count(s, len) >= 0,
    decreases s.len(),
{
    if s.len() > 0 {
        lemma_counts_positive(s.drop_first(), start, len);
        lemma_counts_positive(s.drop_first(), s[0].at, len);
    }
}

/// Counts within a span are added up from its start on, as long as it lasts.
pub proof fn counts_in_a_span_add_up(t: Timed<u32>, s: Seq<Timed<u32>>, start: u64, len: u64)
    ensures
        start <= t.at && t.at - start < len ==> window_count(seq![t] + s, start, len) == t.what
            + window_count(s, start, len),
        t.at >= start + len ==> window_count(seq![t] + s, start, len) == 0,
        uncredited(Seq::empty()) == 0,
{
    assert((seq![t] + s).drop_first() =~= s);
}

/// Failures without a debit are added up.
pub proof fn uncredited_failures_add_up(s: Seq<Timed<WorkBucket>>, t: Timed<WorkBucket>)
    ensures
        uncredited(s.push(t)) == uncredited(s) + t.what.uncredited_failures,
{
    assert(s.push(t).drop_last() =~= s);
}

/// A number at a rank is one of the numbers; the lowest rank is the least of them and
/// the highest the greatest, and ranks are in order.
pub proof fn ranks_are_in_order(s: Seq<u64>, i: usize, j: usize, x: u64)
    requires
        s.len() > 0,
        s.contains(x),
        i <= j,
    ensures
        s.contains(ranked(s, i)),
        ranked(s, 0) <= x <= ranked(s, j) || j < s.len() - 1,
        ranked(s, 0) <= x,
        ranked(s, i) <= ranked(s, j),
        ascending(s).len() == s.len(),
        ascending(s).to_multiset() == s.to_multiset(),
{
    let leq = number_order();
    assert(vstd::relations::total_ordering(leq)) by {
        assert(vstd::relations::reflexive(leq));
        assert(vstd::relations::antisymmetric(leq));
        assert(vstd::relations::transitive(leq));
        assert(vstd::relations::strongly_connected(leq));
    }
    s.lemma_sort_by_ensures(leq);
    let a = ascending(s);
    a.to_multiset_ensures();
    s.to_multiset_ensures();
    assert(a.len() == s.len());
    assert forall|k: int| 0 <= k < a.len() implies s.contains(#[trigger] a[k]) by {
        assert(a.contains(a[k]));
        assert(a.to_multiset().count(a[k]) > 0);
        assert(s.to_multiset().count(a[k]) > 0);
    }
    assert(s.to_multiset().count(x) > 0);
    assert(a.contains(x));
    let k = choose|k: int| 0 <= k < a.len() && a[k] == x;
    assert forall|m: int, n: int| 0 <= m <= n < a.len() implies #[trigger] a[m] <= #[trigger] a[n] by {
        if m < n {
            assert(leq(a[m], a[n]));
        }
    }
}

/// A time that a unit of work took counts for the unit and for the miner's best: the
/// best is never slower than the new time, or the old best within its time.
pub proof fn times_are_remembered(
    v: UnitsV,
    uid: u16,
    unit: Seq<char>,
    time: u64,
    at: u64,
    now: u64,
    ttl: u64,
)
    requires
        at + ttl >= now,
    ensures
        ({
            let r = v.timed(uid, unit, time, at, now, ttl);
            &&& r.times.contains_key(unit) && r.times[unit].len() > 0 && r.times[unit].last() == (
            Timed { at, what: time })
            &&& r.times[unit].len() <= 256
            &&& r.best.contains_key((uid, unit))
            &&& r.best[(uid, unit)].1 <= time
            &&& r.best[(uid, unit)] == (at, time) || v.best.contains_key((uid, unit))
                && r.best[(uid, unit)] == v.best[(uid, unit)]
            &&& !v.best.contains_key((uid, unit)) ==> r.best[(uid, unit)] == (at, time)
            &&& v.best.contains_key((uid, unit)) && v.best[(uid, unit)].1 >= time ==> r.best[(
                uid,
                unit,
            )] == (at, time)
            &&& v.best.contains_key((uid, unit)) && v.best[(uid, unit)].0 + ttl < at ==> r.best[(
                uid,
                unit,
            )] == (at, time)
            &&& v.best.contains_key((uid, unit)) && v.best[(uid, unit)].1 < time && v.best[(
                uid,
                unit,
            )].0 <= at <= v.best[(uid, unit)].0 + ttl ==> r.best[(uid, unit)] == v.best[(uid, unit)]
            &&& r.best[(uid, unit)].1 > 0 ==> r.min_service.contains_key(uid)
                && r.min_service[uid].len() > 0 && r.min_service[uid].last() == (Timed {
                at,
                what: r.best[(uid, unit)].1,
            })
            &&& r.best[(uid, unit)].1 == 0 ==> r.min_service == v.min_service
            &&& r.rel_speed == v.rel_speed && r.cache == v.cache && r.total == v.total
        }),
{
    lemma_kept_sample(samples_of(v.times, unit), Timed { at, what: time }, now, ttl, 256);
    let best = v.best_after(uid, unit, time, at, ttl);
    lemma_kept_sample(samples_of(v.min_service, uid), Timed { at, what: best.1 }, now, ttl, 64);
}

proof fn lemma_kept_sample<T>(s: Seq<Timed<T>>, t: Timed<T>, now: u64, ttl: u64, n: nat)
    requires
        t.at + ttl >= now,
        n > 0,
    ensures
        newest(unexpired(s.push(t), now, ttl), n).len() > 0,
        newest(unexpired(s.push(t), now, ttl), n).len() <= n,
        newest(unexpired(s.push(t), now, ttl), n).last() == t,
{
    let w = s.push(t);
    only_the_old_expire(w, now, ttl);
    let u = unexpired(w, now, ttl);
    if u.len() == 0 {
        assert(w[w.len() - 1].at + ttl < now);
    }
    assert(u.last() == w.last());
    let r = newest(u, n);
    the_newest_are_kept(u, n, r.len() - 1);
}

/// A unit has a reference time once it was done eight times: one of the times that
/// were taken. It is worked out anew after sixty-four more records.
pub proof fn references_are_times_that_were_taken(v: UnitsV, unit: Seq<char>, index: usize)
    ensures
        !v.times.contains_key(unit) ==> v.reference(unit, index) == 0,
        v.times.contains_key(unit) && v.times[unit].len() < 8 ==> v.reference(unit, index) == 0,
        v.times.contains_key(unit) && v.times[unit].len() >= 8 ==> exists|i: int|
            0 <= i < v.times[unit].len() && (#[trigger] v.times[unit][i]).what == v.reference(
                unit,
                index,
            ),
        v.times.contains_key(unit) && v.times[unit].len() >= 8 && index == 0 ==> forall|i: int|
            0 <= i < v.times[unit].len() ==> (#[trigger] v.times[unit][i]).what >= v.reference(
                unit,
                index,
            ),
        v.times.contains_key(unit) && v.times[unit].len() >= 8 && index >= v.times[unit].len() - 1
            ==> forall|i: int|
            0 <= i < v.times[unit].len() ==> (#[trigger] v.times[unit][i]).what <= v.reference(
                unit,
                index,
            ),
        v.is_cached(unit) ==> v.cache.contains_key(unit) && v.total < v.cache[unit].0 + 64,
        v.cache.contains_key(unit) && v.cache[unit].0 <= v.total < v.cache[unit].0 + 64
            ==> v.is_cached(unit),
{
    if v.times.contains_key(unit) && v.times[unit].len() >= 8 {
        let s = v.times[unit];
        let w = crate::timed::values(s);
        assert(w[0] == s[0].what);
        ranks_are_in_order(w, index, index, w[0]);
        let i = choose|i: int| 0 <= i < w.len() && w[i] == ranked(w, index);
        assert(s[i].what == v.reference(unit, index));
        assert forall|i: int| 0 <= i < s.len() && index == 0 implies (#[trigger] s[i]).what
            >= v.reference(unit, index) by {
            assert(w[i] == s[i].what);
            ranks_are_in_order(w, index, index, w[i]);
        }
        assert forall|i: int| 0 <= i < s.len() && index >= s.len() - 1 implies (
        #[trigger] s[i]).what <= v.reference(unit, index) by {
            assert(w[i] == s[i].what);
            ranks_are_in_order(w, index, index, w[i]);
        }
    }
}

/// Of a miner that is forgotten nothing is left, and of others everything.
pub proof fn forgetting_concerns_one_miner(
    v: PerfV,
    uid: u16,
    other: u16,
    hotkey: Seq<char>,
    unit: Seq<char>,
)
    requires
        other != uid,
    ensures
        ({
            let r = v.reset(uid, hotkey);
            &&& !r.windows.contains_key(uid) && !r.caps.caps.contains_key(uid)
                && !r.caps.results.contains_key(uid) && !r.caps.touched.contains_key(uid)
                && !r.caps.adjusted.contains_key(uid)
            &&& !r.units.rel_speed.contains_key(uid) && !r.units.min_service.contains_key(uid)
                && !r.units.best.contains_key((uid, unit))
            &&& !r.delivery.work.contains_key(uid) && !r.delivery.bins.contains_key(uid)
            &&& r.windows.contains_key(other) == v.windows.contains_key(other) && (
            v.windows.contains_key(other) ==> r.windows[other] == v.windows[other])
            &&& r.caps.caps.contains_key(other) == v.caps.caps.contains_key(other) && (
            v.caps.caps.contains_key(other) ==> r.caps.caps[other] == v.caps.caps[other])
            &&& r.units.best.contains_key((other, unit)) == v.units.best.contains_key((other, unit))
            &&& r.delivery.work.contains_key(other) == v.delivery.work.contains_key(other)
            &&& r.units.times == v.units.times
        }),
{
}

/// Capacities go up by a step at a time until they reach their target and not beyond,
/// go down by a step only where they are well above it, and stay put otherwise.
pub proof fn capacities_move_by_steps(from: usize, step: usize, target: usize, well_above: bool)
    ensures
        ({
            let r = adjusted_cap(from, step, target, well_above);
            &&& target > from && from + step <= target ==> r == from + step
            &&& target > from && from + step > target ==> r == target
            &&& target <= from && !well_above ==> r == from
            &&& target == from && target > 0 ==> r == from
            &&& target < from && well_above && from >= target + step && target >= 1 ==> r == from
                - step
            &&& target < from && well_above && from < target + step && target >= 1 ==> r == target
            &&& target == 0 && well_above ==> r >= 1
        }),
{
}

/// A capacity that is cut back loses as much as is said, at least one, but keeps one;
/// a capacity decays by one where its miner had nothing to do for long, and only then.
pub proof fn capacities_are_cut_back(v: CapsV, uid: u16, cap: usize, off: usize, now: u64, idle: u64)
    ensures
        cap <= 1 ==> backed_off(cap, off) == cap,
        cap > 1 && off >= 1 && cap > off ==> backed_off(cap, off) == cap - off,
        cap > 1 && off >= cap ==> backed_off(cap, off) == 1,
        cap > 1 && off == 0 ==> backed_off(cap, off) == cap - 1,
        cap > 1 && !v.touched.contains_key(uid) ==> decayed_cap(v, uid, cap, now, idle) == cap - 1,
        cap > 1 && v.touched.contains_key(uid) && v.touched[uid] + idle < now ==> decayed_cap(
            v,
            uid,
            cap,
            now,
            idle,
        ) == cap - 1,
        v.touched.contains_key(uid) && v.touched[uid] + idle >= now ==> decayed_cap(
            v,
            uid,
            cap,
            now,
            idle,
        ) == cap,
        cap <= 1 ==> decayed_cap(v, uid, cap, now, idle) == cap,
        restored_cap(0) == 1 && restored_cap(1) == 1 && restored_cap(32) == 32 && restored_cap(33)
            == 32,
        1 <= cap <= 32 ==> restored_cap(cap as u64) == cap,
        cap > 32 ==> restored_cap(cap as u64) == 32,
{
}

/// A capacity that is lowered is the new one, its results are forgotten and the change
/// is remembered last, as a cut; no other capacity changes.
pub proof fn cuts_are_remembered(v: CapsV, uid: u16, other: u16, hotkey: Seq<char>, to: usize, at: u64)
    requires
        v.caps.contains_key(uid),
        other != uid,
    ensures
        ({
            let r = v.lowered(uid, hotkey, to, at);
            &&& r.caps[uid] == to
            &&& r.caps.contains_key(other) == v.caps.contains_key(other) && (v.caps.contains_key(
                other,
            ) ==> r.caps[other] == v.caps[other])
            &&& v.results.contains_key(uid) ==> r.results[uid].len() == 0
            &&& r.events.len() > 0 && r.events.last().uid == uid && r.events.last().hotkey == hotkey
                && r.events.last().cap_from == v.caps[uid] && r.events.last().cap_to == to
                && r.events.last().direction == CapDirection::Backoff && r.events.last().at == at
            &&& v.events.len() < 4096 ==> r.events.drop_last() == v.events
        }),
        ({
            let r = v.rehabilitated(uid, hotkey, at);
            &&& r.touched.contains_key(uid) && r.touched[uid] == at
            &&& v.caps[uid] == 0 ==> r.caps[uid] == 1 && r.events.len() > 0 && r.events.last().uid
                == uid && r.events.last().direction == CapDirection::Rehab
                && r.events.last().cap_from == 0 && r.events.last().cap_to == 1
            &&& v.caps[uid] > 0 ==> r.caps == v.caps && r.events == v.events
        }),
{
    let r = v.lowered(uid, hotkey, to, at);
    assert(r.events.drop_last() =~= v.events || v.events.len() >= 4096);
}

/// Miners are cut back each to its own target where that is below what they have, and
/// keep what they have otherwise.
pub proof fn each_miner_is_cut_to_its_target(
    v: CapsV,
    targets: Seq<(u16, usize)>,
    hotkeys: Map<u16, String>,
    at: u64,
    i: int,
    uid: u16,
)
    requires
        forall|a: int, b: int|
            0 <= a < b < targets.len() ==> (#[trigger] targets[a]).0 != (#[trigger] targets[b]).0,
        forall|a: int| 0 <= a < targets.len() ==> v.caps.contains_key((#[trigger] targets[a]).0),
    ensures
        ({
            let r = v.all_lowered(targets, hotkeys, at);
            &&& 0 <= i < targets.len() ==> r.caps.contains_key(targets[i].0)
            &&& 0 <= i < targets.len() && targets[i].1 < v.caps[targets[i].0]
                ==> r.caps[targets[i].0] == targets[i].1
            &&& 0 <= i < targets.len() && targets[i].1 >= v.caps[targets[i].0]
                ==> r.caps[targets[i].0] == v.caps[targets[i].0]
            &&& (forall|a: int| 0 <= a < targets.len() ==> (#[trigger] targets[a]).0 != uid) ==> (
            r.caps.contains_key(uid) == v.caps.contains_key(uid) && (v.caps.contains_key(uid)
                ==> r.caps[uid] == v.caps[uid]))
        }),
    decreases targets.len(),
{
    if targets.len() > 0 {
        let d = targets.drop_last();
        let last = targets.len() - 1;
        assert(targets[last] == targets.last());
        assert forall|a: int, b: int| 0 <= a < b < d.len() implies (#[trigger] d[a]).0 != (
        #[trigger] d[b]).0 by {
            assert(targets[a].0 != targets[b].0);
        }
        assert forall|a: int| 0 <= a < d.len() implies v.caps.contains_key((#[trigger] d[a]).0) by {
            assert(v.caps.contains_key(targets[a].0));
        }
        each_miner_is_cut_to_its_target(v, d, hotkeys, at, i, targets.last().0);
        each_miner_is_cut_to_its_target(v, d, hotkeys, at, i, uid);
        assert forall|a: int| 0 <= a < d.len() implies (#[trigger] d[a]).0 != targets.last().0 by {
            assert(targets[a].0 != targets[last].0);
        }
        if 0 <= i < last {
            assert(d[i] == targets[i]);
            assert(targets[i].0 != targets[last].0);
        }
        if forall|a: int| 0 <= a < targets.len() ==> (#[trigger] targets[a]).0 != uid {
            assert(targets[last].0 != uid);
            assert forall|a: int| 0 <= a < d.len() implies (#[trigger] d[a]).0 != uid by {
                assert(targets[a].0 != uid);
            }
        }
    }
}

/// As many cuts are counted as there are targets below what the miners have.
pub proof fn cuts_are_counted(caps: Map<u16, usize>, targets: Seq<(u16, usize)>, t: (u16, usize))
    ensures
        lower_count(caps, Seq::empty()) == 0,
        t.1 < caps[t.0] ==> lower_count(caps, targets.push(t)) == lower_count(caps, targets) + 1,
        t.1 >= caps[t.0] ==> lower_count(caps, targets.push(t)) == lower_count(caps, targets),
        direction_word(CapDirection::Ramp) == "ramp"@,
        direction_word(CapDirection::Backoff) == "backoff"@,
        direction_word(CapDirection::Evict) == "evict"@,
        direction_word(CapDirection::Rehab) == "rehab"@,
{
    assert(targets.push(t).drop_last() =~= targets);
}

/// Scores that are not negative stay as they are, and anything else counts as zero.
pub proof fn scores_stand(bits: u64)
    ensures
        bits <= 0x7ff0_0000_0000_0000 ==> at_least_zero(bits) == bits,
        bits > 0x7ff0_0000_0000_0000 ==> at_least_zero(bits) == 0,
{
}

/// The scores of a proof are those that miners have from it: each miner that has one
/// gets the last that the proof gives it, and no miner gets one that had none.
pub proof fn proved_scores_are_taken(
    scores: Map<u16, u64>,
    uids: Seq<u16>,
    given: Seq<u64>,
    n: nat,
    i: int,
    uid: u16,
)
    requires
        n <= uids.len(),
        n <= given.len(),
    ensures
        pow_scored(scores, uids, given, n).dom() == scores.dom(),
        0 <= i < n && scores.contains_key(uids[i]) && (forall|j: int|
            i < j < n ==> #[trigger] uids[j] != uids[i]) && given[i] <= 0x7ff0_0000_0000_0000
            ==> pow_scored(scores, uids, given, n)[uids[i]] == given[i],
        (forall|j: int| 0 <= j < n ==> #[trigger] uids[j] != uid) && scores.contains_key(uid)
            ==> pow_scored(scores, uids, given, n)[uid] == scores[uid],
    decreases n,
{
    if n > 0 {
        let m = (n - 1) as nat;
        proved_scores_are_taken(scores, uids, given, m, i, uid);
        assert(pow_scored(scores, uids, given, n).dom() =~= scores.dom());
        if 0 <= i < n && (forall|j: int| i < j < n ==> #[trigger] uids[j] != uids[i]) && i < m {
            assert(uids[m as int] != uids[i]);
        }
        if forall|j: int| 0 <= j < n ==> #[trigger] uids[j] != uid {
            assert(uids[m as int] != uid);
        }
    }
}

/// Miners that are there keep their score, newcomers start at zero and who left has
/// none; miners that cannot be asked are at zero.
pub proof fn scores_follow_the_network(scores: Map<u16, u64>, uids: Seq<u16>, uid: u16)
    ensures
        synced_scores(scores, uids).contains_key(uid) <==> uids.contains(uid),
        uids.contains(uid) && scores.contains_key(uid) ==> synced_scores(scores, uids)[uid]
            == scores[uid],
        uids.contains(uid) && !scores.contains_key(uid) ==> synced_scores(scores, uids)[uid] == 0,
        zeroed_scores(scores, uids).dom() == scores.dom(),
        scores.contains_key(uid) && uids.contains(uid) ==> zeroed_scores(scores, uids)[uid]
            == scores[uid],
        scores.contains_key(uid) && !uids.contains(uid) ==> zeroed_scores(scores, uids)[uid] == 0,
{
    assert(zeroed_scores(scores, uids).dom() =~= scores.dom());
}

/// Stored scores are read under the numbers of the miners.
pub proof fn stored_scores_are_read_by_number(m: Map<Seq<char>, JsonV>, uid: u16)
    requires
        scores_in(JsonV::Object(m)) is Some,
    ensures
        m.contains_key(decimal_text(uid as nat)) <==> scores_in(JsonV::Object(m))->0.contains_key(
            uid,
        ),
        m.contains_key(decimal_text(uid as nat)) ==> scores_in(JsonV::Object(m))->0[uid]
            == m[decimal_text(uid as nat)],
{
}

/// A miner loses its weight exactly where its region is known and so many others of
/// the region come before it as may have weight: heavier ones, and equals that stand
/// before it.
pub proof fn weight_is_lost_to_heavier_neighbours(
    uids: Seq<u16>,
    weights: Seq<u64>,
    regions: Map<u16, String>,
    max: usize,
    i: int,
    others: Set<int>,
)
    requires
        uids.len() == weights.len(),
        0 <= i < uids.len(),
        others.finite(),
        max > 0,
        regions.contains_key(uids[i]),
        regions[uids[i]]@.len() > 0,
        forall|j: int|
            #[trigger]
            others.contains(j) <==> 0 <= j < uids.len() && (regions.contains_key(uids[j]) && regions[uids[j]]@ == regions[uids[i]]@) && (weights[j] > weights[i] || weights[j]
                == weights[i] && j < i),
    ensures
        capped_out(uids, weights, regions, max, i) <==> others.len() >= max,
{
    let a = crate::scoring::ahead_of(uids, weights, regions, i);
    assert(a =~= others) by {
        assert forall|j: int| a.contains(j) == others.contains(j) by {}
    }
}

/// A miner whose region is not known keeps its weight, and where any number of miners
/// of a region may have weight, all do.
pub proof fn unknown_regions_are_not_capped(
    uids: Seq<u16>,
    weights: Seq<u64>,
    regions: Map<u16, String>,
    max: usize,
    i: int,
)
    ensures
        !regions.contains_key(uids[i]) ==> !capped_out(uids, weights, regions, max, i),
        !capped_out(uids, weights, regions, 0, i),
{
}

} // verus!
