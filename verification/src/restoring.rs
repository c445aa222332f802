//! What is stored of the miners' work comes back when it is loaded again.

use vstd::prelude::*;

use crate::capacity::{restored_cap, CapsV};
use crate::json::{lemma_members_distinct, lists_members, Json, JsonV};
use crate::performance::{
    by_uid, calendar_secs, capacities_restored, capacity_json, clock_time, inner_object, is_number,
    is_state_in, outcome_in, outcome_json, outcomes_in, restored_outcomes, results_of,
    stored_capacities_read_back, stored_json, stored_outcomes_read_back, uid_named, window_json,
    windows_in, windows_restored, windows_view, Outcome, PerfV, PerformancePolicy, StoredState,
};
use crate::rsv::minus;
use crate::text::{decimal_reads_back, decimal_text, unsigned_up_to};
use crate::timed::Timed;

verus! {

/// Whether an outcome that was stored at one moment still counts at a later one. A
/// moment is given by the clock and by the calendar.
pub open spec fn outlasts(
    at: u64,
    p: PerformancePolicy,
    stored: (u64, u64),
    later: (u64, u64),
) -> bool {
    minus(later.1, calendar_secs(at, p, stored.0, stored.1)) <= p.window_ttl as int
        / p.ticks_per_sec as int
}

/// When an outcome was that was stored at one moment, by the clock of a later one.
pub open spec fn moved(
    t: Timed<Outcome>,
    p: PerformancePolicy,
    stored: (u64, u64),
    later: (u64, u64),
) -> Timed<Outcome> {
    Timed {
        at: clock_time(calendar_secs(t.at, p, stored.0, stored.1), p, later.0, later.1),
        what: t.what,
    }
}

/// What is left at a later moment of the outcomes of a miner that were stored.
pub open spec fn outlasting(
    s: Seq<Timed<Outcome>>,
    p: PerformancePolicy,
    stored: (u64, u64),
    later: (u64, u64),
) -> Seq<Timed<Outcome>> {
    s.filter(|t: Timed<Outcome>| outlasts(t.at, p, stored, later)).map_values(
        |t: Timed<Outcome>| moved(t, p, stored, later),
    )
}

/// What is left at a later moment of the outcomes of all miners.
pub open spec fn windows_outlasting(
    w: Map<u16, Seq<Timed<Outcome>>>,
    p: PerformancePolicy,
    stored: (u64, u64),
    later: (u64, u64),
) -> Map<u16, Seq<Timed<Outcome>>> {
    Map::new(
        |u: u16| w.contains_key(u) && outlasting(w[u], p, stored, later).len() > 0,
        |u: u16| outlasting(w[u], p, stored, later),
    )
}

/// The capacities as they come back: within the limits, each with the results that
/// came with it, and touched at that moment.
pub open spec fn capacities_back(c: CapsV, now: u64) -> CapsV {
    CapsV {
        caps: c.caps.map_values(|cap: usize| restored_cap(cap as u64)),
        touched: c.caps.map_values(|cap: usize| now),
        results: Map::new(
            |u: u16| c.caps.contains_key(u) && results_of(c.results, u).len() > 0,
            |u: u16| c.results[u],
        ),
        ..CapsV::empty()
    }
}

/// `windows` are the stored outcomes with their times read by `number`.
pub open spec fn times_read(
    windows: Seq<(u16, Vec<(u64, bool, u64)>)>,
    stored: Seq<(u16, Seq<(u64, bool, JsonV)>)>,
    number: spec_fn(JsonV) -> u64,
) -> bool {
    &&& windows.len() == stored.len()
    &&& forall|j: int|
        0 <= j < windows.len() ==> {
            &&& (#[trigger] windows[j]).0 == stored[j].0
            &&& windows[j].1@ == stored[j].1.map_values(
                |o: (u64, bool, JsonV)| (o.0, o.1, number(o.2)),
            )
        }
}

/// Every outcome has a number that says how long it took.
pub open spec fn times_written(
    w: Map<u16, Seq<Timed<Outcome>>>,
    numbers: Map<u16, Vec<Json>>,
    number: spec_fn(JsonV) -> u64,
) -> bool {
    forall|u: u16| #[trigger]
        w.contains_key(u) ==> {
            &&& numbers.contains_key(u)
            &&& numbers[u]@.len() == w[u].len()
            &&& forall|i: int|
                0 <= i < w[u].len() ==> is_number((#[trigger] numbers[u]@[i])@) && number(
                    numbers[u]@[i]@,
                ) == w[u][i].what.1
        }
}

/// The outcomes in a stored window are those that were there.
proof fn lemma_outcomes(
    s: Seq<Timed<Outcome>>,
    numbers: Seq<Json>,
    p: PerformancePolicy,
    now: u64,
    now_secs: u64,
)
    requires
        p.ticks_per_sec > 0,
        numbers.len() == s.len(),
        forall|i: int| 0 <= i < s.len() ==> is_number((#[trigger] numbers[i])@),
    ensures
        outcomes_in(window_json(s, numbers, p, now, now_secs)->Array_0) == Seq::new(
            s.len(),
            |i: int| (calendar_secs(s[i].at, p, now, now_secs), s[i].what.0, numbers[i]@),
        ),
    decreases s.len(),
{
    let list = window_json(s, numbers, p, now, now_secs)->Array_0;
    let want = Seq::new(
        s.len(),
        |i: int| (calendar_secs(s[i].at, p, now, now_secs), s[i].what.0, numbers[i]@),
    );
    if s.len() > 0 {
        let d = s.drop_last();
        let m = numbers.drop_last();
        assert forall|i: int| 0 <= i < d.len() implies is_number((#[trigger] m[i])@) by {
            assert(m[i] == numbers[i]);
        }
        lemma_outcomes(d, m, p, now, now_secs);
        assert(list.drop_last() =~= window_json(d, m, p, now, now_secs)->Array_0);
        let k = s.len() - 1;
        let one = outcome_json(s[k], numbers[k]@, p, now, now_secs);
        assert(list.last() == one);
        stored_outcomes_read_back(s[k], numbers[k]@, p, now, now_secs);
        assert(one.list()->0[0] == JsonV::Int(calendar_secs(s[k].at, p, now, now_secs) as int));
        assert(outcome_in(one) == want[k]);
        assert(outcomes_in(list) =~= want);
    } else {
        assert(outcomes_in(list) =~= want);
    }
}

/// What is put back of stored outcomes is what is left of them.
proof fn lemma_outlasting(
    s: Seq<Timed<Outcome>>,
    q: Seq<(u64, bool, u64)>,
    p: PerformancePolicy,
    stored: (u64, u64),
    later: (u64, u64),
)
    requires
        q.len() == s.len(),
        forall|i: int|
            0 <= i < s.len() ==> #[trigger] q[i] == (
                calendar_secs(s[i].at, p, stored.0, stored.1),
                s[i].what.0,
                s[i].what.1,
            ),
    ensures
        restored_outcomes(q, p, later.0, later.1) == outlasting(s, p, stored, later),
    decreases s.len(),
{
    reveal(Seq::filter);
    if s.len() > 0 {
        let d = s.drop_last();
        let e = q.drop_last();
        assert forall|i: int| 0 <= i < d.len() implies #[trigger] e[i] == (
            calendar_secs(d[i].at, p, stored.0, stored.1),
            d[i].what.0,
            d[i].what.1,
        ) by {
            assert(e[i] == q[i]);
        }
        lemma_outlasting(d, e, p, stored, later);
        let k = s.len() - 1;
        assert(q[k] == q.last());
        assert(restored_outcomes(q, p, later.0, later.1) =~= outlasting(s, p, stored, later));
    } else {
        assert(restored_outcomes(q, p, later.0, later.1) =~= outlasting(s, p, stored, later));
    }
}

/// Windows of different miners are put back side by side.
proof fn lemma_windows_side_by_side(
    windows: Seq<(u16, Vec<(u64, bool, u64)>)>,
    p: PerformancePolicy,
    now: u64,
    now_secs: u64,
)
    requires
        forall|i: int, j: int|
            0 <= i < j < windows.len() ==> (#[trigger] windows[i]).0 != (#[trigger] windows[j]).0,
    ensures
        ({
            let r = windows_restored(Map::empty(), windows, p, now, now_secs);
            &&& forall|u: u16| #[trigger]
                r.contains_key(u) ==> exists|j: int|
                    0 <= j < windows.len() && (#[trigger] windows[j]).0 == u
            &&& forall|j: int|
                0 <= j < windows.len() ==> {
                    let s = restored_outcomes((#[trigger] windows[j]).1@, p, now, now_secs);
                    &&& r.contains_key(windows[j].0) == (s.len() > 0)
                    &&& s.len() > 0 ==> r[windows[j].0] == s
                }
        }),
    decreases windows.len(),
{
    if windows.len() > 0 {
        let d = windows.drop_last();
        assert forall|i: int, j: int| 0 <= i < j < d.len() implies (#[trigger] d[i]).0 != (
        #[trigger] d[j]).0 by {
            assert(windows[i].0 != windows[j].0);
        }
        lemma_windows_side_by_side(d, p, now, now_secs);
        let r = windows_restored(Map::empty(), windows, p, now, now_secs);
        let before = windows_restored(Map::empty(), d, p, now, now_secs);
        let last = windows.len() - 1;
        assert(windows[last] == windows.last());
        assert(!before.contains_key(windows.last().0)) by {
            if before.contains_key(windows.last().0) {
                let j = choose|j: int| 0 <= j < d.len() && (#[trigger] d[j]).0 == windows.last().0;
                assert(windows[j].0 != windows[last].0);
            }
        }
        assert forall|u: u16| #[trigger] r.contains_key(u) implies exists|j: int|
            0 <= j < windows.len() && (#[trigger] windows[j]).0 == u by {
            if u != windows.last().0 {
                assert(before.contains_key(u));
                let j = choose|j: int| 0 <= j < d.len() && (#[trigger] d[j]).0 == u;
                assert(windows[j].0 == u);
            } else {
                assert(windows[last].0 == u);
            }
        }
        assert forall|j: int| 0 <= j < windows.len() implies {
            let s = restored_outcomes((#[trigger] windows[j]).1@, p, now, now_secs);
            &&& r.contains_key(windows[j].0) == (s.len() > 0)
            &&& s.len() > 0 ==> r[windows[j].0] == s
        } by {
            if j < last {
                assert(d[j] == windows[j]);
                assert(windows[j].0 != windows[last].0);
            }
        }
    }
}

/// Of a list that names only miners with outcomes, each comes out.
proof fn lemma_windows_listed(list: Seq<(String, Json)>)
    requires
        forall|j: int|
            0 <= j < list.len() ==> unsigned_up_to((#[trigger] list[j]).0@, u16::MAX as nat) is Some
                && list[j].1@.list() is Some,
    ensures
        windows_in(list) == Seq::new(
            list.len(),
            |j: int| (uid_named(list[j].0@), outcomes_in(list[j].1@.list()->0)),
        ),
    decreases list.len(),
{
    let want = Seq::new(
        list.len(),
        |j: int| (uid_named(list[j].0@), outcomes_in(list[j].1@.list()->0)),
    );
    if list.len() > 0 {
        let d = list.drop_last();
        assert forall|j: int| 0 <= j < d.len() implies unsigned_up_to(
            (#[trigger] d[j]).0@,
            u16::MAX as nat,
        ) is Some && d[j].1@.list() is Some by {
            assert(d[j] == list[j]);
        }
        lemma_windows_listed(d);
        assert(list[list.len() - 1] == list.last());
        assert(windows_in(list) =~= want);
    } else {
        assert(windows_in(list) =~= want);
    }
}

/// A list of miners, each under its number, holds what there is to say of each.
proof fn lemma_listed(list: Seq<(String, Json)>, uids: Set<u16>, what: spec_fn(u16) -> JsonV)
    requires
        lists_members(list, by_uid(uids, what)),
    ensures
        forall|j: int|
            0 <= j < list.len() ==> {
                let u = uid_named((#[trigger] list[j]).0@);
                &&& unsigned_up_to(list[j].0@, u16::MAX as nat) is Some
                &&& uids.contains(u)
                &&& list[j].1@ == what(u)
            },
        forall|i: int, j: int|
            0 <= i < j < list.len() ==> uid_named((#[trigger] list[i]).0@) != uid_named(
                (#[trigger] list[j]).0@,
            ),
        forall|u: u16| #[trigger]
            uids.contains(u) ==> exists|j: int|
                0 <= j < list.len() && uid_named((#[trigger] list[j]).0@) == u,
{
    let m = by_uid(uids, what);
    lemma_members_distinct(list);
    assert forall|j: int| 0 <= j < list.len() implies {
        let u = uid_named((#[trigger] list[j]).0@);
        &&& unsigned_up_to(list[j].0@, u16::MAX as nat) is Some
        &&& uids.contains(u)
        &&& list[j].1@ == what(u)
        &&& list[j].0@ == decimal_text(u as nat)
    } by {
        assert(m.contains_key(list[j].0@));
        let w = choose|w: u16| uids.contains(w) && list[j].0@ == #[trigger] decimal_text(w as nat);
        decimal_reads_back(w as nat);
    }
    assert forall|i: int, j: int| 0 <= i < j < list.len() implies uid_named(
        (#[trigger] list[i]).0@,
    ) != uid_named((#[trigger] list[j]).0@) by {
        assert(list[i].0@ != list[j].0@);
    }
    assert forall|u: u16| #[trigger] uids.contains(u) implies exists|j: int|
        0 <= j < list.len() && uid_named((#[trigger] list[j]).0@) == u by {
        decimal_reads_back(u as nat);
        assert(m.contains_key(decimal_text(u as nat)));
        let j = choose|j: int|
            0 <= j < list.len() && (#[trigger] list[j]).0@ == decimal_text(u as nat);
        assert(uid_named(list[j].0@) == u);
    }
}

/// Capacities of different miners are put back side by side.
proof fn lemma_capacities_side_by_side(list: Seq<(String, Json)>, c: CapsV, now: u64)
    requires
        forall|j: int|
            0 <= j < list.len() ==> {
                let u = uid_named((#[trigger] list[j]).0@);
                &&& unsigned_up_to(list[j].0@, u16::MAX as nat) is Some
                &&& c.caps.contains_key(u)
                &&& list[j].1@ == capacity_json(c.caps[u], results_of(c.results, u))
            },
    ensures
        ({
            let r = capacities_restored(CapsV::empty(), list, now);
            let back = capacities_back(c, now);
            &&& forall|u: u16| #[trigger]
                r.caps.contains_key(u) <==> exists|j: int|
                    0 <= j < list.len() && uid_named((#[trigger] list[j]).0@) == u
            &&& forall|u: u16| #[trigger]
                r.caps.contains_key(u) ==> c.caps.contains_key(u) && r.caps[u] == back.caps[u]
            &&& r.touched.dom() == r.caps.dom()
            &&& forall|u: u16| #[trigger] r.touched.contains_key(u) ==> r.touched[u] == now
            &&& forall|u: u16| #[trigger]
                r.results.contains_key(u) <==> r.caps.contains_key(u) && results_of(c.results, u).len()
                    > 0
            &&& forall|u: u16| #[trigger]
                r.results.contains_key(u) ==> r.results[u] == results_of(c.results, u)
            &&& r.events == CapsV::empty().events
            &&& r.evictions == CapsV::empty().evictions
            &&& r.adjusted == CapsV::empty().adjusted
        }),
    decreases list.len(),
{
    let r = capacities_restored(CapsV::empty(), list, now);
    if list.len() > 0 {
        let d = list.drop_last();
        let last = list.len() - 1;
        assert forall|j: int| 0 <= j < d.len() implies {
            let u = uid_named((#[trigger] d[j]).0@);
            &&& unsigned_up_to(d[j].0@, u16::MAX as nat) is Some
            &&& c.caps.contains_key(u)
            &&& d[j].1@ == capacity_json(c.caps[u], results_of(c.results, u))
        } by {
            assert(d[j] == list[j]);
        }
        lemma_capacities_side_by_side(d, c, now);
        let before = capacities_restored(CapsV::empty(), d, now);
        assert(list[last] == list.last());
        let uid = uid_named(list.last().0@);
        stored_capacities_read_back(c.caps[uid], results_of(c.results, uid));
        assert forall|u: u16| #[trigger] r.caps.contains_key(u) <==> exists|j: int|
            0 <= j < list.len() && uid_named((#[trigger] list[j]).0@) == u by {
            if r.caps.contains_key(u) {
                if u == uid {
                    assert(uid_named(list[last].0@) == u);
                } else {
                    assert(before.caps.contains_key(u));
                    let j = choose|j: int|
                        0 <= j < d.len() && uid_named((#[trigger] d[j]).0@) == u;
                    assert(uid_named(list[j].0@) == u);
                }
            }
            if exists|j: int| 0 <= j < list.len() && uid_named((#[trigger] list[j]).0@) == u {
                let j = choose|j: int|
                    0 <= j < list.len() && uid_named((#[trigger] list[j]).0@) == u;
                if j < last {
                    assert(uid_named(d[j].0@) == u);
                }
            }
        }
        assert(r.touched.dom() =~= r.caps.dom());
    } else {
        assert(r.touched.dom() =~= r.caps.dom());
    }
}

/// What is stored of a tracker at one moment and loaded into an empty one at another
/// comes back: of every miner the outcomes that still count, in their order, each as
/// it went, with its time and its place in time to the second; and every capacity,
/// within the limits, with its results. How times are written is left to `numbers`,
/// and how they are read to `number`, which is to give each time again.
pub proof fn what_was_stored_comes_back(
    v: PerfV,
    p: PerformancePolicy,
    numbers: Map<u16, Vec<Json>>,
    number: spec_fn(JsonV) -> u64,
    stored: (u64, u64),
    s: StoredState,
    windows: Seq<(u16, Vec<(u64, bool, u64)>)>,
    later: (u64, u64),
)
    requires
        p.ticks_per_sec > 0,
        times_written(v.windows, numbers, number),
        is_state_in(s, stored_json(v, numbers, p, stored.0, stored.1)),
        times_read(windows, windows_view(s.windows@), number),
    ensures
        windows_restored(Map::empty(), windows, p, later.0, later.1) == windows_outlasting(
            v.windows,
            p,
            stored,
            later,
        ),
        s.capacities matches Some(list) && capacities_restored(CapsV::empty(), list@, later.0)
            == capacities_back(v.caps, later.0),
{
    let json = stored_json(v, numbers, p, stored.0, stored.1);
    let window = |u: u16| window_json(v.windows[u], numbers[u]@, p, stored.0, stored.1);
    let capacity = |u: u16| capacity_json(v.caps.caps[u], results_of(v.caps.results, u));
    assert("windows"@ != "capacities"@) by {
        reveal_strlit("windows");
        reveal_strlit("capacities");
        assert("windows"@.len() != "capacities"@.len());
    }
    let m = by_uid(v.windows.dom(), window);
    assert(inner_object(json, "windows"@) == Some(m));
    assert(inner_object(json, "capacities"@) == Some(by_uid(v.caps.caps.dom(), capacity)));

    let list = choose|list: Seq<(String, Json)>| #[trigger]
        lists_members(list, m) && windows_view(s.windows@) == windows_in(list);
    lemma_listed(list, v.windows.dom(), window);
    assert forall|j: int| 0 <= j < list.len() implies unsigned_up_to(
        (#[trigger] list[j]).0@,
        u16::MAX as nat,
    ) is Some && list[j].1@.list() is Some by {}
    lemma_windows_listed(list);
    assert forall|j: int| 0 <= j < windows.len() implies {
        let u = uid_named(list[j].0@);
        &&& (#[trigger] windows[j]).0 == u
        &&& v.windows.contains_key(u)
        &&& restored_outcomes(windows[j].1@, p, later.0, later.1) == outlasting(
            v.windows[u],
            p,
            stored,
            later,
        )
    } by {
        let u = uid_named(list[j].0@);
        assert(v.windows.dom().contains(u));
        assert(v.windows.contains_key(u));
        let w = v.windows[u];
        let n = numbers[u]@;
        assert(list[j].1@ == window(u));
        lemma_outcomes(w, n, p, stored.0, stored.1);
        let read = windows[j].1@;
        assert(read == windows_view(s.windows@)[j].1.map_values(
            |o: (u64, bool, JsonV)| (o.0, o.1, number(o.2)),
        ));
        assert forall|i: int| 0 <= i < w.len() implies #[trigger] read[i] == (
            calendar_secs(w[i].at, p, stored.0, stored.1),
            w[i].what.0,
            w[i].what.1,
        ) by {
            assert(is_number(n[i]@) && number(n[i]@) == w[i].what.1);
        }
        lemma_outlasting(w, read, p, stored, later);
    }
    assert forall|i: int, j: int| 0 <= i < j < windows.len() implies (#[trigger] windows[i]).0 != (
    #[trigger] windows[j]).0 by {
        assert(uid_named(list[i].0@) != uid_named(list[j].0@));
    }
    lemma_windows_side_by_side(windows, p, later.0, later.1);
    let got = windows_restored(Map::empty(), windows, p, later.0, later.1);
    let want = windows_outlasting(v.windows, p, stored, later);
    assert forall|u: u16| #[trigger] got.contains_key(u) == want.contains_key(u) && (
    want.contains_key(u) ==> got[u] == want[u]) by {
        if got.contains_key(u) {
            let j = choose|j: int| 0 <= j < windows.len() && (#[trigger] windows[j]).0 == u;
            assert(uid_named(list[j].0@) == u);
        }
        if want.contains_key(u) {
            assert(v.windows.dom().contains(u));
            let j = choose|j: int| 0 <= j < list.len() && uid_named((#[trigger] list[j]).0@) == u;
            assert(windows[j].0 == u);
        }
    }
    assert(got.dom() =~= want.dom());
    assert(got =~= want);

    let caps = s.capacities->0@;
    lemma_listed(caps, v.caps.caps.dom(), capacity);
    assert forall|j: int| 0 <= j < caps.len() implies {
        let u = uid_named((#[trigger] caps[j]).0@);
        &&& unsigned_up_to(caps[j].0@, u16::MAX as nat) is Some
        &&& v.caps.caps.contains_key(u)
        &&& caps[j].1@ == capacity_json(v.caps.caps[u], results_of(v.caps.results, u))
    } by {
        let u = uid_named(caps[j].0@);
        assert(v.caps.caps.dom().contains(u));
        assert(caps[j].1@ == capacity(u));
    }
    lemma_capacities_side_by_side(caps, v.caps, later.0);
    let r = capacities_restored(CapsV::empty(), caps, later.0);
    let back = capacities_back(v.caps, later.0);
    assert forall|u: u16| r.caps.contains_key(u) == v.caps.caps.contains_key(u) by {
        if v.caps.caps.contains_key(u) {
            assert(v.caps.caps.dom().contains(u));
        }
    }
    assert(r.caps =~= back.caps);
    assert(r.touched =~= back.touched) by {
        assert forall|u: u16| r.touched.contains_key(u) == back.touched.contains_key(u) by {
            assert(r.touched.dom().contains(u) == r.caps.dom().contains(u));
        }
    }
    assert(r.results =~= back.results);
    assert(r =~= back);
}

/// What is stored and loaded at the same moment loses no outcome that counts, and
/// moves none by a whole second.
pub proof fn nothing_that_counts_is_lost(
    s: Seq<Timed<Outcome>>,
    p: PerformancePolicy,
    moment: (u64, u64),
)
    requires
        p.ticks_per_sec > 0,
        forall|i: int|
            0 <= i < s.len() ==> (#[trigger] s[i]).at <= moment.0 && moment.0 - s[i].at
                <= p.window_ttl && moment.0 - s[i].at <= moment.1 * p.ticks_per_sec,
    ensures
        ({
            let r = outlasting(s, p, moment, moment);
            &&& r.len() == s.len()
            &&& forall|i: int|
                0 <= i < s.len() ==> {
                    &&& (#[trigger] r[i]).what == s[i].what
                    &&& s[i].at <= r[i].at < s[i].at + p.ticks_per_sec
                }
        }),
    decreases s.len(),
{
    reveal(Seq::filter);
    if s.len() > 0 {
        let d = s.drop_last();
        assert forall|i: int| 0 <= i < d.len() implies (#[trigger] d[i]).at <= moment.0 && moment.0
            - d[i].at <= p.window_ttl && moment.0 - d[i].at <= moment.1 * p.ticks_per_sec by {
            assert(d[i] == s[i]);
        }
        nothing_that_counts_is_lost(d, p, moment);
        let last = s.len() - 1;
        let t = s[last];
        assert(t == s.last());
        let ticks = p.ticks_per_sec as int;
        let age = moment.0 - t.at;
        let secs = age / ticks;
        assert(secs <= moment.1 && secs <= p.window_ttl as int / ticks && 0 <= secs && secs * ticks
            <= age < secs * ticks + ticks) by (nonlinear_arith)
            requires
                ticks > 0,
                0 <= age <= p.window_ttl,
                age <= moment.1 * ticks,
                secs == age / ticks,
        ;
        assert(calendar_secs(t.at, p, moment.0, moment.1) == moment.1 - secs);
        assert(minus(moment.1, calendar_secs(t.at, p, moment.0, moment.1)) == secs);
        assert(outlasts(t.at, p, moment, moment));
        let r = outlasting(s, p, moment, moment);
        let q = outlasting(d, p, moment, moment);
        assert(r =~= q.push(moved(t, p, moment, moment)));
        assert forall|i: int| 0 <= i < s.len() implies {
            &&& (#[trigger] r[i]).what == s[i].what
            &&& s[i].at <= r[i].at < s[i].at + p.ticks_per_sec
        } by {
            if i < last {
                assert(r[i] == q[i]);
                assert(d[i] == s[i]);
            }
        }
    }
}

} // verus!
