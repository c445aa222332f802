//! What is written down and read back, member by member.

use vstd::prelude::*;

use crate::capacity::{hotkey_or_empty, restored_cap, CapsV};
use crate::json::{members, Json, JsonV};
use crate::performance::{
    bools_in, calendar_secs, capacities_restored, capacity_in, clock_time, is_outcome, is_state_in,
    outcomes_in, outcomes_view, restored_outcomes, results_of, stored_json, uid_named, windows_in,
    windows_restored, windows_view, Outcome, PerfV, PerformancePolicy, StoredOutcome, StoredState,
};
use crate::rsv::{block_list_read, blocks_read, state_read, state_stored, strikes_read, RsvV};
use crate::scoring::scores_in;
use crate::text::{decimal_reads_back, decimal_text, unsigned_up_to};
use crate::timed::Timed;

verus! {

proof fn lemma_names()
    ensures
        "coldstart"@ != "last_seen"@,
        "skiplist"@ != "coldstart"@,
        "skiplist"@ != "last_seen"@,
        "skiplist"@ != "strikes"@,
        "strikes"@ != "coldstart"@,
        "strikes"@ != "last_seen"@,
        "version"@ != "coldstart"@,
        "version"@ != "last_seen"@,
        "version"@ != "skiplist"@,
        "version"@ != "strikes"@,
        "windows"@ != "capacities"@,
{
    reveal_strlit("windows");
    reveal_strlit("capacities");
    reveal_strlit("version");
    reveal_strlit("skiplist");
    reveal_strlit("strikes");
    reveal_strlit("coldstart");
    reveal_strlit("last_seen");
    assert("windows"@.len() == 7);
    assert("capacities"@.len() == 10);
    assert("version"@.len() == 7 && "version"@[0] == 'v');
    assert("skiplist"@.len() == 8);
    assert("strikes"@.len() == 7 && "strikes"@[0] == 's');
    assert("coldstart"@.len() == 9 && "coldstart"@[0] == 'c');
    assert("last_seen"@.len() == 9 && "last_seen"@[0] == 'l');
}

proof fn lemma_uid_named(u: u16)
    ensures
        uid_named(decimal_text(u as nat)) == u,
        unsigned_up_to(decimal_text(u as nat), u16::MAX as nat) == Some(u as nat),
{
    decimal_reads_back(u as nat);
}

/// Each miner's outcomes are stored under its number: each with its time by the
/// calendar, whether it went well, and how long it took. Each capacity is stored under
/// its miner's number, with the results that came with it.
pub proof fn what_is_known_is_stored_by_miner(
    v: PerfV,
    numbers: Map<u16, Vec<Json>>,
    p: PerformancePolicy,
    now: u64,
    now_secs: u64,
    u: u16,
    i: int,
)
    ensures
        ({
            let j = stored_json(v, numbers, p, now, now_secs);
            let name = decimal_text(u as nat);
            &&& v.windows.contains_key(u) && 0 <= i < v.windows[u].len() ==> {
                let t = v.windows[u][i];
                &&& j.member("windows"@) matches Some(w)
                &&& w.member(name) matches Some(JsonV::Array(s))
                &&& s.len() == v.windows[u].len()
                &&& s[i] == JsonV::Array(
                    seq![
                        JsonV::Int(calendar_secs(t.at, p, now, now_secs) as int),
                        JsonV::Bool(t.what.0),
                        numbers[u]@[i]@,
                    ],
                )
            }
            &&& v.caps.caps.contains_key(u) ==> {
                &&& j.member("capacities"@) matches Some(w)
                &&& w.member(name) matches Some(JsonV::Array(s))
                &&& s.len() == 2 && s[0] == JsonV::Int(v.caps.caps[u] as int)
                &&& s[1] matches JsonV::Array(r)
                &&& v.caps.results.contains_key(u) ==> r.len() == v.caps.results[u].len() && (0 <= i
                    < r.len() ==> r[i] == JsonV::Bool(v.caps.results[u][i]))
                &&& !v.caps.results.contains_key(u) ==> r.len() == 0
            }
        }),
{
    lemma_names();
    lemma_uid_named(u);
}

/// Something that was so many ticks ago was as many seconds ago by the calendar, and
/// reads back as so many ticks ago where the clock reaches back that far.
pub proof fn times_go_over_to_the_calendar(
    at: u64,
    secs: u64,
    p: PerformancePolicy,
    now: u64,
    now_secs: u64,
)
    requires
        p.ticks_per_sec > 0,
    ensures
        at <= now && (now - at) / p.ticks_per_sec as int <= now_secs ==> calendar_secs(
            at,
            p,
            now,
            now_secs,
        ) == now_secs - (now - at) / p.ticks_per_sec as int,
        at > now ==> calendar_secs(at, p, now, now_secs) == now_secs,
        secs <= now_secs && (now_secs - secs) * p.ticks_per_sec <= now ==> clock_time(
            secs,
            p,
            now,
            now_secs,
        ) == now - (now_secs - secs) * p.ticks_per_sec,
        secs <= now_secs && (now_secs - secs) * p.ticks_per_sec > now ==> clock_time(
            secs,
            p,
            now,
            now_secs,
        ) == now,
        secs > now_secs ==> clock_time(secs, p, now, now_secs) == now,
{
    if at > now {
        assert(0u64 / p.ticks_per_sec == 0) by (nonlinear_arith)
            requires
                p.ticks_per_sec > 0,
        ;
    }
    if secs > now_secs {
        assert(0 * p.ticks_per_sec == 0) by (nonlinear_arith);
    }
}

/// Stored outcomes are read one after the other; what is no outcome is passed over.
pub proof fn stored_outcomes_are_read(s: Seq<JsonV>, n: u64, b: bool, t: JsonV, x: JsonV)
    ensures
        outcomes_in(Seq::empty()).len() == 0,
        t is Int || t is Decimal ==> outcomes_in(
            s.push(JsonV::Array(seq![JsonV::Int(n as int), JsonV::Bool(b), t])),
        ) == outcomes_in(s).push((n, b, t)),
        !(t is Int) && !(t is Decimal) ==> outcomes_in(
            s.push(JsonV::Array(seq![JsonV::Int(n as int), JsonV::Bool(b), t])),
        ) == outcomes_in(s),
        !(x is Array) ==> outcomes_in(s.push(x)) == outcomes_in(s),
        is_outcome(x) ==> (x matches JsonV::Array(a) && a.len() == 3 && a[0] is Int && a[1] is Bool),
{
    let y = JsonV::Array(seq![JsonV::Int(n as int), JsonV::Bool(b), t]);
    assert(s.push(y).drop_last() =~= s);
    assert(s.push(x).drop_last() =~= s);
}

/// Stored outcomes are read miner by miner, under the miner's number; under other
/// names nothing is read.
pub proof fn stored_outcomes_are_read_by_miner(
    list: Seq<(String, Json)>,
    m: (String, Json),
    u: u16,
    s: Seq<JsonV>,
    o: Seq<StoredOutcome>,
    i: int,
    w: Seq<(u16, Vec<StoredOutcome>)>,
)
    requires
        m.1@ == JsonV::Array(s),
        0 <= i < o.len(),
    ensures
        windows_in(Seq::empty()).len() == 0,
        m.0@ == decimal_text(u as nat) ==> windows_in(list.push(m)) == windows_in(list).push(
            (u, outcomes_in(s)),
        ),
        unsigned_up_to(m.0@, u16::MAX as nat) is None ==> windows_in(list.push(m)) == windows_in(
            list,
        ),
        outcomes_view(o).len() == o.len(),
        outcomes_view(o)[i] == (o[i].secs, o[i].success, o[i].time@),
        0 <= i < w.len() ==> windows_view(w).len() == w.len() && windows_view(w)[i].0 == w[i].0
            && windows_view(w)[i].1 == outcomes_view(w[i].1@),
{
    assert(list.push(m).drop_last() =~= list);
    lemma_uid_named(u);
}

/// A stored outcome counts again, at its time, unless it is older than outcomes count
/// for; a miner without any that counts is left as it was.
pub proof fn outcomes_that_count_are_put_back(
    s: Seq<(u64, bool, u64)>,
    x: (u64, bool, u64),
    p: PerformancePolicy,
    now: u64,
    now_secs: u64,
    w: Map<u16, Seq<Timed<Outcome>>>,
    stored: Seq<(u16, Vec<(u64, bool, u64)>)>,
    y: (u16, Vec<(u64, bool, u64)>),
)
    requires
        x.0 <= now_secs,
    ensures
        restored_outcomes(Seq::empty(), p, now, now_secs).len() == 0,
        now_secs - x.0 <= p.window_ttl as int / p.ticks_per_sec as int ==> restored_outcomes(
            s.push(x),
            p,
            now,
            now_secs,
        ) == restored_outcomes(s, p, now, now_secs).push(
            Timed { at: clock_time(x.0, p, now, now_secs), what: (x.1, x.2) },
        ),
        now_secs - x.0 > p.window_ttl as int / p.ticks_per_sec as int ==> restored_outcomes(
            s.push(x),
            p,
            now,
            now_secs,
        ) == restored_outcomes(s, p, now, now_secs),
        windows_restored(w, Seq::empty(), p, now, now_secs) == w,
        restored_outcomes(y.1@, p, now, now_secs).len() > 0 ==> windows_restored(
            w,
            stored.push(y),
            p,
            now,
            now_secs,
        ) == windows_restored(w, stored, p, now, now_secs).insert(
            y.0,
            restored_outcomes(y.1@, p, now, now_secs),
        ),
        restored_outcomes(y.1@, p, now, now_secs).len() == 0 ==> windows_restored(
            w,
            stored.push(y),
            p,
            now,
            now_secs,
        ) == windows_restored(w, stored, p, now, now_secs),
{
    assert(s.push(x).drop_last() =~= s);
    assert(stored.push(y).drop_last() =~= stored);
}

/// A stored capacity comes back as it was, but at least as one and at most as
/// thirty-two, as one just used, with the results that came with it; the others stay.
pub proof fn stored_capacities_are_put_back(
    v: CapsV,
    list: Seq<(String, Json)>,
    m: (String, Json),
    u: u16,
    other: u16,
    cap: u64,
    r: Seq<JsonV>,
    now: u64,
)
    requires
        m.0@ == decimal_text(u as nat),
        m.1@ == JsonV::Array(seq![JsonV::Int(cap as int), JsonV::Array(r)]),
        other != u,
    ensures
        capacities_restored(v, Seq::empty(), now) == v,
        ({
            let a = capacities_restored(v, list, now);
            let b = capacities_restored(v, list.push(m), now);
            &&& b.caps.contains_key(u) && b.caps[u] >= 1 && b.caps[u] <= 32
            &&& 1 <= cap <= 32 ==> b.caps[u] == cap
            &&& cap > 32 ==> b.caps[u] == 32
            &&& b.touched.contains_key(u) && b.touched[u] == now
            &&& bools_in(r).len() > 0 ==> b.results.contains_key(u) && b.results[u] == bools_in(r)
            &&& bools_in(r).len() == 0 ==> b.results == a.results
            &&& a.caps.contains_key(other) ==> b.caps.contains_key(other) && b.caps[other]
                == a.caps[other]
            &&& b.events == a.events && b.evictions == a.evictions && b.adjusted == a.adjusted
        }),
{
    assert(list.push(m).drop_last() =~= list);
    lemma_uid_named(u);
    let s = seq![JsonV::Int(cap as int), JsonV::Array(r)];
    assert(m.1@.list() == Some(s));
    assert(capacity_in(m.1@) == Some((cap, bools_in(r))));
}

/// Truth values are read in order and nothing else is; what is no capacity is passed
/// over.
pub proof fn results_are_read_in_order(s: Seq<JsonV>, b: bool, x: JsonV, r: Map<u16, Seq<bool>>, u: u16)
    ensures
        bools_in(Seq::empty()).len() == 0,
        bools_in(s.push(JsonV::Bool(b))) == bools_in(s).push(b),
        !(x is Bool) ==> bools_in(s.push(x)) == bools_in(s),
        !(x is Array) ==> capacity_in(x) is None,
        x matches JsonV::Array(a) ==> (a.len() != 2 ==> capacity_in(x) is None),
        x matches JsonV::Array(a) ==> (a.len() == 2 && !(a[0] is Int) ==> capacity_in(x) is None),
        r.contains_key(u) ==> results_of(r, u) == r[u],
        !r.contains_key(u) ==> results_of(r, u).len() == 0,
{
    assert(s.push(JsonV::Bool(b)).drop_last() =~= s);
    assert(s.push(x).drop_last() =~= s);
}

/// Where nothing is stored of outcomes or of capacities, nothing is read of them.
pub proof fn missing_members_are_nothing(s: StoredState, v: JsonV)
    requires
        is_state_in(s, v),
    ensures
        v.member("windows"@) is None ==> s.windows@.len() == 0,
        v.member("capacities"@) is None ==> s.capacities is None,
        v.member("capacities"@) matches Some(JsonV::Object(m)) ==> s.capacities matches Some(l)
            && members(l@) == m,
        v.member("windows"@) matches Some(JsonV::Object(m)) ==> exists|list: Seq<(String, Json)>|
            #[trigger] members(list) == m && windows_view(s.windows@) == windows_in(list),
{
}

/// A list of members means each member under its name, the last one of a name.
pub proof fn members_stand_under_their_names(s: Seq<(String, Json)>, m: (String, Json), k: Seq<char>)
    ensures
        members(Seq::empty()) == Map::<Seq<char>, JsonV>::empty(),
        members(s.push(m)).contains_key(m.0@) && members(s.push(m))[m.0@] == m.1@,
        k != m.0@ ==> members(s.push(m)).contains_key(k) == members(s).contains_key(k) && (
        members(s).contains_key(k) ==> members(s.push(m))[k] == members(s)[k]),
{
    reveal_with_fuel(members, 2);
    assert(s.push(m).drop_last() =~= s);
}

/// A stored record of the present layout is read entry by entry, and what stands on the
/// skiplist counts as brought about by strikes; one of an older layout, or of none, is
/// passed over.
pub proof fn the_record_is_read_by_name(
    j: JsonV,
    list: Map<Seq<char>, JsonV>,
    k: Seq<char>,
    n: u64,
    text: Seq<u8>,
)
    ensures
        j.member("version"@) is None ==> state_read(j) == RsvV::empty(),
        j.member("version"@) == Some(JsonV::Int(0)) || j.member("version"@) == Some(JsonV::Int(1))
            ==> state_read(j) == RsvV::empty(),
        j.member("version"@) == Some(JsonV::Int(2)) && list.contains_key(k) && list[k]
            == JsonV::Int(n as int) ==> {
            let s = state_read(j);
            &&& j.member("skiplist"@) == Some(JsonV::Object(list)) ==> s.skiplist.contains_key(k)
                && s.skiplist[k] == n && s.struck.contains_key(k) && s.struck[k] == n
            &&& j.member("coldstart"@) == Some(JsonV::Object(list)) ==> s.coldstart.contains_key(k)
                && s.coldstart[k] == n
            &&& j.member("last_seen"@) == Some(JsonV::Object(list)) ==> s.last_seen.contains_key(k)
                && s.last_seen[k] == n
        },
        j.member("version"@) == Some(JsonV::Int(2)) && list.contains_key(k) && list[k]
            == JsonV::Array(seq![JsonV::Int(n as int)]) && j.member("strikes"@) == Some(
            JsonV::Object(list),
        ) ==> state_read(j).strikes.contains_key(k) && state_read(j).strikes[k] == seq![n],
        state_stored(None) == RsvV::empty(),
        RsvV::empty().skiplist.dom() == Set::<Seq<char>>::empty(),
        crate::json::json_parsed(text) matches Some(v) ==> state_stored(Some(text)) == state_read(v),
        crate::json::json_parsed(text) is None ==> state_stored(Some(text)) == RsvV::empty(),
{
    lemma_names();
    let one = seq![JsonV::Int(n as int)];
    assert(one.drop_last() =~= Seq::<JsonV>::empty());
    reveal_with_fuel(block_list_read, 2);
    assert(block_list_read(one) =~= seq![n]);
}

/// What is no block is passed over, in a record and in a list, and a miner without any
/// strike has none.
pub proof fn what_is_no_block_is_passed_over(
    list: Map<Seq<char>, JsonV>,
    k: Seq<char>,
    s: Seq<JsonV>,
    n: u64,
    x: JsonV,
)
    ensures
        !list.contains_key(k) ==> !blocks_read(Some(JsonV::Object(list))).contains_key(k)
            && !strikes_read(Some(JsonV::Object(list))).contains_key(k),
        list.contains_key(k) && !(list[k] is Int) ==> !blocks_read(
            Some(JsonV::Object(list)),
        ).contains_key(k),
        list.contains_key(k) && !(list[k] is Array) ==> !strikes_read(
            Some(JsonV::Object(list)),
        ).contains_key(k),
        list.contains_key(k) && list[k] == JsonV::Array(Seq::empty()) ==> !strikes_read(
            Some(JsonV::Object(list)),
        ).contains_key(k),
        blocks_read(None) == Map::<Seq<char>, u64>::empty(),
        strikes_read(None) == Map::<Seq<char>, Seq<u64>>::empty(),
        block_list_read(s.push(JsonV::Int(n as int))) == block_list_read(s).push(n),
        !(x is Int) ==> block_list_read(s.push(x)) == block_list_read(s),
{
    assert(s.push(JsonV::Int(n as int)).drop_last() =~= s);
    assert(s.push(x).drop_last() =~= s);
}

/// A miner that is forgotten has no strikes and counts as never seen, but stays on the
/// skiplist; the others are remembered as before.
pub proof fn forgotten_miners_stay_skipped(s: RsvV, gone: Set<Seq<char>>, k: Seq<char>, cap: nat)
    ensures
        s.without(gone).skiplist == s.skiplist && s.without(gone).struck == s.struck,
        gone.contains(k) ==> !s.without(gone).strikes.contains_key(k) && !s.without(
            gone,
        ).coldstart.contains_key(k) && !s.without(gone).last_seen.contains_key(k),
        !gone.contains(k) && s.strikes.contains_key(k) ==> s.without(gone).strikes.contains_key(k)
            && s.without(gone).strikes[k] == s.strikes[k],
        !gone.contains(k) && s.coldstart.contains_key(k) ==> s.without(gone).coldstart.contains_key(
            k,
        ) && s.without(gone).coldstart[k] == s.coldstart[k],
        !gone.contains(k) && s.last_seen.contains_key(k) ==> s.without(gone).last_seen.contains_key(
            k,
        ) && s.without(gone).last_seen[k] == s.last_seen[k],
{
}

/// Where too many miners are remembered, those go that were seen longest ago, and just
/// as many as are too many.
pub proof fn those_seen_longest_ago_go(
    s: RsvV,
    cap: nat,
    gone: Set<Seq<char>>,
    a: Seq<char>,
    b: Seq<char>,
)
    requires
        s.oldest_beyond(cap, gone),
    ensures
        gone.contains(a) ==> s.last_seen.contains_key(a),
        gone.contains(a) && s.last_seen.contains_key(b) && !gone.contains(b) ==> s.last_seen[a]
            <= s.last_seen[b],
        s.last_seen.dom().len() <= cap ==> gone.len() == 0,
        s.last_seen.dom().len() > cap ==> s.last_seen.dom().len() - gone.len() == cap,
{
}

/// Stored scores are read where every name is a miner's number and every value a
/// number, and not at all otherwise.
pub proof fn stored_scores_are_whole_or_nothing(m: Map<Seq<char>, JsonV>, name: Seq<char>, v: JsonV)
    ensures
        !(v is Object) ==> scores_in(v) is None,
        m.contains_key(name) && !(m[name] is Int) && !(m[name] is Decimal) ==> scores_in(
            JsonV::Object(m),
        ) is None,
        m.contains_key(name) && (forall|u: u16| name != #[trigger] decimal_text(u as nat))
            ==> scores_in(JsonV::Object(m)) is None,
        (forall|k: Seq<char>| #[trigger]
            m.contains_key(k) ==> (m[k] is Int || m[k] is Decimal) && exists|u: u16|
                k == #[trigger] decimal_text(u as nat)) ==> scores_in(JsonV::Object(m)) is Some,
{
}

/// A miner is told of by its hotkey, and by nothing where that is not known; a
/// capacity is put back as at least one and at most thirty-two.
pub proof fn unknown_hotkeys_are_empty(h: Map<u16, String>, u: u16, cap: u64)
    ensures
        h.contains_key(u) ==> hotkey_or_empty(h, u) == h[u]@,
        !h.contains_key(u) ==> hotkey_or_empty(h, u).len() == 0,
        1 <= restored_cap(cap) <= 32,
        1 <= cap <= 32 ==> restored_cap(cap) == cap,
{
}

} // verus!
