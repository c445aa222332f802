//! Who is sent work, how much of it, and in which order.

use vstd::prelude::*;

use crate::address::{ipv4_octets, valid_ip};
use crate::dispatch::{
    are_top, cap_sum, ceiling, contender_count, dispatchable, grants_to, is_fresh_candidate,
    is_next, lemma_picked, lemma_picked_increases, none_can_take, pass_budget, picked, positions,
    queryable, rankable, room_sum, starved_count, top_count, with_evictions, with_one_more,
    DispatchCandidate, NeuronInfo, RateSample,
};
use crate::dispatch_pass::{nothing_waits, queued, settled_sample, taken_off};
use crate::rounds::{has_turn, next_kind, round_budget, BenchmarkTerms, Round, WorkKind};
use crate::rsv::{RsvPolicy, RsvV};
use crate::types::{RequestType, RetryPayload, RunSource};
use crate::work::{DispatchedRequest, NextWork, WorkQueues};

verus! {

/// A neuron that may be asked at all: it holds a connection, unless nobody does, and
/// it is one of the chosen ones or, where none are chosen, a miner with an address.
pub open spec fn may_be_asked(
    n: NeuronInfo,
    authenticated: Map<Seq<char>, ()>,
    targets: Option<Seq<u16>>,
) -> bool {
    &&& (forall|k: Seq<char>| !authenticated.contains_key(k)) || authenticated.contains_key(n.hotkey@)
    &&& targets matches Some(t) ==> exists|i: int| 0 <= i < t.len() && t[i] == n.uid
    &&& targets is None ==> !n.validator_permit && n.axon_ip@.len() > 0 && n.axon_port > 0
        && valid_ip(n.axon_ip@)
}

/// No miner is sent work while the skiplist or a cooldown holds an entry for it that
/// is later than the block, nor one that cannot be asked; every other one is, once
/// and in the order of the network.
pub proof fn only_and_all_fit_miners_are_sent_work(
    neurons: Seq<NeuronInfo>,
    authenticated: Map<Seq<char>, ()>,
    targets: Option<Seq<u16>>,
    cooldowns: Map<Seq<char>, u64>,
    rsv: RsvV,
    block: u64,
    r: Seq<usize>,
)
    requires
        positions(r) == picked(
            neurons.len(),
            |i: int| dispatchable(neurons[i], authenticated, targets, cooldowns, rsv, block),
        ),
    ensures
        forall|k: int|
            0 <= k < r.len() ==> {
                let n = neurons[#[trigger] r[k] as int];
                &&& r[k] < neurons.len()
                &&& rsv.skiplist.contains_key(n.hotkey@) ==> rsv.skiplist[n.hotkey@] <= block
                &&& cooldowns.contains_key(n.hotkey@) ==> cooldowns[n.hotkey@] <= block
                &&& may_be_asked(n, authenticated, targets)
            },
        forall|i: usize|
            i < neurons.len() && {
                let n = #[trigger] neurons[i as int];
                &&& rsv.skiplist.contains_key(n.hotkey@) ==> rsv.skiplist[n.hotkey@] <= block
                &&& cooldowns.contains_key(n.hotkey@) ==> cooldowns[n.hotkey@] <= block
                &&& may_be_asked(n, authenticated, targets)
            } ==> r.contains(i),
        forall|j: int, k: int| 0 <= j < k < r.len() ==> r[j] < r[k],
{
    let pred = |i: int| dispatchable(neurons[i], authenticated, targets, cooldowns, rsv, block);
    let p = picked(neurons.len(), pred);
    lemma_picked(neurons.len(), pred);
    lemma_picked_increases(neurons.len(), pred);
    assert forall|k: int| 0 <= k < r.len() implies {
        let n = neurons[#[trigger] r[k] as int];
        &&& r[k] < neurons.len()
        &&& rsv.skiplist.contains_key(n.hotkey@) ==> rsv.skiplist[n.hotkey@] <= block
        &&& cooldowns.contains_key(n.hotkey@) ==> cooldowns[n.hotkey@] <= block
        &&& may_be_asked(n, authenticated, targets)
    } by {
        assert(positions(r)[k] == r[k]);
        assert(p[k] == r[k]);
        let n = neurons[r[k] as int];
        assert(pred(p[k]));
        lemma_asked(n, authenticated, targets);
    }
    assert forall|i: usize|
        i < neurons.len() && {
            let n = #[trigger] neurons[i as int];
            &&& rsv.skiplist.contains_key(n.hotkey@) ==> rsv.skiplist[n.hotkey@] <= block
            &&& cooldowns.contains_key(n.hotkey@) ==> cooldowns[n.hotkey@] <= block
            &&& may_be_asked(n, authenticated, targets)
        } implies r.contains(i) by {
        lemma_asked(neurons[i as int], authenticated, targets);
        assert(pred(i as int));
        assert(p.contains(i as int));
        let k = choose|k: int| 0 <= k < p.len() && p[k] == i;
        assert(positions(r)[k] == r[k]);
        assert(r[k] == i);
    }
    assert forall|j: int, k: int| 0 <= j < k < r.len() implies r[j] < r[k] by {
        assert(positions(r)[j] == r[j] && positions(r)[k] == r[k]);
        assert(p[j] < p[k]);
    }
}

proof fn lemma_asked(n: NeuronInfo, authenticated: Map<Seq<char>, ()>, targets: Option<Seq<u16>>)
    ensures
        may_be_asked(n, authenticated, targets) == queryable(n, authenticated, targets),
{
    if forall|k: Seq<char>| !authenticated.contains_key(k) {
        assert(authenticated =~= Map::<Seq<char>, ()>::empty());
    }
    if let Some(t) = targets {
        if t.contains(n.uid) {
            let i = choose|i: int| 0 <= i < t.len() && t[i] == n.uid;
        }
    }
}

/// Who can be asked is asked for exactly as it is promised of miners that get work,
/// whatever stands on the skiplist.
pub proof fn only_and_all_miners_can_be_asked(
    neurons: Seq<NeuronInfo>,
    authenticated: Map<Seq<char>, ()>,
    targets: Option<Seq<u16>>,
    r: Seq<usize>,
    i: usize,
)
    requires
        positions(r) == picked(
            neurons.len(),
            |i: int| queryable(neurons[i], authenticated, targets),
        ),
    ensures
        r.contains(i) <==> i < neurons.len() && may_be_asked(
            neurons[i as int],
            authenticated,
            targets,
        ),
{
    let pred = |i: int| queryable(neurons[i], authenticated, targets);
    let p = picked(neurons.len(), pred);
    lemma_picked(neurons.len(), pred);
    if i < neurons.len() {
        lemma_asked(neurons[i as int], authenticated, targets);
        if pred(i as int) {
            assert(p.contains(i as int));
            let k = choose|k: int| 0 <= k < p.len() && p[k] == i;
            assert(positions(r)[k] == r[k]);
        }
    }
    if r.contains(i) {
        let k = choose|k: int| 0 <= k < r.len() && r[k] == i;
        assert(positions(r)[k] == r[k]);
        assert(pred(p[k]));
    }
}

/// An address that a miner can be reached at is four numbers apart from the ranges
/// that lead nowhere: this host, private networks and groups of hosts.
pub proof fn miners_are_not_sought_at_home(s: Seq<char>)
    ensures
        valid_ip(s) ==> ipv4_octets(s) is Some,
        ipv4_octets(s) matches Some((a, b, c, d)) ==> {
            &&& a == 0 || a == 10 || a == 127 || a >= 224 ==> !valid_ip(s)
            &&& a == 192 && b == 168 ==> !valid_ip(s)
            &&& a == 172 && 16 <= b < 32 ==> !valid_ip(s)
            &&& a == 169 && b == 254 ==> !valid_ip(s)
            &&& a == 100 && 64 <= b < 128 ==> !valid_ip(s)
            &&& a == 198 && (b == 18 || b == 19 || b == 51 && c == 100) ==> !valid_ip(s)
            &&& a == 203 && b == 0 && c == 113 ==> !valid_ip(s)
            &&& a == 192 && b == 0 && (c == 2 || c == 0 && d != 9 && d != 10) ==> !valid_ip(s)
            &&& 0 < a < 224 && a != 10 && a != 100 && a != 127 && a != 169 && a != 172 && a != 192
                && a != 198 && a != 203 ==> valid_ip(s)
            &&& a == 172 && !(16 <= b < 32) ==> valid_ip(s)
            &&& a == 169 && b != 254 ==> valid_ip(s)
            &&& a == 100 && !(64 <= b < 128) ==> valid_ip(s)
            &&& a == 192 && b != 0 && b != 168 ==> valid_ip(s)
            &&& a == 192 && b == 0 && (c > 2 || c == 1 || c == 0 && (d == 9 || d == 10))
                ==> valid_ip(s)
            &&& a == 203 && !(b == 0 && c == 113) ==> valid_ip(s)
            &&& a == 198 && b != 18 && b != 19 && !(b == 51 && c == 100) ==> valid_ip(s)
        },
{
}

/// A miner that has taken as much as it can, or was refused, gets no more; where
/// none is chosen, all of them have or were.
pub proof fn full_miners_get_nothing(
    order: Map<Seq<char>, u64>,
    s: Seq<DispatchCandidate>,
    i: int,
    j: int,
)
    requires
        0 <= j < s.len(),
    ensures
        is_next(order, s, i) ==> 0 <= i < s.len() && s[i].available && s[i].projected_active
            < s[i].cap,
        none_can_take(s) ==> !s[j].available || s[j].projected_active >= s[j].cap,
        s[j].available && s[j].projected_active < s[j].cap ==> !none_can_take(s),
{
}

/// The miner that is chosen has no more under way than any other that can take a
/// request; among those with as much it was served no later, by the numbers of the
/// services, and a miner that was never served comes before one that was.
pub proof fn the_chosen_miner_waited_longest(
    order: Map<Seq<char>, u64>,
    s: Seq<DispatchCandidate>,
    i: int,
    j: int,
)
    requires
        is_next(order, s, i),
        0 <= j < s.len(),
        s[j].available,
        s[j].projected_active < s[j].cap,
    ensures
        s[i].projected_active <= s[j].projected_active,
        s[i].projected_active == s[j].projected_active && order.contains_key(s[i].hotkey@)
            && order.contains_key(s[j].hotkey@) ==> order[s[i].hotkey@] <= order[s[j].hotkey@],
        s[i].projected_active == s[j].projected_active && order.contains_key(s[i].hotkey@)
            && order[s[i].hotkey@] > 0 ==> order.contains_key(s[j].hotkey@),
{
    if i < j {
        assert(!crate::dispatch::precedes(order, s[j], s[i]));
    } else if j < i {
        assert(crate::dispatch::precedes(order, s[i], s[j]));
    }
}

/// A miner starts into a pass as what the network says of it: with the capacity that
/// it has shown, or one where it has shown none, and with what it has under way.
pub proof fn candidates_are_the_miners(
    c: DispatchCandidate,
    n: NeuronInfo,
    capacities: Map<u16, usize>,
    active: Map<u16, usize>,
)
    requires
        is_fresh_candidate(c, n, capacities, active),
    ensures
        c.uid == n.uid && c.hotkey@ == n.hotkey@ && c.ip@ == n.axon_ip@ && c.port == n.axon_port,
        capacities.contains_key(n.uid) ==> c.cap == capacities[n.uid],
        !capacities.contains_key(n.uid) ==> c.cap == 1,
        active.contains_key(n.uid) ==> c.projected_active == active[n.uid],
        !active.contains_key(n.uid) ==> c.projected_active == 0,
        c.initial_active == c.projected_active && c.dispatched == 0 && c.available,
{
}

/// Capacities and room add up over any split of the miners, and one miner counts
/// with its own.
pub proof fn capacities_add_up(a: Seq<DispatchCandidate>, b: Seq<DispatchCandidate>, c: DispatchCandidate)
    ensures
        cap_sum(a + b) == cap_sum(a) + cap_sum(b),
        cap_sum(seq![c]) == c.cap,
        room_sum(a + b) == room_sum(a) + room_sum(b),
        c.cap >= c.projected_active ==> room_sum(seq![c]) + c.projected_active == c.cap,
        c.cap < c.projected_active ==> room_sum(seq![c]) == 0,
        contender_count(a + b) == contender_count(a) + contender_count(b),
        contender_count(seq![c]) == 1 <==> c.available && c.projected_active < c.cap,
        contender_count(seq![c]) <= 1,
        starved_count(a + b) == starved_count(a) + starved_count(b),
        starved_count(seq![c]) == 1 <==> c.initial_active == 0 && c.dispatched == 0 && c.cap > 0,
        starved_count(seq![c]) <= 1,
    decreases b.len(),
{
    reveal_with_fuel(cap_sum, 2);
    reveal_with_fuel(room_sum, 2);
    reveal_with_fuel(contender_count, 2);
    reveal_with_fuel(starved_count, 2);
    assert(seq![c].drop_last() =~= Seq::<DispatchCandidate>::empty());
    if b.len() == 0 {
        assert(a + b =~= a);
    } else {
        capacities_add_up(a, b.drop_last(), c);
        assert((a + b).drop_last() =~= a + b.drop_last());
    }
}

/// What is granted to a miner is counted one by one.
pub proof fn grants_are_counted(granted: Seq<usize>, g: usize, i: int)
    ensures
        grants_to(Seq::empty(), i) == 0,
        g == i ==> grants_to(granted.push(g), i) == grants_to(granted, i) + 1,
        g != i ==> grants_to(granted.push(g), i) == grants_to(granted, i),
{
    assert(granted.push(g).drop_last() =~= granted);
}

/// A grant gives a miner one request more and changes nothing else of it.
pub proof fn a_grant_is_one_request(c: DispatchCandidate)
    requires
        c.projected_active < usize::MAX,
        c.dispatched < usize::MAX,
    ensures
        with_one_more(c).projected_active == c.projected_active + 1,
        with_one_more(c).dispatched == c.dispatched + 1,
        with_one_more(c).uid == c.uid && with_one_more(c).hotkey@ == c.hotkey@,
        with_one_more(c).cap == c.cap && with_one_more(c).available == c.available,
        with_one_more(c).initial_active == c.initial_active,
        with_one_more(c).ip@ == c.ip@ && with_one_more(c).port == c.port,
{
}

/// The limit on what is under way never exceeds the configured one, and without
/// pressure is that one. Under pressure it is at most the share of what the miners
/// can take, but never nothing on that account.
pub proof fn limits_hold(configured: Option<usize>, learned: usize, share: Option<usize>)
    ensures
        configured matches Some(c) ==> ceiling(configured, learned, share) <= c,
        share is None || learned == 0 ==> ceiling(configured, learned, share) == (match configured {
            Some(c) => c,
            None => usize::MAX,
        }),
        share matches Some(s) ==> learned > 0 ==> {
            &&& ceiling(configured, learned, share) <= s || ceiling(configured, learned, share) <= 1
            &&& configured is None && s > 0 ==> ceiling(configured, learned, share) == s
            &&& configured is None && s == 0 ==> ceiling(configured, learned, share) == 1
            &&& configured matches Some(c) ==> (c >= s && s > 0 ==> ceiling(
                configured,
                learned,
                share,
            ) == s)
            &&& configured matches Some(c) ==> (c < s ==> ceiling(configured, learned, share) == c)
        },
{
}

/// A pass is made where work waits and less is under way than may be, and then fills
/// up what is left: no more than waits, than may be under way and than the miners
/// can take, and as much as all three allow.
pub proof fn passes_fill_what_is_left(
    under_way: usize,
    queued_work: usize,
    s: Seq<DispatchCandidate>,
    configured: Option<usize>,
    share: Option<usize>,
)
    ensures
        ({
            let b = pass_budget(under_way, queued_work, s, configured, share);
            &&& queued_work == 0 ==> b is None
            &&& configured matches Some(c) ==> (under_way >= c ==> b is None)
            &&& queued_work > 0 && share is None && configured is None && under_way < usize::MAX
                ==> b is Some
            &&& configured matches Some(c) ==> (queued_work > 0 && share is None && under_way < c
                ==> b is Some)
            &&& b matches Some(x) ==> {
                &&& x.budget + under_way == x.ceiling
                &&& x.budget > 0
                &&& configured matches Some(c) ==> x.ceiling <= c
                &&& x.opportunity <= x.budget && x.opportunity <= queued_work
                &&& x.opportunity == x.budget || x.opportunity == queued_work || x.opportunity
                    >= room_sum(s) || x.opportunity == usize::MAX
                &&& x.opportunity <= room_sum(s)
            }
        }),
{
    lemma_room_counts(s);
}

proof fn lemma_room_counts(s: Seq<DispatchCandidate>)
    ensures
        room_sum(s) >= 0,
    decreases s.len(),
{
    if s.len() > 0 {
        lemma_room_counts(s.drop_last());
    }
}

/// Whoever loses its place is passed over until the given block, or longer where it
/// was so already; nobody else is concerned.
pub proof fn lost_places_cool_down(
    cooldowns: Map<Seq<char>, u64>,
    evicted: Seq<(u16, String)>,
    until: u64,
    k: Seq<char>,
)
    ensures
        ({
            let r = with_evictions(cooldowns, evicted, until);
            let lost = exists|i: int| 0 <= i < evicted.len() && (#[trigger] evicted[i]).1@ == k;
            &&& lost ==> r.contains_key(k) && r[k] >= until && (cooldowns.contains_key(k) ==> r[k]
                >= cooldowns[k]) && (r[k] == until || cooldowns.contains_key(k) && r[k]
                == cooldowns[k])
            &&& !lost ==> r.contains_key(k) == cooldowns.contains_key(k) && (cooldowns.contains_key(
                k,
            ) ==> r[k] == cooldowns[k])
        }),
    decreases evicted.len(),
{
    if evicted.len() > 0 {
        let d = evicted.drop_last();
        lost_places_cool_down(cooldowns, d, until, k);
        assert(evicted[evicted.len() - 1] == evicted.last());
        if exists|i: int| 0 <= i < d.len() && (#[trigger] d[i]).1@ == k {
            let i = choose|i: int| 0 <= i < d.len() && (#[trigger] d[i]).1@ == k;
            assert(evicted[i].1@ == k);
        }
        if exists|i: int| 0 <= i < evicted.len() && (#[trigger] evicted[i]).1@ == k {
            let i = choose|i: int| 0 <= i < evicted.len() && (#[trigger] evicted[i]).1@ == k;
            if i < d.len() {
                assert(d[i].1@ == k);
            }
        }
    }
}

/// Customers are served by miners that can be asked and are known well enough; none
/// of those left out is faster than one that was chosen, and as large a share of
/// them is chosen as is asked for, but at least one.
pub proof fn customers_get_the_fastest_miners(
    s: Seq<RateSample>,
    askable: Seq<u16>,
    min_samples: usize,
    pct: u32,
    r: Seq<usize>,
)
    requires
        ({
            let among = picked(s.len(), |i: int| rankable(s[i], askable, min_samples));
            are_top(s, among, top_count(among.len(), pct), positions(r))
        }),
    ensures
        forall|k: int|
            0 <= k < r.len() ==> {
                &&& #[trigger] r[k] < s.len()
                &&& askable.contains(s[r[k] as int].uid)
                &&& s[r[k] as int].samples >= min_samples
            },
        forall|i: usize, k: int|
            0 <= k < r.len() && i < s.len() && askable.contains(#[trigger] s[i as int].uid)
                && s[i as int].samples >= min_samples && !r.contains(i) ==> s[(#[trigger] r[k]) as int].rate
                >= s[i as int].rate,
        ({
            let known = picked(
                s.len(),
                |i: int| s[i].samples >= min_samples && askable.contains(s[i].uid),
            ).len();
            &&& known > 0 ==> r.len() > 0
            &&& r.len() <= known
            &&& r.len() > 1 ==> r.len() * 100 <= known * pct
            &&& r.len() < known ==> known * pct < (r.len() + 1) * 100
        }),
{
    let pred = |i: int| rankable(s[i], askable, min_samples);
    let plain = |i: int| s[i].samples >= min_samples && askable.contains(s[i].uid);
    assert(pred =~= plain);
    let among = picked(s.len(), pred);
    let chosen = positions(r);
    lemma_picked(s.len(), pred);
    assert forall|k: int| 0 <= k < r.len() implies {
        &&& #[trigger] r[k] < s.len()
        &&& askable.contains(s[r[k] as int].uid)
        &&& s[r[k] as int].samples >= min_samples
    } by {
        assert(chosen[k] == r[k]);
        assert(among.contains(chosen[k]));
        let b = choose|b: int| 0 <= b < among.len() && among[b] == chosen[k];
        assert(pred(among[b]));
    }
    assert forall|i: usize, k: int|
        0 <= k < r.len() && i < s.len() && askable.contains(#[trigger] s[i as int].uid)
            && s[i as int].samples >= min_samples && !r.contains(i) implies s[(#[trigger] r[k]) as int].rate
        >= s[i as int].rate by {
        assert(pred(i as int));
        assert(among.contains(i as int));
        let b = choose|b: int| 0 <= b < among.len() && among[b] == i;
        assert(chosen[k] == r[k]);
        if chosen.contains(among[b]) {
            let a = choose|a: int| 0 <= a < chosen.len() && chosen[a] == among[b];
            assert(r[a] == i);
        }
    }
    let n = among.len() as int;
    let share = n * pct / 100;
    assert(share * 100 <= n * pct < (share + 1) * 100) by (nonlinear_arith)
        requires
            share == n * pct / 100,
            n >= 0,
    ;
}

/// Requests of customers are taken first, then pieces of their runs, and pieces of
/// the validator's own runs only where nothing of a customer's waits. What is taken
/// was the first of its queue, and the rest stays in its order.
pub proof fn customers_are_served_first(before: WorkQueues, after: WorkQueues, w: NextWork)
    requires
        taken_off(before, after, w),
    ensures
        w is Rwr <==> before.rwr@.len() > 0,
        w matches NextWork::Rwr(x) ==> seq![x] + after.rwr@ == before.rwr@ && after.api@
            == before.api@ && after.stacked@ == before.stacked@,
        w matches NextWork::DSlice(d, source) ==> {
            &&& source == RunSource::Api <==> before.api@.len() > 0
            &&& source == RunSource::Api ==> seq![d] + after.api@ == before.api@ && after.stacked@
                == before.stacked@
            &&& source == RunSource::Benchmark ==> seq![d] + after.stacked@ == before.stacked@
                && after.api@ == before.api@
            &&& after.rwr@.len() == 0
        },
{
    match w {
        NextWork::Rwr(x) => {
            assert(seq![x] + after.rwr@ =~= before.rwr@);
        },
        NextWork::DSlice(d, source) => {
            if before.api@.len() > 0 {
                assert(seq![d] + after.api@ =~= before.api@);
            } else {
                assert(seq![d] + after.stacked@ =~= before.stacked@);
            }
        },
    }
}

/// Work waits exactly where some is queued, and as much as there is in all queues.
pub proof fn queues_are_counted_together(q: WorkQueues)
    ensures
        nothing_waits(q) <==> queued(q) == 0,
        queued(q) == q.rwr@.len() + q.api@.len() + q.stacked@.len() || queued(q) == usize::MAX && q.rwr@.len()
            + q.api@.len() + q.stacked@.len() > usize::MAX,
{
}

/// A request that goes out for a customer will have its answer checked and keeps its
/// inputs for that; one whose answer is not checked carries none. Nothing else of a
/// request changes.
pub proof fn customers_answers_are_checked(
    x: DispatchedRequest,
    d: DispatchedRequest,
    hotkey: Seq<char>,
    policy: RsvPolicy,
)
    requires
        settled_sample(x, d, hotkey, policy),
    ensures
        d.request_type == RequestType::Rwr || d.request_type == RequestType::ProofOfWeights
            || d.external_request_hash is Some || hotkey.len() == 0 ==> x.pre_sampled,
        d.retry_payload matches RetryPayload::DSlice(w) ==> (w.run_source == RunSource::Api
            ==> x.pre_sampled),
        x.pre_sampled ==> x.task_inputs == d.task_inputs,
        !x.pre_sampled ==> x.task_inputs is None,
        x.request_type == d.request_type && x.external_request_hash == d.external_request_hash,
        x.retry_payload == d.retry_payload && x.body == d.body && x.guard_hash == d.guard_hash,
        x.run_uid == d.run_uid && x.slice_num == d.slice_num && x.tile_idx == d.tile_idx,
{
}

/// Scores that are ready to be proved come before all other work, customers before
/// the validator's own runs, and a benchmark is given out only where nothing else
/// waits and one may be.
pub proof fn benchmarks_come_last(pow: bool, rwr: nat, api: nat, stacked: nat, t: BenchmarkTerms)
    ensures
        ({
            let k = next_kind(pow, rwr, api, stacked, t);
            &&& pow <==> k == WorkKind::ProofOfWeights
            &&& k == WorkKind::Rwr <==> !pow && rwr > 0
            &&& k == WorkKind::ApiSlice <==> !pow && rwr == 0 && api > 0
            &&& k == WorkKind::StackedSlice <==> !pow && rwr == 0 && api == 0 && stacked > 0
            &&& k == WorkKind::Benchmark ==> !pow && rwr + api + stacked == 0 && !t.disabled
                && t.circuits > 0 && (t.max_concurrent matches Some(m) ==> t.in_flight < m)
            &&& !pow && rwr + api + stacked == 0 && !t.disabled && t.circuits > 0 && (
            t.max_concurrent matches Some(m) ==> t.in_flight < m) ==> k == WorkKind::Benchmark
        }),
{
}

/// A round gives out nothing while too many answers wait for their check, and never
/// more than brings what is under way to its limit.
pub proof fn rounds_fill_what_is_left(verifying: int, waiting: int, checks: int, active: int, limit: int)
    ensures
        ({
            let b = round_budget(verifying, waiting, checks, active, limit);
            &&& verifying + waiting >= checks ==> b == 0
            &&& active >= limit ==> b == 0
            &&& verifying + waiting < checks && active < limit ==> active + b == limit
        }),
{
}

/// Whose turn it is has room, and no miner with room was passed over for it.
pub proof fn turns_go_to_who_has_room(r: Round, p: int, q: int)
    requires
        has_turn(r, p),
        r.at <= q < p,
    ensures
        0 <= p < r.miners@.len() ==> r.miners@[p].active < r.miners@[p].cap,
        r.miners@[q].active >= r.miners@[q].cap,
        r.granted@.len() < r.budget,
{
}

} // verus!
