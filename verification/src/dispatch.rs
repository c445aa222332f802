//! Which miner gets the next request.

use vstd::prelude::*;
use vstd::string::*;

use crate::address::{is_valid_ip, valid_ip};
use crate::keyed::{StrMap, UidMap, VecMap};
use crate::laws::serving::may_be_asked;
use crate::rsv::{minus, RsvManager};
use crate::seqs::texts;
use crate::text::{less, str_eq, text_less, text_order_is_total, text_order_is_transitive};

verus! {

/// When miners were last served, so that each gets its turn.
pub struct FairDispatchState {
    /// Service order by hotkey. A hotkey that is missing is older than every
    /// miner that has already received work, which lets newly eligible miners
    /// enter the rotation without resetting established miners.
    pub last_served: StrMap<u64>,
    /// The time at which a hotkey was last served.
    pub last_served_at: StrMap<u64>,
    /// The service order of the latest request.
    pub service_sequence: u64,
}

/// A miner that could be served, with the work it has.
#[derive(Debug)]
pub struct DispatchCandidate {
    pub uid: u16,
    pub hotkey: String,
    pub ip: String,
    pub port: u16,
    pub cap: usize,
    pub initial_active: usize,
    pub projected_active: usize,
    pub dispatched: usize,
    pub available: bool,
}

/// Whether a miner can take another request.
pub open spec fn can_take(c: DispatchCandidate) -> bool {
    c.available && c.projected_active < c.cap
}

/// The number of the service after the one with the given number, as far as a
/// machine number goes.
pub open spec fn next_service(sequence: u64) -> u64 {
    if sequence < u64::MAX {
        (sequence + 1) as u64
    } else {
        u64::MAX
    }
}

/// The service order of a hotkey, zero where it was never served.
pub open spec fn served(order: Map<Seq<char>, u64>, hotkey: Seq<char>) -> u64 {
    if order.contains_key(hotkey) {
        order[hotkey]
    } else {
        0
    }
}

/// Whether `a` is to be served before `b`: the one with less work under way,
/// else the one served longer ago, else the one whose hotkey comes first.
pub open spec fn precedes(order: Map<Seq<char>, u64>, a: DispatchCandidate, b: DispatchCandidate) -> bool {
    if a.projected_active != b.projected_active {
        a.projected_active < b.projected_active
    } else if served(order, a.hotkey@) != served(order, b.hotkey@) {
        served(order, a.hotkey@) < served(order, b.hotkey@)
    } else {
        text_less(a.hotkey@, b.hotkey@)
    }
}

/// Among the miners that can take a request, the one at `i` comes first, and of
/// equals the first in the list.
pub open spec fn is_next(order: Map<Seq<char>, u64>, s: Seq<DispatchCandidate>, i: int) -> bool {
    &&& 0 <= i < s.len()
    &&& can_take(s[i])
    &&& forall|j: int| 0 <= j < i && can_take(#[trigger] s[j]) ==> precedes(order, s[i], s[j])
    &&& forall|j: int| i < j < s.len() && can_take(#[trigger] s[j]) ==> !precedes(order, s[j], s[i])
}

/// No miner can take a request.
pub open spec fn none_can_take(s: Seq<DispatchCandidate>) -> bool {
    forall|j: int| 0 <= j < s.len() ==> !can_take(#[trigger] s[j])
}

/// What precedes one of two that are in no order of their own precedes the other.
pub proof fn lemma_precedes(
    order: Map<Seq<char>, u64>,
    a: DispatchCandidate,
    b: DispatchCandidate,
    c: DispatchCandidate,
)
    requires
        precedes(order, a, b),
        !precedes(order, c, b),
    ensures
        precedes(order, a, c),
{
    if a.projected_active == b.projected_active && b.projected_active == c.projected_active {
        if served(order, a.hotkey@) == served(order, b.hotkey@) && served(order, b.hotkey@) == served(
            order,
            c.hotkey@,
        ) {
            text_order_is_total(c.hotkey@, b.hotkey@);
            if c.hotkey@ != b.hotkey@ {
                text_order_is_transitive(a.hotkey@, b.hotkey@, c.hotkey@);
            }
        }
    }
}

impl FairDispatchState {
    /// Nobody has been served.
    pub fn new() -> (s: Self)
        ensures
            s.last_served@ == Map::<Seq<char>, u64>::empty(),
            s.last_served_at@ == Map::<Seq<char>, u64>::empty(),
            s.service_sequence == 0,
    {
        FairDispatchState {
            last_served: VecMap::new(),
            last_served_at: VecMap::new(),
            service_sequence: 0,
        }
    }

    fn order_of(&self, hotkey: &str) -> (r: u64)
        ensures
            r == served(self.last_served@, hotkey@),
    {
        match self.last_served.get(hotkey) {
            Some(n) => *n,
            None => 0,
        }
    }

    fn comes_before(&self, a: &DispatchCandidate, b: &DispatchCandidate) -> (r: bool)
        ensures
            r == precedes(self.last_served@, *a, *b),
    {
        if a.projected_active != b.projected_active {
            return a.projected_active < b.projected_active;
        }
        let x: u64 = self.order_of(a.hotkey.as_str());
        let y: u64 = self.order_of(b.hotkey.as_str());
        if x != y {
            x < y
        } else {
            less(a.hotkey.as_str(), b.hotkey.as_str())
        }
    }

    /// The miner that gets the next request, if any can take one.
    pub fn select_next(&self, candidates: &[DispatchCandidate]) -> (r: Option<usize>)
        ensures
            match r {
                Some(i) => is_next(self.last_served@, candidates@, i as int),
                None => none_can_take(candidates@),
            },
    {
        let ghost order = self.last_served@;
        let ghost s = candidates@;
        let mut best: Option<usize> = None;
        let mut j: usize = 0;
        while j < candidates.len()
            invariant
                order == self.last_served@,
                s == candidates@,
                j <= s.len(),
                match best {
                    Some(i) => is_next(order, s.take(j as int), i as int),
                    None => none_can_take(s.take(j as int)),
                },
            decreases s.len() - j,
        {
            let c = &candidates[j];
            let ghost prev = s.take(j as int);
            let ghost cur = s.take(j + 1);
            proof {
                assert(forall|k: int| 0 <= k < j ==> #[trigger] cur[k] == prev[k]);
            }
            if c.available && c.projected_active < c.cap {
                let better = match best {
                    Some(i) => self.comes_before(c, &candidates[i]),
                    None => true,
                };
                if better {
                    proof {
                        assert forall|k: int| 0 <= k < j && can_take(#[trigger] cur[k]) implies precedes(
                            order,
                            cur[j as int],
                            cur[k],
                        ) by {
                            assert(can_take(prev[k]));
                            match best {
                                Some(i) => {
                                    if k != i {
                                        if k < i {
                                            assert(precedes(order, prev[i as int], prev[k]));
                                            lemma_precedes_asymmetric(order, prev[i as int], prev[k]);
                                        }
                                        lemma_precedes(order, cur[j as int], prev[i as int], prev[k]);
                                    }
                                },
                                None => {},
                            }
                        }
                    }
                    best = Some(j);
                } else {
                    proof {
                        match best {
                            Some(i) => {
                                assert(is_next(order, cur, i as int)) by {
                                    assert forall|k: int| i < k < cur.len() && can_take(#[trigger] cur[k]) implies !precedes(order, cur[k], cur[i as int]) by {
                                        if k < j {
                                            assert(can_take(prev[k]));
                                        }
                                    }
                                    assert forall|k: int| 0 <= k < i && can_take(#[trigger] cur[k]) implies precedes(order, cur[i as int], cur[k]) by {
                                        assert(can_take(prev[k]));
                                    }
                                }
                            },
                            None => {},
                        }
                    }
                }
            } else {
                proof {
                    match best {
                        Some(i) => {
                            assert(is_next(order, cur, i as int)) by {
                                assert forall|k: int| i < k < cur.len() && can_take(#[trigger] cur[k]) implies !precedes(order, cur[k], cur[i as int]) by {
                                    assert(can_take(prev[k]));
                                }
                                assert forall|k: int| 0 <= k < i && can_take(#[trigger] cur[k]) implies precedes(order, cur[i as int], cur[k]) by {
                                    assert(can_take(prev[k]));
                                }
                            }
                        },
                        None => {
                            assert forall|k: int| 0 <= k < cur.len() implies !can_take(#[trigger] cur[k]) by {
                                if k < j {
                                    assert(!can_take(prev[k]));
                                }
                            }
                        },
                    }
                }
            }
            j += 1;
        }
        proof {
            assert(s.take(j as int) =~= s);
        }
        best
    }

    /// Notes that a miner was served.
    pub fn record_dispatch(&mut self, hotkey: &str, now: u64)
        ensures
            final(self).service_sequence == next_service(old(self).service_sequence),
            final(self).last_served@ == old(self).last_served@.insert(
                hotkey@,
                final(self).service_sequence,
            ),
            final(self).last_served_at@ == old(self).last_served_at@.insert(hotkey@, now),
    {
        self.service_sequence = self.service_sequence.saturating_add(1);
        self.last_served.insert(hotkey.to_owned(), self.service_sequence);
        self.last_served_at.insert(hotkey.to_owned(), now);
    }

    /// Forgets the hotkeys that are not in the given list.
    pub fn prune(&mut self, metagraph_hotkeys: &Vec<String>)
        ensures
            final(self).last_served@ == old(self).last_served@.restrict(
                texts(metagraph_hotkeys@).to_set(),
            ),
            final(self).last_served_at@ == old(self).last_served_at@.restrict(
                texts(metagraph_hotkeys@).to_set(),
            ),
            final(self).service_sequence == old(self).service_sequence,
    {
        keep_only(&mut self.last_served, metagraph_hotkeys);
        keep_only(&mut self.last_served_at, metagraph_hotkeys);
    }
}

proof fn lemma_precedes_asymmetric(
    order: Map<Seq<char>, u64>,
    a: DispatchCandidate,
    b: DispatchCandidate,
)
    requires
        precedes(order, a, b),
    ensures
        !precedes(order, b, a),
{
    text_order_is_total(a.hotkey@, b.hotkey@);
    if a.hotkey@ == b.hotkey@ {
        text_order_is_total(a.hotkey@, a.hotkey@);
    }
}

/// Whether a list of texts holds `x`.
pub fn listed(list: &Vec<String>, x: &str) -> (r: bool)
    ensures
        r == texts(list@).to_set().contains(x@),
{
    let mut i: usize = 0;
    while i < list.len()
        invariant
            i <= list@.len(),
            forall|j: int| 0 <= j < i ==> texts(list@)[j] != x@,
        decreases list@.len() - i,
    {
        if str_eq(list[i].as_str(), x) {
            proof {
                assert(texts(list@)[i as int] == x@);
            }
            return true;
        }
        i += 1;
    }
    false
}

/// Takes out of a map every key that is not in the list.
fn keep_only(m: &mut StrMap<u64>, list: &Vec<String>)
    ensures
        final(m)@ == old(m)@.restrict(texts(list@).to_set()),
{
    let mut kept: StrMap<u64> = VecMap::new();
    let n: usize = m.len();
    let mut i: usize = 0;
    while i < n
        invariant
            n == m.entries().len(),
            i <= n,
            crate::keyed::distinct_keys(m.entries()),
            forall|j: int|
                0 <= j < n ==> {
                    &&& m@.contains_key((#[trigger] m.entries()[j]).0@)
                    &&& m@[m.entries()[j].0@] == m.entries()[j].1
                },
            forall|k: Seq<char>| #[trigger]
                kept@.contains_key(k) ==> m@.contains_key(k) && texts(list@).to_set().contains(k)
                    && kept@[k] == m@[k],
            forall|j: int|
                0 <= j < i && texts(list@).to_set().contains((#[trigger] m.entries()[j]).0@)
                    ==> kept@.contains_key(m.entries()[j].0@),
        decreases n - i,
    {
        if listed(list, m.key_at(i).as_str()) {
            kept.insert(m.key_at(i).clone(), *m.value_at(i));
        }
        i += 1;
    }
    proof {
        assert(kept@ =~= m@.restrict(texts(list@).to_set())) by {
            assert forall|k: Seq<char>| m@.contains_key(k) && texts(list@).to_set().contains(k) implies kept@.contains_key(k) by {
                let j = choose|j: int| 0 <= j < m.entries().len() && (#[trigger] m.entries()[j]).0@ == k;
                assert(kept@.contains_key(m.entries()[j].0@));
            }
        }
    }
    *m = kept;
}

impl DispatchCandidate {
    /// Whether the batch that was sent to the miner filled it up.
    pub fn batch_reached_capacity(&self) -> (r: bool)
        ensures
            r == (self.dispatched > 0 && self.projected_active >= self.cap),
    {
        self.dispatched > 0 && self.projected_active >= self.cap
    }
}

/// A member of the network as the chain lists it.
#[derive(Debug)]
pub struct NeuronInfo {
    pub uid: u16,
    pub hotkey: String,
    pub axon_ip: String,
    pub axon_port: u16,
    pub validator_permit: bool,
}

/// A set of hotkeys.
pub type HotkeySet = VecMap<String, ()>;

/// Whether a hotkey holds an authenticated connection, so that a request can be
/// routed to it. While no hotkey does, every one passes, so that selection never
/// stalls.
pub open spec fn reachable(authenticated: Map<Seq<char>, ()>, hotkey: Seq<char>) -> bool {
    authenticated == Map::<Seq<char>, ()>::empty() || authenticated.contains_key(hotkey)
}

/// Whether a hotkey can be routed to.
pub fn hotkey_reachable(authenticated: &HotkeySet, hotkey: &str) -> (r: bool)
    ensures
        r == reachable(authenticated@, hotkey@),
{
    authenticated.is_empty() || authenticated.contains_key(hotkey)
}

/// Whether a neuron is a miner that can be asked: one of the chosen uids where
/// there is a choice, else a reachable address without a validator permit.
pub open spec fn queryable(
    n: NeuronInfo,
    authenticated: Map<Seq<char>, ()>,
    targets: Option<Seq<u16>>,
) -> bool {
    &&& reachable(authenticated, n.hotkey@)
    &&& match targets {
        Some(t) => t.contains(n.uid),
        None => !n.validator_permit && n.axon_ip@.len() > 0 && n.axon_port != 0 && valid_ip(
            n.axon_ip@,
        ),
    }
}

/// Whether a hotkey is passed over until a later block.
pub open spec fn cooling(cooldowns: Map<Seq<char>, u64>, hotkey: Seq<char>, block: u64) -> bool {
    cooldowns.contains_key(hotkey) && block < cooldowns[hotkey]
}

/// Whether a uid is in a list.
pub fn has_uid(list: &Vec<u16>, uid: u16) -> (r: bool)
    ensures
        r == list@.contains(uid),
{
    let mut i: usize = 0;
    while i < list.len()
        invariant
            i <= list@.len(),
            forall|j: int| 0 <= j < i ==> list@[j] != uid,
        decreases list@.len() - i,
    {
        if list[i] == uid {
            return true;
        }
        i += 1;
    }
    false
}

/// The chosen uids of an optional choice.
pub open spec fn targets_view(t: Option<Vec<u16>>) -> Option<Seq<u16>> {
    match t {
        Some(v) => Some(v@),
        None => None,
    }
}

/// Whether a neuron is a miner that can be asked.
pub fn is_queryable(
    n: &NeuronInfo,
    authenticated: &HotkeySet,
    target_uids: &Option<Vec<u16>>,
) -> (r: bool)
    ensures
        r == queryable(*n, authenticated@, targets_view(*target_uids)),
{
    if !hotkey_reachable(authenticated, n.hotkey.as_str()) {
        return false;
    }
    match target_uids {
        Some(t) => has_uid(t, n.uid),
        None => {
            if n.validator_permit {
                return false;
            }
            if n.axon_ip.as_str().is_empty() || n.axon_port == 0 {
                return false;
            }
            is_valid_ip(n.axon_ip.as_str())
        },
    }
}

/// The positions below `n` that `pred` picks, in order.
pub open spec fn picked(n: nat, pred: spec_fn(int) -> bool) -> Seq<int>
    decreases n,
{
    if n == 0 {
        Seq::empty()
    } else {
        let r = picked((n - 1) as nat, pred);
        if pred(n - 1) {
            r.push(n - 1)
        } else {
            r
        }
    }
}

/// Positions as mathematical numbers.
pub open spec fn positions(v: Seq<usize>) -> Seq<int> {
    v.map_values(|i: usize| i as int)
}

/// Every picked position is below `n` and satisfies `pred`, and every one that
/// does is picked.
pub proof fn lemma_picked(n: nat, pred: spec_fn(int) -> bool)
    ensures
        forall|k: int|
            0 <= k < picked(n, pred).len() ==> 0 <= #[trigger] picked(n, pred)[k] < n && pred(
                picked(n, pred)[k],
            ),
        forall|i: int| 0 <= i < n && pred(i) ==> #[trigger] picked(n, pred).contains(i),
        picked(n, pred).len() <= n,
    decreases n,
{
    if n > 0 {
        let m = (n - 1) as nat;
        lemma_picked(m, pred);
        let r = picked(m, pred);
        let q = picked(n, pred);
        assert forall|i: int| 0 <= i < n && pred(i) implies #[trigger] q.contains(i) by {
            if i < m {
                assert(r.contains(i));
                let k = choose|k: int| 0 <= k < r.len() && r[k] == i;
                assert(q[k] == i);
            } else {
                assert(q[q.len() - 1] == i);
            }
        }
    }
}

/// The positions of the neurons that can be asked.
pub fn get_queryable_neurons(
    neurons: &Vec<NeuronInfo>,
    authenticated: &HotkeySet,
    target_uids: &Option<Vec<u16>>,
) -> (r: Vec<usize>)
    ensures
        positions(r@) == picked(
            neurons@.len(),
            |i: int| queryable(neurons@[i], authenticated@, targets_view(*target_uids)),
        ),
{
    let ghost pred = |i: int| queryable(neurons@[i], authenticated@, targets_view(*target_uids));
    let mut r: Vec<usize> = Vec::new();
    let mut i: usize = 0;
    proof {
        assert(positions(r@) =~= picked(0, pred));
    }
    while i < neurons.len()
        invariant
            i <= neurons@.len(),
            pred == (|i: int| queryable(neurons@[i], authenticated@, targets_view(*target_uids))),
            positions(r@) == picked(i as nat, pred),
        decreases neurons@.len() - i,
    {
        let ghost before = r@;
        if is_queryable(&neurons[i], authenticated, target_uids) {
            r.push(i);
            proof {
                assert(positions(r@) =~= positions(before).push(i as int));
            }
        }
        i += 1;
    }
    r
}

/// Whether a neuron is to be sent work at a block: it can be asked, is not
/// cooling down and is not passed over.
pub open spec fn dispatchable(
    n: NeuronInfo,
    authenticated: Map<Seq<char>, ()>,
    targets: Option<Seq<u16>>,
    cooldowns: Map<Seq<char>, u64>,
    rsv: crate::rsv::RsvV,
    block: u64,
) -> bool {
    &&& !cooling(cooldowns, n.hotkey@, block)
    &&& !rsv.skips(n.hotkey@, block)
    &&& queryable(n, authenticated, targets)
}

/// The positions of the neurons that are to be sent work.
pub fn dispatchable_neurons(
    neurons: &Vec<NeuronInfo>,
    authenticated: &HotkeySet,
    target_uids: &Option<Vec<u16>>,
    cooldowns: &StrMap<u64>,
    rsv: &RsvManager,
    current_block: u64,
) -> (r: Vec<usize>)
    ensures
        positions(r@) == picked(
            neurons@.len(),
            |i: int|
                dispatchable(
                    neurons@[i],
                    authenticated@,
                    targets_view(*target_uids),
                    cooldowns@,
                    rsv@,
                    current_block,
                ),
        ),
        forall|k: int|
            0 <= k < r@.len() ==> {
                let h = neurons@[#[trigger] r@[k] as int].hotkey@;
                &&& r@[k] < neurons@.len()
                &&& rsv@.skiplist.contains_key(h) ==> rsv@.skiplist[h] <= current_block
                &&& cooldowns@.contains_key(h) ==> cooldowns@[h] <= current_block
            },
        forall|i: usize|
            i < neurons@.len() && {
                let n = #[trigger] neurons@[i as int];
                &&& rsv@.skiplist.contains_key(n.hotkey@) ==> rsv@.skiplist[n.hotkey@]
                    <= current_block
                &&& cooldowns@.contains_key(n.hotkey@) ==> cooldowns@[n.hotkey@] <= current_block
                &&& may_be_asked(n, authenticated@, targets_view(*target_uids))
            } ==> r@.contains(i),
{
    let ghost pred = |i: int|
        dispatchable(
            neurons@[i],
            authenticated@,
            targets_view(*target_uids),
            cooldowns@,
            rsv@,
            current_block,
        );
    let mut r: Vec<usize> = Vec::new();
    let mut i: usize = 0;
    proof {
        assert(positions(r@) =~= picked(0, pred));
    }
    while i < neurons.len()
        invariant
            i <= neurons@.len(),
            pred == (|i: int|
                dispatchable(
                    neurons@[i],
                    authenticated@,
                    targets_view(*target_uids),
                    cooldowns@,
                    rsv@,
                    current_block,
                )),
            positions(r@) == picked(i as nat, pred),
        decreases neurons@.len() - i,
    {
        let n = &neurons[i];
        let ghost before = r@;
        let cool = match cooldowns.get(n.hotkey.as_str()) {
            Some(until) => current_block < *until,
            None => false,
        };
        if !cool && !rsv.is_skiplisted(n.hotkey.as_str(), current_block) && is_queryable(
            n,
            authenticated,
            target_uids,
        ) {
            r.push(i);
            proof {
                assert(positions(r@) =~= positions(before).push(i as int));
            }
        }
        i += 1;
    }
    proof {
        crate::laws::serving::only_and_all_fit_miners_are_sent_work(
            neurons@,
            authenticated@,
            targets_view(*target_uids),
            cooldowns@,
            rsv@,
            current_block,
            r@,
        );
    }
    r
}

/// The value of a uid, or a stand-in.
pub open spec fn uid_or(m: Map<u16, usize>, uid: u16, other: usize) -> usize {
    if m.contains_key(uid) {
        m[uid]
    } else {
        other
    }
}

fn get_or(m: &UidMap<usize>, uid: u16, other: usize) -> (r: usize)
    ensures
        r == uid_or(m@, uid, other),
{
    match m.get(&uid) {
        Some(v) => *v,
        None => other,
    }
}

/// A neuron as a candidate before anything has been sent to it.
pub open spec fn is_fresh_candidate(
    c: DispatchCandidate,
    n: NeuronInfo,
    capacities: Map<u16, usize>,
    active: Map<u16, usize>,
) -> bool {
    &&& c.uid == n.uid
    &&& c.hotkey == n.hotkey
    &&& c.ip == n.axon_ip
    &&& c.port == n.axon_port
    &&& c.cap == uid_or(capacities, n.uid, 1)
    &&& c.initial_active == uid_or(active, n.uid, 0)
    &&& c.projected_active == c.initial_active
    &&& c.dispatched == 0
    &&& c.available
}

/// The candidates for the neurons at the given positions. A miner of unknown
/// capacity can take one request.
pub fn build_candidates(
    neurons: &Vec<NeuronInfo>,
    chosen: &Vec<usize>,
    capacities: &UidMap<usize>,
    active: &UidMap<usize>,
) -> (r: Vec<DispatchCandidate>)
    requires
        forall|k: int| 0 <= k < chosen@.len() ==> #[trigger] chosen@[k] < neurons@.len(),
    ensures
        r@.len() == chosen@.len(),
        forall|k: int|
            0 <= k < r@.len() ==> is_fresh_candidate(
                #[trigger] r@[k],
                neurons@[chosen@[k] as int],
                capacities@,
                active@,
            ),
{
    let mut r: Vec<DispatchCandidate> = Vec::new();
    let mut k: usize = 0;
    while k < chosen.len()
        invariant
            k <= chosen@.len(),
            r@.len() == k,
            forall|k: int| 0 <= k < chosen@.len() ==> #[trigger] chosen@[k] < neurons@.len(),
            forall|j: int|
                0 <= j < k ==> is_fresh_candidate(
                    #[trigger] r@[j],
                    neurons@[chosen@[j] as int],
                    capacities@,
                    active@,
                ),
        decreases chosen@.len() - k,
    {
        let n = &neurons[chosen[k]];
        let cap: usize = get_or(capacities, n.uid, 1);
        let under_way: usize = get_or(active, n.uid, 0);
        r.push(
            DispatchCandidate {
                uid: n.uid,
                hotkey: n.hotkey.clone(),
                ip: n.axon_ip.clone(),
                port: n.axon_port,
                cap,
                initial_active: under_way,
                projected_active: under_way,
                dispatched: 0,
                available: true,
            },
        );
        k += 1;
    }
    r
}

/// `n`, or the greatest machine number where `n` exceeds it.
pub open spec fn capped(n: int) -> usize {
    if n <= usize::MAX {
        n as usize
    } else {
        usize::MAX
    }
}

/// The capacities of the candidates, summed up.
pub open spec fn cap_sum(s: Seq<DispatchCandidate>) -> int
    decreases s.len(),
{
    if s.len() == 0 {
        0
    } else {
        cap_sum(s.drop_last()) + s.last().cap
    }
}

/// How many more requests a candidate can take.
pub open spec fn room(c: DispatchCandidate) -> int {
    if c.cap >= c.projected_active {
        c.cap - c.projected_active
    } else {
        0
    }
}

/// How many more requests the candidates can take together.
pub open spec fn room_sum(s: Seq<DispatchCandidate>) -> int
    decreases s.len(),
{
    if s.len() == 0 {
        0
    } else {
        room_sum(s.drop_last()) + room(s.last())
    }
}

proof fn lemma_sums_nonneg(s: Seq<DispatchCandidate>)
    ensures
        cap_sum(s) >= 0,
        room_sum(s) >= 0,
    decreases s.len(),
{
    if s.len() > 0 {
        lemma_sums_nonneg(s.drop_last());
    }
}

/// The capacities of the candidates, summed up as far as a machine number goes.
pub fn learned_capacity(candidates: &[DispatchCandidate]) -> (r: usize)
    ensures
        r == capped(cap_sum(candidates@)),
{
    let mut total: usize = 0;
    let mut i: usize = 0;
    while i < candidates.len()
        invariant
            i <= candidates@.len(),
            total == capped(cap_sum(candidates@.take(i as int))),
        decreases candidates@.len() - i,
    {
        proof {
            assert(candidates@.take(i + 1).drop_last() =~= candidates@.take(i as int));
            assert(candidates@.take(i + 1).last() == candidates@[i as int]);
            lemma_sums_nonneg(candidates@.take(i as int));
        }
        total = total.saturating_add(candidates[i].cap);
        i += 1;
    }
    proof {
        assert(candidates@.take(i as int) =~= candidates@);
    }
    total
}

/// How many more requests the candidates can take, as far as a machine number
/// goes.
pub fn dispatchable_headroom(candidates: &[DispatchCandidate]) -> (r: usize)
    ensures
        r == capped(room_sum(candidates@)),
{
    let mut total: usize = 0;
    let mut i: usize = 0;
    while i < candidates.len()
        invariant
            i <= candidates@.len(),
            total == capped(room_sum(candidates@.take(i as int))),
        decreases candidates@.len() - i,
    {
        proof {
            assert(candidates@.take(i + 1).drop_last() =~= candidates@.take(i as int));
            assert(candidates@.take(i + 1).last() == candidates@[i as int]);
            lemma_sums_nonneg(candidates@.take(i as int));
        }
        total = total.saturating_add(
            candidates[i].cap.saturating_sub(candidates[i].projected_active),
        );
        i += 1;
    }
    proof {
        assert(candidates@.take(i as int) =~= candidates@);
    }
    total
}

/// The most requests that may be under way. The configured limit stands; under
/// pressure, a share of the learned capacity, but at least one, limits it
/// further. `pressure_share` is that share, and is missing where there is no
/// pressure.
pub open spec fn ceiling(
    configured: Option<usize>,
    learned_capacity: usize,
    pressure_share: Option<usize>,
) -> usize {
    let limit: usize = match configured {
        Some(c) => c,
        None => usize::MAX,
    };
    match pressure_share {
        Some(p) => if learned_capacity == 0 {
            limit
        } else {
            let share: usize = if p < 1 {
                1
            } else {
                p
            };
            if limit < share {
                limit
            } else {
                share
            }
        },
        None => limit,
    }
}

/// The most requests that may be under way.
pub fn effective_dispatch_ceiling(
    configured: Option<usize>,
    learned_capacity: usize,
    pressure_share: Option<usize>,
) -> (r: usize)
    ensures
        r == ceiling(configured, learned_capacity, pressure_share),
{
    let limit: usize = match configured {
        Some(c) => c,
        None => usize::MAX,
    };
    match pressure_share {
        Some(p) => {
            if learned_capacity == 0 {
                return limit;
            }
            let share: usize = if p < 1 {
                1
            } else {
                p
            };
            if limit < share {
                limit
            } else {
                share
            }
        },
        None => limit,
    }
}

/// A product, as far as a machine number goes.
pub fn capped_product(a: usize, b: usize) -> (r: usize)
    ensures
        r == capped(a * b),
{
    match a.checked_mul(b) {
        Some(p) => p,
        None => usize::MAX,
    }
}

/// Whether so many results wait for verification that nothing more is sent.
pub fn verification_backlogged(pending: usize, verification_concurrency: usize) -> (r: bool)
    ensures
        r == (pending >= capped(verification_concurrency * 4)),
{
    pending >= capped_product(verification_concurrency, 4)
}

/// How much may be sent in one pass.
#[derive(Clone, Copy, Debug, PartialEq, Eq, Structural)]
pub struct DispatchBudget {
    /// The most requests that may be under way.
    pub ceiling: usize,
    /// How many requests may still be sent.
    pub budget: usize,
    /// How many requests could be sent, given the work and the room there is.
    pub opportunity: usize,
}

/// The lesser of two numbers.
pub open spec fn lesser(a: usize, b: usize) -> usize {
    if a <= b {
        a
    } else {
        b
    }
}

/// How much may be sent in one pass; nothing where no work waits or as much is
/// under way as may be.
pub open spec fn pass_budget(
    under_way: usize,
    queued_work: usize,
    candidates: Seq<DispatchCandidate>,
    configured: Option<usize>,
    pressure_share: Option<usize>,
) -> Option<DispatchBudget> {
    let limit = ceiling(configured, capped(cap_sum(candidates)), pressure_share);
    if queued_work == 0 || under_way >= limit {
        None
    } else {
        let budget = (limit - under_way) as usize;
        Some(
            DispatchBudget {
                ceiling: limit,
                budget,
                opportunity: lesser(lesser(budget, capped(room_sum(candidates))), queued_work),
            },
        )
    }
}

/// How much may be sent in one pass, if anything.
pub fn dispatch_budget(
    under_way: usize,
    queued_work: usize,
    candidates: &[DispatchCandidate],
    configured: Option<usize>,
    pressure_share: Option<usize>,
) -> (r: Option<DispatchBudget>)
    ensures
        r == pass_budget(under_way, queued_work, candidates@, configured, pressure_share),
{
    let learned: usize = learned_capacity(candidates);
    let limit: usize = effective_dispatch_ceiling(configured, learned, pressure_share);
    if queued_work == 0 {
        return None;
    }
    let headroom: usize = dispatchable_headroom(candidates);
    if under_way >= limit {
        return None;
    }
    let budget: usize = limit - under_way;
    let first: usize = if budget <= headroom {
        budget
    } else {
        headroom
    };
    let opportunity: usize = if first <= queued_work {
        first
    } else {
        queued_work
    };
    Some(DispatchBudget { ceiling: limit, budget, opportunity })
}

/// One pass of handing out requests to miners.
#[derive(Debug)]
pub struct Allocation {
    pub candidates: Vec<DispatchCandidate>,
    /// How many requests may still be sent.
    pub budget: usize,
    /// For each request that is sent, the position of its miner.
    pub granted: Vec<usize>,
    /// Requests for which several miners were waiting.
    pub fair_slots: usize,
    /// Requests for which only one miner was left.
    pub residual_slots: usize,
}

/// How many candidates can take a request.
pub open spec fn contender_count(s: Seq<DispatchCandidate>) -> nat
    decreases s.len(),
{
    if s.len() == 0 {
        0
    } else {
        contender_count(s.drop_last()) + (if can_take(s.last()) {
            1nat
        } else {
            0
        })
    }
}

fn contenders(candidates: &Vec<DispatchCandidate>) -> (r: usize)
    ensures
        r == contender_count(candidates@),
        r <= candidates@.len(),
{
    let mut r: usize = 0;
    let mut i: usize = 0;
    while i < candidates.len()
        invariant
            i <= candidates@.len(),
            r <= i,
            r == contender_count(candidates@.take(i as int)),
        decreases candidates@.len() - i,
    {
        proof {
            assert(candidates@.take(i + 1).drop_last() =~= candidates@.take(i as int));
            assert(candidates@.take(i + 1).last() == candidates@[i as int]);
        }
        if candidates[i].available && candidates[i].projected_active < candidates[i].cap {
            r += 1;
        }
        i += 1;
    }
    proof {
        assert(candidates@.take(i as int) =~= candidates@);
    }
    r
}

/// How many of the granted requests go to the miner at `i`.
pub open spec fn grants_to(granted: Seq<usize>, i: int) -> nat
    decreases granted.len(),
{
    if granted.len() == 0 {
        0
    } else {
        grants_to(granted.drop_last(), i) + (if granted.last() == i {
            1nat
        } else {
            0
        })
    }
}

/// A candidate with one more request.
pub open spec fn with_one_more(c: DispatchCandidate) -> DispatchCandidate {
    DispatchCandidate {
        projected_active: (c.projected_active + 1) as usize,
        dispatched: (c.dispatched + 1) as usize,
        ..c
    }
}

impl Allocation {
    /// The books balance: what each miner got is what was granted to it, on top
    /// of what it had; nobody got more than it can take; and fair and residual
    /// requests make up all of them.
    pub open spec fn balanced(&self) -> bool {
        &&& self.granted@.len() == self.fair_slots + self.residual_slots
        &&& forall|k: int|
            0 <= k < self.granted@.len() ==> #[trigger] self.granted@[k] < self.candidates@.len()
        &&& forall|i: int|
            0 <= i < self.candidates@.len() ==> {
                let c = #[trigger] self.candidates@[i];
                &&& c.dispatched == grants_to(self.granted@, i)
                &&& c.projected_active == c.initial_active + c.dispatched
                &&& c.dispatched > 0 ==> c.projected_active <= c.cap
            }
    }

    /// Starts a pass.
    pub fn new(candidates: Vec<DispatchCandidate>, budget: usize) -> (a: Allocation)
        requires
            forall|i: int|
                0 <= i < candidates@.len() ==> (#[trigger] candidates@[i]).dispatched == 0
                    && candidates@[i].projected_active == candidates@[i].initial_active,
        ensures
            a.balanced(),
            a.candidates == candidates,
            a.budget == budget,
            a.granted@.len() == 0,
    {
        Allocation { candidates, budget, granted: Vec::new(), fair_slots: 0, residual_slots: 0 }
    }

    /// The position of the miner that gets the next request. Nobody does once
    /// the budget is spent, no work waits or no miner can take more.
    pub fn next(&self, fairness: &FairDispatchState, work_waits: bool) -> (r: Option<usize>)
        ensures
            match r {
                Some(i) => self.budget > 0 && work_waits && is_next(
                    fairness.last_served@,
                    self.candidates@,
                    i as int,
                ),
                None => self.budget == 0 || !work_waits || none_can_take(self.candidates@),
            },
    {
        if self.budget == 0 || !work_waits {
            return None;
        }
        fairness.select_next(self.candidates.as_slice())
    }

    /// Leaves the miner out of the rest of the pass, because no request could be
    /// made for it.
    pub fn refuse(&mut self, i: usize)
        requires
            i < old(self).candidates@.len(),
            old(self).balanced(),
        ensures
            final(self).balanced(),
            final(self).candidates@ == old(self).candidates@.update(
                i as int,
                DispatchCandidate { available: false, ..old(self).candidates@[i as int] },
            ),
            final(self).budget == old(self).budget,
            final(self).granted == old(self).granted,
            final(self).fair_slots == old(self).fair_slots,
            final(self).residual_slots == old(self).residual_slots,
    {
        let ghost start = *self;
        self.candidates[i].available = false;
        proof {
            assert forall|j: int| 0 <= j < self.candidates@.len() implies {
                let c = #[trigger] self.candidates@[j];
                &&& c.dispatched == grants_to(self.granted@, j)
                &&& c.projected_active == c.initial_active + c.dispatched
                &&& c.dispatched > 0 ==> c.projected_active <= c.cap
            } by {
                assert(start.candidates@[j].dispatched == grants_to(start.granted@, j));
            }
        }
    }

    /// Grants the miner a request.
    pub fn grant(&mut self, i: usize, fairness: &mut FairDispatchState, now: u64)
        requires
            old(self).balanced(),
            i < old(self).candidates@.len(),
            can_take(old(self).candidates@[i as int]),
            old(self).budget > 0,
        ensures
            final(self).balanced(),
            final(self).candidates@ == old(self).candidates@.update(
                i as int,
                with_one_more(old(self).candidates@[i as int]),
            ),
            final(self).budget == old(self).budget - 1,
            final(self).granted@ == old(self).granted@.push(i),
            final(self).fair_slots == old(self).fair_slots + (if contender_count(
                old(self).candidates@,
            ) > 1 {
                1int
            } else {
                0
            }),
            final(fairness).service_sequence == next_service(old(fairness).service_sequence),
            final(fairness).last_served@ == old(fairness).last_served@.insert(
                old(self).candidates@[i as int].hotkey@,
                final(fairness).service_sequence,
            ),
            final(fairness).last_served_at@ == old(fairness).last_served_at@.insert(
                old(self).candidates@[i as int].hotkey@,
                now,
            ),
    {
        let ghost start = *self;
        let waiting: usize = contenders(&self.candidates);
        let sent: usize = self.granted.len();
        self.granted.push(i);
        let all: usize = self.granted.len();
        if waiting > 1 {
            self.fair_slots = self.fair_slots + 1;
        } else {
            self.residual_slots = self.residual_slots + 1;
        }
        self.candidates[i].projected_active = self.candidates[i].projected_active + 1;
        self.candidates[i].dispatched = self.candidates[i].dispatched + 1;
        fairness.record_dispatch(self.candidates[i].hotkey.as_str(), now);
        self.budget = self.budget - 1;
        proof {
            assert(self.granted@.drop_last() =~= start.granted@);
            assert(self.candidates@ =~= start.candidates@.update(
                i as int,
                with_one_more(start.candidates@[i as int]),
            ));
            assert forall|j: int| 0 <= j < self.candidates@.len() implies {
                let c = #[trigger] self.candidates@[j];
                &&& c.dispatched == grants_to(self.granted@, j)
                &&& c.projected_active == c.initial_active + c.dispatched
                &&& c.dispatched > 0 ==> c.projected_active <= c.cap
            } by {
                assert(start.candidates@[j].dispatched == grants_to(start.granted@, j));
            }
        }
    }

    /// Whether the request at position `k` was part of a batch that filled its
    /// miner up. Saturation is a property of the whole batch, so every request
    /// of such a batch is.
    pub fn was_at_capacity(&self, k: usize) -> (r: bool)
        requires
            self.balanced(),
            k < self.granted@.len(),
        ensures
            r == (self.candidates@[self.granted@[k as int] as int].projected_active
                >= self.candidates@[self.granted@[k as int] as int].cap),
    {
        proof {
            lemma_granted_counts(self.granted@, k as int);
        }
        self.candidates[self.granted[k]].batch_reached_capacity()
    }

    /// How many miners went without: the budget ran out while they had nothing
    /// under way and got nothing.
    pub fn starved_miners(&self) -> (r: usize)
        ensures
            r == (if self.budget == 0 {
                starved_count(self.candidates@)
            } else {
                0
            }),
    {
        if self.budget > 0 {
            return 0;
        }
        let mut r: usize = 0;
        let mut i: usize = 0;
        while i < self.candidates.len()
            invariant
                i <= self.candidates@.len(),
                r <= i,
                r == starved_count(self.candidates@.take(i as int)),
            decreases self.candidates@.len() - i,
        {
            proof {
                assert(self.candidates@.take(i + 1).drop_last() =~= self.candidates@.take(i as int));
                assert(self.candidates@.take(i + 1).last() == self.candidates@[i as int]);
            }
            let c = &self.candidates[i];
            if c.initial_active == 0 && c.dispatched == 0 && c.cap > 0 {
                r += 1;
            }
            i += 1;
        }
        proof {
            assert(self.candidates@.take(i as int) =~= self.candidates@);
        }
        r
    }
}

/// How many miners have nothing under way and got nothing.
pub open spec fn starved_count(s: Seq<DispatchCandidate>) -> nat
    decreases s.len(),
{
    if s.len() == 0 {
        0
    } else {
        starved_count(s.drop_last()) + (if s.last().initial_active == 0 && s.last().dispatched == 0
            && s.last().cap > 0 {
            1nat
        } else {
            0
        })
    }
}

proof fn lemma_granted_counts(granted: Seq<usize>, k: int)
    requires
        0 <= k < granted.len(),
    ensures
        grants_to(granted, granted[k] as int) > 0,
    decreases granted.len(),
{
    if k < granted.len() - 1 {
        lemma_granted_counts(granted.drop_last(), k);
    }
}

/// The request goes to a miner with the least work under way among those that
/// can take one, so after it no miner that could have taken it has less than the
/// chosen one had.
pub proof fn shallowest_is_served(order: Map<Seq<char>, u64>, s: Seq<DispatchCandidate>, i: int, j: int)
    requires
        is_next(order, s, i),
        0 <= j < s.len(),
        can_take(s[j]),
    ensures
        s[i].projected_active <= s[j].projected_active,
{
}

/// Among miners with equally much work under way, one that was never served is
/// taken before one that was.
pub proof fn unserved_goes_first(order: Map<Seq<char>, u64>, s: Seq<DispatchCandidate>, i: int, j: int)
    requires
        is_next(order, s, i),
        0 <= j < s.len(),
        can_take(s[j]),
        s[i].projected_active == s[j].projected_active,
        served(order, s[j].hotkey@) == 0,
    ensures
        served(order, s[i].hotkey@) == 0,
{
    if i < j {
        assert(!precedes(order, s[j], s[i]));
    } else if j < i {
        assert(precedes(order, s[i], s[j]));
    }
}

/// Every miner that was served has its place between the first service and the
/// latest, so that one that never was comes before all of them.
pub open spec fn in_service_order(order: Map<Seq<char>, u64>, sequence: u64) -> bool {
    forall|k: Seq<char>| #[trigger] order.contains_key(k) ==> 0 < order[k] <= sequence
}

/// The order of service stays in order: it starts so, each service keeps it so, and
/// so does forgetting miners.
pub proof fn service_order_is_kept(
    order: Map<Seq<char>, u64>,
    sequence: u64,
    hotkey: Seq<char>,
    kept: Set<Seq<char>>,
)
    requires
        in_service_order(order, sequence),
    ensures
        in_service_order(Map::empty(), 0),
        in_service_order(order.insert(hotkey, next_service(sequence)), next_service(sequence)),
        next_service(sequence) >= sequence,
        in_service_order(order.restrict(kept), sequence),
        forall|k: Seq<char>, other: Seq<char>|
            !order.contains_key(k) && order.contains_key(other) ==> #[trigger] served(order, k)
                < #[trigger] served(order, other),
{
}

/// A miner just served is behind every other with as much work under way, until
/// the count of services reaches the greatest number.
pub proof fn service_rotates(
    order: Map<Seq<char>, u64>,
    sequence: u64,
    hotkey: Seq<char>,
    other: Seq<char>,
)
    requires
        sequence < u64::MAX,
        other != hotkey,
        in_service_order(order, sequence),
    ensures
        served(order.insert(hotkey, next_service(sequence)), other) < served(
            order.insert(hotkey, next_service(sequence)),
            hotkey,
        ),
{
}

/// What is known of the miners for a while, before it is looked up again. The
/// time limit is written as the bits of a number of seconds.
pub struct DispatchCache {
    pub capacities: UidMap<usize>,
    pub adaptive_timeout: u64,
    pub api_eligible: Vec<u16>,
    pub authenticated: HotkeySet,
    pub refreshed_at: Option<u64>,
    pub fairness: FairDispatchState,
}

impl DispatchCache {
    /// Nothing is known yet.
    pub fn new(default_timeout: u64) -> (c: DispatchCache)
        ensures
            c.capacities@ == Map::<u16, usize>::empty(),
            c.adaptive_timeout == default_timeout,
            c.api_eligible@.len() == 0,
            c.authenticated@ == Map::<Seq<char>, ()>::empty(),
            c.refreshed_at is None,
            c.fairness.last_served@ == Map::<Seq<char>, u64>::empty(),
            c.fairness.last_served_at@ == Map::<Seq<char>, u64>::empty(),
            c.fairness.service_sequence == 0,
    {
        DispatchCache {
            capacities: VecMap::new(),
            adaptive_timeout: default_timeout,
            api_eligible: Vec::new(),
            authenticated: VecMap::new(),
            refreshed_at: None,
            fairness: FairDispatchState::new(),
        }
    }

    /// Whether what is known can still be used.
    pub fn is_fresh(&self, now: u64, ttl: u64) -> (r: bool)
        ensures
            r == (self.refreshed_at matches Some(t) && minus(now, t) < ttl),
    {
        match self.refreshed_at {
            Some(t) => now.saturating_sub(t) < ttl,
            None => false,
        }
    }

    /// How long a miner has for a request: those that serve customers have a limit
    /// of their own.
    pub fn request_timeout(&self, uid: u16, api_timeout: u64) -> (r: u64)
        ensures
            r == (if self.api_eligible@.contains(uid) {
                api_timeout
            } else {
                self.adaptive_timeout
            }),
    {
        if has_uid(&self.api_eligible, uid) {
            api_timeout
        } else {
            self.adaptive_timeout
        }
    }

    /// Takes in what was looked up. Who was served when stays as it is.
    pub fn refresh(
        &mut self,
        capacities: UidMap<usize>,
        adaptive_timeout: u64,
        api_eligible: Vec<u16>,
        authenticated: HotkeySet,
        now: u64,
    )
        ensures
            *final(self) == (DispatchCache {
                capacities,
                adaptive_timeout,
                api_eligible,
                authenticated,
                refreshed_at: Some(now),
                fairness: old(self).fairness,
            }),
    {
        self.capacities = capacities;
        self.adaptive_timeout = adaptive_timeout;
        self.api_eligible = api_eligible;
        self.authenticated = authenticated;
        self.refreshed_at = Some(now);
    }
}

/// Takes in the miners that lost their place: each is passed over for
/// `rehab_blocks` blocks, or longer where that was so already.
pub fn absorb_evictions(
    cooldowns: &mut StrMap<u64>,
    evicted: &Vec<(u16, String)>,
    current_block: u64,
    rehab_blocks: u64,
)
    ensures
        final(cooldowns)@ == with_evictions(
            old(cooldowns)@,
            evicted@,
            if current_block + rehab_blocks <= u64::MAX {
                (current_block + rehab_blocks) as u64
            } else {
                u64::MAX
            },
        ),
{
    let until: u64 = current_block.saturating_add(rehab_blocks);
    let mut i: usize = 0;
    proof {
        assert(evicted@.take(0).len() == 0);
    }
    while i < evicted.len()
        invariant
            i <= evicted@.len(),
            cooldowns@ == with_evictions(old(cooldowns)@, evicted@.take(i as int), until),
        decreases evicted@.len() - i,
    {
        proof {
            assert(evicted@.take(i + 1).drop_last() =~= evicted@.take(i as int));
            assert(evicted@.take(i + 1).last() == evicted@[i as int]);
        }
        let prev: u64 = match cooldowns.get(evicted[i].1.as_str()) {
            Some(p) => *p,
            None => 0,
        };
        cooldowns.insert(
            evicted[i].1.clone(),
            if prev > until {
                prev
            } else {
                until
            },
        );
        i += 1;
    }
    proof {
        assert(evicted@.take(i as int) =~= evicted@);
    }
}

/// The cooldowns after some miners lost their place.
pub open spec fn with_evictions(
    cooldowns: Map<Seq<char>, u64>,
    evicted: Seq<(u16, String)>,
    until: u64,
) -> Map<Seq<char>, u64>
    decreases evicted.len(),
{
    if evicted.len() == 0 {
        cooldowns
    } else {
        let m = with_evictions(cooldowns, evicted.drop_last(), until);
        let k = evicted.last().1@;
        m.insert(
            k,
            if m.contains_key(k) && m[k] > until {
                m[k]
            } else {
                until
            },
        )
    }
}

/// A miner that is passed over stays so when others lose their place.
pub proof fn evictions_never_shorten(
    cooldowns: Map<Seq<char>, u64>,
    evicted: Seq<(u16, String)>,
    until: u64,
    hotkey: Seq<char>,
    block: u64,
)
    requires
        cooling(cooldowns, hotkey, block),
    ensures
        cooling(with_evictions(cooldowns, evicted, until), hotkey, block),
    decreases evicted.len(),
{
    if evicted.len() > 0 {
        evictions_never_shorten(cooldowns, evicted.drop_last(), until, hotkey, block);
    }
}

/// What is known of a miner's speed: its uid, a number that grows with its rate,
/// and how many samples the rate rests on.
#[derive(Clone, Copy, Debug, PartialEq, Eq, Structural)]
pub struct RateSample {
    pub uid: u16,
    pub rate: u64,
    pub samples: usize,
}

/// Whether a sample counts for the ranking of miners.
pub open spec fn rankable(s: RateSample, queryable: Seq<u16>, min_samples: usize) -> bool {
    s.samples >= min_samples && queryable.contains(s.uid)
}

/// Whether the sample at `i` ranks before the one at `j`: by rate, and among
/// equals by position.
pub open spec fn ranks_before(s: Seq<RateSample>, i: int, j: int) -> bool {
    s[i].rate > s[j].rate || (s[i].rate == s[j].rate && i < j)
}

/// How many of `n` ranked miners serve customers: the given share, but at least
/// one.
pub open spec fn top_count(n: nat, pct: u32) -> nat {
    if n * pct / 100 < 1 {
        1
    } else {
        (n * pct / 100) as nat
    }
}

/// `chosen` are the first `k` of the positions in `among`, or all of them where
/// there are fewer.
pub open spec fn are_top(s: Seq<RateSample>, among: Seq<int>, k: nat, chosen: Seq<int>) -> bool {
    &&& chosen.no_duplicates()
    &&& chosen.len() == (if k < among.len() {
        k
    } else {
        among.len()
    })
    &&& forall|a: int| 0 <= a < chosen.len() ==> among.contains(#[trigger] chosen[a])
    &&& forall|a: int, b: int|
        0 <= a < chosen.len() && 0 <= b < among.len() && !chosen.contains(among[b]) ==> ranks_before(
            s,
            #[trigger] chosen[a],
            #[trigger] among[b],
        )
}

pub proof fn lemma_picked_increases(n: nat, pred: spec_fn(int) -> bool)
    ensures
        forall|a: int, b: int|
            0 <= a < b < picked(n, pred).len() ==> #[trigger] picked(n, pred)[a]
                < #[trigger] picked(n, pred)[b],
    decreases n,
{
    if n > 0 {
        let m = (n - 1) as nat;
        lemma_picked_increases(m, pred);
        lemma_picked(m, pred);
        let r = picked(m, pred);
        let q = picked(n, pred);
        assert forall|a: int, b: int| 0 <= a < b < q.len() implies #[trigger] q[a] < #[trigger] q[b] by {
            assert(q[a] == r[a]);
        }
    }
}

/// The miners that serve customers: of those that can be asked and are known
/// well enough, the fastest share.
pub fn compute_api_eligible(
    snapshot: &Vec<RateSample>,
    queryable_uids: &Vec<u16>,
    api_miners_pct: u32,
    min_samples: usize,
) -> (r: Vec<usize>)
    requires
        picked(
            snapshot@.len(),
            |i: int| rankable(snapshot@[i], queryable_uids@, min_samples),
        ).len() * api_miners_pct <= u32::MAX,
    ensures
        queryable_uids@.len() == 0 || api_miners_pct == 0 ==> r@.len() == 0,
        queryable_uids@.len() > 0 && api_miners_pct > 0 ==> {
            let among = picked(
                snapshot@.len(),
                |i: int| rankable(snapshot@[i], queryable_uids@, min_samples),
            );
            are_top(snapshot@, among, top_count(among.len(), api_miners_pct), positions(r@))
        },
{
    if queryable_uids.len() == 0 || api_miners_pct == 0 {
        return Vec::new();
    }
    let ghost pred = |i: int| rankable(snapshot@[i], queryable_uids@, min_samples);
    let mut rest: Vec<usize> = Vec::new();
    let mut i: usize = 0;
    proof {
        assert(positions(rest@) =~= picked(0, pred));
    }
    while i < snapshot.len()
        invariant
            i <= snapshot@.len(),
            pred == (|i: int| rankable(snapshot@[i], queryable_uids@, min_samples)),
            positions(rest@) == picked(i as nat, pred),
        decreases snapshot@.len() - i,
    {
        let ghost before = rest@;
        if snapshot[i].samples >= min_samples && has_uid(queryable_uids, snapshot[i].uid) {
            rest.push(i);
            proof {
                assert(positions(rest@) =~= positions(before).push(i as int));
            }
        }
        i += 1;
    }
    let ghost among = positions(rest@);
    proof {
        lemma_picked(snapshot@.len(), pred);
        lemma_picked_increases(snapshot@.len(), pred);
        assert(among.len() <= u32::MAX) by (nonlinear_arith)
            requires
                among.len() * api_miners_pct <= u32::MAX,
                api_miners_pct > 0,
        ;
    }
    let ranked: usize = rest.len();
    let share: u64 = (ranked as u64 * api_miners_pct as u64) / 100;
    let k: u64 = if share < 1 {
        1
    } else {
        share
    };
    proof {
        assert forall|a: int, b: int| 0 <= a < b < rest@.len() implies #[trigger] rest@[a]
            < #[trigger] rest@[b] by {
            assert(among[a] < among[b]);
        }
        assert forall|a: int| 0 <= a < rest@.len() implies #[trigger] rest@[a] < snapshot@.len() by {
            assert(among[a] < snapshot@.len());
        }
        assert forall|a: int| 0 <= a < rest@.len() implies among.contains(
            (#[trigger] rest@[a]) as int,
        ) by {
            assert(among[a] == rest@[a]);
        }
    }
    let mut chosen: Vec<usize> = Vec::new();
    while rest.len() > 0 && (chosen.len() as u64) < k
        invariant
            k == top_count(among.len(), api_miners_pct),
            chosen@.len() <= k,
            chosen@.len() + rest@.len() == among.len(),
            forall|a: int, b: int|
                0 <= a < b < rest@.len() ==> #[trigger] rest@[a] < #[trigger] rest@[b],
            forall|a: int| 0 <= a < rest@.len() ==> #[trigger] rest@[a] < snapshot@.len(),
            forall|a: int| 0 <= a < chosen@.len() ==> #[trigger] chosen@[a] < snapshot@.len(),
            chosen@.no_duplicates(),
            forall|a: int, b: int|
                0 <= a < chosen@.len() && 0 <= b < rest@.len() ==> ranks_before(
                    snapshot@,
                    #[trigger] chosen@[a] as int,
                    #[trigger] rest@[b] as int,
                ),
            forall|a: int|
                0 <= a < chosen@.len() ==> among.contains((#[trigger] chosen@[a]) as int),
            forall|a: int| 0 <= a < rest@.len() ==> among.contains((#[trigger] rest@[a]) as int),
            forall|b: int|
                0 <= b < among.len() ==> positions(chosen@).contains(#[trigger] among[b]) || positions(
                    rest@,
                ).contains(among[b]),
        decreases rest@.len(),
    {
        let mut best: usize = 0;
        let mut j: usize = 1;
        while j < rest.len()
            invariant
                1 <= j <= rest@.len(),
                best < rest@.len(),
                forall|a: int, b: int|
                    0 <= a < b < rest@.len() ==> #[trigger] rest@[a] < #[trigger] rest@[b],
                forall|a: int| 0 <= a < rest@.len() ==> #[trigger] rest@[a] < snapshot@.len(),
                forall|a: int|
                    0 <= a < j && a != best ==> ranks_before(
                        snapshot@,
                        rest@[best as int] as int,
                        (#[trigger] rest@[a]) as int,
                    ),
                best < j,
            decreases rest@.len() - j,
        {
            if snapshot[rest[j]].rate > snapshot[rest[best]].rate {
                best = j;
            }
            j += 1;
        }
        let ghost rest0 = rest@;
        let ghost chosen0 = chosen@;
        let top = rest.remove(best);
        chosen.push(top);
        proof {
            assert(forall|a: int|
                0 <= a < rest@.len() ==> #[trigger] rest@[a] == rest0[if a < best {
                    a
                } else {
                    a + 1
                }]);
            assert(!chosen0.contains(top)) by {
                if chosen0.contains(top) {
                    let a = choose|a: int| 0 <= a < chosen0.len() && chosen0[a] == top;
                    assert(ranks_before(snapshot@, chosen0[a] as int, rest0[best as int] as int));
                }
            }
            assert forall|b: int| 0 <= b < among.len() implies positions(chosen@).contains(
                #[trigger] among[b],
            ) || positions(rest@).contains(among[b]) by {
                let x = among[b];
                if positions(chosen0).contains(x) {
                    let a = choose|a: int| 0 <= a < chosen0.len() && positions(chosen0)[a] == x;
                    assert(positions(chosen@)[a] == x);
                } else {
                    let a = choose|a: int| 0 <= a < rest0.len() && positions(rest0)[a] == x;
                    if a == best {
                        assert(positions(chosen@)[chosen0.len() as int] == x);
                    } else {
                        let a2 = if a < best { a } else { a - 1 };
                        assert(rest@[a2] == rest0[a]);
                        assert(positions(rest@)[a2] == x);
                    }
                }
            }
            assert forall|a: int| 0 <= a < rest@.len() implies among.contains(
                (#[trigger] rest@[a]) as int,
            ) by {
                assert(among.contains(rest0[if a < best { a } else { a + 1 }] as int));
            }
        }
    }
    proof {
        let c = positions(chosen@);
        assert forall|a: int| 0 <= a < c.len() implies among.contains(#[trigger] c[a]) by {
            assert(among.contains(chosen@[a] as int));
        }
        assert forall|a: int, b: int|
            0 <= a < c.len() && 0 <= b < among.len() && !c.contains(among[b]) implies ranks_before(
            snapshot@,
            #[trigger] c[a],
            #[trigger] among[b],
        ) by {
            assert(positions(rest@).contains(among[b]));
            let d = choose|d: int| 0 <= d < rest@.len() && positions(rest@)[d] == among[b];
            assert(ranks_before(snapshot@, chosen@[a] as int, rest@[d] as int));
        }
    }
    chosen
}

} // verus!
