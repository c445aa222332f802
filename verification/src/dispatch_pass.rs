//! A pass over the miners that hands waiting work out.

use vstd::prelude::*;
use vstd::string::*;

use crate::dispatch::{
    can_take, capped, contender_count, dispatch_budget, is_next, next_service, none_can_take,
    pass_budget, verification_backlogged, with_one_more, Allocation, DispatchCandidate,
    FairDispatchState,
};
use crate::rsv::{RsvManager, RsvPolicy};
use crate::types::RunSource;
use crate::verification::{apply_sample, must_verify, pre_decide_sample};
use crate::work::{CustomerReply, DispatchedRequest, NextWork, Selection, WorkQueues};

verus! {

/// Work on its way to miners. The request at a position of `prepared` is for the
/// miner at that position of the allocation's grants.
pub struct DispatchPass {
    pub allocation: Allocation,
    pub prepared: Vec<DispatchedRequest>,
    /// How many requests the pass may make.
    pub allowance: usize,
    /// How many of them miners and work leave room for.
    pub opportunity: usize,
}

/// The miner that a request is for.
pub struct Recipient {
    pub uid: u16,
    pub hotkey: String,
    pub ip: String,
    pub port: u16,
    /// Whether the pass filled the miner up.
    pub was_at_capacity: bool,
}

/// No request of this pass went to any of the miners yet.
pub open spec fn untouched(s: Seq<DispatchCandidate>) -> bool {
    forall|i: int|
        0 <= i < s.len() ==> (#[trigger] s[i]).dispatched == 0 && s[i].projected_active
            == s[i].initial_active
}

/// `w` was taken off the queues: requests of customers first, then slices of
/// their runs, then slices of the validator's own, each in the order they came.
pub open spec fn taken_off(before: WorkQueues, after: WorkQueues, w: NextWork) -> bool {
    match w {
        NextWork::Rwr(x) => {
            &&& before.rwr@.len() > 0
            &&& x == before.rwr@[0]
            &&& after.rwr@ == before.rwr@.drop_first()
            &&& after.api == before.api
            &&& after.stacked == before.stacked
        },
        NextWork::DSlice(d, source) => {
            &&& before.rwr@.len() == 0
            &&& after.rwr == before.rwr
            &&& if before.api@.len() > 0 {
                &&& source == RunSource::Api
                &&& d == before.api@[0]
                &&& after.api@ == before.api@.drop_first()
                &&& after.stacked == before.stacked
            } else {
                &&& source == RunSource::Benchmark
                &&& before.stacked@.len() > 0
                &&& d == before.stacked@[0]
                &&& after.stacked@ == before.stacked@.drop_first()
                &&& after.api == before.api
            }
        },
    }
}

/// How many pieces of work wait, as far as a machine number goes.
pub open spec fn queued(q: WorkQueues) -> usize {
    capped((q.rwr@.len() + q.api@.len() + q.stacked@.len()) as int)
}

/// Nothing waits.
pub open spec fn nothing_waits(q: WorkQueues) -> bool {
    q.rwr@.len() == 0 && q.api@.len() == 0 && q.stacked@.len() == 0
}

/// `x` is `d` once it is settled whether its answer will be checked: it always
/// is where that is not left to chance, and the inputs are kept for the check
/// alone. Chance picks nothing where no answers are to be picked, and everything
/// where as many are to be picked as are expected.
pub open spec fn settled_sample(
    x: DispatchedRequest,
    d: DispatchedRequest,
    hotkey: Seq<char>,
    policy: RsvPolicy,
) -> bool {
    &&& must_verify(d, hotkey) ==> x.pre_sampled
    &&& x.pre_sampled ==> must_verify(d, hotkey) || policy.samples_per_tempo > 0
    &&& !x.pre_sampled ==> policy.samples_per_tempo < policy.expected_subs_per_tempo
    &&& x == (DispatchedRequest {
        pre_sampled: x.pre_sampled,
        task_inputs: if x.pre_sampled {
            d.task_inputs
        } else {
            None
        },
        ..d
    })
}

/// How many miners may still get work in a pass.
pub open spec fn available_count(s: Seq<DispatchCandidate>) -> nat
    decreases s.len(),
{
    if s.len() == 0 {
        0
    } else {
        available_count(s.drop_last()) + if s.last().available {
            1nat
        } else {
            0
        }
    }
}

proof fn lemma_available_update(s: Seq<DispatchCandidate>, i: int, c: DispatchCandidate)
    requires
        0 <= i < s.len(),
    ensures
        available_count(s.update(i, c)) == available_count(s) - (if s[i].available {
            1int
        } else {
            0
        }) + (if c.available {
            1int
        } else {
            0
        }),
    decreases s.len(),
{
    let t = s.update(i, c);
    if i == s.len() - 1 {
        assert(t.drop_last() =~= s.drop_last());
    } else {
        assert(t.drop_last() =~= s.drop_last().update(i, c));
        lemma_available_update(s.drop_last(), i, c);
    }
}

impl DispatchPass {
    /// Each request has its miner, no miner got more than it can take, and what
    /// was made and what may still be made add up to the allowance.
    pub open spec fn sound(&self) -> bool {
        &&& self.allocation.balanced()
        &&& self.prepared@.len() == self.allocation.granted@.len()
        &&& self.allocation.budget + self.prepared@.len() == self.allowance
    }

    /// How many more steps the pass can take.
    pub open spec fn steps_left(&self) -> nat {
        self.allocation.budget as nat + available_count(self.allocation.candidates@)
    }

    /// Opens a pass, unless too many answers wait for their check, no work waits
    /// or as much is under way as may be.
    pub fn open(
        waiting_checks: usize,
        verification_concurrency: usize,
        under_way: usize,
        queues: &WorkQueues,
        candidates: Vec<DispatchCandidate>,
        configured: Option<usize>,
        pressure_share: Option<usize>,
    ) -> (r: Option<DispatchPass>)
        requires
            untouched(candidates@),
        ensures
            r is None <==> (waiting_checks >= capped(verification_concurrency * 4)
                || pass_budget(
                under_way,
                queued(*queues),
                candidates@,
                configured,
                pressure_share,
            ) is None),
            r matches Some(p) ==> {
                let b = pass_budget(
                    under_way,
                    queued(*queues),
                    candidates@,
                    configured,
                    pressure_share,
                )->0;
                &&& p.sound()
                &&& p.allocation.candidates == candidates
                &&& p.prepared@.len() == 0
                &&& p.allowance == b.budget
                &&& p.opportunity == b.opportunity
            },
    {
        if verification_backlogged(waiting_checks, verification_concurrency) {
            return None;
        }
        match dispatch_budget(
            under_way,
            queues.queued_work(),
            candidates.as_slice(),
            configured,
            pressure_share,
        ) {
            None => None,
            Some(b) => Some(
                DispatchPass {
                    allocation: Allocation::new(candidates, b.budget),
                    prepared: Vec::new(),
                    allowance: b.budget,
                    opportunity: b.opportunity,
                },
            ),
        }
    }

    /// The position of the miner that is served next and the work for it, which
    /// leaves its queue. The pass is over once the budget is spent, no work waits
    /// or no miner can take more.
    pub fn next(&self, fairness: &FairDispatchState, queues: &mut WorkQueues) -> (r: Option<
        (usize, NextWork),
    >)
        ensures
            match r {
                Some((i, w)) => {
                    &&& self.allocation.budget > 0
                    &&& is_next(fairness.last_served@, self.allocation.candidates@, i as int)
                    &&& taken_off(*old(queues), *final(queues), w)
                },
                None => {
                    &&& *final(queues) == *old(queues)
                    &&& self.allocation.budget == 0 || nothing_waits(*old(queues))
                        || none_can_take(self.allocation.candidates@)
                },
            },
    {
        match self.allocation.next(fairness, queues.work_waits()) {
            None => None,
            Some(i) => match queues.next_work() {
                Some(w) => Some((i, w)),
                None => None,
            },
        }
    }

    /// Settles what became of the work for the miner at position `i`. A request
    /// goes to it; where none could be made, the miner is left out of the rest of
    /// the pass, and who waits for an answer may get one.
    pub fn settle(
        &mut self,
        i: usize,
        selection: Selection,
        fairness: &mut FairDispatchState,
        rsv: &mut RsvManager,
        current_block: u64,
        blocks_per_tempo: u64,
        now: u64,
    ) -> (r: Option<CustomerReply>)
        requires
            old(self).sound(),
            i < old(self).allocation.candidates@.len(),
            can_take(old(self).allocation.candidates@[i as int]),
            old(self).allocation.budget > 0,
            old(rsv).policy.expected_subs_per_tempo > 0,
        ensures
            final(self).sound(),
            final(self).allowance == old(self).allowance,
            final(self).opportunity == old(self).opportunity,
            final(self).steps_left() < old(self).steps_left(),
            *final(rsv) == *old(rsv),
            ({
                let miner = old(self).allocation.candidates@[i as int];
                match selection {
                    Selection::Dispatch(d) => {
                        &&& r is None
                        &&& final(self).prepared@.len() == old(self).prepared@.len() + 1
                        &&& final(self).prepared@.drop_last() == old(self).prepared@
                        &&& settled_sample(
                            final(self).prepared@.last(),
                            d,
                            miner.hotkey@,
                            old(rsv).policy,
                        )
                        &&& final(self).allocation.granted@ == old(self).allocation.granted@.push(i)
                        &&& final(self).allocation.candidates@
                            == old(self).allocation.candidates@.update(
                            i as int,
                            with_one_more(miner),
                        )
                        &&& final(self).allocation.fair_slots == old(self).allocation.fair_slots + (
                        if contender_count(old(self).allocation.candidates@) > 1 {
                            1int
                        } else {
                            0
                        })
                        &&& final(fairness).service_sequence == next_service(
                            old(fairness).service_sequence,
                        )
                        &&& final(fairness).last_served@ == old(fairness).last_served@.insert(
                            miner.hotkey@,
                            final(fairness).service_sequence,
                        )
                        &&& final(fairness).last_served_at@ == old(
                            fairness,
                        ).last_served_at@.insert(miner.hotkey@, now)
                    },
                    _ => {
                        &&& r == (match selection {
                            Selection::Refused(reply) => reply,
                            _ => None,
                        })
                        &&& final(self).prepared == old(self).prepared
                        &&& final(self).allocation.granted == old(self).allocation.granted
                        &&& final(self).allocation.fair_slots == old(self).allocation.fair_slots
                        &&& final(self).allocation.candidates@
                            == old(self).allocation.candidates@.update(
                            i as int,
                            DispatchCandidate { available: false, ..miner },
                        )
                        &&& *final(fairness) == *old(fairness)
                    },
                }
            }),
    {
        let ghost start = self.allocation;
        let reply = match selection {
            Selection::Dispatch(d) => {
                let sample = pre_decide_sample(
                    &d,
                    self.allocation.candidates[i].hotkey.as_str(),
                    current_block,
                    blocks_per_tempo,
                    rsv,
                );
                self.allocation.grant(i, fairness, now);
                let ghost before = self.prepared@;
                self.prepared.push(apply_sample(d, sample));
                proof {
                    assert(self.prepared@.drop_last() =~= before);
                    lemma_available_update(
                        start.candidates@,
                        i as int,
                        with_one_more(start.candidates@[i as int]),
                    );
                }
                return None;
            },
            Selection::Refused(reply) => reply,
            Selection::Collided => None,
        };
        self.allocation.refuse(i);
        proof {
            lemma_available_update(
                start.candidates@,
                i as int,
                DispatchCandidate { available: false, ..start.candidates@[i as int] },
            );
        }
        reply
    }

    /// The miner that the request at position `k` is for.
    pub fn recipient(&self, k: usize) -> (r: Recipient)
        requires
            self.sound(),
            k < self.prepared@.len(),
        ensures
            ({
                let c = self.allocation.candidates@[self.allocation.granted@[k as int] as int];
                &&& r.uid == c.uid
                &&& r.hotkey@ == c.hotkey@
                &&& r.ip@ == c.ip@
                &&& r.port == c.port
                &&& r.was_at_capacity == (c.projected_active >= c.cap)
            }),
    {
        let was_at_capacity = self.allocation.was_at_capacity(k);
        let c = &self.allocation.candidates[self.allocation.granted[k]];
        Recipient {
            uid: c.uid,
            hotkey: c.hotkey.clone(),
            ip: c.ip.clone(),
            port: c.port,
            was_at_capacity,
        }
    }
}

/// A pass never makes more requests than it may, never sends a miner more than it
/// can take, and has a miner for each of its requests.
pub proof fn passes_keep_their_bounds(p: DispatchPass)
    requires
        p.sound(),
    ensures
        p.prepared@.len() <= p.allowance,
        forall|k: int|
            0 <= k < p.prepared@.len() ==> #[trigger] p.allocation.granted@[k]
                < p.allocation.candidates@.len(),
        forall|i: int|
            0 <= i < p.allocation.candidates@.len() && (#[trigger] p.allocation.candidates@[i]).dispatched
                > 0 ==> p.allocation.candidates@[i].projected_active
                <= p.allocation.candidates@[i].cap,
{
}

/// Once a pass has no step left, its budget is spent and nobody is served any more.
/// Settling a piece of work takes a step away whatever became of it, so that work
/// which cannot be sent does not hold a pass up.
pub proof fn passes_come_to_an_end(p: DispatchPass, order: Map<Seq<char>, u64>, i: int)
    requires
        p.sound(),
        p.steps_left() == 0,
    ensures
        p.allocation.budget == 0,
        !is_next(order, p.allocation.candidates@, i),
{
    let s = p.allocation.candidates@;
    if is_next(order, s, i) {
        lemma_available_update(s, i, DispatchCandidate { available: false, ..s[i] });
    }
}

} // verus!
