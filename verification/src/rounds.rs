//! A round of work that is given out miner by miner: how much each may be given,
//! and which kind of work comes first.

use vstd::prelude::*;
use vstd::string::*;

use crate::chance::shuffle;
use crate::json::{put, Json, JsonV};
use crate::pow_manager::{batch_len, weights_inputs, PowManager};
use crate::types::{Circuit, RequestType, RetryPayload};
use crate::work::{query_json, DispatchedRequest, RequestBody, WorkQueues};

verus! {

/// The kinds of work that can be given out.
#[derive(Clone, Copy, Debug, PartialEq, Eq, Structural)]
pub enum WorkKind {
    ProofOfWeights,
    Rwr,
    ApiSlice,
    StackedSlice,
    Benchmark,
    Nothing,
}

/// How benchmarks may be given out.
#[derive(Clone, Copy, Debug)]
pub struct BenchmarkTerms {
    pub disabled: bool,
    /// How many circuits there are to measure miners with.
    pub circuits: usize,
    pub max_concurrent: Option<usize>,
    pub in_flight: usize,
}

/// Whether a benchmark may be given out.
pub open spec fn benchmark_allowed(t: BenchmarkTerms) -> bool {
    &&& !t.disabled
    &&& t.circuits > 0
    &&& match t.max_concurrent {
        Some(max) => t.in_flight < max,
        None => true,
    }
}

/// Which kind of work comes next: a batch of scores to prove, what a customer asks
/// for, what belongs to a customer's run, what belongs to a run that measures
/// miners, and a benchmark, in this order.
pub open spec fn next_kind(
    pow_ready: bool,
    rwr: nat,
    api: nat,
    stacked: nat,
    benchmarks: BenchmarkTerms,
) -> WorkKind {
    if pow_ready {
        WorkKind::ProofOfWeights
    } else if rwr > 0 {
        WorkKind::Rwr
    } else if api > 0 {
        WorkKind::ApiSlice
    } else if stacked > 0 {
        WorkKind::StackedSlice
    } else if benchmark_allowed(benchmarks) {
        WorkKind::Benchmark
    } else {
        WorkKind::Nothing
    }
}

/// The kind of work that comes next.
pub fn work_kind(pow_ready: bool, queues: &WorkQueues, benchmarks: BenchmarkTerms) -> (r: WorkKind)
    ensures
        r == next_kind(
            pow_ready,
            queues.rwr@.len(),
            queues.api@.len(),
            queues.stacked@.len(),
            benchmarks,
        ),
{
    if pow_ready {
        return WorkKind::ProofOfWeights;
    }
    if queues.rwr.len() > 0 {
        return WorkKind::Rwr;
    }
    if queues.api.len() > 0 {
        return WorkKind::ApiSlice;
    }
    if queues.stacked.len() > 0 {
        return WorkKind::StackedSlice;
    }
    let free = match benchmarks.max_concurrent {
        Some(max) => benchmarks.in_flight < max,
        None => true,
    };
    if !benchmarks.disabled && benchmarks.circuits > 0 && free {
        WorkKind::Benchmark
    } else {
        WorkKind::Nothing
    }
}

/// How much may be given out in a round: nothing while too many answers wait to be
/// verified, and else as much as is not under way yet.
pub open spec fn round_budget(
    verifying: int,
    waiting: int,
    max_verifications: int,
    active: int,
    max_concurrency: int,
) -> int {
    if verifying + waiting >= max_verifications || active >= max_concurrency {
        0
    } else {
        max_concurrency - active
    }
}

/// How much may be given out in this round.
pub fn open_round(
    verifying: usize,
    waiting: usize,
    max_verifications: usize,
    active: usize,
    max_concurrency: usize,
) -> (r: usize)
    ensures
        r == round_budget(
            verifying as int,
            waiting as int,
            max_verifications as int,
            active as int,
            max_concurrency as int,
        ),
{
    let backlogged = match verifying.checked_add(waiting) {
        Some(backlog) => backlog >= max_verifications,
        None => true,
    };
    if backlogged {
        return 0;
    }
    max_concurrency.saturating_sub(active)
}

/// How much of a round a miner may be given: what it has room for, as far as the
/// round goes.
pub fn miner_slots(cap: usize, active: usize, budget: usize, dispatched: usize) -> (r: usize)
    ensures
        active >= cap || dispatched >= budget ==> r == 0,
        active < cap && dispatched < budget ==> r == (if cap - active < budget - dispatched {
            cap - active
        } else {
            budget - dispatched
        }),
{
    let room: usize = cap.saturating_sub(active);
    let left: usize = budget.saturating_sub(dispatched);
    if room < left {
        room
    } else {
        left
    }
}

/// Puts miners into the order in which a round comes to them, which is left to
/// chance.
pub fn serving_order(uids: Vec<u16>) -> (r: Vec<u16>)
    ensures
        r@.to_multiset() == uids@.to_multiset(),
{
    let mut order = uids;
    shuffle(&mut order);
    order
}

/// A miner in a round: how much it can take and how much it has under way.
#[derive(Clone, Copy, Debug)]
pub struct RoundMiner {
    pub uid: u16,
    pub cap: usize,
    pub active: usize,
}

/// A round under way. Miners are served one after the other, each until it has no
/// room or no request could be made for it.
pub struct Round {
    pub miners: Vec<RoundMiner>,
    /// The miner that is being served.
    pub at: usize,
    /// How many requests the round may make.
    pub budget: usize,
    /// For each request of the round, the position of its miner.
    pub granted: Vec<usize>,
}

/// Whether a miner can take one more request.
pub open spec fn has_room(m: RoundMiner) -> bool {
    m.active < m.cap
}

/// The miner at position `p` is the one whose turn it is: the first with room from
/// the one being served on.
pub open spec fn has_turn(r: Round, p: int) -> bool {
    &&& r.granted@.len() < r.budget
    &&& r.at <= p < r.miners@.len()
    &&& has_room(r.miners@[p])
    &&& forall|q: int| r.at <= q < p ==> !has_room(#[trigger] r.miners@[q])
}

impl Round {
    /// Requests went to miners in the order of the round, to none after the one
    /// being served, and there are no more of them than there may be.
    pub open spec fn sound(&self) -> bool {
        &&& self.at <= self.miners@.len()
        &&& self.granted@.len() <= self.budget
        &&& forall|k: int|
            0 <= k < self.granted@.len() ==> #[trigger] self.granted@[k] <= self.at
                && self.granted@[k] < self.miners@.len()
        &&& forall|j: int, k: int|
            0 <= j <= k < self.granted@.len() ==> self.granted@[j] <= self.granted@[k]
    }

    /// How many more steps the round can take.
    pub open spec fn steps_left(&self) -> int {
        self.budget - self.granted@.len() + self.miners@.len() - self.at
    }

    /// Starts a round.
    pub fn new(miners: Vec<RoundMiner>, budget: usize) -> (r: Round)
        ensures
            r.sound(),
            r.miners == miners,
            r.budget == budget,
            r.at == 0,
            r.granted@.len() == 0,
    {
        Round { miners, at: 0, budget, granted: Vec::new() }
    }

    /// The position of the miner whose turn it is, if there is one.
    pub fn next(&self) -> (r: Option<usize>)
        ensures
            match r {
                Some(p) => has_turn(*self, p as int),
                None => forall|p: int| !has_turn(*self, p),
            },
    {
        if self.granted.len() >= self.budget {
            return None;
        }
        let mut p: usize = self.at;
        while p < self.miners.len()
            invariant
                self.at <= p,
                forall|q: int| self.at <= q < p ==> !has_room(#[trigger] self.miners@[q]),
                self.granted@.len() < self.budget,
            decreases self.miners@.len() - p,
        {
            if self.miners[p].active < self.miners[p].cap {
                return Some(p);
            }
            p += 1;
        }
        None
    }

    /// Gives the miner whose turn it is a request, and says whether that fills it
    /// up.
    pub fn grant(&mut self, p: usize) -> (r: bool)
        requires
            old(self).sound(),
            has_turn(*old(self), p as int),
        ensures
            final(self).sound(),
            ({
                let m = old(self).miners@[p as int];
                &&& r == (m.active + 1 >= m.cap)
                &&& final(self).miners@ == old(self).miners@.update(
                    p as int,
                    RoundMiner { active: (m.active + 1) as usize, ..m },
                )
            }),
            final(self).at == p,
            final(self).budget == old(self).budget,
            final(self).granted@ == old(self).granted@.push(p),
            final(self).steps_left() < old(self).steps_left(),
    {
        let m: RoundMiner = self.miners[p];
        let filled = m.active + 1 >= m.cap;
        self.miners.set(p, RoundMiner { uid: m.uid, cap: m.cap, active: m.active + 1 });
        self.at = p;
        self.granted.push(p);
        filled
    }

    /// Turns to the miner after the one whose turn it is, because no request could
    /// be made.
    pub fn refuse(&mut self, p: usize)
        requires
            old(self).sound(),
            has_turn(*old(self), p as int),
        ensures
            final(self).sound(),
            final(self).miners == old(self).miners,
            final(self).at == p + 1,
            final(self).budget == old(self).budget,
            final(self).granted == old(self).granted,
            final(self).steps_left() < old(self).steps_left(),
    {
        let n: usize = self.miners.len();
        assert(p < n);
        self.at = p + 1;
    }
}

/// What a miner is sent to prove scores.
pub open spec fn weights_json(
    netuid: u16,
    circuit_id: Seq<char>,
    system: Seq<char>,
    inputs: JsonV,
) -> JsonV {
    JsonV::Object(
        Map::<Seq<char>, JsonV>::empty()
            .insert("subnet_uid"@, JsonV::Int(netuid as int))
            .insert("verification_key_hash"@, JsonV::Text(circuit_id))
            .insert("proof_system"@, JsonV::Text(system))
            .insert("inputs"@, inputs)
            .insert("proof"@, JsonV::Text(""@))
            .insert("public_signals"@, JsonV::Text(""@)),
    )
}

/// A request that belongs to no run and to no customer, and is not tried again.
pub open spec fn is_unasked_request(
    d: DispatchedRequest,
    request_type: RequestType,
    circuit: Circuit,
    inputs: JsonV,
) -> bool {
    &&& d.request_type == request_type
    &&& d.guard_hash matches Some(h) && h@ == ""@
    &&& d.external_request_hash is None
    &&& d.retry_count == 0
    &&& d.slice_num is None
    &&& d.run_uid is None
    &&& !d.is_tile
    &&& d.task_id is None
    &&& d.tile_idx is None
    &&& d.task_circuit == Some(circuit)
    &&& d.task_inputs matches Some(i) && i@ == inputs
    &&& d.task_proof_system == Some(circuit.proof_system)
    &&& d.retry_payload is Nothing
    &&& d.dsperse_circuit_path is None
    &&& d.component_sha is None
    &&& !d.pre_sampled
}

fn unasked_request(
    request_type: RequestType,
    circuit: Circuit,
    inputs: Json,
    body: RequestBody,
) -> (d: DispatchedRequest)
    ensures
        is_unasked_request(d, request_type, circuit, inputs@),
        d.body == body,
{
    let proof_system = circuit.proof_system;
    DispatchedRequest {
        request_type,
        guard_hash: Some("".to_owned()),
        external_request_hash: None,
        body,
        retry_count: 0,
        slice_num: None,
        run_uid: None,
        is_tile: false,
        task_id: None,
        tile_idx: None,
        task_circuit: Some(circuit),
        task_inputs: Some(inputs),
        task_proof_system: Some(proof_system),
        retry_payload: RetryPayload::Nothing,
        dsperse_circuit_path: None,
        component_sha: None,
        pre_sampled: false,
    }
}

/// Makes a request for a proof of scores out of the next batch of them.
pub fn weights_request(pow: &mut PowManager, circuit: Circuit, netuid: u16, system: &str) -> (d:
    DispatchedRequest)
    ensures
        final(pow).queue@ == old(pow).queue@.skip(batch_len(*old(pow))),
        final(pow).batch_size == old(pow).batch_size,
        ({
            let inputs = weights_inputs(old(pow).queue@.take(batch_len(*old(pow))));
            &&& is_unasked_request(d, RequestType::ProofOfWeights, circuit, inputs)
            &&& d.body matches RequestBody::Weights(b) && b@ == weights_json(
                netuid,
                circuit.id@,
                system@,
                inputs,
            )
        }),
{
    let items = pow.drain_batch();
    let inputs = PowManager::prepare_inputs(&items);
    let mut list: Vec<(String, Json)> = Vec::new();
    proof {
        crate::json::lemma_members_empty(list@);
    }
    put(&mut list, "subnet_uid", Json::Unsigned(netuid as u64));
    put(&mut list, "verification_key_hash", Json::Text(circuit.id.clone()));
    put(&mut list, "proof_system", Json::Text(system.to_owned()));
    put(&mut list, "inputs", inputs.copy());
    put(&mut list, "proof", Json::Text("".to_owned()));
    put(&mut list, "public_signals", Json::Text("".to_owned()));
    unasked_request(
        RequestType::ProofOfWeights,
        circuit,
        inputs,
        RequestBody::Weights(Json::Object(list)),
    )
}

/// What a benchmark asks for: what the circuit has for that, else nothing.
pub open spec fn benchmark_inputs(default_input: Option<Json>) -> JsonV {
    match default_input {
        Some(i) => i@,
        None => JsonV::Object(Map::<Seq<char>, JsonV>::empty()),
    }
}

/// Makes a request that measures a miner with a circuit.
pub fn benchmark_request(circuit: Circuit, default_input: Option<Json>) -> (d: DispatchedRequest)
    ensures
        is_unasked_request(d, RequestType::Benchmark, circuit, benchmark_inputs(default_input)),
        d.body matches RequestBody::Query(b) && b@ == query_json(
            circuit.id@,
            benchmark_inputs(default_input),
        ),
{
    let inputs = match default_input {
        Some(i) => i,
        None => {
            let none: Vec<(String, Json)> = Vec::new();
            proof {
                crate::json::lemma_members_empty(none@);
            }
            Json::Object(none)
        },
    };
    let mut list: Vec<(String, Json)> = Vec::new();
    proof {
        crate::json::lemma_members_empty(list@);
    }
    put(&mut list, "model_id", Json::Text(circuit.id.clone()));
    put(&mut list, "query_input", inputs.copy());
    unasked_request(
        RequestType::Benchmark,
        circuit,
        inputs,
        RequestBody::Query(Json::Object(list)),
    )
}

/// Once a round has no step left, nobody has a turn any more. Giving a request out
/// and passing a miner over both take a step away.
pub proof fn rounds_come_to_an_end(r: Round, p: int)
    requires
        r.sound(),
        r.steps_left() == 0,
    ensures
        !has_turn(r, p),
{
}

/// Who was served before stays served before: a miner that a round has turned away
/// from gets nothing more in it.
pub proof fn turns_never_go_back(r: Round, p: int)
    requires
        r.sound(),
        has_turn(r, p),
    ensures
        p >= r.at,
        forall|k: int| 0 <= k < r.granted@.len() ==> #[trigger] r.granted@[k] <= p,
{
}

/// A customer's request is given out before anything that only measures miners.
pub proof fn customers_come_first(
    rwr: nat,
    api: nat,
    stacked: nat,
    benchmarks: BenchmarkTerms,
)
    requires
        rwr > 0 || api > 0,
    ensures
        next_kind(false, rwr, api, stacked, benchmarks) == WorkKind::Rwr || next_kind(
            false,
            rwr,
            api,
            stacked,
            benchmarks,
        ) == WorkKind::ApiSlice,
{
}

/// A round never has more under way than is allowed.
pub proof fn rounds_keep_the_limit(
    verifying: int,
    waiting: int,
    max_verifications: int,
    active: int,
    max_concurrency: int,
)
    requires
        0 <= active <= max_concurrency,
    ensures
        active + round_budget(verifying, waiting, max_verifications, active, max_concurrency)
            <= max_concurrency,
{
}

} // verus!
