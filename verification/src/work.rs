//! The work that waits for a miner, and how it becomes requests.

use std::collections::VecDeque;
use vstd::prelude::*;
use vstd::string::*;

use crate::dispatch::{capped, listed};
use crate::fifo::fifo_insert;
use crate::incremental_runner::IncrementalRunManager;
use crate::json::{put, Json, JsonV};
use crate::relay::FRAME_PROOF_RESULT;
use crate::request_pipeline::{
    dslice_hash, input_hash, DSliceProofGenerationDataModel, RequestPipeline,
};
use crate::seqs::texts;
use crate::text::str_eq;
use crate::types::{
    copy_text, Circuit, DSliceRequest, ProofSystem, RequestType, RetryPayload, RunSource,
    RwrSubmission,
};

verus! {

/// The work that waits for a miner: what customers ask for comes before what
/// only measures miners.
#[derive(Debug)]
pub struct WorkQueues {
    pub rwr: VecDeque<RwrSubmission>,
    pub api: VecDeque<DSliceRequest>,
    pub stacked: VecDeque<DSliceRequest>,
}

/// The work at the head of the queues.
#[derive(Debug)]
pub enum NextWork {
    Rwr(RwrSubmission),
    DSlice(DSliceRequest, RunSource),
}

/// The data that a request carries.
#[derive(Debug)]
pub enum RequestBody {
    Query(Json),
    Weights(Json),
    DSlice(DSliceProofGenerationDataModel),
}

/// A request that is ready to be sent.
#[derive(Debug)]
pub struct DispatchedRequest {
    pub request_type: RequestType,
    pub guard_hash: Option<String>,
    pub external_request_hash: Option<u32>,
    pub body: RequestBody,
    pub retry_count: u32,
    pub slice_num: Option<String>,
    pub run_uid: Option<String>,
    pub is_tile: bool,
    pub task_id: Option<String>,
    pub tile_idx: Option<u32>,
    pub task_circuit: Option<Circuit>,
    pub task_inputs: Option<Json>,
    pub task_proof_system: Option<ProofSystem>,
    pub retry_payload: RetryPayload,
    pub dsperse_circuit_path: Option<String>,
    pub component_sha: Option<String>,
    /// Whether the answer is going to be verified. Where it is not, the inputs
    /// are not kept while the request is under way.
    pub pre_sampled: bool,
}

/// An answer for a customer.
#[derive(Debug)]
pub struct CustomerReply {
    pub frame_type: u8,
    pub req_id: u32,
    pub result: Json,
}

/// What comes of a piece of work.
#[derive(Debug)]
pub enum Selection {
    /// It is sent.
    Dispatch(DispatchedRequest),
    /// It cannot be done; whoever asked for it is told.
    Refused(Option<CustomerReply>),
    /// The same is under way already; it waits at the end of its queue.
    Collided,
}

/// What of the work belongs to a circuit, or to one of some runs.
#[derive(Debug)]
pub enum Dropped<'a> {
    OfCircuit(&'a str),
    OfRuns(&'a Vec<String>),
}

/// Whether a request stays when some are dropped.
pub open spec fn stays(d: Dropped, r: DSliceRequest) -> bool {
    match d {
        Dropped::OfCircuit(id) => r.circuit.id@ != id@,
        Dropped::OfRuns(runs) => !texts(runs@).to_set().contains(r.run_uid@),
    }
}

proof fn lemma_filter_step(s: Seq<DSliceRequest>, keep: spec_fn(DSliceRequest) -> bool, i: int)
    requires
        0 <= i < s.len(),
    ensures
        s.take(i + 1).filter(keep) == (if keep(s[i]) {
            s.take(i).filter(keep).push(s[i])
        } else {
            s.take(i).filter(keep)
        }),
{
    reveal(Seq::filter);
    assert(s.take(i + 1).drop_last() =~= s.take(i));
    assert(s.take(i + 1).last() == s[i]);
}

fn drop_from(q: &mut VecDeque<DSliceRequest>, d: &Dropped)
    ensures
        final(q)@ == old(q)@.filter(|r: DSliceRequest| stays(*d, r)),
{
    let ghost all = q@;
    let ghost keep = |r: DSliceRequest| stays(*d, r);
    let mut out: VecDeque<DSliceRequest> = VecDeque::new();
    let n: usize = q.len();
    let mut i: usize = 0;
    proof {
        reveal(Seq::filter);
        assert(all.take(0).len() == 0);
        assert(out@ =~= all.take(0).filter(keep));
        assert(q@ =~= all.skip(0));
    }
    while i < n
        invariant
            n == all.len(),
            i <= n,
            keep == (|r: DSliceRequest| stays(*d, r)),
            q@ == all.skip(i as int),
            out@ == all.take(i as int).filter(keep),
        decreases n - i,
    {
        let first = q.pop_front();
        proof {
            lemma_filter_step(all, keep, i as int);
            assert(all.skip(i as int)[0] == all[i as int]);
            assert(q@ =~= all.skip(i + 1));
        }
        if let Some(r) = first {
            let keep_it = match d {
                Dropped::OfCircuit(id) => !str_eq(r.circuit.id.as_str(), id),
                Dropped::OfRuns(runs) => !listed(runs, r.run_uid.as_str()),
            };
            if keep_it {
                out.push_back(r);
            }
        }
        i += 1;
    }
    proof {
        assert(all.take(i as int) =~= all);
    }
    *q = out;
}

impl WorkQueues {
    /// Nothing waits.
    pub fn new() -> (q: Self)
        ensures
            q.rwr@.len() == 0,
            q.api@.len() == 0,
            q.stacked@.len() == 0,
    {
        WorkQueues { rwr: VecDeque::new(), api: VecDeque::new(), stacked: VecDeque::new() }
    }

    /// How much waits, as far as a machine number goes.
    pub fn queued_work(&self) -> (n: usize)
        ensures
            n == capped((self.rwr@.len() + self.api@.len() + self.stacked@.len()) as int),
    {
        self.rwr.len().saturating_add(self.api.len()).saturating_add(self.stacked.len())
    }

    /// How many pieces of runs wait, as far as a machine number goes.
    pub fn queued_dslices(&self) -> (n: usize)
        ensures
            n == capped((self.api@.len() + self.stacked@.len()) as int),
    {
        self.api.len().saturating_add(self.stacked.len())
    }

    /// Whether anything waits.
    pub fn work_waits(&self) -> (r: bool)
        ensures
            r == (self.rwr@.len() > 0 || self.api@.len() > 0 || self.stacked@.len() > 0),
    {
        self.rwr.len() > 0 || self.api.len() > 0 || self.stacked.len() > 0
    }

    /// Takes the next piece of work out: a customer's request for a proof first,
    /// then a piece of a customer's run, then one that measures miners.
    pub fn next_work(&mut self) -> (r: Option<NextWork>)
        ensures
            match r {
                Some(NextWork::Rwr(w)) => {
                    &&& old(self).rwr@.len() > 0
                    &&& w == old(self).rwr@[0]
                    &&& final(self).rwr@ == old(self).rwr@.drop_first()
                    &&& final(self).api == old(self).api
                    &&& final(self).stacked == old(self).stacked
                },
                Some(NextWork::DSlice(d, source)) => {
                    &&& old(self).rwr@.len() == 0
                    &&& final(self).rwr == old(self).rwr
                    &&& if old(self).api@.len() > 0 {
                        &&& source == RunSource::Api
                        &&& d == old(self).api@[0]
                        &&& final(self).api@ == old(self).api@.drop_first()
                        &&& final(self).stacked == old(self).stacked
                    } else {
                        &&& source == RunSource::Benchmark
                        &&& old(self).stacked@.len() > 0
                        &&& d == old(self).stacked@[0]
                        &&& final(self).stacked@ == old(self).stacked@.drop_first()
                        &&& final(self).api == old(self).api
                    }
                },
                None => {
                    &&& *final(self) == *old(self)
                    &&& old(self).rwr@.len() == 0
                    &&& old(self).api@.len() == 0
                    &&& old(self).stacked@.len() == 0
                },
            },
    {
        if self.rwr.len() > 0 {
            let ghost s = self.rwr@;
            if let Some(w) = self.rwr.pop_front() {
                proof {
                    assert(self.rwr@ =~= s.drop_first());
                }
                return Some(NextWork::Rwr(w));
            }
        }
        if self.api.len() > 0 {
            let ghost s = self.api@;
            if let Some(d) = self.api.pop_front() {
                proof {
                    assert(self.api@ =~= s.drop_first());
                }
                return Some(NextWork::DSlice(d, RunSource::Api));
            }
        }
        if self.stacked.len() > 0 {
            let ghost s = self.stacked@;
            if let Some(d) = self.stacked.pop_front() {
                proof {
                    assert(self.stacked@ =~= s.drop_first());
                }
                return Some(NextWork::DSlice(d, RunSource::Benchmark));
            }
        }
        None
    }

    /// Puts a piece of a run at the end of its queue.
    pub fn push_dslice(&mut self, request: DSliceRequest, source: RunSource)
        ensures
            final(self).rwr == old(self).rwr,
            source == RunSource::Api ==> final(self).api@ == old(self).api@.push(request)
                && final(self).stacked == old(self).stacked,
            source == RunSource::Benchmark ==> final(self).stacked@ == old(self).stacked@.push(request)
                && final(self).api == old(self).api,
    {
        match source {
            RunSource::Api => self.api.push_back(request),
            RunSource::Benchmark => self.stacked.push_back(request),
        }
    }

    /// Drops the pieces of some runs.
    pub fn drop_runs(&mut self, runs: &Vec<String>)
        ensures
            final(self).rwr == old(self).rwr,
            final(self).api@ == old(self).api@.filter(
                |r: DSliceRequest| !texts(runs@).to_set().contains(r.run_uid@),
            ),
            final(self).stacked@ == old(self).stacked@.filter(
                |r: DSliceRequest| !texts(runs@).to_set().contains(r.run_uid@),
            ),
    {
        let d = Dropped::OfRuns(runs);
        drop_from(&mut self.api, &d);
        drop_from(&mut self.stacked, &d);
        proof {
            assert((|r: DSliceRequest| stays(d, r)) =~= (|r: DSliceRequest|
                !texts(runs@).to_set().contains(r.run_uid@)));
        }
    }

    /// Drops all pieces of runs that only measure miners.
    pub fn clear_stacked(&mut self)
        ensures
            final(self).rwr == old(self).rwr,
            final(self).api == old(self).api,
            final(self).stacked@.len() == 0,
    {
        self.stacked = VecDeque::new();
    }

    /// Drops the pieces of the runs of a circuit.
    pub fn drop_circuit(&mut self, circuit_id: &str)
        ensures
            final(self).rwr == old(self).rwr,
            final(self).api@ == old(self).api@.filter(
                |r: DSliceRequest| r.circuit.id@ != circuit_id@,
            ),
            final(self).stacked@ == old(self).stacked@.filter(
                |r: DSliceRequest| r.circuit.id@ != circuit_id@,
            ),
    {
        let d = Dropped::OfCircuit(circuit_id);
        drop_from(&mut self.api, &d);
        drop_from(&mut self.stacked, &d);
        proof {
            assert((|r: DSliceRequest| stays(d, r)) =~= (|r: DSliceRequest|
                r.circuit.id@ != circuit_id@));
        }
    }

    /// Queues failed work again, and says whether it could: a piece of a run
    /// only while its run is under way.
    pub fn attempt_retry(
        &mut self,
        retry_payload: RetryPayload,
        next_retry: u32,
        runs: &IncrementalRunManager,
    ) -> (r: bool)
        ensures
            r == retryable(retry_payload, runs@.runs.dom()),
            !r ==> *final(self) == *old(self),
            r ==> match retry_payload {
                RetryPayload::Rwr(w) => {
                    &&& final(self).rwr@ == old(self).rwr@.push(
                        RwrSubmission { retry_count: next_retry, ..w },
                    )
                    &&& final(self).api == old(self).api
                    &&& final(self).stacked == old(self).stacked
                },
                RetryPayload::DSlice(d) => {
                    let again = DSliceRequest { retry_count: next_retry, ..d };
                    &&& final(self).rwr == old(self).rwr
                    &&& d.run_source == RunSource::Api ==> final(self).api@ == old(self).api@.push(
                        again,
                    ) && final(self).stacked == old(self).stacked
                    &&& d.run_source == RunSource::Benchmark ==> final(self).stacked@
                        == old(self).stacked@.push(again) && final(self).api == old(self).api
                },
                RetryPayload::Nothing => false,
            },
    {
        match retry_payload {
            RetryPayload::Rwr(w) => {
                let mut w = w;
                w.retry_count = next_retry;
                self.rwr.push_back(w);
                true
            },
            RetryPayload::DSlice(d) => {
                let mut d = d;
                if runs.has_run(d.run_uid.as_str()) {
                    d.retry_count = next_retry;
                    let source = d.run_source;
                    self.push_dslice(d, source);
                    true
                } else {
                    false
                }
            },
            RetryPayload::Nothing => false,
        }
    }
}

/// Whether failed work can be queued again.
pub open spec fn retryable(p: RetryPayload, running: Set<Seq<char>>) -> bool {
    match p {
        RetryPayload::Rwr(_) => true,
        RetryPayload::DSlice(d) => running.contains(d.run_uid@),
        RetryPayload::Nothing => false,
    }
}

/// What a customer is told whose request cannot be done.
pub open spec fn refusal_json(error: Seq<char>) -> JsonV {
    JsonV::Object(
        Map::empty().insert("success"@, JsonV::Bool(false)).insert("error"@, JsonV::Text(error)),
    )
}

/// Whether a customer who waits for an answer is told of a refusal.
pub open spec fn told(
    r: Option<CustomerReply>,
    frame_type: u8,
    req_id: Option<u32>,
    result: JsonV,
) -> bool {
    match req_id {
        Some(id) => r matches Some(c) && c.frame_type == frame_type && c.req_id == id && c.result@
            == result,
        None => r is None,
    }
}

/// What a customer is told whose request cannot be done.
pub fn refusal(frame_type: u8, req_id: Option<u32>, error: String) -> (r: Option<CustomerReply>)
    ensures
        told(r, frame_type, req_id, refusal_json(error@)),
{
    match req_id {
        Some(id) => {
            let mut list: Vec<(String, Json)> = Vec::new();
            proof {
                crate::json::lemma_members_empty(list@);
            }
            put(&mut list, "success", Json::Bool(false));
            put(&mut list, "error", Json::Text(error));
            Some(CustomerReply { frame_type, req_id: id, result: Json::Object(list) })
        },
        None => None,
    }
}

/// What a miner is sent for a customer's request.
pub open spec fn query_json(circuit_id: Seq<char>, inputs: JsonV) -> JsonV {
    JsonV::Object(
        Map::empty().insert("model_id"@, JsonV::Text(circuit_id)).insert("query_input"@, inputs),
    )
}

/// The request for a customer's work.
pub open spec fn is_rwr_request(
    d: DispatchedRequest,
    w: RwrSubmission,
    circuit: Circuit,
    hash: Seq<char>,
) -> bool {
    &&& d.request_type == RequestType::Rwr
    &&& d.guard_hash matches Some(h) && h@ == hash
    &&& d.external_request_hash == w.request_id
    &&& d.body matches RequestBody::Query(b) && b@ == query_json(circuit.id@, w.inputs@)
    &&& d.retry_count == w.retry_count
    &&& d.slice_num is None
    &&& d.run_uid is None
    &&& !d.is_tile
    &&& d.task_id is None
    &&& d.tile_idx is None
    &&& d.task_circuit == Some(circuit)
    &&& d.task_inputs matches Some(i) && i@ == w.inputs@
    &&& d.task_proof_system == Some(circuit.proof_system)
    &&& d.retry_payload == RetryPayload::Rwr(w)
    &&& d.dsperse_circuit_path is None
    &&& d.component_sha is None
    &&& !d.pre_sampled
}

/// The request for a piece of a run.
pub open spec fn is_dslice_request(
    d: DispatchedRequest,
    w: DSliceRequest,
    inputs: JsonV,
    hash: Seq<char>,
) -> bool {
    &&& d.request_type == RequestType::DSlice
    &&& d.guard_hash matches Some(h) && h@ == hash
    &&& d.external_request_hash is None
    &&& d.body matches RequestBody::DSlice(m) && {
        &&& m.circuit == Some(w.circuit.id)
        &&& m.proof_system == w.proof_system
        &&& m.inputs matches Some(i) && i@ == inputs
        &&& m.outputs is None
        &&& m.slice_num matches Some(s) && s@ == w.slice_num@
        &&& m.run_uid matches Some(s) && s@ == w.run_uid@
        &&& m.component_sha == w.component_sha
    }
    &&& d.retry_count == w.retry_count
    &&& d.slice_num == Some(w.slice_num)
    &&& d.run_uid == Some(w.run_uid)
    &&& d.is_tile == w.is_tile
    &&& d.task_id == w.task_id
    &&& d.tile_idx == w.tile_idx
    &&& d.task_circuit == Some(w.circuit)
    &&& d.task_inputs matches Some(i) && i@ == inputs
    &&& d.task_proof_system == Some(w.proof_system)
    &&& d.retry_payload == RetryPayload::DSlice(w)
    &&& d.dsperse_circuit_path == w.circuit_path
    &&& d.component_sha == w.component_sha
    &&& !d.pre_sampled
}

/// The fingerprint of a piece of a run.
pub open spec fn hash_of(w: DSliceRequest) -> Seq<char> {
    dslice_hash(w.circuit.id@, w.slice_num@, w.run_uid@, w.tile_idx)
}

/// Makes a request of a customer's work, given what was found of its circuit and
/// of its inputs.
pub fn resolve_rwr(
    queues: &mut WorkQueues,
    pipeline: &mut RequestPipeline,
    rwr: RwrSubmission,
    circuit: Result<Circuit, String>,
    inputs_valid: Result<(), String>,
) -> (r: Selection)
    ensures
        final(pipeline).limit() == old(pipeline).limit(),
        match circuit {
            Err(e) => {
                &&& r matches Selection::Refused(reply)
                &&& told(
                    reply,
                    FRAME_PROOF_RESULT,
                    rwr.request_id,
                    refusal_json("unknown circuit: "@ + e@),
                )
                &&& *final(queues) == *old(queues)
                &&& final(pipeline)@ == old(pipeline)@
            },
            Ok(c) => match inputs_valid {
                Err(e) => {
                    &&& r matches Selection::Refused(reply)
                    &&& told(
                        reply,
                        FRAME_PROOF_RESULT,
                        rwr.request_id,
                        refusal_json("invalid input shape: "@ + e@),
                    )
                    &&& *final(queues) == *old(queues)
                    &&& final(pipeline)@ == old(pipeline)@
                },
                Ok(_) => {
                    let hash = input_hash(query_json(c.id@, rwr.inputs@));
                    &&& final(pipeline)@ == fifo_insert(old(pipeline)@, old(pipeline).limit(), hash)
                    &&& final(queues).api == old(queues).api
                    &&& final(queues).stacked == old(queues).stacked
                    &&& if old(pipeline)@.contains(hash) {
                        &&& r is Collided
                        &&& final(queues).rwr@ == old(queues).rwr@.push(rwr)
                    } else {
                        &&& r matches Selection::Dispatch(d)
                        &&& is_rwr_request(d, rwr, c, hash)
                        &&& final(queues).rwr == old(queues).rwr
                    }
                },
            },
        },
{
    let circuit = match circuit {
        Ok(c) => c,
        Err(e) => {
            let text = "unknown circuit: ".to_owned().concat(e.as_str());
            return Selection::Refused(refusal(FRAME_PROOF_RESULT, rwr.request_id, text));
        },
    };
    if let Err(e) = inputs_valid {
        let text = "invalid input shape: ".to_owned().concat(e.as_str());
        return Selection::Refused(refusal(FRAME_PROOF_RESULT, rwr.request_id, text));
    }
    let mut list: Vec<(String, Json)> = Vec::new();
    proof {
        crate::json::lemma_members_empty(list@);
    }
    put(&mut list, "model_id", Json::Text(circuit.id.clone()));
    put(&mut list, "query_input", rwr.inputs.copy());
    let body = Json::Object(list);
    match pipeline.check_hash(&body) {
        None => {
            queues.rwr.push_back(rwr);
            Selection::Collided
        },
        Some(hash) => {
            let proof_system = circuit.proof_system;
            Selection::Dispatch(
                DispatchedRequest {
                    request_type: RequestType::Rwr,
                    guard_hash: Some(hash),
                    external_request_hash: rwr.request_id,
                    body: RequestBody::Query(body),
                    retry_count: rwr.retry_count,
                    slice_num: None,
                    run_uid: None,
                    is_tile: false,
                    task_id: None,
                    tile_idx: None,
                    task_circuit: Some(circuit),
                    task_inputs: Some(rwr.inputs.copy()),
                    task_proof_system: Some(proof_system),
                    retry_payload: RetryPayload::Rwr(rwr),
                    dsperse_circuit_path: None,
                    component_sha: None,
                    pre_sampled: false,
                },
            )
        },
    }
}

/// Makes a request of a piece of a run, given what its inputs decode to. Inputs
/// that do not decode drop the piece.
pub fn resolve_dslice(
    queues: &mut WorkQueues,
    pipeline: &mut RequestPipeline,
    dslice: DSliceRequest,
    source: RunSource,
    inputs: Result<Json, String>,
) -> (r: Selection)
    ensures
        final(pipeline).limit() == old(pipeline).limit(),
        final(queues).rwr == old(queues).rwr,
        match inputs {
            Err(_) => {
                &&& r == Selection::Refused(None)
                &&& *final(queues) == *old(queues)
                &&& final(pipeline)@ == old(pipeline)@
            },
            Ok(i) => {
                let hash = hash_of(dslice);
                &&& final(pipeline)@ == fifo_insert(old(pipeline)@, old(pipeline).limit(), hash)
                &&& if old(pipeline)@.contains(hash) {
                    &&& r is Collided
                    &&& source == RunSource::Api ==> final(queues).api@ == old(queues).api@.push(dslice)
                        && final(queues).stacked == old(queues).stacked
                    &&& source == RunSource::Benchmark ==> final(queues).stacked@
                        == old(queues).stacked@.push(dslice) && final(queues).api == old(queues).api
                } else {
                    &&& r matches Selection::Dispatch(d)
                    &&& is_dslice_request(d, dslice, i@, hash)
                    &&& *final(queues) == *old(queues)
                }
            },
        },
{
    let inputs = match inputs {
        Ok(i) => i,
        Err(_) => {
            return Selection::Refused(None);
        },
    };
    let model = pipeline.prepare_dslice_request(
        &dslice.circuit,
        inputs.copy(),
        None,
        dslice.slice_num.as_str(),
        dslice.run_uid.as_str(),
        dslice.proof_system,
        copy_text(&dslice.component_sha),
    );
    let claimed = pipeline.check_dslice_hash(
        dslice.circuit.id.as_str(),
        dslice.slice_num.as_str(),
        dslice.run_uid.as_str(),
        dslice.tile_idx,
    );
    match claimed {
        None => {
            queues.push_dslice(dslice, source);
            Selection::Collided
        },
        Some(hash) => Selection::Dispatch(
            DispatchedRequest {
                request_type: RequestType::DSlice,
                guard_hash: Some(hash),
                external_request_hash: None,
                body: RequestBody::DSlice(model),
                retry_count: dslice.retry_count,
                slice_num: Some(dslice.slice_num.clone()),
                run_uid: Some(dslice.run_uid.clone()),
                is_tile: dslice.is_tile,
                task_id: copy_text(&dslice.task_id),
                tile_idx: dslice.tile_idx,
                task_circuit: Some(dslice.circuit.copy()),
                task_inputs: Some(inputs),
                task_proof_system: Some(dslice.proof_system),
                dsperse_circuit_path: copy_text(&dslice.circuit_path),
                component_sha: copy_text(&dslice.component_sha),
                retry_payload: RetryPayload::DSlice(dslice),
                pre_sampled: false,
            },
        ),
    }
}

/// Work that collides with work under way is not lost: it waits at the end of
/// the queue it came from, and nothing else changes.
pub proof fn collisions_keep_the_work(q: Seq<DSliceRequest>, w: DSliceRequest)
    requires
        q.len() > 0,
        w == q[0],
    ensures
        q.drop_first().push(w).len() == q.len(),
        q.drop_first().push(w).to_multiset() == q.to_multiset(),
{
    broadcast use vstd::seq_lib::group_to_multiset_ensures;

    assert(q =~= seq![w] + q.drop_first());
    assert(q.drop_first().push(w) =~= q.drop_first() + seq![w]);
    vstd::seq_lib::lemma_multiset_commutative(seq![w], q.drop_first());
    vstd::seq_lib::lemma_multiset_commutative(q.drop_first(), seq![w]);
}

} // verus!
