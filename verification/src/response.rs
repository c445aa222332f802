//! What miners answer.

use vstd::prelude::*;
use vstd::string::*;

use crate::json::{items, lemma_items, Json, JsonV};
use crate::text::{
    after_prefix, decimal, decimal_text, parse_unsigned, strip_prefix, unsigned_up_to,
};
use crate::types::{copy_text, Circuit, ProofSystem, RequestType, RetryPayload};
use crate::work::DispatchedRequest;

verus! {

/// What a miner answered. Times are the bits of a number of seconds.
#[derive(Debug)]
pub struct MinerResponse {
    pub uid: u16,
    pub verification_result: bool,
    /// The number of the customer's request, as text; empty where there is none.
    pub external_request_hash: String,
    pub response_time: u64,
    pub proof_size: usize,
    pub circuit: Option<Circuit>,
    pub proof_system: Option<ProofSystem>,
    pub verification_time: Option<u64>,
    pub proof_content: Option<Json>,
    pub public_json: Option<Vec<String>>,
    pub inputs: Option<Json>,
    pub request_type: RequestType,
    pub dsperse_slice_num: Option<u64>,
    pub dsperse_run_uid: Option<String>,
    pub computed_outputs: Option<Json>,
    pub is_incremental: bool,
    pub witness: Option<String>,
    pub dsperse_circuit_path: Option<String>,
    pub component_sha: Option<String>,
}

/// Whether a miner answered, and what.
#[derive(Debug)]
pub enum TaskOutcome {
    Success(MinerResponse),
    Failure(String),
}

/// A request that is over.
#[derive(Debug)]
pub struct TaskResult {
    pub uid: u16,
    pub request_type: RequestType,
    pub guard_hash: Option<String>,
    pub external_request_hash: Option<u32>,
    pub retry_count: u32,
    pub was_at_capacity: bool,
    pub slice_num: Option<String>,
    pub run_uid: Option<String>,
    pub is_tile: bool,
    pub task_id: Option<String>,
    pub tile_idx: Option<u32>,
    pub outcome: TaskOutcome,
    pub retry_payload: RetryPayload,
    pub pre_sampled: bool,
}

/// What is known of a request before it is answered.
#[derive(Debug)]
pub struct TaskContext {
    pub uid: u16,
    pub request_type: RequestType,
    pub external_request_hash: Option<u32>,
    pub circuit: Option<Circuit>,
    pub proof_system: Option<ProofSystem>,
    pub inputs: Option<Json>,
    pub slice_num: Option<String>,
    pub run_uid: Option<String>,
    pub dsperse_circuit_path: Option<String>,
    pub component_sha: Option<String>,
}

/// The number of a slice: what follows `slice_` in its name, or the whole name
/// where it does not start so.
pub open spec fn slice_part(name: Seq<char>) -> Seq<char> {
    match after_prefix(name, "slice_"@) {
        Some(t) => t,
        None => name,
    }
}

/// The number of a slice, by its name.
pub open spec fn slice_number(name: Seq<char>) -> Option<nat> {
    unsigned_up_to(slice_part(name), u64::MAX as nat)
}

/// What follows `slice_` in a slice's name, or the whole name.
pub fn slice_part_of(name: &str) -> (r: &str)
    ensures
        r@ == slice_part(name@),
{
    match strip_prefix(name, "slice_") {
        Some(t) => t,
        None => name,
    }
}

/// The proof that an answer holds.
pub open spec fn proof_in(body: JsonV) -> Option<JsonV> {
    match body.member("query_output"@) {
        Some(v) => Some(v),
        None => body.member("proof"@),
    }
}

/// How many bytes of text a proof is.
pub open spec fn proof_bytes(content: Option<JsonV>) -> usize {
    match content {
        Some(JsonV::Text(t)) => vstd::utf8::encode_utf8(t).len() as usize,
        _ => 0,
    }
}

/// The texts in a list of values, in order.
pub open spec fn texts_in(s: Seq<JsonV>) -> Seq<Seq<char>>
    decreases s.len(),
{
    if s.len() == 0 {
        Seq::empty()
    } else {
        match s.last().text() {
            Some(t) => texts_in(s.drop_last()).push(t),
            None => texts_in(s.drop_last()),
        }
    }
}

/// The public signals that an answer holds: the texts in a list.
pub open spec fn public_signals_in(body: JsonV) -> Option<Seq<Seq<char>>> {
    match body.member("public_signals"@) {
        Some(JsonV::Array(s)) => Some(texts_in(s)),
        _ => None,
    }
}

/// The witness that an answer holds.
pub open spec fn witness_in(body: JsonV) -> Option<Seq<char>> {
    match body.member("witness"@) {
        Some(v) => v.text(),
        None => None,
    }
}

/// What an optional value means.
pub open spec fn json_view(j: Option<Json>) -> Option<JsonV> {
    match j {
        Some(v) => Some(v@),
        None => None,
    }
}

/// What an optional text says.
pub open spec fn text_view(t: Option<String>) -> Option<Seq<char>> {
    match t {
        Some(v) => Some(v@),
        None => None,
    }
}

/// What an optional list of texts says.
pub open spec fn list_view(t: Option<Vec<String>>) -> Option<Seq<Seq<char>>> {
    match t {
        Some(v) => Some(crate::seqs::texts(v@)),
        None => None,
    }
}

fn collect_texts(list: &Vec<Json>) -> (r: Vec<String>)
    ensures
        crate::seqs::texts(r@) == texts_in(items(list@)),
{
    let mut r: Vec<String> = Vec::new();
    let mut i: usize = 0;
    let ghost all = items(list@);
    proof {
        lemma_items(list@);
        assert(all.take(0).len() == 0);
        assert(crate::seqs::texts(r@) =~= texts_in(all.take(0)));
    }
    while i < list.len()
        invariant
            i <= list@.len(),
            all == items(list@),
            all.len() == list@.len(),
            forall|j: int| 0 <= j < list@.len() ==> #[trigger] all[j] == list@[j]@,
            crate::seqs::texts(r@) == texts_in(all.take(i as int)),
        decreases list@.len() - i,
    {
        proof {
            assert(all.take(i + 1).drop_last() =~= all.take(i as int));
            assert(all.take(i + 1).last() == all[i as int]);
        }
        let ghost before = crate::seqs::texts(r@);
        if let Some(t) = list[i].as_str() {
            r.push(t.to_owned());
            proof {
                assert(crate::seqs::texts(r@) =~= before.push(t@));
            }
        }
        i += 1;
    }
    proof {
        assert(all.take(i as int) =~= all);
    }
    r
}

/// The number of a customer's request, as text.
pub open spec fn request_text(id: Option<u32>) -> Seq<char> {
    match id {
        Some(n) => decimal_text(n as nat),
        None => Seq::empty(),
    }
}

/// What a miner's answer to a request says.
pub open spec fn is_response(r: MinerResponse, task: TaskContext, body: JsonV, elapsed: u64) -> bool {
    &&& r.uid == task.uid
    &&& !r.verification_result
    &&& r.external_request_hash@ == request_text(task.external_request_hash)
    &&& r.response_time == elapsed
    &&& json_view(r.proof_content) == proof_in(body)
    &&& r.proof_size == proof_bytes(proof_in(body))
    &&& r.circuit == task.circuit
    &&& r.proof_system == task.proof_system
    &&& r.verification_time is None
    &&& list_view(r.public_json) == public_signals_in(body)
    &&& r.inputs == task.inputs
    &&& r.request_type == task.request_type
    &&& match task.slice_num {
        Some(s) => match r.dsperse_slice_num {
            Some(n) => slice_number(s@) == Some(n as nat),
            None => slice_number(s@) is None,
        },
        None => r.dsperse_slice_num is None,
    }
    &&& r.dsperse_run_uid == task.run_uid
    &&& json_view(r.computed_outputs) == body.member("computed_outputs"@)
    &&& r.is_incremental == (task.request_type == RequestType::DSlice)
    &&& text_view(r.witness) == witness_in(body)
    &&& r.dsperse_circuit_path == task.dsperse_circuit_path
    &&& r.component_sha == task.component_sha
}

/// Reads a miner's answer.
pub fn read_response(task: TaskContext, body: &Json, elapsed: u64) -> (r: MinerResponse)
    ensures
        is_response(r, task, body@, elapsed),
{
    let proof_content = match body.get("query_output") {
        Some(v) => Some(v.copy()),
        None => match body.get("proof") {
            Some(v) => Some(v.copy()),
            None => None,
        },
    };
    let proof_size: usize = match &proof_content {
        Some(Json::Text(t)) => t.as_str().len(),
        _ => 0,
    };
    let witness = match body.get("witness") {
        Some(v) => match v.as_str() {
            Some(t) => Some(t.to_owned()),
            None => None,
        },
        None => None,
    };
    let computed_outputs = match body.get("computed_outputs") {
        Some(v) => Some(v.copy()),
        None => None,
    };
    let public_json = match body.get("public_signals") {
        Some(v) => match v.as_array() {
            Some(list) => Some(collect_texts(list)),
            None => None,
        },
        None => None,
    };
    let dsperse_slice_num: Option<u64> = match &task.slice_num {
        Some(s) => parse_unsigned(slice_part_of(s.as_str()), u64::MAX),
        None => None,
    };
    let external_request_hash = match task.external_request_hash {
        Some(n) => decimal(n as u64),
        None => String::new(),
    };
    proof {
        assert(external_request_hash@ =~= request_text(task.external_request_hash));
    }
    MinerResponse {
        uid: task.uid,
        verification_result: false,
        external_request_hash,
        response_time: elapsed,
        proof_size,
        circuit: task.circuit,
        proof_system: task.proof_system,
        verification_time: None,
        proof_content,
        public_json,
        inputs: task.inputs,
        request_type: task.request_type,
        dsperse_slice_num,
        dsperse_run_uid: task.run_uid,
        computed_outputs,
        is_incremental: task.request_type == RequestType::DSlice,
        witness,
        dsperse_circuit_path: task.dsperse_circuit_path,
        component_sha: task.component_sha,
    }
}

/// What is known of a request that is sent to a miner.
pub open spec fn context_of(uid: u16, d: DispatchedRequest) -> TaskContext {
    TaskContext {
        uid,
        request_type: d.request_type,
        external_request_hash: d.external_request_hash,
        circuit: d.task_circuit,
        proof_system: d.task_proof_system,
        inputs: d.task_inputs,
        slice_num: d.slice_num,
        run_uid: d.run_uid,
        dsperse_circuit_path: d.dsperse_circuit_path,
        component_sha: d.component_sha,
    }
}

/// Takes in what came of a request that was sent to a miner: its answer and how
/// long that took, or why there is none.
pub fn conclude_task(
    uid: u16,
    was_at_capacity: bool,
    d: DispatchedRequest,
    answer: Result<(Json, u64), String>,
) -> (r: TaskResult)
    ensures
        r.uid == uid,
        r.request_type == d.request_type,
        r.guard_hash == d.guard_hash,
        r.external_request_hash == d.external_request_hash,
        r.retry_count == d.retry_count,
        r.was_at_capacity == was_at_capacity,
        r.slice_num == d.slice_num,
        r.run_uid == d.run_uid,
        r.is_tile == d.is_tile,
        r.task_id == d.task_id,
        r.tile_idx == d.tile_idx,
        r.retry_payload == d.retry_payload,
        r.pre_sampled == d.pre_sampled,
        match answer {
            Ok((body, elapsed)) => r.outcome matches TaskOutcome::Success(m) && is_response(
                m,
                context_of(uid, d),
                body@,
                elapsed,
            ),
            Err(e) => r.outcome == TaskOutcome::Failure(e),
        },
{
    let slice_num = copy_text(&d.slice_num);
    let run_uid = copy_text(&d.run_uid);
    let outcome = match answer {
        Ok((body, elapsed)) => {
            let task = TaskContext {
                uid,
                request_type: d.request_type,
                external_request_hash: d.external_request_hash,
                circuit: d.task_circuit,
                proof_system: d.task_proof_system,
                inputs: d.task_inputs,
                slice_num: d.slice_num,
                run_uid: d.run_uid,
                dsperse_circuit_path: d.dsperse_circuit_path,
                component_sha: d.component_sha,
            };
            TaskOutcome::Success(read_response(task, &body, elapsed))
        },
        Err(e) => TaskOutcome::Failure(e),
    };
    TaskResult {
        uid,
        request_type: d.request_type,
        guard_hash: d.guard_hash,
        external_request_hash: d.external_request_hash,
        retry_count: d.retry_count,
        was_at_capacity,
        slice_num,
        run_uid,
        is_tile: d.is_tile,
        task_id: d.task_id,
        tile_idx: d.tile_idx,
        outcome,
        retry_payload: d.retry_payload,
        pre_sampled: d.pre_sampled,
    }
}

} // verus!
