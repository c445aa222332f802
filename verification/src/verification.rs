//! Which answers are verified, and what follows.

use std::collections::VecDeque;
use vstd::prelude::*;
use vstd::string::*;

use crate::fifo::fifo_remove;
use crate::json::{items, lemma_items, put, Json, JsonV};
use crate::keyed::UidMap;
use crate::relay::FRAME_PROOF_RESULT;
use crate::request_pipeline::RequestPipeline;
use crate::response::{json_view, list_view, MinerResponse, TaskOutcome, TaskResult};
use crate::results::{event_name, event_slice_num};
use crate::rsv::RsvManager;
use crate::seqs::texts;
use crate::types::{RequestType, RetryPayload, RunSource};
use crate::work::{told, CustomerReply, DispatchedRequest};

verus! {

/// Whether work is a piece of a customer's run.
pub open spec fn is_api_dslice(p: RetryPayload) -> bool {
    p matches RetryPayload::DSlice(d) && d.run_source == RunSource::Api
}

fn api_dslice(p: &RetryPayload) -> (r: bool)
    ensures
        r == is_api_dslice(*p),
{
    match p {
        RetryPayload::DSlice(d) => d.run_source == RunSource::Api,
        _ => false,
    }
}

/// Whether an answer was given that holds a proof.
pub open spec fn has_proof(o: TaskOutcome) -> bool {
    o matches TaskOutcome::Success(r) && r.proof_size > 0
}

fn holds_proof(o: &TaskOutcome) -> (r: bool)
    ensures
        r == has_proof(*o),
{
    match o {
        TaskOutcome::Success(r) => r.proof_size > 0,
        TaskOutcome::Failure(_) => false,
    }
}

/// Whether an answer is to be verified: it holds a proof, and that was decided
/// when the request was sent. What has become of the miner since does not matter,
/// because the inputs may have been given up.
pub open spec fn sampled(t: TaskResult) -> bool {
    has_proof(t.outcome) && t.pre_sampled
}

/// Whether an answer is to be verified.
pub fn decide_sample(result: &TaskResult) -> (r: bool)
    ensures
        r == sampled(*result),
{
    holds_proof(&result.outcome) && result.pre_sampled
}

/// Whether the answer to a request is verified in any case: weights, whatever a
/// customer waits for, and whatever goes to a miner without a name.
pub open spec fn must_verify(d: DispatchedRequest, hotkey: Seq<char>) -> bool {
    ||| d.request_type == RequestType::ProofOfWeights
    ||| d.request_type == RequestType::Rwr
    ||| d.external_request_hash is Some
    ||| is_api_dslice(d.retry_payload)
    ||| hotkey.len() == 0
}

/// Whether the answer to a request is verified in any case.
pub fn force_verify(dispatched: &DispatchedRequest, hotkey: &str) -> (r: bool)
    ensures
        r == must_verify(*dispatched, hotkey@),
        dispatched.request_type == RequestType::ProofOfWeights || dispatched.request_type
            == RequestType::Rwr || dispatched.external_request_hash is Some || hotkey@.len() == 0
            ==> r,
        dispatched.retry_payload matches RetryPayload::DSlice(d) ==> (d.run_source == RunSource::Api
            ==> r),
{
    dispatched.request_type == RequestType::ProofOfWeights || dispatched.request_type
        == RequestType::Rwr || dispatched.external_request_hash.is_some() || api_dslice(
        &dispatched.retry_payload,
    ) || hotkey.is_empty()
}

/// Decides, before a request is sent, whether its answer is going to be verified:
/// in any case, or by a roll. Which way a roll falls is left to chance.
pub fn pre_decide_sample(
    dispatched: &DispatchedRequest,
    hotkey: &str,
    current_block: u64,
    blocks_per_tempo: u64,
    rsv: &mut RsvManager,
) -> (r: bool)
    requires
        old(rsv).policy.expected_subs_per_tempo > 0,
    ensures
        *final(rsv) == *old(rsv),
        must_verify(*dispatched, hotkey@) ==> r,
        dispatched.request_type == RequestType::ProofOfWeights || dispatched.request_type
            == RequestType::Rwr || dispatched.external_request_hash is Some || hotkey@.len() == 0
            ==> r,
        dispatched.retry_payload matches RetryPayload::DSlice(d) ==> (d.run_source == RunSource::Api
            ==> r),
        r ==> must_verify(*dispatched, hotkey@) || old(rsv).policy.samples_per_tempo > 0,
        !r ==> old(rsv).policy.samples_per_tempo < old(rsv).policy.expected_subs_per_tempo,
{
    force_verify(dispatched, hotkey) || rsv.should_sample(hotkey, current_block, blocks_per_tempo)
}

/// Notes the decision on a request. Where the answer is not going to be verified,
/// the inputs are given up.
pub fn apply_sample(dispatched: DispatchedRequest, sample: bool) -> (r: DispatchedRequest)
    ensures
        r == (DispatchedRequest {
            pre_sampled: sample,
            task_inputs: if sample {
                dispatched.task_inputs
            } else {
                None
            },
            ..dispatched
        }),
{
    let mut d = dispatched;
    d.pre_sampled = sample;
    if !sample {
        d.task_inputs = None;
    }
    d
}

/// Whether something besides the verifier reads the proof: a customer gets it, or
/// it becomes part of a run's record.
pub open spec fn needs_proof_bytes(t: TaskResult) -> bool {
    t.external_request_hash is Some || is_api_dslice(t.retry_payload)
}

/// Whether something besides the verifier reads the proof.
pub fn response_needs_proof_bytes_for_downstream(result: &TaskResult) -> (r: bool)
    ensures
        r == needs_proof_bytes(*result),
{
    result.external_request_hash.is_some() || api_dslice(&result.retry_payload)
}

/// An answer without what nobody is going to read.
pub open spec fn shed(r: MinerResponse) -> MinerResponse {
    MinerResponse {
        proof_content: None,
        computed_outputs: None,
        witness: None,
        public_json: None,
        inputs: None,
        ..r
    }
}

/// A finished request with what nobody is going to read left out.
pub open spec fn lightened(t: TaskResult) -> TaskResult {
    match t.outcome {
        TaskOutcome::Success(r) => if !sampled(t) && !needs_proof_bytes(t) {
            TaskResult { outcome: TaskOutcome::Success(shed(r)), ..t }
        } else {
            t
        },
        TaskOutcome::Failure(_) => t,
    }
}

/// A finished request with its answer accepted.
pub open spec fn accepted(t: TaskResult) -> TaskResult {
    match t.outcome {
        TaskOutcome::Success(r) => TaskResult {
            outcome: TaskOutcome::Success(MinerResponse { verification_result: true, ..r }),
            ..t
        },
        TaskOutcome::Failure(_) => t,
    }
}

/// What follows when a request is over.
#[derive(Debug)]
pub enum VerificationStep {
    /// The outcome stands without verification.
    Finish { result: TaskResult, verified: bool },
    /// The answer waits until a verifier is free.
    Wait(TaskResult),
    /// The answer is verified now.
    Verify(TaskResult),
}

/// The requests under way with a miner after one of them is over.
pub open spec fn one_less(active: Map<u16, usize>, uid: u16) -> Map<u16, usize> {
    if active.contains_key(uid) {
        active.insert(
            uid,
            if active[uid] > 0 {
                (active[uid] - 1) as usize
            } else {
                0
            },
        )
    } else {
        active
    }
}

/// Notes that a request to a miner is over.
pub fn release_miner(active: &mut UidMap<usize>, uid: u16)
    ensures
        final(active)@ == one_less(old(active)@, uid),
{
    let now: Option<usize> = match active.get(&uid) {
        Some(n) => Some(n.saturating_sub(1)),
        None => None,
    };
    if let Some(n) = now {
        active.insert(uid, n);
    }
}

/// Notes that a request to a miner has been sent.
pub fn occupy_miner(active: &mut UidMap<usize>, uid: u16)
    requires
        old(active)@.contains_key(uid) ==> old(active)@[uid] < usize::MAX,
    ensures
        final(active)@ == old(active)@.insert(
            uid,
            (crate::dispatch::uid_or(old(active)@, uid, 0) + 1) as usize,
        ),
{
    let now: usize = match active.get(&uid) {
        Some(n) => *n,
        None => 0,
    };
    active.insert(uid, now + 1);
}

/// Takes in a request that is over. An answer that is to be verified goes to a
/// verifier, or waits for one; any other is accepted where it holds a proof.
pub fn start_verification(
    active: &mut UidMap<usize>,
    result: TaskResult,
    verifying: usize,
    verification_concurrency: usize,
) -> (r: VerificationStep)
    ensures
        final(active)@ == one_less(old(active)@, result.uid),
        if sampled(result) {
            if verifying >= verification_concurrency {
                r == VerificationStep::Wait(result)
            } else {
                r == VerificationStep::Verify(result)
            }
        } else {
            r == (VerificationStep::Finish {
                result: if has_proof(result.outcome) {
                    accepted(lightened(result))
                } else {
                    lightened(result)
                },
                verified: has_proof(result.outcome),
            })
        },
{
    release_miner(active, result.uid);
    let sample = decide_sample(&result);
    if sample {
        if verifying >= verification_concurrency {
            return VerificationStep::Wait(result);
        }
        return VerificationStep::Verify(result);
    }
    let needed = response_needs_proof_bytes_for_downstream(&result);
    let verified = holds_proof(&result.outcome);
    let mut result = result;
    result.outcome = match result.outcome {
        TaskOutcome::Success(response) => {
            let mut response = response;
            if !needed {
                response.proof_content = None;
                response.computed_outputs = None;
                response.witness = None;
                response.public_json = None;
                response.inputs = None;
            }
            if verified {
                response.verification_result = true;
            }
            TaskOutcome::Success(response)
        },
        TaskOutcome::Failure(e) => TaskOutcome::Failure(e),
    };
    VerificationStep::Finish { result, verified }
}

/// Takes out the answers that can be verified now, in the order in which they
/// came in.
pub fn drain_pending_verifications(
    pending: &mut VecDeque<TaskResult>,
    verifying: usize,
    verification_concurrency: usize,
) -> (r: Vec<TaskResult>)
    ensures
        r@ + final(pending)@ == old(pending)@,
        r@.len() == (if verifying >= verification_concurrency {
            0
        } else if verification_concurrency - verifying <= old(pending)@.len() {
            verification_concurrency - verifying
        } else {
            old(pending)@.len() as int
        }),
{
    let mut r: Vec<TaskResult> = Vec::new();
    let mut busy: usize = verifying;
    let ghost all = pending@;
    proof {
        assert(r@ + pending@ =~= all);
    }
    while busy < verification_concurrency && pending.len() > 0
        invariant
            r@ + pending@ == all,
            busy == verifying + r@.len(),
            busy <= verification_concurrency || r@.len() == 0,
        decreases pending@.len(),
    {
        let ghost before = pending@;
        let ghost taken = r@;
        if let Some(t) = pending.pop_front() {
            r.push(t);
            proof {
                assert(before =~= seq![t] + pending@);
                assert(r@ + pending@ =~= taken + before);
            }
        }
        busy += 1;
    }
    proof {
        assert(all.len() == r@.len() + pending@.len());
    }
    r
}

/// A finished request with the outcome of its check.
#[derive(Debug)]
pub struct VerifyResult {
    pub task_result: TaskResult,
    pub verified: bool,
    pub hotkey: String,
}

/// What follows from a check. Events speak of a run and a slice.
#[derive(Debug)]
pub enum Judgement {
    /// Weights hold; the scores in them apply.
    WeightsAccepted,
    /// A proof holds.
    Accepted { event: Option<(String, String)>, reply: Option<CustomerReply> },
    /// A proof does not hold.
    Rejected { event: Option<(String, String)> },
    /// There is no answer.
    Unanswered,
}

/// The run and the slice that events speak of.
pub open spec fn event_of(t: TaskResult) -> Option<(Seq<char>, Seq<char>)> {
    if t.request_type == RequestType::DSlice && t.run_uid is Some && t.slice_num is Some {
        Some((t.run_uid->0@, event_name(t.slice_num->0@, t.is_tile, t.tile_idx)))
    } else {
        None
    }
}

/// What an optional pair of texts says.
pub open spec fn pair_view(e: Option<(String, String)>) -> Option<(Seq<char>, Seq<char>)> {
    match e {
        Some((a, b)) => Some((a@, b@)),
        None => None,
    }
}

fn make_event(t: &TaskResult) -> (r: Option<(String, String)>)
    ensures
        pair_view(r) == event_of(*t),
{
    if t.request_type != RequestType::DSlice {
        return None;
    }
    match (&t.run_uid, &t.slice_num) {
        (Some(run), Some(slice)) => Some(
            (run.clone(), event_slice_num(slice.as_str(), t.is_tile, t.tile_idx)),
        ),
        _ => None,
    }
}

/// A list of texts as JSON.
pub open spec fn texts_json(s: Option<Seq<Seq<char>>>) -> JsonV {
    match s {
        Some(v) => JsonV::Array(v.map_values(|t: Seq<char>| JsonV::Text(t))),
        None => JsonV::Null,
    }
}

/// An optional value as JSON.
pub open spec fn or_null(v: Option<JsonV>) -> JsonV {
    match v {
        Some(j) => j,
        None => JsonV::Null,
    }
}

/// What a customer gets for a proof that holds.
pub open spec fn proof_json(r: MinerResponse) -> JsonV {
    JsonV::Object(
        Map::empty().insert("success"@, JsonV::Bool(true)).insert(
            "proof"@,
            or_null(json_view(r.proof_content)),
        ).insert("public_signals"@, texts_json(list_view(r.public_json))),
    )
}

fn signals_to_json(s: &Option<Vec<String>>) -> (r: Json)
    ensures
        r@ == texts_json(list_view(*s)),
{
    match s {
        None => Json::Null,
        Some(v) => {
            let mut list: Vec<Json> = Vec::new();
            let mut i: usize = 0;
            while i < v.len()
                invariant
                    i <= v@.len(),
                    list@.len() == i,
                    forall|j: int| 0 <= j < i ==> (#[trigger] list@[j])@ == JsonV::Text(v@[j]@),
                decreases v@.len() - i,
            {
                list.push(Json::Text(v[i].clone()));
                i += 1;
            }
            proof {
                lemma_items(list@);
                assert(items(list@) =~= texts(v@).map_values(|t: Seq<char>| JsonV::Text(t)));
            }
            Json::Array(list)
        },
    }
}

/// What follows from a check.
pub open spec fn is_judgement(t: TaskResult, verified: bool, j: Judgement) -> bool {
    match t.outcome {
        TaskOutcome::Success(r) => if verified {
            if t.request_type == RequestType::ProofOfWeights {
                j is WeightsAccepted
            } else {
                &&& j matches Judgement::Accepted { event, reply }
                &&& pair_view(event) == event_of(t)
                &&& told(reply, FRAME_PROOF_RESULT, t.external_request_hash, proof_json(r))
            }
        } else {
            j matches Judgement::Rejected { event } && pair_view(event) == event_of(t)
        },
        TaskOutcome::Failure(_) => j is Unanswered,
    }
}

/// The reason for which a request counts as failed, if it does.
pub open spec fn failure_reason(t: TaskResult, verified: bool) -> Option<Seq<char>> {
    match t.outcome {
        TaskOutcome::Success(_) => if verified {
            None
        } else {
            Some("verification failed"@)
        },
        TaskOutcome::Failure(e) => Some(e@),
    }
}

/// The reason for which a request counts as failed, if it does.
pub fn failed_because(t: &TaskResult, verified: bool) -> (r: Option<String>)
    ensures
        match r {
            Some(e) => failure_reason(*t, verified) == Some(e@),
            None => failure_reason(*t, verified) is None,
        },
{
    match &t.outcome {
        TaskOutcome::Success(_) => if verified {
            None
        } else {
            Some("verification failed".to_owned())
        },
        TaskOutcome::Failure(e) => Some(e.clone()),
    }
}

/// What is kept in mind of requests under way after one with the given
/// fingerprint is over.
pub open spec fn after_release(s: Seq<Seq<char>>, guard_hash: Option<String>) -> Seq<Seq<char>> {
    match guard_hash {
        Some(h) => if h@.len() > 0 {
            fifo_remove(s, h@)
        } else {
            s
        },
        None => s,
    }
}

/// Gives the fingerprint of a request up that is over.
pub fn release_guard(pipeline: &mut RequestPipeline, guard_hash: &Option<String>)
    ensures
        final(pipeline)@ == after_release(old(pipeline)@, *guard_hash),
        final(pipeline).limit() == old(pipeline).limit(),
{
    if let Some(hash) = guard_hash {
        if !hash.as_str().is_empty() {
            pipeline.release_hash(hash.as_str());
        }
    }
}

/// Takes in the outcome of a check: the miner was seen, the request can be made
/// again, and what follows from the outcome is handed back.
pub fn finish_verification(
    rsv: &mut RsvManager,
    pipeline: &mut RequestPipeline,
    vr: &VerifyResult,
    guard_hash: &Option<String>,
    current_block: u64,
) -> (j: Judgement)
    ensures
        final(rsv)@ == (if vr.hotkey@.len() > 0 {
            old(rsv)@.observed(vr.hotkey@, current_block)
        } else {
            old(rsv)@
        }),
        final(rsv).policy == old(rsv).policy,
        final(rsv).persistence_path == old(rsv).persistence_path,
        final(pipeline)@ == after_release(old(pipeline)@, *guard_hash),
        final(pipeline).limit() == old(pipeline).limit(),
        is_judgement(vr.task_result, vr.verified, j),
{
    if !vr.hotkey.as_str().is_empty() {
        rsv.observe(vr.hotkey.as_str(), current_block);
    }
    release_guard(pipeline, guard_hash);
    let t = &vr.task_result;
    match &t.outcome {
        TaskOutcome::Failure(_) => Judgement::Unanswered,
        TaskOutcome::Success(response) => {
            if !vr.verified {
                return Judgement::Rejected { event: make_event(t) };
            }
            if t.request_type == RequestType::ProofOfWeights {
                return Judgement::WeightsAccepted;
            }
            let reply = match t.external_request_hash {
                None => None,
                Some(req_id) => {
                    let mut list: Vec<(String, Json)> = Vec::new();
                    proof {
                        crate::json::lemma_members_empty(list@);
                    }
                    put(&mut list, "success", Json::Bool(true));
                    put(
                        &mut list,
                        "proof",
                        match &response.proof_content {
                            Some(p) => p.copy(),
                            None => Json::Null,
                        },
                    );
                    put(&mut list, "public_signals", signals_to_json(&response.public_json));
                    Some(
                        CustomerReply {
                            frame_type: FRAME_PROOF_RESULT,
                            req_id,
                            result: Json::Object(list),
                        },
                    )
                },
            };
            Judgement::Accepted { event: make_event(t), reply }
        },
    }
}

/// Every request whose answer does not hold, or that has no answer, counts as
/// failed, and no other does.
pub proof fn failed_unless_accepted(t: TaskResult, verified: bool, j: Judgement)
    requires
        is_judgement(t, verified, j),
    ensures
        failure_reason(t, verified) is Some <==> j is Rejected || j is Unanswered,
{
}

/// An answer that was picked for verification is never accepted unverified, and
/// the inputs of a request are only given up where its answer is not picked.
pub proof fn picked_answers_keep_their_inputs(t: TaskResult)
    requires
        sampled(t),
    ensures
        lightened(t) == t,
{
}

/// What a customer gets is never left out.
pub proof fn customers_get_their_proofs(t: TaskResult)
    requires
        needs_proof_bytes(t),
    ensures
        lightened(t) == t,
{
}

} // verus!
