//! What follows when a request is answered, or fails.

use vstd::prelude::*;
use vstd::string::*;

use crate::incremental_runner::{
    IncrementalRunManager, RunV, RunsV, SliceArtifact, TileBufferOutcome,
};
use crate::relay::{FRAME_PROOF_RESULT, FRAME_SUBMIT_RESULT};
use crate::response::{json_view, slice_part, slice_part_of, text_view, MinerResponse};
use crate::rsv::{tempos_later, RsvManager, RsvV};
use crate::text::{contains_text, decimal, decimal_text, occurs_at, starts_with};
use crate::types::{copy_text, RequestType, RetryPayload, RunSource};
use crate::work::{refusal, refusal_json, retryable, told, CustomerReply, WorkQueues};

verus! {

/// The name under which events speak of a slice or of one of its tiles.
pub open spec fn event_name(slice_num: Seq<char>, is_tile: bool, tile_idx: Option<u32>) -> Seq<char> {
    match tile_idx {
        Some(i) => if is_tile {
            slice_num + "_tile_"@ + decimal_text(i as nat)
        } else {
            slice_num
        },
        None => slice_num,
    }
}

/// The name under which events speak of a slice or of one of its tiles.
pub fn event_slice_num(slice_num: &str, is_tile: bool, tile_idx: Option<u32>) -> (r: String)
    ensures
        r@ == event_name(slice_num@, is_tile, tile_idx),
{
    let mut name = slice_num.to_owned();
    if let Some(idx) = tile_idx {
        if is_tile {
            name.append("_tile_");
            name.append(decimal(idx as u64).as_str());
        }
    }
    name
}

/// Whether a failure means that the miner could not be reached: the connection
/// or the handshake failed. A timeout and an error of the miner's both mean that
/// it was reached. The validator's own endpoint not being up is no fault of any
/// miner.
pub open spec fn is_disconnect(reason: Seq<char>) -> bool {
    &&& !exists|i: int| occurs_at(reason, "QUIC endpoint not initialized"@, i)
    &&& "QUIC query: connection error:"@.is_prefix_of(reason)
        || "QUIC query: handshake error:"@.is_prefix_of(reason)
}

/// Whether a failure means that the miner could not be reached.
pub fn is_disconnect_failure(reason: &str) -> (r: bool)
    ensures
        r == is_disconnect(reason@),
{
    if contains_text(reason, "QUIC endpoint not initialized") {
        return false;
    }
    starts_with(reason, "QUIC query: connection error:") || starts_with(
        reason,
        "QUIC query: handshake error:",
    )
}

/// The name of a kind of work.
pub open spec fn work_key(circuit_id: Option<Seq<char>>, slice: Option<Seq<char>>) -> Seq<char> {
    match circuit_id {
        Some(id) => match slice {
            Some(s) => id + ":"@ + s,
            None => id,
        },
        None => match slice {
            Some(s) => "slice:"@ + s,
            None => Seq::empty(),
        },
    }
}

/// What an optional borrowed text says.
pub open spec fn str_view(t: Option<&str>) -> Option<Seq<char>> {
    match t {
        Some(v) => Some(v@),
        None => None,
    }
}

/// The name of a kind of work: its circuit and its slice, as far as known.
pub fn build_work_key(circuit_id: Option<&str>, slice: Option<&str>) -> (r: String)
    ensures
        r@ == work_key(str_view(circuit_id), str_view(slice)),
{
    match circuit_id {
        Some(id) => match slice {
            Some(s) => {
                let mut key = id.to_owned();
                key.append(":");
                key.append(s);
                key
            },
            None => id.to_owned(),
        },
        None => match slice {
            Some(s) => {
                let mut key = "slice:".to_owned();
                key.append(s);
                key
            },
            None => String::new(),
        },
    }
}

/// The circuit of work that can be queued again.
pub open spec fn circuit_of(p: RetryPayload) -> Option<Seq<char>> {
    match p {
        RetryPayload::DSlice(d) => Some(d.circuit.id@),
        RetryPayload::Rwr(r) => Some(r.circuit_id@),
        RetryPayload::Nothing => None,
    }
}

/// A request that failed.
#[derive(Debug)]
pub struct FailedRequest {
    pub uid: u16,
    pub hotkey: String,
    pub request_type: RequestType,
    pub retry_count: u32,
    pub slice_num: Option<String>,
    pub external_request_hash: Option<u32>,
    pub reason: String,
}

/// How often work is tried again.
#[derive(Clone, Copy, Debug, PartialEq, Eq, Structural)]
pub struct RetryLimits {
    /// For what customers wait for.
    pub api: u32,
    /// For what only measures miners.
    pub slice: u32,
}

/// What is left to be done about a failure.
#[derive(Debug)]
pub struct FailureOutcome {
    /// The kind of work that the miner is debited for.
    pub work_key: String,
    /// Whether the work is queued again.
    pub retried: bool,
    /// Whether the piece of a run is given up.
    pub give_up_slice: bool,
    /// What the customer is told.
    pub reply: Option<CustomerReply>,
}

/// Whether an answer was given that did not hold: the one failure that is never
/// tried again.
pub open spec fn verification_failed(f: FailedRequest) -> bool {
    &&& "verification failed"@.is_prefix_of(f.reason@)
    &&& f.request_type != RequestType::Benchmark
}

/// How often the work of a failed request is tried again.
pub open spec fn retry_limit(f: FailedRequest, p: RetryPayload, limits: RetryLimits) -> u32 {
    if f.request_type == RequestType::DSlice {
        if p matches RetryPayload::DSlice(d) && d.run_source == RunSource::Api {
            limits.api
        } else {
            limits.slice
        }
    } else {
        limits.api
    }
}

/// Whether the work of a failed request is queued again.
pub open spec fn is_retried(
    f: FailedRequest,
    p: RetryPayload,
    limits: RetryLimits,
    running: Set<Seq<char>>,
) -> bool {
    &&& !verification_failed(f)
    &&& f.retry_count + 1 <= retry_limit(f, p, limits)
    &&& retryable(p, running)
}

/// What is known of the miners after a failure: an answer that did not hold is a
/// strike, and a miner that could not be reached is passed over, unless the
/// validator's own address has just changed.
pub open spec fn rsv_after_failure(
    s: RsvV,
    policy: crate::rsv::RsvPolicy,
    f: FailedRequest,
    block: u64,
    blocks_per_tempo: u64,
    in_grace: bool,
) -> RsvV {
    let struck = if verification_failed(f) && f.hotkey@.len() > 0 {
        s.struck_at(
            policy,
            f.hotkey@,
            block,
            tempos_later(block, policy.skiplist_tempos, blocks_per_tempo) as u64,
        )
    } else {
        s
    };
    if is_disconnect(f.reason@) && !in_grace && f.hotkey@.len() > 0 {
        struck.disconnected(
            f.hotkey@,
            tempos_later(block, policy.disconnect_tempos, blocks_per_tempo) as u64,
        )
    } else {
        struck
    }
}

/// The frame in which a customer is told of a failure.
pub open spec fn failure_frame(t: RequestType) -> u8 {
    if t == RequestType::Rwr || t == RequestType::ProofOfWeights {
        FRAME_PROOF_RESULT
    } else {
        FRAME_SUBMIT_RESULT
    }
}

/// Deals with a failed request. Every failure debits the kind of work; an answer
/// that did not hold is a strike; an unreachable miner is passed over. Work that
/// may be tried again is queued; otherwise a piece of a run is given up and the
/// customer is told.
pub fn handle_failure(
    rsv: &mut RsvManager,
    queues: &mut WorkQueues,
    runs: &IncrementalRunManager,
    f: &FailedRequest,
    retry_payload: RetryPayload,
    limits: RetryLimits,
    current_block: u64,
    blocks_per_tempo: u64,
    in_grace: bool,
) -> (r: FailureOutcome)
    requires
        f.retry_count < u32::MAX,
        tempos_later(current_block, old(rsv).policy.skiplist_tempos, blocks_per_tempo) <= u64::MAX,
        tempos_later(current_block, old(rsv).policy.disconnect_tempos, blocks_per_tempo) <= u64::MAX,
    ensures
        final(rsv)@ == rsv_after_failure(
            old(rsv)@,
            old(rsv).policy,
            *f,
            current_block,
            blocks_per_tempo,
            in_grace,
        ),
        blocks_per_tempo > 0 && "verification failed"@.is_prefix_of(f.reason@) && f.request_type
            != RequestType::Benchmark && f.hotkey@.len() > 0 ==> {
            let known = final(rsv)@;
            ||| known.strikes.contains_key(f.hotkey@) && known.strikes[f.hotkey@].len() > 0
                && known.strikes[f.hotkey@].last() == current_block
            ||| known.skiplist.contains_key(f.hotkey@) && known.skiplist[f.hotkey@] == current_block
                + old(rsv).policy.skiplist_tempos * blocks_per_tempo
        },
        final(rsv).policy == old(rsv).policy,
        final(rsv).persistence_path == old(rsv).persistence_path,
        r.work_key@ == work_key(
            circuit_of(retry_payload),
            match f.slice_num {
                Some(s) => Some(slice_part(s@)),
                None => None,
            },
        ),
        r.retried == is_retried(*f, retry_payload, limits, runs@.runs.dom()),
        !r.retried ==> *final(queues) == *old(queues),
        r.retried ==> match retry_payload {
            RetryPayload::Rwr(w) => {
                &&& final(queues).rwr@.len() == old(queues).rwr@.len() + 1
                &&& final(queues).rwr@.drop_last() == old(queues).rwr@
                &&& final(queues).rwr@.last().retry_count == f.retry_count + 1
                &&& final(queues).rwr@.last().circuit_id == w.circuit_id
                &&& final(queues).rwr@.last().inputs == w.inputs
                &&& final(queues).rwr@.last().request_id == w.request_id
                &&& final(queues).api == old(queues).api
                &&& final(queues).stacked == old(queues).stacked
            },
            RetryPayload::DSlice(d) => {
                let again = crate::types::DSliceRequest {
                    retry_count: (f.retry_count + 1) as u32,
                    ..d
                };
                &&& final(queues).rwr == old(queues).rwr
                &&& d.run_source == RunSource::Api ==> final(queues).api@ == old(queues).api@.push(
                    again,
                ) && final(queues).stacked == old(queues).stacked
                &&& d.run_source == RunSource::Benchmark ==> final(queues).stacked@
                    == old(queues).stacked@.push(again) && final(queues).api == old(queues).api
            },
            RetryPayload::Nothing => false,
        },
        r.give_up_slice == (!r.retried && f.request_type == RequestType::DSlice),
        r.retried ==> r.reply is None,
        !r.retried ==> told(
            r.reply,
            failure_frame(f.request_type),
            f.external_request_hash,
            refusal_json("max retries exceeded"@),
        ),
{
    let failed_check = starts_with(f.reason.as_str(), "verification failed") && f.request_type
        != RequestType::Benchmark;
    if failed_check && !f.hotkey.as_str().is_empty() {
        rsv.record_strike(f.hotkey.as_str(), current_block, blocks_per_tempo);
    }
    if is_disconnect_failure(f.reason.as_str()) && !in_grace && !f.hotkey.as_str().is_empty() {
        rsv.skiplist_disconnect(f.hotkey.as_str(), current_block, blocks_per_tempo);
    }
    let slice: Option<&str> = match &f.slice_num {
        Some(s) => Some(slice_part_of(s.as_str())),
        None => None,
    };
    let circuit: Option<&str> = match &retry_payload {
        RetryPayload::DSlice(d) => Some(d.circuit.id.as_str()),
        RetryPayload::Rwr(w) => Some(w.circuit_id.as_str()),
        RetryPayload::Nothing => None,
    };
    let key = build_work_key(circuit, slice);
    let max_retries: u32 = if f.request_type == RequestType::DSlice {
        match &retry_payload {
            RetryPayload::DSlice(d) => if d.run_source == RunSource::Api {
                limits.api
            } else {
                limits.slice
            },
            _ => limits.slice,
        }
    } else {
        limits.api
    };
    let next_retry: u32 = f.retry_count + 1;
    let ghost rwr0 = queues.rwr@;
    let retried = !failed_check && next_retry <= max_retries && queues.attempt_retry(
        retry_payload,
        next_retry,
        runs,
    );
    proof {
        if retried && retry_payload is Rwr {
            assert(queues.rwr@.drop_last() =~= rwr0);
        }
        if blocks_per_tempo > 0 && "verification failed"@.is_prefix_of(f.reason@) && f.request_type
            != RequestType::Benchmark && f.hotkey@.len() > 0 {
            crate::laws::checking::bad_proofs_are_struck(
                old(rsv)@,
                old(rsv).policy,
                *f,
                current_block,
                blocks_per_tempo,
                in_grace,
            );
        }
    }
    if retried {
        return FailureOutcome { work_key: key, retried: true, give_up_slice: false, reply: None };
    }
    let frame_type: u8 = if f.request_type == RequestType::Rwr || f.request_type
        == RequestType::ProofOfWeights {
        FRAME_PROOF_RESULT
    } else {
        FRAME_SUBMIT_RESULT
    };
    FailureOutcome {
        work_key: key,
        retried: false,
        give_up_slice: f.request_type == RequestType::DSlice,
        reply: refusal(frame_type, f.external_request_hash, "max retries exceeded".to_owned()),
    }
}

/// An answer that did not hold is never tried again, however few the tries.
pub proof fn bad_proofs_are_not_retried(
    f: FailedRequest,
    p: RetryPayload,
    limits: RetryLimits,
    running: Set<Seq<char>>,
)
    requires
        "verification failed"@.is_prefix_of(f.reason@),
        f.request_type != RequestType::Benchmark,
    ensures
        !is_retried(f, p, limits, running),
{
}

/// A failure never takes a miner off the skiplist: whom nothing but strikes or
/// unreachability concerned before is passed over at least as long after, as
/// long as a new strike does not end earlier than the entry that stands.
pub proof fn failures_never_shorten(
    s: RsvV,
    policy: crate::rsv::RsvPolicy,
    f: FailedRequest,
    block: u64,
    blocks_per_tempo: u64,
    in_grace: bool,
    hotkey: Seq<char>,
    at: u64,
)
    requires
        s.skips(hotkey, at),
        verification_failed(f) && f.hotkey@ == hotkey ==> s.skiplist[hotkey] <= tempos_later(
            block,
            policy.skiplist_tempos,
            blocks_per_tempo,
        ) <= u64::MAX,
    ensures
        rsv_after_failure(s, policy, f, block, blocks_per_tempo, in_grace).skips(hotkey, at),
{
}

/// What is left to be done about a proof of a piece of a run.
#[derive(Debug)]
pub enum SuccessStep {
    /// The run or the slice is not waiting for it.
    Ignored,
    /// The run cannot go on.
    TearDown,
    /// More tiles of the slice are to come.
    Waiting,
    /// The slice is proved.
    SliceDone,
}

/// Whether a proof is still of use: its run is under way and its slice was not
/// given up.
pub open spec fn proof_wanted(s: RunsV, run: Option<Seq<char>>, slice: Option<Seq<char>>, slice_failed: bool) -> bool {
    &&& run is Some
    &&& slice is Some
    &&& !s.evicted.contains(run->0)
    &&& s.runs.contains_key(run->0)
    &&& !slice_failed
}

/// What is kept of a proof.
pub open spec fn is_artifact_of(
    a: SliceArtifact,
    r: MinerResponse,
    slice: Seq<char>,
    tile_idx: Option<u32>,
    verification_time: u64,
) -> bool {
    &&& a.slice_num@ == slice
    &&& a.proof_system == r.proof_system
    &&& text_view(a.proof_hex) == (match r.proof_content {
        Some(p) => p@.text(),
        None => None,
    })
    &&& a.witness_hex == r.witness
    &&& json_view(a.computed_outputs) == json_view(r.computed_outputs)
    &&& a.tile_idx == tile_idx
    &&& a.response_time == r.response_time
    &&& a.verification_time == verification_time
}

/// The runs after a proof has been kept for the record.
pub open spec fn with_artifact(s: RunsV, run: Seq<char>, a: SliceArtifact) -> RunsV {
    RunsV {
        runs: s.runs.insert(
            run,
            RunV { artifacts: s.runs[run].artifacts.push(a), ..s.runs[run] },
        ),
        ..s
    }
}

/// How the runs change once a proof has been kept for the record, and what is
/// left to be done.
pub open spec fn proof_taken_in(
    kept: RunsV,
    after: RunsV,
    run: Seq<char>,
    slice: Seq<char>,
    is_tile: bool,
    tile_idx: Option<u32>,
    now: u64,
    r: SuccessStep,
) -> bool {
    if !is_tile {
        r is SliceDone && after == kept.touched(run, now)
    } else {
        match tile_idx {
            None => r is TearDown && after == kept,
            Some(t) => {
                let k = (run, slice);
                let c = kept.counters[k];
                let outside = kept.counters.contains_key(k) && t >= c.grid_total;
                let last = kept.is_news(run, slice, t) && kept.received_with(run, slice, t)
                    == c.expected;
                &&& r is TearDown == outside
                &&& r is SliceDone == last
                &&& r is Waiting == (!outside && !last)
                &&& after == (if last {
                    kept.tile_recorded(run, slice, t, now).touched(run, now)
                } else {
                    kept.tile_recorded(run, slice, t, now)
                })
            },
        }
    }
}

/// Takes in a proof of a piece of a run. `slice_failed` says whether the slice
/// was given up before.
pub fn handle_dslice_success(
    runs: &mut IncrementalRunManager,
    run_uid: &Option<String>,
    slice_num: &Option<String>,
    is_tile: bool,
    tile_idx: Option<u32>,
    response: &MinerResponse,
    verification_time: u64,
    slice_failed: bool,
    now: u64,
) -> (r: SuccessStep)
    requires
        old(runs).wf(),
        is_tile && *run_uid is Some && *slice_num is Some && tile_idx is Some && old(
            runs,
        )@.is_news((*run_uid)->0@, (*slice_num)->0@, tile_idx->0) ==> old(runs)@.verified_tiles(
            (*run_uid)->0@,
            (*slice_num)->0@,
        ) < usize::MAX,
    ensures
        final(runs).wf(),
        !proof_wanted(old(runs)@, text_view(*run_uid), text_view(*slice_num), slice_failed) ==> {
            &&& r is Ignored
            &&& final(runs)@ == old(runs)@
        },
        proof_wanted(old(runs)@, text_view(*run_uid), text_view(*slice_num), slice_failed) ==> exists|
            a: SliceArtifact,
        |
            {
                &&& #[trigger] is_artifact_of(
                    a,
                    *response,
                    (*slice_num)->0@,
                    tile_idx,
                    verification_time,
                )
                &&& proof_taken_in(
                    with_artifact(old(runs)@, (*run_uid)->0@, a),
                    final(runs)@,
                    (*run_uid)->0@,
                    (*slice_num)->0@,
                    is_tile,
                    tile_idx,
                    now,
                    r,
                )
            },
{
    let (run, slice) = match (run_uid, slice_num) {
        (Some(r), Some(s)) => (r.as_str(), s.as_str()),
        _ => {
            return SuccessStep::Ignored;
        },
    };
    if runs.is_evicted(run) || !runs.has_run(run) || slice_failed {
        return SuccessStep::Ignored;
    }
    let proof_hex = match &response.proof_content {
        Some(p) => match p.as_str() {
            Some(t) => Some(t.to_owned()),
            None => None,
        },
        None => None,
    };
    let computed_outputs = match &response.computed_outputs {
        Some(j) => Some(j.copy()),
        None => None,
    };
    let artifact = SliceArtifact {
        slice_num: slice.to_owned(),
        proof_system: response.proof_system,
        proof_hex,
        witness_hex: copy_text(&response.witness),
        computed_outputs,
        tile_idx,
        response_time: response.response_time,
        verification_time,
    };
    let ghost a = artifact;
    runs.push_artifact(run, artifact);
    let ghost kept = runs@;
    proof {
        assert(kept == with_artifact(old(runs)@, run@, a));
        assert(is_artifact_of(a, *response, slice@, tile_idx, verification_time));
        assert(kept.verified_tiles(run@, slice@) == old(runs)@.verified_tiles(run@, slice@));
    }
    if !is_tile {
        runs.mark_slice_done(run, now);
        return SuccessStep::SliceDone;
    }
    match tile_idx {
        None => SuccessStep::TearDown,
        Some(t) => match runs.record_tile(run, slice, t, now) {
            TileBufferOutcome::Waiting => SuccessStep::Waiting,
            TileBufferOutcome::AllReceived => {
                runs.mark_slice_done(run, now);
                SuccessStep::SliceDone
            },
            TileBufferOutcome::Failed(_) => SuccessStep::TearDown,
        },
    }
}

/// What is left to be done about a piece of a run that was given up.
#[derive(Debug)]
pub enum GiveUpStep {
    /// Its run is not under way.
    Ignored,
    /// The slice had been given up before, or is not known.
    Nothing,
    /// The slice is given up now; events speak of it under this name.
    Failed(String),
}

/// Gives a piece of a run up. `slice_failed` says whether that was done before.
pub fn handle_dslice_max_retries(
    runs: &mut IncrementalRunManager,
    run_uid: &Option<String>,
    slice_num: &Option<String>,
    is_tile: bool,
    tile_idx: Option<u32>,
    slice_failed: bool,
    now: u64,
) -> (r: GiveUpStep)
    requires
        old(runs).wf(),
    ensures
        final(runs).wf(),
        match (text_view(*run_uid), text_view(*slice_num)) {
            (Some(run), slice) => if !old(runs)@.runs.contains_key(run) {
                r is Ignored && final(runs)@ == old(runs)@
            } else {
                match slice {
                    Some(s) => if slice_failed {
                        r is Nothing && final(runs)@ == old(runs)@
                    } else {
                        &&& r matches GiveUpStep::Failed(name)
                        &&& name@ == event_name(s, is_tile, tile_idx)
                        &&& final(runs)@ == (RunsV {
                            counters: old(runs)@.counters.remove((run, s)),
                            ..old(runs)@.touched(run, now)
                        })
                    },
                    None => r is Nothing && final(runs)@ == old(runs)@,
                }
            },
            (None, _) => r is Ignored && final(runs)@ == old(runs)@,
        },
{
    match run_uid {
        None => GiveUpStep::Ignored,
        Some(run) => {
            if !runs.has_run(run.as_str()) {
                return GiveUpStep::Ignored;
            }
            match slice_num {
                None => GiveUpStep::Nothing,
                Some(s) => {
                    if slice_failed {
                        return GiveUpStep::Nothing;
                    }
                    let name = event_slice_num(s.as_str(), is_tile, tile_idx);
                    runs.mark_slice_failed(run.as_str(), s.as_str(), now);
                    GiveUpStep::Failed(name)
                },
            }
        },
    }
}

/// Where the outputs of a proof are compared with what the model computed.
#[derive(Clone, Copy, Debug, PartialEq, Eq, Structural)]
pub enum ConsistencyScope {
    /// Nowhere.
    Skip,
    /// Over the whole slice.
    Whole,
    /// Over the part that belongs to a unit.
    Unit(u32),
}

/// Where the outputs of a proof are compared with what the model computed: not
/// without outputs or names for them, and for a tile only where it is known which
/// part of the slice it stands for.
pub fn consistency_scope(
    has_outputs: bool,
    has_output_names: bool,
    tile_idx: Option<u32>,
    has_group: bool,
) -> (r: ConsistencyScope)
    ensures
        r == (if !has_outputs || !has_output_names {
            ConsistencyScope::Skip
        } else {
            match tile_idx {
                Some(t) => if has_group {
                    ConsistencyScope::Unit(t)
                } else {
                    ConsistencyScope::Skip
                },
                None => ConsistencyScope::Whole,
            }
        }),
{
    if !has_outputs || !has_output_names {
        return ConsistencyScope::Skip;
    }
    match tile_idx {
        Some(t) => if has_group {
            ConsistencyScope::Unit(t)
        } else {
            ConsistencyScope::Skip
        },
        None => ConsistencyScope::Whole,
    }
}

} // verus!
