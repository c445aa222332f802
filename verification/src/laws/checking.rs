//! Which answers are checked, and what follows for miners and customers.

use vstd::prelude::*;

use crate::fifo::{fifo_insert, fifo_remove};
use crate::incremental_runner::{RunsV, SliceArtifact};
use crate::json::JsonV;
use crate::request_pipeline::dslice_key;
use crate::response::{
    context_of, is_response, proof_bytes, public_signals_in, slice_number, slice_part, texts_in,
    MinerResponse, TaskContext, TaskOutcome, TaskResult,
};
use crate::response_processor::{
    bundle_text, commitment_kind, input_count, is_checkable, joined, known_inputs, WeightLookup,
};
use crate::results::{
    event_name, failure_frame, is_artifact_of, is_disconnect, is_retried, proof_taken_in,
    proof_wanted, rsv_after_failure, with_artifact, work_key, FailedRequest, RetryLimits,
    SuccessStep,
};
use crate::rsv::{from_cutoff, minus, state_json, tempos_later, RsvPolicy, RsvV};
use crate::text::{decimal_reads_back, decimal_text};
use crate::types::{ProofSystem, RequestType, RetryPayload, RunSource};
use crate::verification::{
    accepted, after_release, event_of, failure_reason, is_judgement, lightened, must_verify,
    needs_proof_bytes, one_less, proof_json, sampled, Judgement,
};
use crate::work::{
    is_dslice_request, is_rwr_request, refusal_json, stays, told, CustomerReply, DispatchedRequest,
    Dropped, RequestBody,
};

verus! {

/// Whatever a customer waits for is checked: a request of its own, one with a number
/// to answer to, and a piece of its run. So are scores, and what goes to a miner
/// without a name. Nothing else is checked in any case.
pub proof fn customers_work_is_always_checked(d: DispatchedRequest, hotkey: Seq<char>)
    ensures
        d.request_type == RequestType::Rwr ==> must_verify(d, hotkey),
        d.request_type == RequestType::ProofOfWeights ==> must_verify(d, hotkey),
        d.external_request_hash is Some ==> must_verify(d, hotkey),
        d.retry_payload matches RetryPayload::DSlice(w) ==> (w.run_source == RunSource::Api
            ==> must_verify(d, hotkey)),
        hotkey.len() == 0 ==> must_verify(d, hotkey),
        hotkey.len() > 0 && d.external_request_hash is None && (d.request_type == RequestType::DSlice
            || d.request_type == RequestType::Benchmark) && !(d.retry_payload is DSlice)
            ==> !must_verify(d, hotkey),
        d.retry_payload matches RetryPayload::DSlice(w) ==> (hotkey.len() > 0
            && d.external_request_hash is None && d.request_type == RequestType::DSlice
            && w.run_source == RunSource::Benchmark ==> !must_verify(d, hotkey)),
{
}

/// An answer is checked exactly where it holds a proof and that was settled when the
/// request went out.
pub proof fn what_was_settled_is_checked(t: TaskResult)
    ensures
        t.outcome matches TaskOutcome::Success(r) ==> (sampled(t) <==> r.proof_size > 0
            && t.pre_sampled),
        t.outcome is Failure ==> !sampled(t),
{
}

/// An answer that a check or a customer will read keeps all of it; any other loses
/// the proof and what goes with it, and nothing else.
pub proof fn answers_that_are_read_stay_whole(t: TaskResult)
    ensures
        needs_proof_bytes(t) <==> t.external_request_hash is Some || (t.retry_payload matches RetryPayload::DSlice(
            w,
        ) && w.run_source == RunSource::Api),
        t.external_request_hash is Some ==> lightened(t) == t,
        t.retry_payload matches RetryPayload::DSlice(w) ==> (w.run_source == RunSource::Api
            ==> lightened(t) == t),
        t.outcome matches TaskOutcome::Success(r) ==> (r.proof_size > 0 && t.pre_sampled
            ==> lightened(t) == t),
        t.outcome is Failure ==> lightened(t) == t,
        lightened(t).uid == t.uid && lightened(t).run_uid == t.run_uid && lightened(t).slice_num
            == t.slice_num && lightened(t).tile_idx == t.tile_idx && lightened(t).retry_payload
            == t.retry_payload && lightened(t).pre_sampled == t.pre_sampled,
        t.outcome matches TaskOutcome::Success(r) ==> (lightened(t).outcome matches TaskOutcome::Success(
            q,
        ) && q.uid == r.uid && q.proof_size == r.proof_size && q.response_time == r.response_time
            && q.verification_result == r.verification_result && q.circuit == r.circuit),
        t.outcome matches TaskOutcome::Success(r) ==> (!(r.proof_size > 0 && t.pre_sampled)
            && !needs_proof_bytes(t) ==> (lightened(t).outcome matches TaskOutcome::Success(q)
            && q.proof_content is None && q.witness is None && q.inputs is None && q.computed_outputs is None
            && q.public_json is None)),
{
}

/// An answer that is accepted says so and is the same for the rest.
pub proof fn accepted_answers_say_so(t: TaskResult)
    ensures
        t.outcome matches TaskOutcome::Success(r) ==> (accepted(t).outcome matches TaskOutcome::Success(
            q,
        ) && q.verification_result && q.proof_content == r.proof_content && q.uid == r.uid
            && q.computed_outputs == r.computed_outputs && q.witness == r.witness && q.public_json
            == r.public_json && q.response_time == r.response_time),
        accepted(t).uid == t.uid && accepted(t).run_uid == t.run_uid && accepted(t).slice_num
            == t.slice_num && accepted(t).external_request_hash == t.external_request_hash,
        t.outcome is Failure ==> accepted(t) == t,
{
}

/// A miner whose request is over has one less under way, and no other miner is
/// concerned.
pub proof fn a_request_that_is_over_makes_room(active: Map<u16, usize>, uid: u16, other: u16)
    requires
        other != uid,
    ensures
        active.contains_key(uid) && active[uid] > 0 ==> one_less(active, uid)[uid] + 1
            == active[uid],
        active.contains_key(uid) && active[uid] == 0 ==> one_less(active, uid)[uid] == 0,
        one_less(active, uid).dom() == active.dom(),
        active.contains_key(other) ==> one_less(active, uid)[other] == active[other],
{
    assert(one_less(active, uid).dom() =~= active.dom());
}

/// A customer gets the proof that a miner gave, and its public signals, and is told
/// that it holds.
pub proof fn customers_get_the_proof_itself(r: MinerResponse)
    ensures
        ({
            let j = proof_json(r);
            &&& j.member("success"@) == Some(JsonV::Bool(true))
            &&& r.proof_content matches Some(p) ==> j.member("proof"@) == Some(p@)
            &&& r.public_json matches Some(v) ==> j.member("public_signals"@) == Some(
                JsonV::Array(Seq::new(v@.len(), |i: int| JsonV::Text(v@[i]@))),
            )
        }),
{
    lemma_names();
    if let Some(v) = r.public_json {
        assert(crate::seqs::texts(v@).map_values(|t: Seq<char>| JsonV::Text(t)) =~= Seq::new(
            v@.len(),
            |i: int| JsonV::Text(v@[i]@),
        ));
    }
}

proof fn lemma_names()
    ensures
        "success"@ != "proof"@,
        "success"@ != "public_signals"@,
        "proof"@ != "public_signals"@,
        "success"@ != "error"@,
        "model_id"@ != "query_input"@,
{
    reveal_strlit("success");
    reveal_strlit("proof");
    reveal_strlit("public_signals");
    reveal_strlit("error");
    reveal_strlit("model_id");
    reveal_strlit("query_input");
    assert("success"@.len() == 7);
    assert("proof"@.len() == 5);
    assert("public_signals"@.len() == 14);
    assert("error"@.len() == 5);
    assert("model_id"@.len() == 8);
    assert("query_input"@.len() == 11);
}

/// A customer whose proof holds is sent it under the number of its request; one
/// whose proof does not is sent nothing yet, and an answer that does not hold is
/// never accepted.
pub proof fn only_proofs_that_hold_are_delivered(t: TaskResult, verified: bool, j: Judgement, id: u32)
    requires
        is_judgement(t, verified, j),
        t.external_request_hash == Some(id),
    ensures
        t.outcome matches TaskOutcome::Success(r) ==> {
            &&& verified && t.request_type != RequestType::ProofOfWeights ==> (
            j matches Judgement::Accepted { event, reply } && (reply matches Some(c) && c.req_id
                == id && c.frame_type == crate::relay::FRAME_PROOF_RESULT && c.result@.member(
                "success"@,
            ) == Some(JsonV::Bool(true)) && (r.proof_content matches Some(p) ==> c.result@.member(
                "proof"@,
            ) == Some(p@))))
            &&& !verified ==> j is Rejected
            &&& verified && t.request_type == RequestType::ProofOfWeights <==> j is WeightsAccepted
        },
        t.outcome is Failure ==> j is Unanswered,
{
    if let TaskOutcome::Success(r) = t.outcome {
        customers_get_the_proof_itself(r);
    }
}

/// A request counts as failed exactly where no answer came or the answer did not
/// hold, and says why.
pub proof fn failures_say_why(t: TaskResult, verified: bool)
    ensures
        t.outcome is Success && verified <==> failure_reason(t, verified) is None,
        t.outcome is Success && !verified ==> failure_reason(t, verified) == Some(
            "verification failed"@,
        ),
        t.outcome matches TaskOutcome::Failure(e) ==> failure_reason(t, verified) == Some(e@),
{
}

/// Events speak of a piece of a run by its run and by the slice and the tile; nothing
/// else has events.
pub proof fn events_name_the_piece(t: TaskResult)
    ensures
        t.request_type != RequestType::DSlice || t.run_uid is None || t.slice_num is None
            ==> event_of(t) is None,
        t.request_type == RequestType::DSlice && t.run_uid is Some && t.slice_num is Some ==> {
            &&& event_of(t) matches Some((run, name)) && run == t.run_uid->0@
            &&& t.is_tile && t.tile_idx is Some ==> (event_of(t)->0).1 == t.slice_num->0@ + "_tile_"@
                + decimal_text(t.tile_idx->0 as nat)
            &&& !t.is_tile || t.tile_idx is None ==> (event_of(t)->0).1 == t.slice_num->0@
        },
{
}

/// Once a request is over its fingerprint is free again, and no other is.
pub proof fn fingerprints_are_freed(s: Seq<Seq<char>>, h: String, other: Seq<char>)
    requires
        s.no_duplicates(),
        other != h@,
    ensures
        h@.len() > 0 ==> !after_release(s, Some(h)).contains(h@),
        s.contains(other) <==> after_release(s, Some(h)).contains(other),
        after_release(s, None) == s,
        h@.len() == 0 ==> after_release(s, Some(h)) == s,
{
    lemma_removed(s, h@, other);
}

proof fn lemma_removed(s: Seq<Seq<char>>, x: Seq<char>, other: Seq<char>)
    requires
        s.no_duplicates(),
        other != x,
    ensures
        !fifo_remove(s, x).contains(x),
        s.contains(other) <==> fifo_remove(s, x).contains(other),
        s.contains(x) ==> fifo_remove(s, x).len() == s.len() - 1,
{
    if s.contains(x) {
        let i = s.index_of(x);
        assert(s[i] == x);
        let r = s.remove(i);
        assert forall|k: int| 0 <= k < r.len() implies r[k] == (if k < i {
            s[k]
        } else {
            s[k + 1]
        }) by {}
        if r.contains(x) {
            let k = choose|k: int| 0 <= k < r.len() && r[k] == x;
            let m = if k < i {
                k
            } else {
                k + 1
            };
            assert(s[m] == x && m != i);
        }
        if s.contains(other) {
            let k = choose|k: int| 0 <= k < s.len() && s[k] == other;
            assert(k != i);
            let m = if k < i {
                k
            } else {
                k - 1
            };
            assert(r[m] == other);
        }
        if r.contains(other) {
            let k = choose|k: int| 0 <= k < r.len() && r[k] == other;
            let m = if k < i {
                k
            } else {
                k + 1
            };
            assert(s[m] == other);
        }
    }
}

/// A fingerprint that is taken in is there, whatever was before; one that was there
/// changes nothing; and only the oldest ever makes room.
pub proof fn the_oldest_makes_room(s: Seq<Seq<char>>, capacity: nat, x: Seq<char>, i: int)
    requires
        s.no_duplicates(),
        0 < capacity,
        s.len() <= capacity,
        0 <= i < s.len(),
    ensures
        fifo_insert(s, capacity, x).contains(x),
        s.contains(x) ==> fifo_insert(s, capacity, x) == s,
        s.len() < capacity ==> fifo_insert(s, capacity, x).contains(s[i]),
        i > 0 ==> fifo_insert(s, capacity, x).contains(s[i]),
        !s.contains(x) ==> fifo_insert(s, capacity, x).last() == x,
        fifo_insert(s, capacity, x).len() <= capacity,
{
    let r = fifo_insert(s, capacity, x);
    if s.contains(x) {
    } else if s.len() >= capacity {
        assert(r[r.len() - 1] == x);
        if i > 0 {
            assert(r[i - 1] == s[i]);
        }
    } else {
        assert(r[r.len() - 1] == x);
        assert(r[i] == s[i]);
    }
}

/// A strike counts: with those that already count it puts the miner on the skiplist
/// for as long as the rule says where they are enough, and clears them; otherwise it
/// is kept with them and nobody is passed over for it.
pub proof fn strikes_count(
    s: RsvV,
    p: RsvPolicy,
    hotkey: Seq<char>,
    block: u64,
    until: u64,
    given: Seq<u64>,
)
    requires
        given == (if s.strikes.contains_key(hotkey) {
            s.strikes[hotkey]
        } else {
            Seq::empty()
        }),
        forall|i: int|
            0 <= i < given.len() ==> (#[trigger] given[i]) + p.strikes_window_blocks >= block,
    ensures
        ({
            let t = s.struck_at(p, hotkey, block, until);
            &&& given.len() + 1 >= p.strikes_required ==> {
                &&& t.skiplist.contains_key(hotkey) && t.skiplist[hotkey] == until
                &&& t.struck.contains_key(hotkey) && t.struck[hotkey] == until
                &&& !t.strikes.contains_key(hotkey)
            }
            &&& given.len() + 1 < p.strikes_required ==> {
                &&& t.skiplist == s.skiplist && t.struck == s.struck
                &&& t.strikes.contains_key(hotkey) && t.strikes[hotkey] == given.push(block)
            }
            &&& t.coldstart == s.coldstart && t.last_seen == s.last_seen
        }),
{
    let all = given.push(block);
    assert(all.len() > 0);
    if given.len() > 0 {
        assert(all[0] == given[0]);
    }
    assert(!(all[0] < minus(block, p.strikes_window_blocks)));
    assert(from_cutoff(all, minus(block, p.strikes_window_blocks)) == all);
}

/// Strikes that lie too far back no longer count; those after them do, in order.
pub proof fn old_strikes_expire(s: Seq<u64>, cutoff: u64)
    ensures
        from_cutoff(s, cutoff).is_suffix_of(s),
        from_cutoff(s, cutoff).len() > 0 ==> from_cutoff(s, cutoff)[0] >= cutoff,
        forall|i: int|
            0 <= i < s.len() - from_cutoff(s, cutoff).len() ==> #[trigger] s[i] < cutoff,
    decreases s.len(),
{
    let r = from_cutoff(s, cutoff);
    if s.len() > 0 && s[0] < cutoff {
        let d = s.drop_first();
        old_strikes_expire(d, cutoff);
        assert(r == d.skip(d.len() - r.len()));
        assert(r =~= s.skip(s.len() - r.len()));
        assert forall|i: int| 0 <= i < s.len() - r.len() implies #[trigger] s[i] < cutoff by {
            if i > 0 {
                assert(d[i - 1] == s[i]);
            }
        }
    } else {
        assert(r =~= s.skip(0));
    }
}

/// Times are counted in tempos of as many blocks as the chain says, or of 360 while
/// it has not said.
pub proof fn tempos_are_blocks(block: u64, tempos: u64, n: u64)
    ensures
        n > 0 ==> tempos_later(block, tempos, n) - block == tempos * n,
        tempos_later(block, tempos, 0) - block == tempos * 360,
{
}

/// A miner whose proof did not hold is struck for it, unless the work was a
/// benchmark: either the strike is its latest that counts, or it was one too many
/// and the miner is passed over from then on for as long as the rule says.
pub proof fn bad_proofs_are_struck(
    s: RsvV,
    p: RsvPolicy,
    f: FailedRequest,
    block: u64,
    blocks_per_tempo: u64,
    in_grace: bool,
)
    requires
        "verification failed"@.is_prefix_of(f.reason@),
        f.request_type != RequestType::Benchmark,
        f.hotkey@.len() > 0,
        0 < blocks_per_tempo,
        block + p.skiplist_tempos * blocks_per_tempo <= u64::MAX,
    ensures
        ({
            let t = rsv_after_failure(s, p, f, block, blocks_per_tempo, in_grace);
            let kept = t.strikes.contains_key(f.hotkey@) && t.strikes[f.hotkey@].len() > 0
                && t.strikes[f.hotkey@].len() < p.strikes_required && t.strikes[f.hotkey@].last()
                == block && t.skiplist == s.skiplist;
            let out = t.skiplist.contains_key(f.hotkey@) && t.skiplist[f.hotkey@] == block
                + p.skiplist_tempos * blocks_per_tempo && !t.strikes.contains_key(f.hotkey@);
            &&& kept || out
            &&& p.strikes_required <= 1 ==> out
            &&& !s.strikes.contains_key(f.hotkey@) && p.strikes_required > 1 ==> kept
            &&& forall|k: Seq<char>|
                k != f.hotkey@ ==> (#[trigger] t.skiplist.contains_key(k) == s.skiplist.contains_key(k)
                    && (s.skiplist.contains_key(k) ==> t.skiplist[k] == s.skiplist[k]))
        }),
{
    let k = f.hotkey@;
    let before = if s.strikes.contains_key(k) {
        s.strikes[k]
    } else {
        Seq::empty()
    };
    let all = before.push(block);
    let cutoff = minus(block, p.strikes_window_blocks);
    old_strikes_expire(all, cutoff);
    let r = from_cutoff(all, cutoff);
    assert(r.len() > 0) by {
        if r.len() == 0 {
            assert(all[all.len() - 1] < cutoff);
        }
    }
    assert(r == all.skip(all.len() - r.len()));
    assert(r.last() == block);
    lemma_reasons(f.reason@);
    if !s.strikes.contains_key(k) {
        assert(r.len() == 1);
    }
}

/// A check that failed is no failure to reach a miner.
proof fn lemma_reasons(reason: Seq<char>)
    requires
        "verification failed"@.is_prefix_of(reason),
    ensures
        !is_disconnect(reason),
{
    reveal_strlit("verification failed");
    reveal_strlit("QUIC query: connection error:");
    reveal_strlit("QUIC query: handshake error:");
    let v = "verification failed"@;
    assert(v.len() > 0 && v[0] == 'v');
    assert(reason[0] == v[0]) by {
        assert(reason.subrange(0, v.len() as int)[0] == v[0]);
    }
    let c = "QUIC query: connection error:"@;
    let h = "QUIC query: handshake error:"@;
    if c.is_prefix_of(reason) {
        assert(reason.subrange(0, c.len() as int)[0] == c[0]);
    }
    if h.is_prefix_of(reason) {
        assert(reason.subrange(0, h.len() as int)[0] == h[0]);
    }
}

/// A miner that could not be reached is passed over for as long as the rule says or
/// longer, unless the validator's own address has just changed or was not up; it is
/// not struck for it.
pub proof fn unreachable_miners_are_passed_over(
    s: RsvV,
    p: RsvPolicy,
    f: FailedRequest,
    block: u64,
    blocks_per_tempo: u64,
)
    requires
        is_disconnect(f.reason@),
        f.hotkey@.len() > 0,
        0 < blocks_per_tempo,
        block + p.disconnect_tempos * blocks_per_tempo <= u64::MAX,
    ensures
        ({
            let t = rsv_after_failure(s, p, f, block, blocks_per_tempo, false);
            let until = block + p.disconnect_tempos * blocks_per_tempo;
            &&& t.skiplist.contains_key(f.hotkey@) && t.skiplist[f.hotkey@] >= until
            &&& t.skiplist[f.hotkey@] == until || s.skiplist.contains_key(f.hotkey@)
                && t.skiplist[f.hotkey@] == s.skiplist[f.hotkey@]
            &&& s.skiplist.contains_key(f.hotkey@) ==> t.skiplist[f.hotkey@]
                >= s.skiplist[f.hotkey@]
            &&& t.strikes == s.strikes && t.struck == s.struck
        }),
        rsv_after_failure(s, p, f, block, blocks_per_tempo, true) == s,
{
    if "verification failed"@.is_prefix_of(f.reason@) {
        lemma_reasons(f.reason@);
    }
}

/// Any other failure leaves a miner's record as it is.
pub proof fn other_failures_are_forgiven(
    s: RsvV,
    p: RsvPolicy,
    f: FailedRequest,
    block: u64,
    blocks_per_tempo: u64,
    in_grace: bool,
)
    ensures
        !"verification failed"@.is_prefix_of(f.reason@) && !is_disconnect(f.reason@)
            ==> rsv_after_failure(s, p, f, block, blocks_per_tempo, in_grace) == s,
        f.hotkey@.len() == 0 ==> rsv_after_failure(s, p, f, block, blocks_per_tempo, in_grace) == s,
        f.request_type == RequestType::Benchmark && !is_disconnect(f.reason@) ==> rsv_after_failure(
            s,
            p,
            f,
            block,
            blocks_per_tempo,
            in_grace,
        ) == s,
{
}

/// A failure is one of reaching the miner where the connection or the handshake
/// failed, and not where the validator's own endpoint was not up or anything else
/// went wrong.
pub proof fn disconnects_are_told_by_their_reason(rest: Seq<char>, reason: Seq<char>)
    ensures
        is_disconnect(reason) ==> "QUIC query: connection error:"@.is_prefix_of(reason)
            || "QUIC query: handshake error:"@.is_prefix_of(reason),
        "QUIC query: connection error:"@.is_prefix_of(reason)
            || "QUIC query: handshake error:"@.is_prefix_of(reason) ==> (is_disconnect(reason)
            <==> !exists|i: int|
            crate::text::occurs_at(reason, "QUIC endpoint not initialized"@, i)),
{
}

/// A miner on the skiplist is passed over until its block and not from it on, a
/// first sight makes a miner new for as long as the rule says, and later sights do
/// not make it new again.
pub proof fn standing_is_read_off_the_record(s: RsvV, p: RsvPolicy, k: Seq<char>, block: u64)
    ensures
        s.skiplist.contains_key(k) ==> (s.skips(k, block) <==> s.skiplist[k] > block),
        !s.skiplist.contains_key(k) ==> !s.skips(k, block),
        !s.coldstart.contains_key(k) ==> s.is_new(p, k, block),
        s.coldstart.contains_key(k) && s.coldstart[k] <= block ==> (s.is_new(p, k, block) <==> block
            < s.coldstart[k] + p.coldstart_blocks),
        !s.coldstart.contains_key(k) ==> s.observed(k, block).coldstart.contains_key(k) && s.observed(
            k,
            block,
        ).coldstart[k] == block,
        s.coldstart.contains_key(k) ==> s.observed(k, block).coldstart[k] == s.coldstart[k],
        s.observed(k, block).last_seen.contains_key(k) && s.observed(k, block).last_seen[k] == block,
        s.observed(k, block).skiplist == s.skiplist && s.observed(k, block).strikes == s.strikes
            && s.observed(k, block).struck == s.struck,
{
}

/// What is out of date is dropped and nothing else: entries of the skiplist that are
/// over, and what is known of miners that were not seen for long.
pub proof fn only_what_is_out_of_date_goes(s: RsvV, p: RsvPolicy, block: u64, k: Seq<char>)
    ensures
        ({
            let t = s.expired(p, block);
            &&& t.skiplist.contains_key(k) <==> s.skiplist.contains_key(k) && s.skiplist[k] > block
            &&& t.skiplist.contains_key(k) ==> t.skiplist[k] == s.skiplist[k]
            &&& t.struck.contains_key(k) <==> s.struck.contains_key(k) && s.struck[k] > block
            &&& t.last_seen.contains_key(k) <==> s.last_seen.contains_key(k) && s.last_seen[k]
                + p.coldstart_retention_blocks >= block
            &&& t.last_seen.contains_key(k) ==> t.last_seen[k] == s.last_seen[k]
            &&& s.coldstart.contains_key(k) && (s.last_seen.contains_key(k) ==> s.last_seen[k]
                + p.coldstart_retention_blocks >= block) <==> t.coldstart.contains_key(k)
            &&& t.coldstart.contains_key(k) ==> t.coldstart[k] == s.coldstart[k]
            &&& s.strikes.contains_key(k) && (s.last_seen.contains_key(k) ==> s.last_seen[k]
                + p.strikes_window_blocks >= block) <==> t.strikes.contains_key(k)
            &&& t.strikes.contains_key(k) ==> t.strikes[k] == s.strikes[k]
        }),
{
}

/// Lifting what unreachability brought about leaves the entries that strikes brought
/// about, as long as they were to last, and no other.
pub proof fn lifting_takes_disconnects_alone(s: RsvV, k: Seq<char>)
    ensures
        s.disconnects_lifted().skiplist.contains_key(k) <==> s.skiplist.contains_key(k)
            && s.struck.contains_key(k),
        s.disconnects_lifted().skiplist.contains_key(k) ==> s.disconnects_lifted().skiplist[k]
            == s.struck[k],
        s.disconnects_lifted().strikes == s.strikes,
        s.disconnects_lifted().coldstart == s.coldstart,
        s.disconnects_lifted().last_seen == s.last_seen,
{
}

/// The record is stored under its own names: each miner with its block, and its
/// strikes as a list.
pub proof fn the_record_is_stored_by_name(s: RsvV, k: Seq<char>)
    ensures
        ({
            let j = state_json(s);
            &&& j.member("version"@) == Some(JsonV::Int(2))
            &&& s.skiplist.contains_key(k) ==> (j.member("skiplist"@) matches Some(m) && m.member(k)
                == Some(JsonV::Int(s.skiplist[k] as int)))
            &&& s.coldstart.contains_key(k) ==> (j.member("coldstart"@) matches Some(m) && m.member(
                k,
            ) == Some(JsonV::Int(s.coldstart[k] as int)))
            &&& s.last_seen.contains_key(k) ==> (j.member("last_seen"@) matches Some(m) && m.member(
                k,
            ) == Some(JsonV::Int(s.last_seen[k] as int)))
            &&& s.strikes.contains_key(k) ==> (j.member("strikes"@) matches Some(m) && m.member(k)
                == Some(
                JsonV::Array(Seq::new(s.strikes[k].len(), |i: int| JsonV::Int(s.strikes[k][i] as int))),
            ))
        }),
{
    reveal_strlit("version");
    reveal_strlit("skiplist");
    reveal_strlit("strikes");
    reveal_strlit("coldstart");
    reveal_strlit("last_seen");
    assert("version"@[0] == 'v' && "skiplist"@[1] == 'k' && "strikes"@[1] == 't' && "coldstart"@[0]
        == 'c' && "last_seen"@[0] == 'l' && "skiplist"@[0] == 's' && "strikes"@[0] == 's');
    if s.strikes.contains_key(k) {
        assert(s.strikes[k].map_values(|n: u64| JsonV::Int(n as int)) =~= Seq::new(
            s.strikes[k].len(),
            |i: int| JsonV::Int(s.strikes[k][i] as int),
        ));
    }
}

/// Work is tried again as often as the limits say and no more: pieces of the
/// validator's own runs by their own limit, everything else by that of customers,
/// and a piece of a run only while the run goes on.
pub proof fn work_is_retried_within_limits(
    f: FailedRequest,
    p: RetryPayload,
    limits: RetryLimits,
    running: Set<Seq<char>>,
)
    requires
        !"verification failed"@.is_prefix_of(f.reason@),
    ensures
        p is Nothing ==> !is_retried(f, p, limits, running),
        p is Rwr && f.request_type == RequestType::Rwr ==> (is_retried(f, p, limits, running)
            <==> f.retry_count < limits.api),
        p matches RetryPayload::DSlice(d) ==> {
            &&& !running.contains(d.run_uid@) ==> !is_retried(f, p, limits, running)
            &&& running.contains(d.run_uid@) && f.request_type == RequestType::DSlice
                && d.run_source == RunSource::Api ==> (is_retried(f, p, limits, running)
                <==> f.retry_count < limits.api)
            &&& running.contains(d.run_uid@) && f.request_type == RequestType::DSlice
                && d.run_source == RunSource::Benchmark ==> (is_retried(f, p, limits, running)
                <==> f.retry_count < limits.slice)
        },
{
}

/// A customer is told of a failure in the frame in which it waits for an answer, under
/// its number, and as a failure with its reason.
pub proof fn customers_are_told_of_failures(
    r: Option<CustomerReply>,
    t: RequestType,
    id: Option<u32>,
    error: Seq<char>,
)
    requires
        told(r, failure_frame(t), id, refusal_json(error)),
    ensures
        id is None <==> r is None,
        r matches Some(c) ==> {
            &&& Some(c.req_id) == id
            &&& c.result@.member("success"@) == Some(JsonV::Bool(false))
            &&& c.result@.member("error"@) == Some(JsonV::Text(error))
            &&& t == RequestType::Rwr || t == RequestType::ProofOfWeights ==> c.frame_type
                == crate::relay::FRAME_PROOF_RESULT
            &&& t == RequestType::DSlice || t == RequestType::Benchmark ==> c.frame_type
                == crate::relay::FRAME_SUBMIT_RESULT
        },
{
    lemma_names();
}

/// Kinds of work have different names by circuit and slice.
pub proof fn kinds_of_work_are_named(id: Seq<char>, s: Seq<char>)
    ensures
        work_key(Some(id), Some(s)) == id + ":"@ + s,
        work_key(Some(id), None) == id,
        work_key(None, Some(s)) == "slice:"@ + s,
        work_key(None, None).len() == 0,
        event_name(s, false, None) == s,
{
}

/// A proof is of use while its run goes on and its slice was not given up, and not
/// after.
pub proof fn proofs_are_wanted_while_the_run_goes_on(s: RunsV, run: Seq<char>, slice: Seq<char>)
    ensures
        !s.runs.contains_key(run) ==> !proof_wanted(s, Some(run), Some(slice), false),
        s.evicted.contains(run) ==> !proof_wanted(s, Some(run), Some(slice), false),
        !proof_wanted(s, Some(run), Some(slice), true),
        s.runs.contains_key(run) && !s.evicted.contains(run) ==> proof_wanted(
            s,
            Some(run),
            Some(slice),
            false,
        ),
{
}

/// A proof is of use exactly while its run goes on and its slice was not given up,
/// and then becomes part of the run's record with all that the miner gave.
pub proof fn proofs_are_kept_for_the_record(
    s: RunsV,
    run: Seq<char>,
    slice: Seq<char>,
    a: SliceArtifact,
    r: MinerResponse,
    tile: Option<u32>,
    took: u64,
)
    requires
        s.runs.contains_key(run),
        is_artifact_of(a, r, slice, tile, took),
    ensures
        proof_wanted(s, Some(run), Some(slice), false) <==> !s.evicted.contains(run),
        !proof_wanted(s, Some(run), Some(slice), true),
        !proof_wanted(s, None, Some(slice), false) && !proof_wanted(s, Some(run), None, false),
        with_artifact(s, run, a).runs[run].artifacts.len() == s.runs[run].artifacts.len() + 1,
        with_artifact(s, run, a).runs[run].artifacts.last() == a,
        forall|i: int|
            0 <= i < s.runs[run].artifacts.len() ==> #[trigger] with_artifact(
                s,
                run,
                a,
            ).runs[run].artifacts[i] == s.runs[run].artifacts[i],
        with_artifact(s, run, a).counters == s.counters,
        a.slice_num@ == slice && a.tile_idx == tile,
        r.proof_content matches Some(p) ==> (p@ matches JsonV::Text(t) ==> (a.proof_hex matches Some(
            h,
        ) && h@ == t)),
        r.proof_content is None ==> a.proof_hex is None,
        r.witness matches Some(w) ==> (a.witness_hex matches Some(h) && h@ == w@),
        r.computed_outputs matches Some(o) ==> (a.computed_outputs matches Some(c) && c@ == o@),
        a.response_time == r.response_time && a.verification_time == took,
{
}

/// A slice that is sent as a whole is done with its proof; one that is cut into tiles
/// is done with the last tile that was asked for and not before; a tile that the
/// slice cannot have breaks the run.
pub proof fn slices_are_done_with_their_last_proof(
    kept: RunsV,
    after: RunsV,
    run: Seq<char>,
    slice: Seq<char>,
    tile: u32,
    now: u64,
    r: SuccessStep,
    is_tile: bool,
)
    requires
        proof_taken_in(kept, after, run, slice, is_tile, Some(tile), now, r),
    ensures
        !is_tile ==> r is SliceDone,
        is_tile && !kept.counters.contains_key((run, slice)) ==> r is Waiting,
        is_tile && kept.counters.contains_key((run, slice)) ==> {
            let c = kept.counters[(run, slice)];
            &&& tile >= c.grid_total <==> r is TearDown
            &&& tile < c.grid_total && !c.expected.contains(tile) ==> r is Waiting
            &&& tile < c.grid_total && c.received.contains(tile) ==> r is Waiting
            &&& tile < c.grid_total && c.expected.contains(tile) && !c.received.contains(tile) ==> (
            r is SliceDone <==> c.received.insert(tile) == c.expected)
        },
        !is_tile ==> after == kept.touched(run, now),
        is_tile && r is SliceDone ==> after == kept.tile_recorded(run, slice, tile, now).touched(
            run,
            now,
        ),
        is_tile && r is Waiting ==> after == kept.tile_recorded(run, slice, tile, now),
{
}

/// A proof of a tile without a number breaks the run and changes nothing.
pub proof fn tiles_without_a_number_break_the_run(
    kept: RunsV,
    after: RunsV,
    run: Seq<char>,
    slice: Seq<char>,
    now: u64,
    r: SuccessStep,
)
    requires
        proof_taken_in(kept, after, run, slice, true, None, now, r),
    ensures
        r is TearDown && after == kept,
{
}

/// A request that goes out for a customer asks for the customer's own work, and can
/// be tried again and answered.
pub proof fn requests_ask_for_what_was_wanted(
    d: DispatchedRequest,
    w: crate::types::RwrSubmission,
    circuit: crate::types::Circuit,
    hash: Seq<char>,
)
    requires
        is_rwr_request(d, w, circuit, hash),
    ensures
        d.request_type == RequestType::Rwr,
        d.external_request_hash == w.request_id,
        d.body matches RequestBody::Query(b) && b@.member("model_id"@) == Some(
            JsonV::Text(circuit.id@),
        ) && b@.member("query_input"@) == Some(w.inputs@),
        d.task_inputs matches Some(i) && i@ == w.inputs@,
        d.task_circuit == Some(circuit),
        d.retry_payload == RetryPayload::Rwr(w),
        d.guard_hash matches Some(h) && h@ == hash,
        d.retry_count == w.retry_count,
        !d.is_tile && d.run_uid is None,
{
    lemma_names();
}

/// A request for a piece of a run asks for that piece of that run, with its inputs.
pub proof fn requests_ask_for_their_piece(
    d: DispatchedRequest,
    w: crate::types::DSliceRequest,
    inputs: JsonV,
    hash: Seq<char>,
)
    requires
        is_dslice_request(d, w, inputs, hash),
    ensures
        d.request_type == RequestType::DSlice,
        d.run_uid matches Some(r) && r@ == w.run_uid@,
        d.slice_num matches Some(s) && s@ == w.slice_num@,
        d.tile_idx == w.tile_idx && d.is_tile == w.is_tile && d.task_id == w.task_id,
        d.task_inputs matches Some(i) && i@ == inputs,
        d.body matches RequestBody::DSlice(m) && (m.inputs matches Some(i) && i@ == inputs) && (
        m.run_uid matches Some(r) && r@ == w.run_uid@) && (m.slice_num matches Some(s) && s@
            == w.slice_num@) && m.component_sha == w.component_sha && m.proof_system
            == w.proof_system && m.circuit == Some(w.circuit.id),
        d.retry_payload == RetryPayload::DSlice(w),
        d.guard_hash matches Some(h) && h@ == hash,
        d.retry_count == w.retry_count,
        d.dsperse_circuit_path == w.circuit_path && d.component_sha == w.component_sha,
        d.external_request_hash is None,
{
}

/// Work is dropped with its circuit or its runs and stays otherwise.
pub proof fn work_goes_with_its_run(d: Dropped, r: crate::types::DSliceRequest)
    ensures
        d matches Dropped::OfCircuit(id) ==> (stays(d, r) <==> r.circuit.id@ != id@),
        d matches Dropped::OfRuns(runs) ==> (stays(d, r) <==> forall|i: int|
            0 <= i < runs@.len() ==> (#[trigger] runs@[i])@ != r.run_uid@),
{
    if let Dropped::OfRuns(runs) = d {
        let t = crate::seqs::texts(runs@);
        if exists|i: int| 0 <= i < runs@.len() && (#[trigger] runs@[i])@ == r.run_uid@ {
            let i = choose|i: int| 0 <= i < runs@.len() && (#[trigger] runs@[i])@ == r.run_uid@;
            assert(t[i] == r.run_uid@);
            assert(t.to_set().contains(r.run_uid@));
        }
        if t.to_set().contains(r.run_uid@) {
            let i = choose|i: int| 0 <= i < t.len() && t[i] == r.run_uid@;
            assert(runs@[i]@ == r.run_uid@);
        }
    }
}

/// An answer is what the miner said of what it was asked: its proof under either
/// name, its outputs, witness and signals, and nothing of another request. It is
/// not taken to hold before it was checked.
pub proof fn answers_are_what_miners_said(r: MinerResponse, task: TaskContext, body: JsonV, elapsed: u64)
    requires
        is_response(r, task, body, elapsed),
    ensures
        !r.verification_result && r.verification_time is None,
        r.uid == task.uid && r.request_type == task.request_type && r.circuit == task.circuit,
        r.dsperse_run_uid == task.run_uid && r.inputs == task.inputs && r.response_time == elapsed,
        body.member("query_output"@) matches Some(p) ==> (r.proof_content matches Some(c) && c@
            == p),
        body.member("query_output"@) is None ==> (body.member("proof"@) matches Some(p) ==> (
        r.proof_content matches Some(c) && c@ == p)),
        body.member("query_output"@) is None && body.member("proof"@) is None
            ==> r.proof_content is None && r.proof_size == 0,
        body.member("computed_outputs"@) matches Some(o) ==> (r.computed_outputs matches Some(c)
            && c@ == o),
        body.member("witness"@) matches Some(JsonV::Text(t)) ==> (r.witness matches Some(w) && w@
            == t),
        task.external_request_hash matches Some(n) ==> r.external_request_hash@ == decimal_text(
            n as nat,
        ),
        task.external_request_hash is None ==> r.external_request_hash@.len() == 0,
        r.is_incremental <==> task.request_type == RequestType::DSlice,
        r.dsperse_circuit_path == task.dsperse_circuit_path && r.component_sha
            == task.component_sha,
        task.proof_system == r.proof_system,
        task.slice_num is None ==> r.dsperse_slice_num is None,
        task.slice_num matches Some(s) ==> (slice_number(s@) matches Some(n) ==> (
        r.dsperse_slice_num matches Some(m) && m == n)),
        task.slice_num matches Some(s) ==> (slice_number(s@) is None ==> r.dsperse_slice_num is None),
{
}

/// The size of a proof is that of its text, and a list of texts is taken whole.
pub proof fn proofs_are_measured_by_their_text(t: Seq<char>, s: Seq<JsonV>, x: JsonV, body: JsonV)
    ensures
        vstd::utf8::encode_utf8(t).len() <= usize::MAX ==> proof_bytes(Some(JsonV::Text(t)))
            == vstd::utf8::encode_utf8(t).len(),
        proof_bytes(None) == 0,
        texts_in(s.push(JsonV::Text(t))) == texts_in(s).push(t),
        x.text() is None ==> texts_in(s.push(x)) == texts_in(s),
        texts_in(Seq::empty()).len() == 0,
        body.member("public_signals"@) matches Some(JsonV::Array(v)) ==> public_signals_in(body)
            == Some(texts_in(v)),
{
    assert(s.push(JsonV::Text(t)).drop_last() =~= s);
    assert(s.push(x).drop_last() =~= s);
}

/// A slice is known by the number in its name, with or without the word before it.
pub proof fn slices_are_numbered(n: nat)
    requires
        n <= u64::MAX,
    ensures
        slice_number("slice_"@ + decimal_text(n)) == Some(n),
        slice_part("slice_"@ + decimal_text(n)) == decimal_text(n),
        slice_number(decimal_text(n)) == Some(n),
{
    decimal_reads_back(n);
    let name = "slice_"@ + decimal_text(n);
    assert(name.skip("slice_"@.len() as int) =~= decimal_text(n));
    assert(name.take("slice_"@.len() as int) =~= "slice_"@);
    assert("slice_"@.is_prefix_of(name)) by {
        assert(name.subrange(0, "slice_"@.len() as int) =~= "slice_"@);
    }
    reveal_strlit("slice_");
    let d = decimal_text(n);
    if "slice_"@.is_prefix_of(d) {
        assert(d.subrange(0, 6)[0] == 's');
        assert(crate::text::is_digit(d[0]));
    }
}

/// What is remembered of a request that goes to a miner is what was asked.
pub proof fn requests_are_remembered_as_sent(uid: u16, d: DispatchedRequest)
    ensures
        context_of(uid, d).uid == uid,
        context_of(uid, d).request_type == d.request_type,
        context_of(uid, d).external_request_hash == d.external_request_hash,
        context_of(uid, d).inputs == d.task_inputs,
        context_of(uid, d).circuit == d.task_circuit,
        context_of(uid, d).proof_system == d.task_proof_system,
        context_of(uid, d).run_uid == d.run_uid,
        context_of(uid, d).slice_num == d.slice_num,
        context_of(uid, d).dsperse_circuit_path == d.dsperse_circuit_path,
        context_of(uid, d).component_sha == d.component_sha,
{
}

/// An answer can be checked exactly where it has a proof and a witness that are text
/// and belongs to a circuit of the system that can be checked.
pub proof fn proofs_without_a_witness_are_not_checked(r: MinerResponse, supported: ProofSystem)
    ensures
        r.proof_content is None || r.witness is None || r.circuit is None ==> !is_checkable(
            r,
            supported,
        ),
        r.circuit matches Some(c) ==> (c.proof_system != supported ==> !is_checkable(r, supported)),
        r.proof_content matches Some(p) ==> (r.witness matches Some(w) ==> (
        r.circuit matches Some(c) ==> (p@ matches JsonV::Text(t) ==> (t.len() > 0 && w@.len() > 0
            && c.proof_system == supported ==> is_checkable(r, supported))))),
{
}

/// A slice's circuit lies under its number; the settings of a circuit say how its
/// commitments are made and how many inputs it takes, and where they do not, the
/// compiled circuit does, and then the answer.
pub proof fn settings_come_first(settings: JsonV, compiled: Option<usize>, asked: Option<usize>, n: u64)
    ensures
        bundle_text(Some(n)) == "slices/slice_"@ + decimal_text(n as nat)
            + "/jstprove/circuit.bundle"@,
        settings.member("pcs_type"@) matches Some(JsonV::Text(t)) ==> commitment_kind(settings) == t,
        settings.member("pcs_type"@) is None ==> commitment_kind(settings) == "raw"@,
        settings.member("num_inputs"@) == Some(JsonV::Int(n as int)) ==> input_count(
            settings,
            compiled,
            asked,
        ) == n,
        settings.member("num_inputs"@) is None ==> (compiled matches Some(d) ==> (d > 0
            ==> input_count(settings, compiled, asked) == d)),
        settings.member("num_inputs"@) is None && compiled is None ==> (asked matches Some(a)
            ==> input_count(settings, compiled, asked) == a),
        settings.member("num_inputs"@) is None && compiled == Some(0usize) ==> (asked matches Some(a)
            ==> input_count(settings, compiled, asked) == a),
        settings.member("num_inputs"@) is None && compiled is None && asked is None ==> input_count(
            settings,
            compiled,
            asked,
        ) == 0,
{
}

/// A proof is held against the inputs that were sent, with the weights behind them
/// where the circuit takes them; where either is missing it is held against none.
pub proof fn proofs_are_held_against_what_was_sent<T>(
    a: Seq<T>,
    w: Vec<Vec<T>>,
    x: Seq<Vec<T>>,
    v: Vec<T>,
)
    requires
        a.len() > 0,
    ensures
        known_inputs(Some(a), false, WeightLookup::Found(w)) == Some(a),
        known_inputs(Some(a), true, WeightLookup::Found(w)) == Some(a + joined(w@)),
        known_inputs(Some(a), true, WeightLookup::<T>::NotFound) is None,
        known_inputs(Some(a), true, WeightLookup::<T>::Unreadable) == Some(a),
        known_inputs(None::<Seq<T>>, false, WeightLookup::Found(w)) is None,
        known_inputs(Some(Seq::<T>::empty()), false, WeightLookup::Found(w)) is None,
        joined(x.push(v)) == joined(x) + v@,
        joined(Seq::<Vec<T>>::empty()).len() == 0,
{
    assert(x.push(v).drop_last() =~= x);
}

/// A piece of a run is known by its circuit, its slice, its run and its tile.
pub proof fn pieces_are_known_by_all_their_parts(c: Seq<char>, s: Seq<char>, r: Seq<char>, i: u32)
    ensures
        dslice_key(c, s, r, None) == c + ":"@ + s + ":"@ + r,
        dslice_key(c, s, r, Some(i)) == c + ":"@ + s + ":"@ + r + ":"@ + decimal_text(i as nat),
{
}

} // verus!
