//! The end of a run, and what is told of it.

use vstd::prelude::*;
use vstd::string::*;

use crate::dslice::{
    fruitless_slices, run_wide_failure, with_left_out, DisabledSlices, InputScales,
};
use crate::incremental_runner::{of_runs, ActiveRun, IncrementalRunManager, SliceArtifact};
use crate::json::{put, Json, JsonV};
use crate::json::json_parsed;
use crate::relay::{
    asked_run, json_frame, processing_json, replies, result_view, send_result, status_calls_for,
    PendingRequests, RelayAction, MSG_BATCH_DONE, MSG_STATUS_RESULT,
};
use crate::rsv::minus;
use crate::seqs::texts;
use crate::text::{after_prefix, parse_unsigned, strip_prefix, unsigned_up_to};

verus! {

/// What a customer who asks for a finished run is told.
pub open spec fn run_result(run_uid: Seq<char>, output: Option<JsonV>, failed: usize) -> JsonV {
    let named = Map::<Seq<char>, JsonV>::empty().insert("run_uid"@, JsonV::Text(run_uid)).insert(
        "status"@,
        JsonV::Text(
            if failed > 0 {
                "partial"@
            } else {
                "complete"@
            },
        ),
    );
    let told = match output {
        Some(o) => named.insert("output"@, o),
        None => named,
    };
    JsonV::Object(
        if failed > 0 {
            told.insert("failed_slices"@, JsonV::Int(failed as int))
        } else {
            told
        },
    )
}

/// What is announced of a finished run.
pub open spec fn run_announced(run_uid: Seq<char>, circuit_id: Seq<char>, failed: usize) -> JsonV {
    let named = Map::<Seq<char>, JsonV>::empty().insert("run_uid"@, JsonV::Text(run_uid)).insert(
        "circuit_id"@,
        JsonV::Text(circuit_id),
    ).insert(
        "status"@,
        JsonV::Text(
            if failed > 0 {
                "partial"@
            } else {
                "completed"@
            },
        ),
    );
    JsonV::Object(
        if failed > 0 {
            named.insert("failed_slices"@, JsonV::Int(failed as int))
        } else {
            named
        },
    )
}

/// The circuit of a run, where the run is known.
pub open spec fn circuit_of(run: Option<ActiveRun>) -> Seq<char> {
    match run {
        Some(r) => r.circuit_id@,
        None => Seq::empty(),
    }
}

/// Keeps the result of a finished run for who asks for it, and hands back the
/// announcement of its end.
pub fn notify_run_completed(
    pending: &mut PendingRequests,
    run_uid: &str,
    run: &Option<ActiveRun>,
    final_output: Option<Json>,
    failed_count: usize,
) -> (frame: Vec<u8>)
    ensures
        final(pending)@ == (if old(pending)@.contains_key(run_uid@) {
            old(pending)@.insert(
                run_uid@,
                Some(run_result(run_uid@, result_view(final_output), failed_count)),
            )
        } else {
            old(pending)@
        }),
        old(pending)@.contains_key(run_uid@) ==> {
            &&& final(pending)@.contains_key(run_uid@)
            &&& final(pending)@[run_uid@] matches Some(told)
            &&& told.member("run_uid"@) == Some(JsonV::Text(run_uid@))
            &&& final_output matches Some(output) ==> told.member("output"@) == Some(output@)
            &&& final_output is None ==> told.member("output"@) is None
            &&& told.member("status"@) == Some(JsonV::Text("complete"@)) <==> failed_count == 0
            &&& failed_count > 0 ==> told.member("failed_slices"@) == Some(
                JsonV::Int(failed_count as int),
            )
        },
        frame@ == json_frame(
            MSG_BATCH_DONE,
            0,
            run_announced(run_uid@, circuit_of(*run), failed_count),
        ),
{
    let mut result: Vec<(String, Json)> = Vec::new();
    proof {
        crate::json::lemma_members_empty(result@);
    }
    put(&mut result, "run_uid", Json::Text(run_uid.to_owned()));
    let status = if failed_count > 0 {
        "partial"
    } else {
        "complete"
    };
    put(&mut result, "status", Json::Text(status.to_owned()));
    if let Some(output) = final_output {
        put(&mut result, "output", output);
    }
    if failed_count > 0 {
        put(&mut result, "failed_slices", Json::Unsigned(failed_count as u64));
    }
    pending.set_request_result(run_uid, Json::Object(result));
    proof {
        crate::laws::running::results_hold_the_output(
            run_uid@,
            result_view(final_output),
            failed_count,
        );
    }

    let mut told: Vec<(String, Json)> = Vec::new();
    proof {
        crate::json::lemma_members_empty(told@);
    }
    put(&mut told, "run_uid", Json::Text(run_uid.to_owned()));
    let circuit_id = match run {
        Some(r) => r.circuit_id.clone(),
        None => String::new(),
    };
    put(&mut told, "circuit_id", Json::Text(circuit_id));
    let announced = if failed_count > 0 {
        "partial"
    } else {
        "completed"
    };
    put(&mut told, "status", Json::Text(announced.to_owned()));
    if failed_count > 0 {
        put(&mut told, "failed_slices", Json::Unsigned(failed_count as u64));
    }
    send_result(MSG_BATCH_DONE, 0, &Json::Object(told))
}

/// Whether a run came to its end with a proof for each of its pieces, and there
/// were some.
pub open spec fn all_proved(completed: bool, artifacts: Seq<SliceArtifact>) -> bool {
    &&& completed
    &&& artifacts.len() > 0
    &&& forall|i: int| 0 <= i < artifacts.len() ==> (#[trigger] artifacts[i]).proof_hex is Some
}

/// How many pieces have no proof.
pub open spec fn unproved(artifacts: Seq<SliceArtifact>) -> nat
    decreases artifacts.len(),
{
    if artifacts.len() == 0 {
        0
    } else {
        unproved(artifacts.drop_last()) + if artifacts.last().proof_hex is Some {
            0nat
        } else {
            1
        }
    }
}

/// Whether a run came to its end with a proof for each of its pieces.
pub fn run_succeeded(run: &ActiveRun, completed: bool) -> (r: bool)
    ensures
        r == all_proved(completed, run.artifacts@),
{
    if !completed || run.artifacts.len() == 0 {
        return false;
    }
    let mut i: usize = 0;
    while i < run.artifacts.len()
        invariant
            i <= run.artifacts@.len(),
            forall|j: int| 0 <= j < i ==> (#[trigger] run.artifacts@[j]).proof_hex is Some,
        decreases run.artifacts@.len() - i,
    {
        if run.artifacts[i].proof_hex.is_none() {
            return false;
        }
        i += 1;
    }
    true
}

/// What is reported of a piece of a run.
#[derive(Debug)]
pub struct DsperseSliceReport {
    pub slice_num: String,
    pub proof_system: String,
    pub response_time: u64,
    pub verification_time: u64,
    pub success: bool,
    pub is_tiled: bool,
    pub tile_count: Option<usize>,
}

/// What is reported of a run.
#[derive(Debug)]
pub struct DsperseRunReport {
    pub run_uid: String,
    pub circuit_id: String,
    pub circuit_name: String,
    pub total_slices: usize,
    pub total_run_time: u64,
    pub all_successful: bool,
    pub failed_slice_count: usize,
    pub slices: Vec<DsperseSliceReport>,
}

/// The number in the name of a slice.
pub open spec fn slice_index(slice_num: Seq<char>) -> Option<nat> {
    match after_prefix(slice_num, "slice_"@) {
        Some(t) => unsigned_up_to(t, usize::MAX as nat),
        None => None,
    }
}

/// How many tiles the first slice of a number has in a model, if it is cut into
/// tiles. The model lists its slices by number.
pub open spec fn tiles_in_model(model: Seq<(usize, Option<usize>)>, index: nat) -> Option<usize>
    decreases model.len(),
{
    if model.len() == 0 {
        None
    } else if model[0].0 == index {
        model[0].1
    } else {
        tiles_in_model(model.drop_first(), index)
    }
}

/// How many tiles a slice has, if it is cut into tiles and the model is known.
pub open spec fn tiles_of(
    model: Option<Vec<(usize, Option<usize>)>>,
    slice_num: Seq<char>,
) -> Option<usize> {
    match (model, slice_index(slice_num)) {
        (Some(m), Some(n)) => tiles_in_model(m@, n),
        _ => None,
    }
}

/// Looks up how many tiles a slice has.
pub fn model_tiles(model: &Option<Vec<(usize, Option<usize>)>>, slice_num: &str) -> (r: Option<
    usize,
>)
    ensures
        r == tiles_of(*model, slice_num@),
{
    let slices = match model {
        Some(m) => m,
        None => {
            return None;
        },
    };
    let index: u64 = match strip_prefix(slice_num, "slice_") {
        Some(t) => match parse_unsigned(t, usize::MAX as u64) {
            Some(n) => n,
            None => {
                return None;
            },
        },
        None => {
            return None;
        },
    };
    let mut i: usize = 0;
    proof {
        assert(slices@.skip(0) =~= slices@);
    }
    while i < slices.len()
        invariant
            *model == Some(*slices),
            slice_index(slice_num@) == Some(index as nat),
            i <= slices@.len(),
            tiles_in_model(slices@, index as nat) == tiles_in_model(
                slices@.skip(i as int),
                index as nat,
            ),
        decreases slices@.len() - i,
    {
        let ghost rest = slices@.skip(i as int);
        proof {
            assert(rest[0] == slices@[i as int]);
            assert(rest.drop_first() =~= slices@.skip(i + 1));
        }
        if slices[i].0 as u64 == index {
            return slices[i].1;
        }
        i += 1;
    }
    None
}

/// Whether a report is that of a piece of a run. `system` is the name of its
/// proof system, where it is known.
pub open spec fn reports_slice(
    s: DsperseSliceReport,
    a: SliceArtifact,
    system: Option<String>,
    model: Option<Vec<(usize, Option<usize>)>>,
) -> bool {
    &&& s.slice_num == a.slice_num
    &&& s.proof_system@ == (match system {
        Some(n) => n@,
        None => "JSTPROVE"@,
    })
    &&& s.response_time == a.response_time
    &&& s.verification_time == a.verification_time
    &&& s.success == a.proof_hex is Some
    &&& s.is_tiled == tiles_of(model, a.slice_num@) is Some
    &&& s.tile_count == Some(
        match tiles_of(model, a.slice_num@) {
            Some(n) => n,
            None => 1usize,
        },
    )
}

/// Sums a finished run up. `systems` names the proof system of each of its
/// pieces, where it is known, and `model` lists the slices of its model, where
/// that is known.
pub fn report_dsperse_completion(
    run: &ActiveRun,
    systems: &Vec<Option<String>>,
    model: &Option<Vec<(usize, Option<usize>)>>,
    now: u64,
) -> (r: DsperseRunReport)
    requires
        systems@.len() == run.artifacts@.len(),
    ensures
        r.run_uid == run.run_uid,
        r.circuit_id == run.circuit_id,
        r.circuit_name == run.circuit_name,
        r.total_slices == (match *model {
            Some(m) => m@.len(),
            None => run.artifacts@.len(),
        }),
        r.total_run_time == minus(now, run.started_at),
        r.all_successful == all_proved(true, run.artifacts@),
        r.failed_slice_count == unproved(run.artifacts@),
        r.slices@.len() == run.artifacts@.len(),
        forall|i: int|
            0 <= i < r.slices@.len() ==> reports_slice(
                #[trigger] r.slices@[i],
                run.artifacts@[i],
                systems@[i],
                *model,
            ),
{
    let mut slices: Vec<DsperseSliceReport> = Vec::new();
    let mut failed: usize = 0;
    let mut i: usize = 0;
    let n: usize = run.artifacts.len();
    proof {
        assert(run.artifacts@.take(0).len() == 0);
    }
    while i < n
        invariant
            n == run.artifacts@.len(),
            systems@.len() == n,
            i <= n,
            failed <= i,
            failed == unproved(run.artifacts@.take(i as int)),
            slices@.len() == i,
            forall|j: int|
                0 <= j < i ==> reports_slice(
                    #[trigger] slices@[j],
                    run.artifacts@[j],
                    systems@[j],
                    *model,
                ),
        decreases n - i,
    {
        let a = &run.artifacts[i];
        proof {
            assert(run.artifacts@.take(i + 1).drop_last() =~= run.artifacts@.take(i as int));
            assert(run.artifacts@.take(i + 1).last() == run.artifacts@[i as int]);
        }
        let success = a.proof_hex.is_some();
        if !success {
            failed += 1;
        }
        let tiles = model_tiles(model, a.slice_num.as_str());
        let proof_system = match &systems[i] {
            Some(name) => name.clone(),
            None => "JSTPROVE".to_owned(),
        };
        let tile_count: usize = match tiles {
            Some(t) => t,
            None => 1,
        };
        slices.push(
            DsperseSliceReport {
                slice_num: a.slice_num.clone(),
                proof_system,
                response_time: a.response_time,
                verification_time: a.verification_time,
                success,
                is_tiled: tiles.is_some(),
                tile_count: Some(tile_count),
            },
        );
        i += 1;
    }
    proof {
        assert(run.artifacts@.take(i as int) =~= run.artifacts@);
        lemma_unproved(run.artifacts@);
    }
    let total_slices: usize = match model {
        Some(m) => m.len(),
        None => n,
    };
    DsperseRunReport {
        run_uid: run.run_uid.clone(),
        circuit_id: run.circuit_id.clone(),
        circuit_name: run.circuit_name.clone(),
        total_slices,
        total_run_time: now.saturating_sub(run.started_at),
        all_successful: failed == 0 && n > 0,
        failed_slice_count: failed,
        slices,
    }
}

proof fn lemma_unproved(s: Seq<SliceArtifact>)
    ensures
        unproved(s) == 0 <==> (forall|i: int|
            0 <= i < s.len() ==> (#[trigger] s[i]).proof_hex is Some),
    decreases s.len(),
{
    if s.len() > 0 {
        let d = s.drop_last();
        lemma_unproved(d);
        if unproved(s) == 0 {
            assert forall|i: int| 0 <= i < s.len() implies (#[trigger] s[i]).proof_hex is Some by {
                if i < d.len() {
                    assert(d[i] == s[i]);
                }
            }
        } else if forall|i: int| 0 <= i < s.len() ==> (#[trigger] s[i]).proof_hex is Some {
            assert(s[s.len() - 1].proof_hex is Some);
            assert forall|i: int| 0 <= i < d.len() implies (#[trigger] d[i]).proof_hex is Some by {
                assert(d[i] == s[i]);
            }
        }
    }
}

/// What of a finished run is uploaded, if anything: its pieces, under its
/// circuit. Where there is nowhere to upload to, the run keeps its pieces.
pub fn take_artifacts(run: &mut Option<ActiveRun>, uploads: bool) -> (r: Option<Vec<SliceArtifact>>)
    ensures
        match r {
            Some(a) => {
                &&& uploads
                &&& *old(run) matches Some(o) && a == o.artifacts && a@.len() > 0
                &&& *final(run) matches Some(f) && f.artifacts@.len() == 0 && (ActiveRun {
                    artifacts: f.artifacts,
                    ..old(run)->0
                }) == f
            },
            None => {
                &&& !uploads || *old(run) is None || old(run)->0.artifacts@.len() == 0
                &&& *final(run) is Some == *old(run) is Some
                &&& *old(run) is Some ==> final(run)->0@ == old(run)->0@
            },
        },
        !uploads ==> *final(run) == *old(run),
{
    if !uploads {
        return None;
    }
    match run.take() {
        None => None,
        Some(mut r) => {
            let mut taken: Vec<SliceArtifact> = Vec::new();
            std::mem::swap(&mut taken, &mut r.artifacts);
            let some = taken.len() > 0;
            *run = Some(r);
            if some {
                Some(taken)
            } else {
                None
            }
        },
    }
}

/// Closes a run that has come to its end: its slices that bore no fruit are left
/// out of later runs, unless all that were sent to miners did, and the run leaves
/// the books. `slices` lists the slices of the run, and says of each whether it
/// was given up.
pub fn finalize_combined_run(
    runs: &mut IncrementalRunManager,
    scales: &mut InputScales,
    disabled: &mut DisabledSlices,
    run_uid: &str,
    slices: &Vec<(String, bool)>,
    block: u64,
) -> (r: Option<ActiveRun>)
    requires
        old(runs).wf(),
    ensures
        final(runs).wf(),
        final(runs)@ == old(runs)@.without(set![run_uid@]),
        final(scales)@ == old(scales)@.remove_keys(of_runs(set![run_uid@])),
        match r {
            Some(run) => {
                &&& old(runs)@.runs.contains_key(run_uid@)
                &&& run@ == old(runs)@.runs[run_uid@]
                &&& run.run_uid@ == run_uid@
            },
            None => !old(runs)@.runs.contains_key(run_uid@),
        },
        !old(runs)@.runs.contains_key(run_uid@) || run_wide_failure(old(runs)@, run_uid@, slices@)
            ==> final(disabled)@ == old(disabled)@,
        old(runs)@.runs.contains_key(run_uid@) && !run_wide_failure(old(runs)@, run_uid@, slices@)
            ==> final(disabled)@ == with_left_out(
            old(disabled)@,
            old(runs)@.runs[run_uid@].circuit_id,
            fruitless_slices(old(runs)@, run_uid@, slices@),
            block,
        ),
{
    let mut gone: Vec<String> = Vec::new();
    gone.push(run_uid.to_owned());
    proof {
        assert(texts(gone@) =~= seq![run_uid@]);
        assert(seq![run_uid@].to_set() =~= set![run_uid@]) by {
            assert(seq![run_uid@][0] == run_uid@);
        }
    }
    scales.drop_runs(&gone);
    if let Some(circuit_id) = runs.circuit_id_for_run(run_uid) {
        disabled.disable_fruitless(runs, run_uid, circuit_id, slices, block);
    }
    runs.remove_run(run_uid)
}

/// The result of a run that can be asked for is what is delivered to who asks for
/// the run once it is finished.
pub proof fn finished_runs_are_delivered(
    pending: Map<Seq<char>, Option<JsonV>>,
    run_uid: Seq<char>,
    output: Option<JsonV>,
    failed: usize,
    req_id: u32,
    payload: Seq<u8>,
    a: RelayAction,
)
    requires
        pending.contains_key(run_uid),
        json_parsed(payload) matches Some(meta) && asked_run(meta) == Some(run_uid),
        status_calls_for(
            pending.insert(run_uid, Some(run_result(run_uid, output, failed))),
            req_id,
            payload,
            a,
        ),
    ensures
        a matches RelayAction::Deliver { reply, run_uid: told } && told@ == run_uid && reply@
            == json_frame(MSG_STATUS_RESULT, req_id, run_result(run_uid, output, failed)),
{
}

/// Who asks for a run before it is finished is told that it is being worked on.
pub proof fn unfinished_runs_are_processing(
    pending: Map<Seq<char>, Option<JsonV>>,
    run_uid: Seq<char>,
    req_id: u32,
    payload: Seq<u8>,
    a: RelayAction,
)
    requires
        json_parsed(payload) matches Some(meta) && asked_run(meta) == Some(run_uid),
        status_calls_for(pending.insert(run_uid, None), req_id, payload, a),
    ensures
        replies(a, json_frame(MSG_STATUS_RESULT, req_id, processing_json(run_uid))),
{
}

} // verus!
