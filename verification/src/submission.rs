//! What customers submit, and what the validator gives itself to do when they do
//! not.

use vstd::prelude::*;
use vstd::string::*;

use crate::dslice::{forget_results, InputScales};
use crate::incremental_runner::{
    meant_runs, of_runs, ActiveRun, IncrementalRunManager, RunFilter, RunV, RunsV,
};
use crate::json::{items, lemma_items, put, Json, JsonV};
use crate::relay::{json_frame, send_result, PendingRequests, FRAME_SUBMIT_RESULT};
use crate::seqs::{lemma_to_set_push, texts};
use crate::types::{Circuit, DSliceRequest, RunSource};
use crate::work::WorkQueues;

verus! {

/// The dimensions that a list gives, if each of them is one.
pub open spec fn dims_in(s: Seq<JsonV>) -> Option<Seq<usize>>
    decreases s.len(),
{
    if s.len() == 0 {
        Some(Seq::empty())
    } else {
        match (dims_in(s.drop_last()), s.last().unsigned()) {
            (Some(d), Some(n)) => if n <= usize::MAX {
                Some(d.push(n as usize))
            } else {
                None
            },
            _ => None,
        }
    }
}

/// The list under `shape` in a description of inputs.
pub open spec fn shape_list(schema: JsonV) -> Option<Seq<JsonV>> {
    match schema.member("shape"@) {
        Some(v) => v.list(),
        None => None,
    }
}

/// The shape of a customer's tensor that a description of inputs asks for.
pub open spec fn asked_shape(schema: JsonV) -> Option<Seq<usize>> {
    match shape_list(schema) {
        Some(s) => dims_in(s),
        None => None,
    }
}

/// Whether no dimension of a shape is empty.
pub open spec fn no_dim_empty(d: Seq<usize>) -> bool {
    forall|i: int| 0 <= i < d.len() ==> #[trigger] d[i] > 0
}

/// The shape of a tensor for a benchmark: the first shape where there are several,
/// without empty dimensions.
pub open spec fn benchmark_dims(schema: JsonV) -> Option<Seq<usize>> {
    match shape_list(schema) {
        None => None,
        Some(s) => {
            let flat = if s.len() > 0 && s[0].list() is Some {
                s[0].list()->0
            } else {
                s
            };
            match dims_in(flat) {
                Some(d) => if d.len() > 0 && no_dim_empty(d) {
                    Some(d)
                } else {
                    None
                },
                None => None,
            }
        },
    }
}

proof fn lemma_no_dims(s: Seq<JsonV>, i: int)
    requires
        0 <= i < s.len(),
        s[i].unsigned() is None || s[i].unsigned()->0 > usize::MAX,
    ensures
        dims_in(s) is None,
    decreases s.len(),
{
    if i < s.len() - 1 {
        assert(s.drop_last()[i] == s[i]);
        lemma_no_dims(s.drop_last(), i);
    }
}

fn read_dims(v: &Vec<Json>) -> (r: Option<Vec<usize>>)
    ensures
        match r {
            Some(d) => dims_in(items(v@)) == Some(d@),
            None => dims_in(items(v@)) is None,
        },
{
    proof {
        lemma_items(v@);
    }
    let ghost s = items(v@);
    let mut d: Vec<usize> = Vec::new();
    let mut i: usize = 0;
    proof {
        assert(s.take(0).len() == 0);
        assert(d@ =~= Seq::empty());
    }
    while i < v.len()
        invariant
            s == items(v@),
            s.len() == v@.len(),
            forall|k: int| 0 <= k < v@.len() ==> s[k] == (#[trigger] v@[k])@,
            i <= v@.len(),
            dims_in(s.take(i as int)) == Some(d@),
        decreases v@.len() - i,
    {
        proof {
            assert(s.take(i + 1).drop_last() =~= s.take(i as int));
            assert(s.take(i + 1).last() == v@[i as int]@);
            assert(s[i as int] == v@[i as int]@);
        }
        let n: u64 = match v[i].as_u64() {
            Some(n) => n,
            None => {
                proof {
                    lemma_no_dims(s, i as int);
                }
                return None;
            },
        };
        if n > usize::MAX as u64 {
            proof {
                lemma_no_dims(s, i as int);
            }
            return None;
        }
        d.push(n as usize);
        i += 1;
    }
    proof {
        assert(s.take(i as int) =~= s);
    }
    Some(d)
}

fn shape_of(schema: &Json) -> (r: Option<&Vec<Json>>)
    ensures
        match r {
            Some(v) => shape_list(schema@) == Some(items(v@)),
            None => shape_list(schema@) is None,
        },
{
    match schema.get("shape") {
        Some(v) => v.as_array(),
        None => None,
    }
}

/// The shape of a customer's tensor that a description of inputs asks for.
pub fn submission_shape(schema: &Json) -> (r: Option<Vec<usize>>)
    ensures
        match r {
            Some(d) => asked_shape(schema@) == Some(d@),
            None => asked_shape(schema@) is None,
        },
{
    match shape_of(schema) {
        Some(v) => read_dims(v),
        None => None,
    }
}

/// The shape of a tensor for a benchmark.
pub fn benchmark_shape(schema: &Json) -> (r: Option<Vec<usize>>)
    ensures
        match r {
            Some(d) => benchmark_dims(schema@) == Some(d@),
            None => benchmark_dims(schema@) is None,
        },
{
    let dims = match shape_of(schema) {
        Some(v) => v,
        None => {
            return None;
        },
    };
    proof {
        lemma_items(dims@);
    }
    let inner: Option<&Vec<Json>> = if dims.len() > 0 {
        dims[0].as_array()
    } else {
        None
    };
    let flat = match inner {
        Some(v) => v,
        None => dims,
    };
    let d = match read_dims(flat) {
        Some(d) => d,
        None => {
            return None;
        },
    };
    if d.len() > 0 && all_dims_positive(&d) {
        Some(d)
    } else {
        None
    }
}

fn all_dims_positive(d: &Vec<usize>) -> (r: bool)
    ensures
        r == no_dim_empty(d@),
{
    let mut i: usize = 0;
    while i < d.len()
        invariant
            i <= d@.len(),
            forall|j: int| 0 <= j < i ==> #[trigger] d@[j] > 0,
        decreases d@.len() - i,
    {
        if d[i] == 0 {
            return false;
        }
        i += 1;
    }
    true
}

/// What speaks for and against a run of the validator's own.
#[derive(Clone, Copy, Debug)]
pub struct BenchmarkState {
    /// Whether such runs are switched off.
    pub disabled: bool,
    /// How many of them are under way.
    pub runs: usize,
    /// How many of them may be under way at once.
    pub max_runs: usize,
    /// How many pieces and plans of them wait.
    pub supply: usize,
    /// From how many on no further one is started.
    pub low_mark: usize,
    /// Whether there is memory for a further one.
    pub memory_allows: bool,
    /// Whether pieces of a customer's run wait.
    pub api_waits: bool,
    /// Until when none is started.
    pub backoff_until: u64,
}

/// Whether a run of the validator's own is started: always for want of other work,
/// and a further one only where little waits and there is memory for it.
pub fn should_benchmark(s: &BenchmarkState, now: u64) -> (r: bool)
    ensures
        r == {
            &&& !s.disabled
            &&& s.runs < s.max_runs
            &&& s.runs > 0 ==> s.supply < s.low_mark && s.memory_allows
            &&& !s.api_waits
            &&& now >= s.backoff_until
        },
{
    if s.disabled || s.runs >= s.max_runs {
        return false;
    }
    if s.runs > 0 && (s.supply >= s.low_mark || !s.memory_allows) {
        return false;
    }
    !s.api_waits && now >= s.backoff_until
}

/// What a customer is told whose submission is refused.
pub open spec fn refusal_json(error: Seq<char>) -> JsonV {
    JsonV::Object(Map::<Seq<char>, JsonV>::empty().insert("error"@, JsonV::Text(error)))
}

/// The refusal of a submission, for who waits for an answer.
pub fn send_submit_error(req_id: Option<u32>, error: &str) -> (r: Option<Vec<u8>>)
    ensures
        r is Some == req_id is Some,
        r matches Some(f) ==> f@ == json_frame(
            FRAME_SUBMIT_RESULT,
            req_id->0,
            refusal_json(error@),
        ),
{
    match req_id {
        None => None,
        Some(id) => {
            let mut list: Vec<(String, Json)> = Vec::new();
            proof {
                crate::json::lemma_members_empty(list@);
            }
            put(&mut list, "error", Json::Text(error.to_owned()));
            Some(send_result(FRAME_SUBMIT_RESULT, id, &Json::Object(list)))
        },
    }
}

/// What stops a submission.
#[derive(Clone, Copy, Debug, PartialEq, Eq, Structural)]
pub enum SubmissionFault {
    /// The circuit is not known.
    UnknownCircuit,
    /// The inputs do not have the shape that the circuit asks for.
    InvalidInputs,
    /// The tensor cannot be read.
    InvalidTensor,
    /// The run could not be worked out beforehand.
    InferenceFailed,
    /// Working the run out beforehand broke off.
    InferencePanicked,
}

/// How a refusal is worded. `detail` says what is wrong with a circuit or with
/// inputs.
pub open spec fn fault_text(fault: SubmissionFault, detail: Seq<char>) -> Seq<char> {
    match fault {
        SubmissionFault::UnknownCircuit => "unknown circuit: "@ + detail,
        SubmissionFault::InvalidInputs => "invalid input shape: "@ + detail,
        SubmissionFault::InvalidTensor => "invalid tensor payload"@,
        SubmissionFault::InferenceFailed => "combined inference failed"@,
        SubmissionFault::InferencePanicked => "combined inference panicked"@,
    }
}

/// Words a refusal.
pub fn fault_message(fault: SubmissionFault, detail: &str) -> (r: String)
    ensures
        r@ == fault_text(fault, detail@),
{
    match fault {
        SubmissionFault::UnknownCircuit => "unknown circuit: ".to_owned().concat(detail),
        SubmissionFault::InvalidInputs => "invalid input shape: ".to_owned().concat(detail),
        SubmissionFault::InvalidTensor => "invalid tensor payload".to_owned(),
        SubmissionFault::InferenceFailed => "combined inference failed".to_owned(),
        SubmissionFault::InferencePanicked => "combined inference panicked".to_owned(),
    }
}

/// What a customer is told whose run has started.
pub open spec fn started_json(run_uid: Seq<char>, slices: usize, tiles: usize) -> JsonV {
    JsonV::Object(
        Map::<Seq<char>, JsonV>::empty().insert("run_uid"@, JsonV::Text(run_uid)).insert(
            "status"@,
            JsonV::Text("started"@),
        ).insert("total_slices"@, JsonV::Int(slices as int)).insert(
            "total_tiles"@,
            JsonV::Int(tiles as int),
        ),
    )
}

proof fn lemma_without_more(s: RunsV, gone: Set<Seq<char>>, uid: Seq<char>)
    ensures
        s.without(gone).without(set![uid]) == s.without(gone.insert(uid)),
{
    let a = s.without(gone).without(set![uid]);
    let b = s.without(gone.insert(uid));
    assert(a.runs =~= b.runs);
    assert(a.counters =~= b.counters);
    assert(a.verified =~= b.verified);
    assert(a.skipped =~= b.skipped);
}

/// `ended` are the runs in `gone`, each once and as it was.
pub open spec fn are_ended(ended: Seq<ActiveRun>, gone: Set<Seq<char>>, s: RunsV) -> bool {
    &&& forall|i: int, j: int|
        0 <= i < j < ended.len() ==> (#[trigger] ended[i]).run_uid@ != (#[trigger] ended[j]).run_uid@
    &&& forall|i: int|
        0 <= i < ended.len() ==> gone.contains((#[trigger] ended[i]).run_uid@) && ended[i]@
            == s.runs[ended[i].run_uid@]
    &&& forall|u: Seq<char>| #[trigger]
        gone.contains(u) ==> exists|i: int|
            0 <= i < ended.len() && (#[trigger] ended[i]).run_uid@ == u
}

fn end_runs(runs: &mut IncrementalRunManager, uids: &Vec<String>) -> (ended: Vec<ActiveRun>)
    requires
        old(runs).wf(),
        texts(uids@).no_duplicates(),
        texts(uids@).to_set().subset_of(old(runs)@.runs.dom()),
    ensures
        final(runs).wf(),
        final(runs)@ == old(runs)@.without(texts(uids@).to_set()),
        ended@.len() == uids@.len(),
        forall|i: int|
            0 <= i < ended@.len() ==> (#[trigger] ended@[i])@ == old(runs)@.runs[uids@[i]@]
                && ended@[i].run_uid@ == uids@[i]@,
{
    let ghost t = texts(uids@);
    let ghost start = runs@;
    let mut ended: Vec<ActiveRun> = Vec::new();
    let mut i: usize = 0;
    proof {
        assert(t.take(0) =~= Seq::empty());
        let none = start.without(t.take(0).to_set());
        assert(none.runs =~= start.runs);
        assert(none.counters =~= start.counters);
        assert(none.verified =~= start.verified);
        assert(none.skipped =~= start.skipped);
    }
    while i < uids.len()
        invariant
            t == texts(uids@),
            t.no_duplicates(),
            t.to_set().subset_of(start.runs.dom()),
            runs.wf(),
            i <= uids@.len(),
            runs@ == start.without(t.take(i as int).to_set()),
            ended@.len() == i,
            forall|k: int|
                0 <= k < i ==> (#[trigger] ended@[k])@ == start.runs[uids@[k]@]
                    && ended@[k].run_uid@ == uids@[k]@,
        decreases uids@.len() - i,
    {
        let ghost uid = uids@[i as int]@;
        proof {
            assert(t[i as int] == uid);
            assert(t.to_set().contains(uid));
            assert(!t.take(i as int).contains(uid)) by {
                if t.take(i as int).contains(uid) {
                    let k = choose|k: int| 0 <= k < i && t.take(i as int)[k] == uid;
                    assert(t[k] == t[i as int]);
                }
            }
            assert(runs@.runs.contains_key(uid));
            lemma_without_more(start, t.take(i as int).to_set(), uid);
            assert(t.take(i + 1) =~= t.take(i as int).push(uid));
            lemma_to_set_push(t.take(i as int), uid);
        }
        if let Some(run) = runs.remove_run(uids[i].as_str()) {
            ended.push(run);
        }
        i += 1;
    }
    proof {
        assert(t.take(i as int) =~= t);
    }
    ended
}

/// Ends the runs of the validator's own, so that a customer's run has the miners
/// to itself.
pub fn preempt_benchmarks(
    runs: &mut IncrementalRunManager,
    queues: &mut WorkQueues,
    scales: &mut InputScales,
    pending: &mut PendingRequests,
) -> (ended: Vec<ActiveRun>)
    requires
        old(runs).wf(),
    ensures
        final(runs).wf(),
        ({
            let gone = meant_runs(RunFilter::Benchmark, old(runs)@);
            &&& final(runs)@ == old(runs)@.without(gone)
            &&& final(queues).rwr == old(queues).rwr
            &&& final(queues).api@ == old(queues).api@.filter(
                |q: DSliceRequest| !gone.contains(q.run_uid@),
            )
            &&& final(queues).stacked@.len() == 0
            &&& final(scales)@ == old(scales)@.remove_keys(of_runs(gone))
            &&& final(pending)@ == old(pending)@.remove_keys(gone)
            &&& are_ended(ended@, gone, old(runs)@)
        }),
{
    let uids = runs.benchmark_run_uids();
    let ghost gone = meant_runs(RunFilter::Benchmark, runs@);
    proof {
        assert(gone.subset_of(runs@.runs.dom()));
    }
    let ghost t = texts(uids@);
    let ended = end_runs(runs, &uids);
    proof {
        assert forall|i: int| 0 <= i < ended@.len() implies (#[trigger] ended@[i]).run_uid@ == t[i]
            && gone.contains(t[i]) by {
            assert(t.to_set().contains(t[i]));
        }
        assert forall|u: Seq<char>| #[trigger] gone.contains(u) implies exists|i: int|
            0 <= i < ended@.len() && (#[trigger] ended@[i]).run_uid@ == u by {
            assert(t.to_set().contains(u));
            let i = choose|i: int| 0 <= i < t.len() && t[i] == u;
            assert(ended@[i].run_uid@ == u);
        }
    }
    queues.drop_runs(&uids);
    queues.clear_stacked();
    scales.drop_runs(&uids);
    forget_results(pending, &uids);
    ended
}

/// Starts a customer's run: it goes into the books, its result can be asked for,
/// and the answer for who waits for one is handed back. The runs of the
/// validator's own end.
pub fn start_api_run(
    runs: &mut IncrementalRunManager,
    queues: &mut WorkQueues,
    scales: &mut InputScales,
    pending: &mut PendingRequests,
    run_uid: &str,
    circuit: &Circuit,
    request_id: Option<u32>,
    total_slices: usize,
    total_tiles: usize,
    now: u64,
) -> (r: (Option<Vec<u8>>, Vec<ActiveRun>))
    requires
        old(runs).wf(),
    ensures
        final(runs).wf(),
        ({
            let started = old(runs)@.started(
                run_uid@,
                RunV {
                    run_uid: run_uid@,
                    circuit_id: circuit.id@,
                    circuit_name: circuit.name@,
                    run_source: RunSource::Api,
                    started_at: now,
                    last_activity: now,
                    artifacts: Seq::empty(),
                    relay_request_id: request_id,
                },
            );
            let gone = meant_runs(RunFilter::Benchmark, started);
            &&& final(runs)@ == started.without(gone)
            &&& final(queues).rwr == old(queues).rwr
            &&& final(queues).api@ == old(queues).api@.filter(
                |q: DSliceRequest| !gone.contains(q.run_uid@),
            )
            &&& final(queues).stacked@.len() == 0
            &&& final(scales)@ == old(scales)@.remove_keys(of_runs(gone))
            &&& final(pending)@ == old(pending)@.insert(run_uid@, None).remove_keys(gone)
            &&& are_ended(r.1@, gone, started)
        }),
        r.0 is Some == request_id is Some,
        r.0 matches Some(f) ==> f@ == json_frame(
            FRAME_SUBMIT_RESULT,
            request_id->0,
            started_json(run_uid@, total_slices, total_tiles),
        ),
{
    runs.start_run(
        run_uid.to_owned(),
        circuit.id.clone(),
        circuit.name.clone(),
        RunSource::Api,
        request_id,
        now,
    );
    pending.register_pending(run_uid);
    let reply: Option<Vec<u8>> = match request_id {
        None => None,
        Some(id) => {
            let mut list: Vec<(String, Json)> = Vec::new();
            proof {
                crate::json::lemma_members_empty(list@);
            }
            put(&mut list, "run_uid", Json::Text(run_uid.to_owned()));
            put(&mut list, "status", Json::Text("started".to_owned()));
            put(&mut list, "total_slices", Json::Unsigned(total_slices as u64));
            put(&mut list, "total_tiles", Json::Unsigned(total_tiles as u64));
            Some(send_result(FRAME_SUBMIT_RESULT, id, &Json::Object(list)))
        },
    };
    let ended = preempt_benchmarks(runs, queues, scales, pending);
    (reply, ended)
}

} // verus!
