//! Runs of sliced models: how they are planned, sent out, collected and delivered.

use vstd::prelude::*;

use crate::completion::{
    all_proved, reports_slice, run_announced, run_result, slice_index, tiles_in_model, tiles_of,
    unproved, DsperseSliceReport,
};
use crate::consistency::{compared, Comparison, OutputConsistency};
use crate::dispatch::{lemma_picked, picked};
use crate::dslice::{
    all_passed_over, first_live, fruitless, fruitless_slices, is_plan_of, is_request_of, left_out,
    passed_over, refill_marks_of, route, run_wide_failure, sample_count, skipped_in, slice_planned,
    switched_on, taking_part, tiles_error, units_error, value_sum, with_left_out, PlannedPayload,
    PlannedSliceWork, SliceStep, SliceUnits,
};
use crate::incremental_runner::{
    completes, counting, evicted_with, expected_error, meant_runs, out_of_range_text, CounterError,
    RunFilter, RunV, RunsV, SliceArtifact,
};
use crate::json::JsonV;
use crate::planning::{
    activation_prefix, bundle_mismatch, failing, group_split, input_elements, parts_of, passing,
    plan_size, preflight_passes, product, product_sum, signed_product, tile_request_size,
    BundleDispatchMismatch, BundleParams, DimSplitInfo, ExpectedInputs, GroupPayloadPart, SliceWork,
    TilingInfo,
};
use crate::staging::{are_unit_requests, planned_slices, sent_units, SliceInput};
use crate::stepwise::{expects, extracted_step, fills, is_step_request, Stage, StepEvent, StepSlice};
use crate::submission::{
    asked_shape, benchmark_dims, dims_in, fault_text, started_json, SubmissionFault,
};
use crate::text::{decimal_reads_back, decimal_text};
use crate::types::{Circuit, DSliceRequest, RunSource};

verus! {

proof fn lemma_result_names()
    ensures
        "run_uid"@ != "status"@,
        "run_uid"@ != "output"@,
        "run_uid"@ != "failed_slices"@,
        "run_uid"@ != "circuit_id"@,
        "status"@ != "output"@,
        "status"@ != "failed_slices"@,
        "status"@ != "circuit_id"@,
        "output"@ != "failed_slices"@,
        "circuit_id"@ != "failed_slices"@,
        "total_slices"@ != "total_tiles"@,
        "total_slices"@ != "status"@,
        "total_slices"@ != "run_uid"@,
        "total_tiles"@ != "status"@,
        "total_tiles"@ != "run_uid"@,
        "complete"@ != "partial"@,
        "completed"@ != "partial"@,
{
    reveal_strlit("run_uid");
    reveal_strlit("status");
    reveal_strlit("output");
    reveal_strlit("failed_slices");
    reveal_strlit("circuit_id");
    reveal_strlit("total_slices");
    reveal_strlit("total_tiles");
    reveal_strlit("complete");
    reveal_strlit("completed");
    reveal_strlit("partial");
    assert("run_uid"@.len() == 7);
    assert("status"@.len() == 6 && "status"@[0] == 's');
    assert("output"@.len() == 6 && "output"@[0] == 'o');
    assert("failed_slices"@.len() == 13);
    assert("circuit_id"@.len() == 10);
    assert("total_slices"@.len() == 12);
    assert("total_tiles"@.len() == 11);
    assert("complete"@.len() == 8);
    assert("completed"@.len() == 9);
    assert("partial"@.len() == 7);
}

/// The result of a finished run holds the output of the model whenever there is one,
/// is complete exactly where nothing failed, says how much failed otherwise, and
/// holds nothing else.
pub proof fn results_hold_the_output(run_uid: Seq<char>, output: Option<JsonV>, failed: usize)
    ensures
        ({
            let r = run_result(run_uid, output, failed);
            &&& r.member("run_uid"@) == Some(JsonV::Text(run_uid))
            &&& r.member("output"@) == output
            &&& r.member("status"@) == Some(JsonV::Text("complete"@)) <==> failed == 0
            &&& r.member("status"@) == Some(JsonV::Text("partial"@)) <==> failed > 0
            &&& failed > 0 ==> r.member("failed_slices"@) == Some(JsonV::Int(failed as int))
            &&& failed == 0 ==> r.member("failed_slices"@) is None
            &&& forall|k: Seq<char>| #[trigger]
                r.member(k) is Some ==> k == "run_uid"@ || k == "output"@ || k == "status"@ || k
                    == "failed_slices"@
        }),
{
    lemma_result_names();
}

/// Two runs with different outputs have different results.
pub proof fn different_outputs_are_told_apart(
    run_uid: Seq<char>,
    a: Option<JsonV>,
    b: Option<JsonV>,
    failed: usize,
)
    requires
        a != b,
    ensures
        run_result(run_uid, a, failed) != run_result(run_uid, b, failed),
{
    results_hold_the_output(run_uid, a, failed);
    results_hold_the_output(run_uid, b, failed);
}

/// What is announced of a finished run names it and its circuit, and says whether
/// all of it was proved.
pub proof fn announcements_name_the_run(run_uid: Seq<char>, circuit: Seq<char>, failed: usize)
    ensures
        ({
            let r = run_announced(run_uid, circuit, failed);
            &&& r.member("run_uid"@) == Some(JsonV::Text(run_uid))
            &&& r.member("circuit_id"@) == Some(JsonV::Text(circuit))
            &&& r.member("status"@) == Some(JsonV::Text("completed"@)) <==> failed == 0
            &&& r.member("status"@) == Some(JsonV::Text("partial"@)) <==> failed > 0
            &&& failed > 0 ==> r.member("failed_slices"@) == Some(JsonV::Int(failed as int))
        }),
{
    lemma_result_names();
}

/// A customer whose run has started is told its name and how much there is to do.
pub proof fn started_runs_are_announced(run_uid: Seq<char>, slices: usize, tiles: usize)
    ensures
        ({
            let r = started_json(run_uid, slices, tiles);
            &&& r.member("run_uid"@) == Some(JsonV::Text(run_uid))
            &&& r.member("status"@) == Some(JsonV::Text("started"@))
            &&& r.member("total_slices"@) == Some(JsonV::Int(slices as int))
            &&& r.member("total_tiles"@) == Some(JsonV::Int(tiles as int))
        }),
{
    lemma_result_names();
}

/// A refusal says what is wrong.
pub proof fn refusals_say_what_is_wrong(d: Seq<char>)
    ensures
        fault_text(SubmissionFault::UnknownCircuit, d) == "unknown circuit: "@ + d,
        fault_text(SubmissionFault::InvalidInputs, d) == "invalid input shape: "@ + d,
        fault_text(SubmissionFault::InvalidTensor, d) == "invalid tensor payload"@,
        fault_text(SubmissionFault::InferenceFailed, d) == "combined inference failed"@,
        fault_text(SubmissionFault::InferencePanicked, d) == "combined inference panicked"@,
        crate::submission::refusal_json(d).member("error"@) == Some(JsonV::Text(d)),
{
}

/// A run went well exactly where it came to its end with some pieces, each with a
/// proof; the pieces without one are counted.
pub proof fn unproved_pieces_are_counted(s: Seq<SliceArtifact>, a: SliceArtifact)
    ensures
        unproved(Seq::empty()) == 0,
        a.proof_hex is None ==> unproved(s.push(a)) == unproved(s) + 1,
        a.proof_hex is Some ==> unproved(s.push(a)) == unproved(s),
        !all_proved(false, s),
        !all_proved(true, Seq::empty()),
        a.proof_hex is None ==> !all_proved(true, s.push(a)),
        a.proof_hex is Some && (s.len() == 0 || all_proved(true, s)) ==> all_proved(true, s.push(a)),
{
    assert(s.push(a).drop_last() =~= s);
    assert(s.push(a)[s.len() as int] == a);
    if a.proof_hex is Some && (s.len() == 0 || all_proved(true, s)) {
        assert forall|i: int| 0 <= i < s.push(a).len() implies (
        #[trigger] s.push(a)[i]).proof_hex is Some by {
            if i < s.len() {
                assert(s.push(a)[i] == s[i]);
            }
        }
    }
}

/// The report of a piece is that of the piece: its slice, its times, whether it was
/// proved, and how many tiles the model cuts the slice into.
pub proof fn reports_are_of_their_pieces(
    r: DsperseSliceReport,
    a: SliceArtifact,
    system: Option<String>,
    model: Option<Vec<(usize, Option<usize>)>>,
)
    requires
        reports_slice(r, a, system, model),
    ensures
        r.slice_num@ == a.slice_num@,
        r.success <==> a.proof_hex is Some,
        r.response_time == a.response_time && r.verification_time == a.verification_time,
        system matches Some(n) ==> r.proof_system@ == n@,
        system is None ==> r.proof_system@ == "JSTPROVE"@,
        model is None ==> !r.is_tiled && r.tile_count == Some(1usize),
        tiles_of(model, a.slice_num@) matches Some(n) ==> r.is_tiled && r.tile_count == Some(n),
{
}

/// A slice is found in its model by the number in its name, the first of that number.
pub proof fn slices_are_found_by_number(m: Vec<(usize, Option<usize>)>, i: int, n: usize)
    requires
        0 <= i < m@.len(),
        m@[i].0 == n,
        forall|j: int| 0 <= j < i ==> (#[trigger] m@[j]).0 != n,
    ensures
        tiles_of(Some(m), "slice_"@ + decimal_text(n as nat)) == m@[i].1,
        slice_index("slice_"@ + decimal_text(n as nat)) == Some(n as nat),
{
    decimal_reads_back(n as nat);
    let name = "slice_"@ + decimal_text(n as nat);
    assert(name.skip("slice_"@.len() as int) =~= decimal_text(n as nat));
    assert("slice_"@.is_prefix_of(name)) by {
        assert(name.subrange(0, "slice_"@.len() as int) =~= "slice_"@);
    }
    lemma_found(m@, i, n as nat);
}

proof fn lemma_found(m: Seq<(usize, Option<usize>)>, i: int, n: nat)
    requires
        0 <= i < m.len(),
        m[i].0 == n,
        forall|j: int| 0 <= j < i ==> (#[trigger] m[j]).0 != n,
    ensures
        tiles_in_model(m, n) == m[i].1,
    decreases m.len(),
{
    if i > 0 {
        assert(m[0].0 != n);
        let d = m.drop_first();
        assert forall|j: int| 0 <= j < i - 1 implies (#[trigger] d[j]).0 != n by {
            assert(m[j + 1].0 != n);
        }
        lemma_found(d, i - 1, n);
    }
}

/// A slice that the model does not have is in no tiles.
pub proof fn unknown_slices_have_no_tiles(m: Seq<(usize, Option<usize>)>, n: nat)
    requires
        forall|j: int| 0 <= j < m.len() ==> (#[trigger] m[j]).0 != n,
    ensures
        tiles_in_model(m, n) is None,
    decreases m.len(),
{
    if m.len() > 0 {
        assert(m[0].0 != n);
        let d = m.drop_first();
        assert forall|j: int| 0 <= j < d.len() implies (#[trigger] d[j]).0 != n by {
            assert(m[j + 1].0 != n);
        }
        unknown_slices_have_no_tiles(d, n);
    }
}

/// A run that is started is under way as it was started, and others are not
/// concerned; one that is under way already stays as it is.
pub proof fn runs_are_started_once(s: RunsV, run: Seq<char>, r: RunV, other: Seq<char>)
    requires
        other != run,
    ensures
        s.started(run, r).runs.contains_key(run),
        !s.runs.contains_key(run) ==> s.started(run, r).runs[run] == r,
        s.runs.contains_key(run) ==> s.started(run, r).runs[run] == s.runs[run],
        s.started(run, r).runs.contains_key(other) == s.runs.contains_key(other),
        s.runs.contains_key(other) ==> s.started(run, r).runs[other] == s.runs[other],
        s.started(run, r).counters == s.counters && s.started(run, r).evicted == s.evicted,
{
}

/// What happens in a run keeps it from being idle and changes nothing else of it.
pub proof fn activity_is_noted(s: RunsV, run: Seq<char>, now: u64, other: Seq<char>)
    requires
        s.runs.contains_key(run),
        other != run,
    ensures
        s.touched(run, now).runs[run].last_activity == now,
        s.touched(run, now).runs[run].artifacts == s.runs[run].artifacts,
        s.touched(run, now).runs[run].started_at == s.runs[run].started_at,
        s.touched(run, now).runs[run].run_source == s.runs[run].run_source,
        s.touched(run, now).runs[run].circuit_id == s.runs[run].circuit_id,
        s.touched(run, now).runs[run].run_uid == s.runs[run].run_uid,
        s.runs.contains_key(other) ==> s.touched(run, now).runs[other] == s.runs[other],
        s.touched(run, now).counters == s.counters && s.touched(run, now).verified == s.verified,
{
}

/// Of runs that are over nothing is left, and of others everything.
pub proof fn only_ended_runs_go(s: RunsV, gone: Set<Seq<char>>, run: Seq<char>, slice: Seq<char>)
    ensures
        gone.contains(run) ==> !s.without(gone).runs.contains_key(run) && !s.without(
            gone,
        ).counters.contains_key((run, slice)) && !s.without(gone).verified.contains_key((run, slice))
            && !s.without(gone).skipped.contains((run, slice)),
        !gone.contains(run) ==> {
            &&& s.without(gone).runs.contains_key(run) == s.runs.contains_key(run)
            &&& s.runs.contains_key(run) ==> s.without(gone).runs[run] == s.runs[run]
            &&& s.without(gone).counters.contains_key((run, slice)) == s.counters.contains_key(
                (run, slice),
            )
            &&& s.counters.contains_key((run, slice)) ==> s.without(gone).counters[(run, slice)]
                == s.counters[(run, slice)]
            &&& s.without(gone).skipped.contains((run, slice)) == s.skipped.contains((run, slice))
        },
        s.without(gone).evicted == s.evicted,
{
}

/// A run is meant by where it came from, by its circuit, or by how long nothing
/// happened in it.
pub proof fn runs_are_meant_by_their_record(s: RunsV, run: Seq<char>, id: &str, now: u64, timeout: u64)
    requires
        s.runs.contains_key(run),
    ensures
        meant_runs(RunFilter::Benchmark, s).contains(run) <==> s.runs[run].run_source
            == RunSource::Benchmark,
        meant_runs(RunFilter::OfCircuit(id), s).contains(run) <==> s.runs[run].circuit_id == id@,
        s.runs[run].last_activity <= now ==> (meant_runs(RunFilter::IdleFor { now, timeout }, s).contains(
            run,
        ) <==> s.runs[run].last_activity + timeout <= now),
{
}

/// The runs that were given up last are remembered.
pub proof fn the_last_given_up_is_remembered(evicted: Seq<Seq<char>>, gone: Seq<Seq<char>>, run: Seq<char>)
    ensures
        evicted_with(evicted, Seq::empty()) == evicted,
        evicted_with(evicted, gone.push(run)).contains(run),
{
    assert(gone.push(run).drop_last() =~= gone);
    let s = evicted_with(evicted, gone);
    let r = evicted_with(evicted, gone.push(run));
    if !s.contains(run) {
        assert(r[r.len() - 1] == run);
    }
}

/// A count of tiles begins with none come, for tiles of the grid alone, and not a
/// second time while one is under way.
pub proof fn counts_begin_at_nothing(
    s: RunsV,
    run: Seq<char>,
    slice: Seq<char>,
    total: usize,
    expected: Set<u32>,
    i: u32,
)
    ensures
        ({
            let c = counting(s, run, slice, total, expected);
            &&& c.counters.contains_key((run, slice))
            &&& c.counters[(run, slice)].received == Set::<u32>::empty()
            &&& c.counters[(run, slice)].expected == expected
            &&& c.counters[(run, slice)].grid_total == total
            &&& c.runs == s.runs && c.verified == s.verified && c.skipped == s.skipped
        }),
        s.counters.contains_key((run, slice)) ==> expected_error(s, run, slice, total, expected)
            is Some,
        expected.contains(i) && i >= total ==> expected_error(s, run, slice, total, expected)
            is Some,
        expected_error(s, run, slice, total, Set::empty()) == Some(CounterError::NothingExpected),
        expected.contains(i) && (forall|j: u32| #[trigger] expected.contains(j) ==> j < total)
            && !s.counters.contains_key((run, slice)) ==> expected_error(
            s,
            run,
            slice,
            total,
            expected,
        ) is None,
{
}

/// A tile that a slice waits for is taken in: it counts as proved and as come; with
/// the last one the count is over. Any other tile changes neither.
pub proof fn tiles_are_taken_in(s: RunsV, run: Seq<char>, slice: Seq<char>, tile: u32, now: u64)
    requires
        s.counters.contains_key((run, slice)),
        s.verified_tiles(run, slice) < usize::MAX,
    ensures
        ({
            let k = (run, slice);
            let c = s.counters[k];
            let t = s.tile_recorded(run, slice, tile, now);
            let wanted = tile < c.grid_total && c.expected.contains(tile) && !c.received.contains(
                tile,
            );
            &&& wanted ==> t.verified.contains_key(k) && t.verified[k] == s.verified_tiles(run, slice)
                + 1
            &&& wanted && c.received.insert(tile) != c.expected ==> t.counters.contains_key(k)
                && t.counters[k].received == c.received.insert(tile) && t.counters[k].expected
                == c.expected
            &&& wanted && c.received.insert(tile) == c.expected ==> !t.counters.contains_key(k)
            &&& !wanted ==> t.counters == s.counters && t.verified == s.verified
            &&& completes(s, run, slice, tile) <==> wanted && c.received.insert(tile) == c.expected
            &&& s.verified.contains_key(k) ==> s.verified_tiles(run, slice) == s.verified[k]
            &&& !s.verified.contains_key(k) ==> s.verified_tiles(run, slice) == 0
        }),
        out_of_range_text(run, slice, tile, 7) == "tile_idx "@ + decimal_text(tile as nat)
            + " out of range (grid_total "@ + decimal_text(7) + ") for run="@ + run + " slice="@
            + slice,
{
}

/// As many tiles of a customer's slice are proved as the customer wants, at least one
/// and at most all; of a run that measures miners all are.
pub proof fn as_many_tiles_are_proved_as_wanted(n: usize, w: usize, source: RunSource)
    ensures
        sample_count(n, source, None) == n,
        sample_count(n, RunSource::Benchmark, Some(w)) == n,
        n > 1 && 1 <= w <= n ==> sample_count(n, RunSource::Api, Some(w)) == w,
        n > 1 && w > n ==> sample_count(n, RunSource::Api, Some(w)) == n,
        n > 1 && w == 0 ==> sample_count(n, RunSource::Api, Some(w)) == 1,
        n <= 1 ==> sample_count(n, source, Some(w)) == n,
{
}

/// A slice is handed out as it is cut: in groups, in units with weights where that is
/// switched on, in tiles, or whole; one with numbers that are none ends the run.
pub proof fn slices_are_handed_out_as_cut(w: SliceWork, on: bool)
    ensures
        !w.input_finite <==> route(w, on) is NotFinite,
        w.input_finite && group_split(w) is Some <==> route(w, on) is Groups,
        w.input_finite && group_split(w) is None && w.dim_split is None && w.tiling is Some
            <==> route(w, on) is Tiles,
        w.input_finite && group_split(w) is None && w.dim_split is None && w.tiling is None
            <==> route(w, on) is Single,
        w.dim_split matches Some(ds) ==> (w.input_finite && group_split(w) is None ==> {
            &&& on && ds.weight_name is Some && ds.k_dim > 0 && ds.n_dim > 0 <==> route(
                w,
                on,
            ) is WeightBound
            &&& !on ==> route(w, on) is Unsupported
        }),
        group_split(w) matches Some(ds) ==> {
            &&& w.meta_dim_split == Some(ds)
            &&& w.named_input_shapes@.len() > 1
            &&& ds.weight_name is None && ds.num_groups > 0 && ds.elements_per_group > 0
            &&& ds.num_groups * ds.elements_per_group == ds.dim_size
        },
        w.meta_dim_split matches Some(ds) ==> (w.named_input_shapes@.len() > 1
            && ds.weight_name is None && ds.num_groups > 0 && ds.elements_per_group > 0
            && ds.num_groups * ds.elements_per_group == ds.dim_size ==> group_split(w) == Some(ds)),
{
}

/// A setting is switched on by one of five words and by no other.
pub proof fn switches_know_five_words(v: Seq<char>)
    ensures
        switched_on("1"@) && switched_on("true"@) && switched_on("TRUE"@) && switched_on("on"@)
            && switched_on("yes"@),
        v.len() == 0 || v.len() > 4 ==> !switched_on(v),
        v == "0"@ ==> !switched_on(v),
{
    reveal_strlit("1");
    reveal_strlit("0");
    reveal_strlit("true");
    reveal_strlit("TRUE");
    reveal_strlit("on");
    reveal_strlit("yes");
    assert("1"@.len() == 1 && "1"@[0] == '1');
    assert("0"@.len() == 1 && "0"@[0] == '0');
    assert("true"@.len() == 4);
    assert("TRUE"@.len() == 4);
    assert("on"@.len() == 2);
    assert("yes"@.len() == 3);
}

/// A slice that is passed over is noted as such and no longer waited for.
pub proof fn slices_that_are_passed_over_are_not_waited_for(
    s: RunsV,
    run: Seq<char>,
    slice: Seq<char>,
    now: u64,
    slices: Seq<Seq<char>>,
)
    ensures
        passed_over(s, run, slice, now).skipped.contains((run, slice)),
        !passed_over(s, run, slice, now).counters.contains_key((run, slice)),
        passed_over(s, run, slice, now).verified == s.verified,
        s.runs.contains_key(run) ==> passed_over(s, run, slice, now).runs[run].last_activity == now,
        all_passed_over(s, run, slices.push(slice), now).skipped.contains((run, slice)),
        all_passed_over(s, run, Seq::empty(), now) == s,
        forall|k: (Seq<char>, Seq<char>)|
            #![trigger all_passed_over(s, run, slices.push(slice), now).skipped.contains(k)]
            all_passed_over(s, run, slices, now).skipped.contains(k) ==> all_passed_over(
                s,
                run,
                slices.push(slice),
                now,
            ).skipped.contains(k),
{
    assert(slices.push(slice).drop_last() =~= slices);
}

/// A slice of a circuit is left out of runs for as many blocks as the rule says after
/// it bore no fruit, and then takes part again; all others take part.
pub proof fn fruitless_slices_sit_out(
    d: Map<(Seq<char>, Seq<char>), u64>,
    circuit: Seq<char>,
    slice: Seq<char>,
    block: u64,
    rehab: u64,
    ids: Seq<String>,
    id: String,
)
    ensures
        !d.contains_key((circuit, slice)) ==> !left_out(d, circuit, slice, block, rehab),
        d.contains_key((circuit, slice)) && d[(circuit, slice)] <= block ==> (left_out(
            d,
            circuit,
            slice,
            block,
            rehab,
        ) <==> block < d[(circuit, slice)] + rehab),
        left_out(d, circuit, id@, block, rehab) ==> taking_part(
            ids.push(id),
            d,
            circuit,
            block,
            rehab,
            true,
        ) == taking_part(ids, d, circuit, block, rehab, true) && taking_part(
            ids.push(id),
            d,
            circuit,
            block,
            rehab,
            false,
        ) == taking_part(ids, d, circuit, block, rehab, false).push(id@),
        !left_out(d, circuit, id@, block, rehab) ==> taking_part(
            ids.push(id),
            d,
            circuit,
            block,
            rehab,
            true,
        ) == taking_part(ids, d, circuit, block, rehab, true).push(id@) && taking_part(
            ids.push(id),
            d,
            circuit,
            block,
            rehab,
            false,
        ) == taking_part(ids, d, circuit, block, rehab, false),
        taking_part(Seq::empty(), d, circuit, block, rehab, true).len() == 0,
{
    assert(ids.push(id).drop_last() =~= ids);
}

/// Slices that are left out are so from the given block on.
pub proof fn left_out_slices_are_noted(
    d: Map<(Seq<char>, Seq<char>), u64>,
    circuit: Seq<char>,
    slices: Seq<Seq<char>>,
    block: u64,
    i: int,
    other: (Seq<char>, Seq<char>),
)
    ensures
        0 <= i < slices.len() ==> with_left_out(d, circuit, slices, block).contains_key(
            (circuit, slices[i]),
        ) && with_left_out(d, circuit, slices, block)[(circuit, slices[i])] == block,
        other.0 != circuit || !slices.contains(other.1) ==> with_left_out(
            d,
            circuit,
            slices,
            block,
        ).contains_key(other) == d.contains_key(other) && (d.contains_key(other) ==> with_left_out(
            d,
            circuit,
            slices,
            block,
        )[other] == d[other]),
    decreases slices.len(),
{
    if slices.len() > 0 {
        let t = slices.drop_last();
        left_out_slices_are_noted(d, circuit, t, block, i, other);
        assert(slices[slices.len() - 1] == slices.last());
        if t.contains(other.1) {
            let j = choose|j: int| 0 <= j < t.len() && t[j] == other.1;
            assert(slices[j] == other.1);
        }
    }
}

/// A slice bore no fruit where it was sent out, given up, and no tile of it proved;
/// where every slice that was sent out bore none the fault is the validator's.
pub proof fn fruitless_slices_are_found(
    s: RunsV,
    run: Seq<char>,
    slices: Seq<(String, bool)>,
    x: (String, bool),
)
    ensures
        ({
            let bare = x.1 && !s.skipped.contains((run, x.0@)) && (!s.verified.contains_key(
                (run, x.0@),
            ) || s.verified[(run, x.0@)] == 0);
            &&& bare <==> fruitless(s, run, x.0@, x.1)
            &&& bare ==> fruitless_slices(s, run, slices.push(x)) == fruitless_slices(
                s,
                run,
                slices,
            ).push(x.0@)
            &&& !bare ==> fruitless_slices(s, run, slices.push(x)) == fruitless_slices(
                s,
                run,
                slices,
            )
        }),
        fruitless_slices(s, run, Seq::empty()).len() == 0,
        fruitless_slices(s, run, slices).len() == 0 ==> !run_wide_failure(s, run, slices),
        skipped_in(s, run) == 0 && slices.len() > 0 ==> (run_wide_failure(s, run, slices)
            <==> fruitless_slices(s, run, slices).len() == slices.len()),
{
    assert(slices.push(x).drop_last() =~= slices);
}

/// A plan is that of its slice in its run.
pub proof fn plans_are_of_their_slices(
    p: PlannedSliceWork,
    run: Seq<char>,
    circuit: Circuit,
    work: SliceWork,
    source: RunSource,
    sha: Option<String>,
    payload: PlannedPayload,
)
    requires
        is_plan_of(p, run, circuit, work, source, sha, payload),
    ensures
        p.run_uid@ == run && p.slice_id@ == work.slice_id@ && p.circuit == circuit,
        p.run_source == source && p.component_sha == sha && p.payload == payload,
        p.circuit_path == work.circuit_path && p.onnx_path == work.onnx_path,
{
}

/// What is planned of a slice is waited for: exactly the tiles, units or groups that
/// are sent out. A slice that cannot be sent is passed over, and one that breaks the
/// run changes nothing.
pub proof fn what_is_planned_is_waited_for(
    s: RunsV,
    run: Seq<char>,
    work: SliceWork,
    units: SliceUnits,
    on: bool,
    now: u64,
)
    ensures
        ({
            let slice = work.slice_id@;
            let (t, step, payload) = slice_planned(s, run, work, units, on, now);
            &&& step is Planned <==> payload is Some
            &&& step is EndRun ==> t == s
            &&& step is PassedOver ==> t.skipped.contains((run, slice)) && !t.counters.contains_key(
                (run, slice),
            )
            &&& !work.input_finite ==> step is EndRun
            &&& payload matches Some(PlannedPayload::Single) ==> step == SliceStep::Planned(1) && t
                == s && work.tiling is None && work.dim_split is None
            &&& payload matches Some(PlannedPayload::Tiled { tiling, indices }) ==> {
                &&& work.tiling == Some(tiling) && units.prepared == Some(indices)
                &&& t.counters.contains_key((run, slice))
                &&& t.counters[(run, slice)].expected == indices@.to_set()
                &&& t.counters[(run, slice)].grid_total == tiling.num_tiles
                &&& tiling.num_tiles == tiling.tiles_y * tiling.tiles_x
                &&& step == SliceStep::Planned(indices@.len() as usize)
            }
            &&& payload matches Some(PlannedPayload::DimSplit { ds, indices, group_plan }) ==> {
                &&& indices == units.sampled
                &&& t.counters.contains_key((run, slice))
                &&& t.counters[(run, slice)].expected == indices@.to_set()
                &&& step == SliceStep::Planned(indices@.len() as usize)
                &&& group_split(work) is Some ==> group_plan == units.group_plan && group_plan is Some
                    && t.counters[(run, slice)].grid_total == ds.num_groups
                &&& group_split(work) is None ==> on && work.onnx_path is Some && units.num_units
                    == Some(t.counters[(run, slice)].grid_total)
            }
            &&& work.input_finite && group_split(work) is None && work.dim_split is None
                && work.tiling is None ==> payload is Some
        }),
{
}

/// A request for a planned slice is for that slice of that run, with the inputs that
/// were cut for it, and has not been tried yet.
pub proof fn planned_requests_ask_for_their_piece(
    r: DSliceRequest,
    plan: PlannedSliceWork,
    inputs: Seq<u8>,
    tile: Option<u32>,
)
    requires
        is_request_of(r, plan, inputs, tile),
    ensures
        r.run_uid@ == plan.run_uid@ && r.slice_num@ == plan.slice_id@ && r.circuit == plan.circuit,
        r.inputs@ == inputs && r.tile_idx == tile && (r.is_tile <==> tile is Some),
        r.run_source == plan.run_source && r.retry_count == 0 && r.component_sha
            == plan.component_sha,
        r.circuit_path == plan.circuit_path && r.proof_system == plan.circuit.proof_system,
        r.task_id is None,
{
}

/// Of the units of a planned slice those are sent that were planned, each once and in
/// order, and none where the units are not those that were planned for.
pub proof fn planned_units_are_sent(payload: PlannedPayload, n: nat, i: u32)
    ensures
        payload matches PlannedPayload::Tiled { tiling, indices } ==> {
            &&& n != tiling.num_tiles ==> sent_units(payload, n) is None
            &&& sent_units(payload, n) matches Some(c) ==> (c.contains(i as int) <==> i < n
                && indices@.contains(i))
            &&& n == tiling.num_tiles && i < n && indices@.contains(i) ==> sent_units(
                payload,
                n,
            ) is Some
        },
        payload matches PlannedPayload::DimSplit { ds, indices, group_plan } ==> {
            &&& sent_units(payload, n) matches Some(c) ==> (c.contains(i as int) <==> i < n
                && indices@.contains(i))
            &&& i < n && indices@.contains(i) ==> sent_units(payload, n) is Some
            &&& group_plan is Some && ds.weight_name is None ==> sent_units(payload, n) is Some
        },
        payload is Single ==> sent_units(payload, n) is None,
{
    match payload {
        PlannedPayload::Single => {},
        PlannedPayload::Tiled { tiling, indices } => {
            lemma_wanted(indices@, n, i);
        },
        PlannedPayload::DimSplit { ds, indices, group_plan } => {
            lemma_wanted(indices@, n, i);
        },
    }
}

proof fn lemma_wanted(indices: Seq<u32>, n: nat, i: u32)
    ensures
        ({
            let chosen = picked(n, |k: int| crate::dslice::is_wanted(indices, k));
            &&& chosen.contains(i as int) <==> i < n && indices.contains(i)
            &&& i < n && indices.contains(i) ==> chosen.len() > 0
        }),
{
    let pred = |k: int| crate::dslice::is_wanted(indices, k);
    let chosen = picked(n, pred);
    lemma_picked(n, pred);
    let p = crate::dslice::tile_positions(indices);
    if indices.contains(i) {
        let k = choose|k: int| 0 <= k < indices.len() && indices[k] == i;
        assert(p[k] == i);
        assert(p.contains(i as int));
    }
    if p.contains(i as int) {
        let k = choose|k: int| 0 <= k < p.len() && p[k] == i;
        assert(indices[k] == i);
    }
    if chosen.contains(i as int) {
        let k = choose|k: int| 0 <= k < chosen.len() && chosen[k] == i;
        assert(pred(chosen[k]));
    }
    if i < n && indices.contains(i) {
        assert(pred(i as int));
        assert(chosen.contains(i as int));
    }
}

/// The requests for the units of a slice carry each the inputs of its own unit.
pub proof fn units_carry_their_own_inputs(
    r: Seq<DSliceRequest>,
    plan: PlannedSliceWork,
    units: Seq<Vec<u8>>,
    chosen: Seq<int>,
    i: int,
)
    requires
        are_unit_requests(r, plan, units, chosen),
        0 <= i < chosen.len(),
        0 <= chosen[i] <= u32::MAX,
    ensures
        r.len() == chosen.len(),
        r[i].inputs@ == units[chosen[i]]@,
        r[i].tile_idx matches Some(t) && t == chosen[i],
        r[i].is_tile && r[i].run_uid@ == plan.run_uid@ && r[i].slice_num@ == plan.slice_id@,
{
}

/// The plan of all slices goes on slice by slice and stops with one that breaks the
/// run.
pub proof fn plans_go_on_slice_by_slice(
    s: RunsV,
    run: Seq<char>,
    slices: Seq<SliceInput>,
    n: nat,
    on: bool,
    now: u64,
)
    requires
        n < slices.len(),
    ensures
        ({
            let a = planned_slices(s, run, slices, n, on, now);
            let b = planned_slices(s, run, slices, n + 1, on, now);
            let (t, step, payload) = slice_planned(
                a.runs,
                run,
                slices[n as int].work,
                slices[n as int].units,
                on,
                now,
            );
            &&& a.ended ==> b == a
            &&& !a.ended ==> b.runs == t && (b.ended <==> step is EndRun)
            &&& !a.ended && payload is Some ==> b.planned == a.planned.push((n as int, payload->0))
            &&& !a.ended && payload is None ==> b.planned == a.planned
            &&& planned_slices(s, run, slices, 0, on, now).runs == s
            &&& planned_slices(s, run, slices, 0, on, now).planned.len() == 0
        }),
{
}

/// Queues are filled up once less waits than twice what the miners can take, within
/// the limits, and to twice that.
pub proof fn queues_are_filled_to_twice_the_mark(caps: usize, low: usize, max: usize)
    requires
        low <= max,
        max <= usize::MAX / 2,
    ensures
        ({
            let (a, b) = refill_marks_of(caps, low, max);
            &&& low <= a <= max
            &&& low <= 2 * caps <= max ==> a == 2 * caps
            &&& 2 * caps < low ==> a == low
            &&& 2 * caps > max ==> a == max
            &&& b == 2 * a
        }),
{
}

/// Capacities are added up, and plans of runs that are over are passed by until the
/// first of one under way.
pub proof fn dead_plans_are_passed_by(
    plan: Seq<PlannedSliceWork>,
    running: Set<Seq<char>>,
    s: Seq<(u16, usize)>,
    x: (u16, usize),
)
    ensures
        value_sum(Seq::empty()) == 0,
        value_sum(s.push(x)) == value_sum(s) + x.1,
        0 <= first_live(plan, running) <= plan.len(),
        first_live(plan, running) < plan.len() ==> running.contains(
            plan[first_live(plan, running)].run_uid@,
        ),
        forall|i: int|
            0 <= i < first_live(plan, running) ==> !running.contains((#[trigger] plan[i]).run_uid@),
    decreases plan.len(),
{
    assert(s.push(x).drop_last() =~= s);
    if plan.len() > 0 && !running.contains(plan[0].run_uid@) {
        let d = plan.drop_first();
        dead_plans_are_passed_by(d, running, s, x);
        assert forall|i: int| 0 <= i < first_live(plan, running) implies !running.contains(
            (#[trigger] plan[i]).run_uid@,
        ) by {
            if i > 0 {
                assert(d[i - 1] == plan[i]);
            }
        }
    }
}

/// The elements of a shape are the product of its dimensions, and those of several
/// shapes are added up.
pub proof fn elements_are_multiplied_up(
    s: Seq<usize>,
    d: usize,
    t: Seq<i64>,
    e: i64,
    v: Seq<Vec<usize>>,
    x: Vec<usize>,
)
    ensures
        product(Seq::empty()) == 1,
        product(s.push(d)) == product(s) * d,
        signed_product(Seq::empty()) == 1,
        signed_product(t.push(e)) == signed_product(t) * e,
        product_sum(Seq::empty()) == 0,
        product_sum(v.push(x)) == product_sum(v) + product(x@),
{
    assert(s.push(d).drop_last() =~= s);
    assert(t.push(e).drop_last() =~= t);
    assert(v.push(x).drop_last() =~= v);
}

/// What the description of a slice says of its size is taken where every dimension
/// is positive, and nothing is taken from one that says nothing.
pub proof fn descriptions_are_taken_at_their_word(s: Seq<Vec<i64>>, i: int, j: int)
    ensures
        input_elements(Seq::empty()) is NoMetadata,
        0 <= i < s.len() && 0 <= j < s[i]@.len() && s[i]@[j] <= 0 ==> input_elements(s) is Invalid,
        s.len() == 1 && (forall|k: int| 0 <= k < s[0]@.len() ==> #[trigger] s[0]@[k] > 0)
            && signed_product(s[0]@) <= usize::MAX ==> (input_elements(s) matches ExpectedInputs::Count(
            n,
        ) && n == signed_product(s[0]@)),
        s.len() > 0 ==> !(input_elements(s) is NoMetadata),
{
    if 0 <= i < s.len() && 0 <= j < s[i]@.len() && s[i]@[j] <= 0 {
        assert(!crate::planning::all_positive(s[i]@));
    }
    if s.len() == 1 {
        assert(s.drop_last().len() == 0);
        assert(s.last() == s[0]);
        if forall|k: int| 0 <= k < s[0]@.len() ==> #[trigger] s[0]@[k] > 0 {
            assert(crate::planning::shapes_positive(s));
            lemma_positive_product(s[0]@);
            reveal_with_fuel(crate::planning::signed_total, 2);
        }
    }
}

proof fn lemma_positive_product(s: Seq<i64>)
    requires
        forall|k: int| 0 <= k < s.len() ==> #[trigger] s[k] > 0,
    ensures
        signed_product(s) > 0,
    decreases s.len(),
{
    if s.len() > 0 {
        let d = s.drop_last();
        assert forall|k: int| 0 <= k < d.len() implies #[trigger] d[k] > 0 by {
            assert(s[k] > 0);
        }
        lemma_positive_product(d);
        assert(s[s.len() - 1] > 0);
        assert(signed_product(d) * s.last() > 0) by (nonlinear_arith)
            requires
                signed_product(d) > 0,
                s.last() > 0,
        ;
    }
}

/// A slice passes the check before it is sent exactly where its inputs have the size
/// that its description gives, if it gives one, and its circuit takes what is sent;
/// those that pass and those that do not make up all slices.
pub proof fn unfit_slices_are_held_back(
    works: Seq<SliceWork>,
    m: Seq<Option<BundleDispatchMismatch>>,
    n: int,
)
    requires
        works.len() > 0,
        n == works.len() - 1,
        m.len() >= works.len(),
    ensures
        m[n] is Some ==> !preflight_passes(works[n], m[n]),
        input_elements(works[n].meta_input_shape@) is NoMetadata && m[n] is None
            ==> preflight_passes(works[n], m[n]),
        input_elements(works[n].meta_input_shape@) matches ExpectedInputs::Count(k) ==> (m[n] is None
            ==> (preflight_passes(works[n], m[n]) <==> k == works[n].input_len)),
        input_elements(works[n].meta_input_shape@) is Invalid ==> !preflight_passes(works[n], m[n]),
        preflight_passes(works[n], m[n]) ==> passing(works, m) == passing(works.take(n), m).push(
            works[n],
        ) && failing(works, m) == failing(works.take(n), m),
        !preflight_passes(works[n], m[n]) ==> passing(works, m) == passing(works.take(n), m)
            && failing(works, m) == failing(works.take(n), m).push(works[n].slice_id@),
{
    assert(works.drop_last() =~= works.take(n));
}

/// What is sent of a whole slice is held against what its circuit takes, without its
/// weights: they differ where the sizes do, and where it is not known how many of
/// its inputs are weights nothing is said.
pub proof fn whole_slices_are_held_against_their_circuit(w: SliceWork, b: BundleParams, first: Option<usize>)
    requires
        group_split(w) is None,
        w.dim_split is None,
        w.tiling is None,
        product_sum(b.input_shapes@) <= usize::MAX,
    ensures
        !b.weights_as_inputs ==> (bundle_mismatch(w, b, None, first) is None <==> product_sum(
            b.input_shapes@,
        ) == w.input_len),
        !b.weights_as_inputs && product_sum(b.input_shapes@) != w.input_len ==> (bundle_mismatch(
            w,
            b,
            None,
            first,
        ) matches Some(x) && x.bundle_expected == product_sum(b.input_shapes@) && x.per_request_actual
            == w.input_len),
        b.weights_as_inputs && b.initializers is None ==> bundle_mismatch(w, b, None, first) is None,
        b.initializers matches Some(n) ==> (b.weights_as_inputs && n > b.input_shapes@.len()
            ==> bundle_mismatch(w, b, None, first) is None),
        b.initializers matches Some(n) ==> (b.weights_as_inputs && n <= b.input_shapes@.len()
            && product_sum(b.input_shapes@.take(b.input_shapes@.len() - n)) <= usize::MAX ==> (
        bundle_mismatch(w, b, None, first) is None <==> product_sum(
            b.input_shapes@.take(b.input_shapes@.len() - n),
        ) == w.input_len)),
{
    assert(b.input_shapes@.take(b.input_shapes@.len() as int) =~= b.input_shapes@);
}

/// What is sent of a tile is its segment, or the elements of the first tile, for each
/// input; where that is not known nothing is held against the circuit, and else they
/// differ where the sizes do.
pub proof fn tiles_are_held_against_their_circuit(
    w: SliceWork,
    b: BundleParams,
    t: TilingInfo,
    first: Option<usize>,
)
    requires
        group_split(w) is None,
        w.dim_split is None,
        w.tiling == Some(t),
        w.named_input_shapes@.len() <= usize::MAX,
        !b.weights_as_inputs,
        product_sum(b.input_shapes@) <= usize::MAX,
    ensures
        t.ndim != 1 && first is None ==> bundle_mismatch(w, b, None, first) is None,
        t.ndim == 1 && t.segment_size is None ==> bundle_mismatch(w, b, None, first) is None,
        first matches Some(n) ==> (t.ndim != 1 && w.named_input_shapes@.len() <= 1 ==> (
        bundle_mismatch(w, b, None, first) is None <==> product_sum(b.input_shapes@) == n)),
        t.segment_size matches Some(n) ==> (t.ndim == 1 && w.named_input_shapes@.len() <= 1 ==> (
        bundle_mismatch(w, b, None, first) is None <==> product_sum(b.input_shapes@) == n)),
        t.segment_size matches Some(n) ==> (t.ndim == 1 && w.named_input_shapes@.len() > 1 && n
            * w.named_input_shapes@.len() <= usize::MAX ==> tile_request_size(
            t,
            w.named_input_shapes@.len(),
            first,
        ) == Some((n * w.named_input_shapes@.len()) as usize)),
{
    let k = crate::planning::at_least_one(w.named_input_shapes@.len() as usize);
    if let Some(n) = first {
        assert(k == 1 ==> n * k == n) by (nonlinear_arith);
    }
    if let Some(n) = t.segment_size {
        assert(k == 1 ==> n * k == n) by (nonlinear_arith);
        if w.named_input_shapes@.len() > 1 {
            assert(k == w.named_input_shapes@.len());
        }
    }
    assert(b.input_shapes@.take(b.input_shapes@.len() as int) =~= b.input_shapes@);
}

/// What is sent of a group is the parts that are planned; where it is not known
/// nothing is held against the circuit, and else they differ unless it is what the
/// activations of the circuit come to.
pub proof fn groups_are_held_against_their_circuit(
    w: SliceWork,
    b: BundleParams,
    plan: Seq<GroupPayloadPart>,
    part: GroupPayloadPart,
    first: Option<usize>,
    ds: DimSplitInfo,
    shapes: Seq<Vec<usize>>,
)
    requires
        group_split(w) == Some(ds),
    ensures
        bundle_mismatch(w, b, None, first) is None,
        ({
            let inputs = b.input_shapes@;
            let named = w.named_input_shapes@;
            bundle_mismatch(w, b, Some(plan), first) is None <==> plan_size(plan, named, ds) > 0
                && plan_size(plan, named, ds) == product_sum(
                inputs.take(activation_prefix(inputs, named, ds) as int),
            )
        }),
        plan_size(Seq::empty(), shapes, ds) == 0,
        part matches GroupPayloadPart::Whole(i) ==> plan_size(plan.push(part), shapes, ds)
            == plan_size(plan, shapes, ds) + product(shapes[i as int]@),
        part matches GroupPayloadPart::Split(i) ==> plan_size(plan.push(part), shapes, ds)
            == plan_size(plan, shapes, ds) + product(shapes[i as int]@) / (ds.dim_size as nat)
            * (ds.elements_per_group as nat),
{
    assert(plan.push(part).drop_last() =~= plan);
}

/// A number of items fills as many parts as it takes to hold them all.
pub proof fn parts_hold_everything(a: nat, b: nat)
    requires
        b > 0,
    ensures
        parts_of(a, b) * b >= a,
        a > 0 ==> (parts_of(a, b) - 1) * b < a,
{
    assert(parts_of(a, b) * b >= a && (a > 0 ==> (parts_of(a, b) - 1) * b < a))
        by (nonlinear_arith)
        requires
            b > 0,
            parts_of(a, b) == (if a % b == 0 {
                a / b
            } else {
                a / b + 1
            }),
    ;
}

/// A customer's tensor has the shape that the circuit asks for, number by number; a
/// benchmark's has the first of several, and none where a dimension is empty.
pub proof fn shapes_are_read_off_the_circuit(s: Seq<JsonV>, n: u64, schema: JsonV, d: Seq<usize>)
    ensures
        dims_in(Seq::empty()) == Some(Seq::<usize>::empty()),
        n <= usize::MAX ==> (dims_in(s) == Some(d) ==> dims_in(s.push(JsonV::Int(n as int))) == Some(
            d.push(n as usize),
        )),
        dims_in(s.push(JsonV::Null)) is None,
        dims_in(s) is None ==> dims_in(s.push(JsonV::Int(n as int))) is None,
        schema.member("shape"@) is None ==> asked_shape(schema) is None && benchmark_dims(schema)
            is None,
        schema.member("shape"@) == Some(JsonV::Array(s)) ==> asked_shape(schema) == dims_in(s),
        schema.member("shape"@) == Some(JsonV::Array(s)) && s.len() > 0 && s[0].list() is None
            && dims_in(s) == Some(d) && d.len() > 0 && (forall|i: int|
            0 <= i < d.len() ==> #[trigger] d[i] > 0) ==> benchmark_dims(schema) == Some(d),
        schema.member("shape"@) == Some(JsonV::Array(seq![JsonV::Array(s)])) && dims_in(s) == Some(d)
            && d.len() > 0 && (forall|i: int| 0 <= i < d.len() ==> #[trigger] d[i] > 0)
            ==> benchmark_dims(schema) == Some(d),
        benchmark_dims(schema) matches Some(b) ==> b.len() > 0 && forall|i: int|
            0 <= i < b.len() ==> #[trigger] b[i] > 0,
{
    assert(s.push(JsonV::Int(n as int)).drop_last() =~= s);
    assert(s.push(JsonV::Null).drop_last() =~= s);
}

/// Outputs are compared as far as both go; none compare with nothing, and with a
/// number that is not finite nothing agrees.
pub proof fn outputs_are_compared_as_far_as_both_go(e: Seq<u64>, a: Seq<u64>)
    requires
        e.len() <= usize::MAX,
        a.len() <= usize::MAX,
    ensures
        e.len() == 0 || a.len() == 0 ==> (compared(e, a) matches Comparison::Settled(
            OutputConsistency::LengthMismatch { expected, actual },
        ) && expected == e.len() && actual == a.len()),
        compared(e, a) matches Comparison::Compare(n) ==> n > 0 && (n == e.len() || n == a.len()) && n
            <= e.len() && n <= a.len(),
        e.len() > 0 && a.len() > 0 && (forall|i: int|
            0 <= i < e.len() ==> #[trigger] e[i] < 0x7ff0_0000_0000_0000) && (forall|i: int|
            0 <= i < a.len() ==> #[trigger] a[i] < 0x7ff0_0000_0000_0000) ==> compared(e, a)
            is Compare,
        e.len() > 0 && a.len() > 0 && a[0] == 0x7ff0_0000_0000_0000 ==> !(compared(e, a) is Compare),
        e.len() > 0 && a.len() > 0 && e[0] == 0x7ff8_0000_0000_0000 ==> !(compared(e, a) is Compare),
{
    let n = if e.len() < a.len() {
        e.len()
    } else {
        a.len()
    };
    if e.len() > 0 && a.len() > 0 {
        if a[0] == 0x7ff0_0000_0000_0000 {
            assert(!crate::consistency::finite(a[0]));
            assert(!crate::consistency::finite_up_to(a, n as int));
        }
        if e[0] == 0x7ff8_0000_0000_0000 {
            assert(!crate::consistency::finite(e[0]));
            assert(!crate::consistency::finite_up_to(e, n as int));
        }
    }
}

/// A slice that needs no proof is worked out by the validator, which takes its model;
/// one that does is sent out, in tiles where it is cut and has the dimensions for it.
pub proof fn slices_take_their_way(s: StepSlice)
    ensures
        !s.use_circuit && s.onnx_path is Some <==> extracted_step(s) is Infer,
        s.use_circuit && s.tiled && s.input_dims == 4 <==> extracted_step(s) is Split,
        s.use_circuit && !s.tiled <==> extracted_step(s) is Enqueue,
        !s.use_circuit && s.onnx_path is None || s.use_circuit && s.tiled && s.input_dims != 4
            <==> extracted_step(s) is TearDown,
        !fills(None),
{
}

/// A request of a run that goes step by step is for its slice, with the inputs of that
/// step.
pub proof fn steps_ask_for_their_slice(
    r: DSliceRequest,
    slice: StepSlice,
    circuit: Circuit,
    run: Seq<char>,
    source: RunSource,
    inputs: Seq<u8>,
    tile: Option<u32>,
)
    requires
        is_step_request(r, slice, circuit, run, source, inputs, tile),
    ensures
        r.run_uid@ == run && r.slice_num@ == slice.slice_id@ && r.circuit == circuit,
        r.inputs@ == inputs && r.tile_idx == tile && (r.is_tile <==> tile is Some),
        r.run_source == source && r.retry_count == 0 && r.circuit_path == slice.circuit_path,
        r.proof_system == circuit.proof_system,
{
}

/// A run that goes step by step waits for what comes of its last action, and for
/// nothing while miners are at work.
pub proof fn steps_wait_for_their_own_event(e: StepEvent, s: StepSlice, tiles: Vec<Vec<u8>>)
    ensures
        expects(Stage::Choosing, e) <==> e is Chosen,
        expects(Stage::Extracting(s), e) <==> e is Extracted,
        expects(Stage::Inferring(s), e) <==> e is Inferred,
        expects(Stage::Applying, e) <==> e is Applied,
        expects(Stage::Splitting(s), e) <==> e is Tiles,
        expects(Stage::Buffering(s, tiles), e) <==> e is Buffered,
        !expects(Stage::Resting, e),
{
}

/// What keeps a count from being begun is said of it.
pub proof fn counts_that_cannot_begin_say_why(
    s: RunsV,
    run: Seq<char>,
    slice: Seq<char>,
    t: TilingInfo,
    e: Seq<u32>,
)
    ensures
        units_error(s, run, slice, 0, e) is Some,
        t.num_tiles != t.tiles_y * t.tiles_x ==> tiles_error(s, run, slice, t, e) == Some(
            CounterError::InconsistentGrid,
        ),
        t.num_tiles == t.tiles_y * t.tiles_x ==> (tiles_error(s, run, slice, t, e) is None
            <==> expected_error(s, run, slice, t.num_tiles, e.to_set()) is None),
        t.num_tiles > 0 ==> (units_error(s, run, slice, t.num_tiles, e) is None <==> expected_error(
            s,
            run,
            slice,
            t.num_tiles,
            e.to_set(),
        ) is None),
{
}

} // verus!
