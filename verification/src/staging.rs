//! All slices of a run at once: how they are planned, and how a planned slice
//! becomes requests.

use std::collections::VecDeque;
use vstd::prelude::*;

use crate::dispatch::{picked, positions};
use crate::dslice::{
    build_request, is_plan_of, is_request_of, is_wanted, plan_end, plan_slice, slice_planned,
    tiles_to_send, units_to_send, wanted_units, PlanEnd, PlannedPayload, PlannedSliceWork,
    SliceStep, SliceUnits,
};
use crate::incremental_runner::{IncrementalRunManager, RunsV};
use crate::planning::SliceWork;
use crate::types::{Circuit, DSliceRequest, RunSource};

verus! {

/// A slice that is to be planned, with what was worked out of it.
#[derive(Debug)]
pub struct SliceInput {
    pub work: SliceWork,
    pub units: SliceUnits,
    pub component_sha: Option<String>,
}

/// What has come of the first slices of a run.
#[verifier::ext_equal]
pub struct PlanV {
    pub runs: RunsV,
    /// Which slices were planned, and how.
    pub planned: Seq<(int, PlannedPayload)>,
    /// How many units they have together.
    pub units: int,
    /// Whether the run cannot go on.
    pub ended: bool,
}

/// What comes of the first `n` slices of a run. Once the run cannot go on, no
/// further slice is looked at.
pub open spec fn planned_slices(
    s: RunsV,
    run: Seq<char>,
    slices: Seq<SliceInput>,
    n: nat,
    dim_split_enabled: bool,
    now: u64,
) -> PlanV
    decreases n,
{
    if n == 0 {
        PlanV { runs: s, planned: Seq::empty(), units: 0, ended: false }
    } else {
        let before = planned_slices(s, run, slices, (n - 1) as nat, dim_split_enabled, now);
        let x = slices[n - 1];
        if before.ended {
            before
        } else {
            let (t, step, payload) = slice_planned(
                before.runs,
                run,
                x.work,
                x.units,
                dim_split_enabled,
                now,
            );
            PlanV {
                runs: t,
                planned: match payload {
                    Some(p) => before.planned.push((n - 1, p)),
                    None => before.planned,
                },
                units: before.units + match step {
                    SliceStep::Planned(k) => k as int,
                    _ => 0,
                },
                ended: step is EndRun,
            }
        }
    }
}

/// What has become of the plan for a run.
#[derive(Clone, Copy, Debug, PartialEq, Eq, Structural)]
pub enum PlanOutcome {
    /// The run cannot go on.
    EndRun,
    /// Nothing is to be proved; the run is over.
    Finalize,
    /// So many slices are planned.
    Planned(usize),
}

/// Whether the plans at the end of a queue are those of the planned slices.
pub open spec fn plans_follow(
    before: Seq<PlannedSliceWork>,
    after: Seq<PlannedSliceWork>,
    v: PlanV,
    run: Seq<char>,
    circuit: Circuit,
    run_source: RunSource,
    slices: Seq<SliceInput>,
) -> bool {
    &&& after.len() == before.len() + v.planned.len()
    &&& after.take(before.len() as int) == before
    &&& forall|i: int|
        0 <= i < v.planned.len() ==> is_plan_of(
            #[trigger] after[before.len() + i],
            run,
            circuit,
            slices[v.planned[i].0].work,
            run_source,
            slices[v.planned[i].0].component_sha,
            v.planned[i].1,
        )
}

/// Once a run cannot go on, the slices that follow change nothing.
proof fn lemma_ended(
    s: RunsV,
    run: Seq<char>,
    slices: Seq<SliceInput>,
    n: nat,
    m: nat,
    dim_split_enabled: bool,
    now: u64,
)
    requires
        n <= m,
        planned_slices(s, run, slices, n, dim_split_enabled, now).ended,
    ensures
        planned_slices(s, run, slices, m, dim_split_enabled, now) == planned_slices(
            s,
            run,
            slices,
            n,
            dim_split_enabled,
            now,
        ),
    decreases m - n,
{
    if n < m {
        lemma_ended(s, run, slices, n, (m - 1) as nat, dim_split_enabled, now);
    }
}

/// How many slices of a run are worked out before they are planned.
pub const PLAN_BATCH: usize = 16;

/// Slices that are planned batch by batch are planned as if all at once.
pub proof fn batches_add_up(
    s: RunsV,
    run: Seq<char>,
    first: Seq<SliceInput>,
    second: Seq<SliceInput>,
    n: nat,
    dim_split_enabled: bool,
    now: u64,
)
    requires
        n <= second.len(),
        !planned_slices(s, run, first, first.len(), dim_split_enabled, now).ended,
    ensures
        ({
            let a = planned_slices(s, run, first, first.len(), dim_split_enabled, now);
            let b = planned_slices(a.runs, run, second, n, dim_split_enabled, now);
            planned_slices(s, run, first + second, first.len() + n, dim_split_enabled, now) == (
            PlanV {
                runs: b.runs,
                planned: a.planned + b.planned.map_values(
                    |x: (int, PlannedPayload)| (x.0 + first.len(), x.1),
                ),
                units: a.units + b.units,
                ended: b.ended,
            })
        }),
    decreases n,
{
    let shift = |x: (int, PlannedPayload)| (x.0 + first.len(), x.1);
    let a = planned_slices(s, run, first, first.len(), dim_split_enabled, now);
    let b = planned_slices(a.runs, run, second, n, dim_split_enabled, now);
    let both = planned_slices(s, run, first + second, first.len() + n, dim_split_enabled, now);
    if n == 0 {
        lemma_first_only(s, run, first, second, first.len(), dim_split_enabled, now);
        assert(a.planned + b.planned.map_values(shift) =~= a.planned);
    } else {
        batches_add_up(s, run, first, second, (n - 1) as nat, dim_split_enabled, now);
        let before = planned_slices(a.runs, run, second, (n - 1) as nat, dim_split_enabled, now);
        assert((first + second)[first.len() + n - 1] == second[n - 1]);
        if b.planned.len() > before.planned.len() {
            assert(b.planned.map_values(shift) =~= before.planned.map_values(shift).push(
                shift(b.planned.last()),
            ));
        } else {
            assert(b.planned == before.planned);
        }
        assert(both.planned =~= a.planned + b.planned.map_values(shift));
    }
}

/// What comes of the first slices does not depend on those that follow.
proof fn lemma_first_only(
    s: RunsV,
    run: Seq<char>,
    first: Seq<SliceInput>,
    second: Seq<SliceInput>,
    n: nat,
    dim_split_enabled: bool,
    now: u64,
)
    requires
        n <= first.len(),
    ensures
        planned_slices(s, run, first + second, n, dim_split_enabled, now) == planned_slices(
            s,
            run,
            first,
            n,
            dim_split_enabled,
            now,
        ),
    decreases n,
{
    if n > 0 {
        lemma_first_only(s, run, first, second, (n - 1) as nat, dim_split_enabled, now);
        assert((first + second)[n - 1] == first[n - 1]);
    }
}

/// Plans all slices of a run, in order. The plans go to the end of the queue;
/// slices that cannot be sent are passed over, and a slice that breaks the run
/// stops it.
pub fn plan_all_dslices(
    runs: &mut IncrementalRunManager,
    plan: &mut VecDeque<PlannedSliceWork>,
    run_uid: &str,
    circuit: &Circuit,
    run_source: RunSource,
    slices: Vec<SliceInput>,
    dim_split_enabled: bool,
    now: u64,
) -> (r: PlanOutcome)
    requires
        old(runs).wf(),
        forall|i: int|
            0 <= i < slices@.len() ==> ((#[trigger] slices@[i]).work.tiling matches Some(t)
                ==> t.tiles_y * t.tiles_x <= usize::MAX),
    ensures
        final(runs).wf(),
        ({
            let v = planned_slices(
                old(runs)@,
                run_uid@,
                slices@,
                slices@.len(),
                dim_split_enabled,
                now,
            );
            &&& final(runs)@ == v.runs
            &&& plans_follow(
                old(plan)@,
                final(plan)@,
                v,
                run_uid@,
                *circuit,
                run_source,
                slices@,
            )
            &&& r == (if v.ended {
                PlanOutcome::EndRun
            } else if v.planned.len() == 0 {
                PlanOutcome::Finalize
            } else {
                PlanOutcome::Planned(v.planned.len() as usize)
            })
        }),
{
    let ghost all = slices@;
    let ghost s0 = runs@;
    let ghost before = plan@;
    let n: usize = slices.len();
    let mut rest = slices;
    let mut count: usize = 0;
    let mut i: usize = 0;
    proof {
        assert(rest@ =~= all.skip(0));
        assert(plan@.take(before.len() as int) =~= before);
    }
    while i < n
        invariant
            all == slices@,
            n == all.len(),
            i <= n,
            count <= i,
            rest@ == all.skip(i as int),
            runs.wf(),
            s0 == old(runs)@,
            before == old(plan)@,
            forall|k: int|
                0 <= k < all.len() ==> ((#[trigger] all[k]).work.tiling matches Some(t)
                    ==> t.tiles_y * t.tiles_x <= usize::MAX),
            ({
                let v = planned_slices(s0, run_uid@, all, i as nat, dim_split_enabled, now);
                &&& runs@ == v.runs
                &&& !v.ended
                &&& v.planned.len() == count
                &&& forall|k: int|
                    0 <= k < v.planned.len() ==> 0 <= (#[trigger] v.planned[k]).0 < i
                &&& plans_follow(before, plan@, v, run_uid@, *circuit, run_source, all)
            }),
        decreases n - i,
    {
        let x = rest.remove(0);
        proof {
            assert(all.skip(i as int)[0] == all[i as int]);
            assert(rest@ =~= all.skip(i + 1));
        }
        let ghost v = planned_slices(s0, run_uid@, all, i as nat, dim_split_enabled, now);
        let ghost queue = plan@;
        let step = plan_slice(
            runs,
            plan,
            run_uid,
            circuit,
            run_source,
            x.component_sha,
            &x.work,
            x.units,
            dim_split_enabled,
            now,
        );
        let ghost w = planned_slices(s0, run_uid@, all, (i + 1) as nat, dim_split_enabled, now);
        proof {
            let (t, st, payload) = slice_planned(
                v.runs,
                run_uid@,
                all[i as int].work,
                all[i as int].units,
                dim_split_enabled,
                now,
            );
            assert(w.runs == t);
            if payload is Some {
                assert(plan@.drop_last() == queue);
                assert(plan@.take(before.len() as int) =~= before) by {
                    assert forall|k: int| 0 <= k < before.len() implies plan@[k] == before[k] by {
                        assert(plan@.drop_last()[k] == queue[k]);
                        assert(queue.take(before.len() as int)[k] == before[k]);
                    }
                }
                assert forall|k: int| 0 <= k < w.planned.len() implies is_plan_of(
                    #[trigger] plan@[before.len() + k],
                    run_uid@,
                    *circuit,
                    all[w.planned[k].0].work,
                    run_source,
                    all[w.planned[k].0].component_sha,
                    w.planned[k].1,
                ) by {
                    if k < v.planned.len() {
                        assert(plan@.drop_last()[before.len() + k] == queue[before.len() + k]);
                        assert(w.planned[k] == v.planned[k]);
                    } else {
                        assert(plan@[before.len() + k] == plan@.last());
                    }
                }
            } else {
                assert(w.planned == v.planned);
            }
            assert(plans_follow(before, plan@, w, run_uid@, *circuit, run_source, all));
        }
        match step {
            SliceStep::EndRun => {
                proof {
                    assert(w.ended);
                    lemma_ended(
                        s0,
                        run_uid@,
                        all,
                        (i + 1) as nat,
                        n as nat,
                        dim_split_enabled,
                        now,
                    );
                }
                return PlanOutcome::EndRun;
            },
            SliceStep::PassedOver => {},
            SliceStep::Planned(_) => {
                count = count + 1;
            },
        }
        i += 1;
    }
    match plan_end(count) {
        PlanEnd::Finalize => PlanOutcome::Finalize,
        PlanEnd::Refill => PlanOutcome::Planned(count),
    }
}

/// What is sent of a slice: its inputs as a whole, or those of each of its units.
#[derive(Debug)]
pub enum SlicePayloads {
    Whole(Vec<u8>),
    Units(Vec<Vec<u8>>),
}

/// Which of the units of a planned slice are sent, if it can be sent at all: tiles
/// only where there are as many as planned, and tiles and units with weights only
/// where there is one at all.
pub open spec fn sent_units(payload: PlannedPayload, n: nat) -> Option<Seq<int>> {
    match payload {
        PlannedPayload::Single => None,
        PlannedPayload::Tiled { tiling, indices } => {
            let chosen = picked(n, |i: int| is_wanted(indices@, i));
            if n == 0 || n != tiling.num_tiles || chosen.len() == 0 {
                None
            } else {
                Some(chosen)
            }
        },
        PlannedPayload::DimSplit { ds, indices, group_plan } => {
            let chosen = picked(n, |i: int| is_wanted(indices@, i));
            if group_plan is Some && ds.weight_name is None {
                Some(chosen)
            } else if chosen.len() == 0 {
                None
            } else {
                Some(chosen)
            }
        },
    }
}

fn units_sent(payload: &PlannedPayload, n: usize) -> (r: Option<Vec<usize>>)
    ensures
        match r {
            Some(v) => sent_units(*payload, n as nat) == Some(positions(v@)),
            None => sent_units(*payload, n as nat) is None,
        },
{
    match payload {
        PlannedPayload::Single => None,
        PlannedPayload::Tiled { tiling, indices } => tiles_to_send(n, tiling, indices),
        PlannedPayload::DimSplit { ds, indices, group_plan } => {
            if group_plan.is_some() && ds.weight_name.is_none() {
                Some(wanted_units(n, indices))
            } else {
                units_to_send(n, indices)
            }
        },
    }
}

/// Whether requests are those for the given units of a planned slice, in order.
pub open spec fn are_unit_requests(
    r: Seq<DSliceRequest>,
    plan: PlannedSliceWork,
    units: Seq<Vec<u8>>,
    chosen: Seq<int>,
) -> bool {
    &&& r.len() == chosen.len()
    &&& forall|i: int|
        0 <= i < r.len() ==> is_request_of(
            #[trigger] r[i],
            plan,
            units[chosen[i]]@,
            Some(chosen[i] as u32),
        )
}

/// Makes the requests for a planned slice out of what is sent of it, if that could
/// be worked out.
pub fn materialize_planned(plan: &PlannedSliceWork, payloads: Option<SlicePayloads>) -> (r: Option<
    Vec<DSliceRequest>,
>)
    requires
        payloads matches Some(SlicePayloads::Units(u)) ==> u@.len() <= u32::MAX,
    ensures
        match payloads {
            None => r is None,
            Some(SlicePayloads::Whole(b)) => if plan.payload is Single {
                r matches Some(q) && q@.len() == 1 && is_request_of(q@[0], *plan, b@, None)
            } else {
                r is None
            },
            Some(SlicePayloads::Units(u)) => match sent_units(plan.payload, u@.len()) {
                Some(chosen) => r matches Some(q) && are_unit_requests(q@, *plan, u@, chosen),
                None => r is None,
            },
        },
{
    match payloads {
        None => None,
        Some(SlicePayloads::Whole(b)) => match plan.payload {
            PlannedPayload::Single => {
                let mut q: Vec<DSliceRequest> = Vec::new();
                q.push(build_request(plan, b, None));
                Some(q)
            },
            _ => None,
        },
        Some(SlicePayloads::Units(u)) => {
            let n: usize = u.len();
            let chosen = match units_sent(&plan.payload, n) {
                Some(c) => c,
                None => {
                    return None;
                },
            };
            let ghost wanted = positions(chosen@);
            proof {
                lemma_sent_in_range(plan.payload, n as nat, wanted);
            }
            let mut q: Vec<DSliceRequest> = Vec::new();
            let mut i: usize = 0;
            while i < chosen.len()
                invariant
                    n == u@.len(),
                    n <= u32::MAX,
                    i <= chosen@.len(),
                    wanted == positions(chosen@),
                    forall|k: int| 0 <= k < wanted.len() ==> 0 <= #[trigger] wanted[k] < n,
                    are_unit_requests(q@, *plan, u@, wanted.take(i as int)),
                decreases chosen@.len() - i,
            {
                let at: usize = chosen[i];
                proof {
                    assert(wanted[i as int] == at);
                }
                let bytes = u[at].clone();
                proof {
                    assert(bytes@ =~= u@[at as int]@);
                }
                q.push(build_request(plan, bytes, Some(at as u32)));
                proof {
                    assert forall|k: int| 0 <= k < i implies wanted.take(i + 1)[k] == wanted.take(
                        i as int,
                    )[k] by {}
                }
                i += 1;
            }
            proof {
                assert(wanted.take(i as int) =~= wanted);
            }
            Some(q)
        },
    }
}

/// Units that are sent are units of the slice.
proof fn lemma_sent_in_range(payload: PlannedPayload, n: nat, chosen: Seq<int>)
    requires
        sent_units(payload, n) == Some(chosen),
    ensures
        forall|k: int| 0 <= k < chosen.len() ==> 0 <= #[trigger] chosen[k] < n,
{
    match payload {
        PlannedPayload::Single => {},
        PlannedPayload::Tiled { tiling, indices } => {
            crate::dispatch::lemma_picked(n, |i: int| is_wanted(indices@, i));
        },
        PlannedPayload::DimSplit { ds, indices, group_plan } => {
            crate::dispatch::lemma_picked(n, |i: int| is_wanted(indices@, i));
        },
    }
}

/// Every slice that is planned was among those to be planned, and a run that goes
/// on has looked at all of them: each was planned or passed over.
pub proof fn planning_looks_at_every_slice(
    s: RunsV,
    run: Seq<char>,
    slices: Seq<SliceInput>,
    n: nat,
    dim_split_enabled: bool,
    now: u64,
)
    requires
        n <= slices.len(),
    ensures
        ({
            let v = planned_slices(s, run, slices, n, dim_split_enabled, now);
            &&& v.planned.len() <= n
            &&& forall|k: int| 0 <= k < v.planned.len() ==> 0 <= (#[trigger] v.planned[k]).0 < n
            &&& forall|j: int, k: int|
                0 <= j < k < v.planned.len() ==> (#[trigger] v.planned[j]).0 < (
                #[trigger] v.planned[k]).0
        }),
    decreases n,
{
    if n > 0 {
        planning_looks_at_every_slice(s, run, slices, (n - 1) as nat, dim_split_enabled, now);
    }
}

} // verus!
