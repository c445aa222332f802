//! The way of a run from its slices to requests, and its end.

use std::collections::VecDeque;
use vstd::prelude::*;
use vstd::string::*;

use crate::chance::random_below;
use crate::dispatch::{capped, capped_product, picked, positions};
use crate::incremental_runner::{
    counting, drop_runs, expected_error, of_runs, slice_key, CounterError, IncrementalRunManager,
    RunsV, SliceKey, TileGrid,
};
use crate::keyed::{UidMap, VecMap};
use crate::planning::{
    group_dim_split, group_split, is_weight_bound_dim_split, weight_bound, DimSplitInfo,
    GroupPayloadPart, SliceWork, TilingInfo,
};
use crate::relay::PendingRequests;
use crate::rsv::minus;
use crate::seqs::{lemma_to_set_push, texts};
use crate::text::str_eq;
use crate::types::{copy_text, Circuit, DSliceRequest, RunSource};
use crate::work::WorkQueues;

verus! {

/// A sequence with two items exchanged.
pub open spec fn exchanged(s: Seq<usize>, i: int, j: int) -> Seq<usize> {
    s.update(i, s[j]).update(j, s[i])
}

/// The numbers below `n` after the first, second, ... of them has been exchanged
/// with the one at the rolled position.
pub open spec fn shuffled(n: nat, rolls: Seq<usize>) -> Seq<usize>
    decreases rolls.len(),
{
    if rolls.len() == 0 {
        Seq::new(n, |i: int| i as usize)
    } else {
        exchanged(shuffled(n, rolls.drop_last()), rolls.len() - 1, rolls.last() as int)
    }
}

/// Each roll is a position from its own on.
pub open spec fn rolls_in_range(n: nat, rolls: Seq<usize>) -> bool {
    &&& rolls.len() <= n
    &&& forall|i: int| 0 <= i < rolls.len() ==> i <= #[trigger] rolls[i] < n
}

/// The numbers that the rolls pick.
pub open spec fn rolled(n: nat, rolls: Seq<usize>) -> Seq<usize> {
    shuffled(n, rolls).take(rolls.len() as int)
}

proof fn lemma_shuffled(n: nat, rolls: Seq<usize>)
    requires
        n <= usize::MAX,
        rolls_in_range(n, rolls),
    ensures
        shuffled(n, rolls).len() == n,
        shuffled(n, rolls).no_duplicates(),
        forall|i: int| 0 <= i < n ==> #[trigger] shuffled(n, rolls)[i] < n,
    decreases rolls.len(),
{
    let s = shuffled(n, rolls);
    if rolls.len() > 0 {
        let d = rolls.drop_last();
        assert forall|i: int| 0 <= i < d.len() implies i <= #[trigger] d[i] < n by {
            assert(i <= rolls[i] < n);
        }
        lemma_shuffled(n, d);
        let p = shuffled(n, d);
        let i = rolls.len() - 1;
        assert(i <= rolls[i] < n);
        let j = rolls.last() as int;
        assert forall|a: int, b: int| 0 <= a < s.len() && 0 <= b < s.len() && a != b implies s[a]
            != s[b] by {
            let a2 = if a == i {
                j
            } else if a == j {
                i
            } else {
                a
            };
            let b2 = if b == i {
                j
            } else if b == j {
                i
            } else {
                b
            };
            assert(s[a] == p[a2] && s[b] == p[b2]);
        }
    }
}

proof fn lemma_picked_count(n: nat, pred: spec_fn(int) -> bool, chosen: Seq<usize>)
    requires
        chosen.no_duplicates(),
        forall|i: int| 0 <= i < chosen.len() ==> #[trigger] chosen[i] < n,
        forall|i: int| 0 <= i < n ==> (pred(i) <==> positions(chosen).contains(i)),
    ensures
        picked(n, pred).len() == chosen.len(),
{
    crate::dispatch::lemma_picked(n, pred);
    crate::dispatch::lemma_picked_increases(n, pred);
    let p = picked(n, pred);
    let c = positions(chosen);
    assert(p.no_duplicates());
    assert(c.no_duplicates()) by {
        assert forall|i: int, j: int| 0 <= i < c.len() && 0 <= j < c.len() && i != j implies c[i]
            != c[j] by {
            assert(chosen[i] != chosen[j]);
        }
    }
    assert(p.to_set() =~= c.to_set()) by {
        assert forall|x: int| p.to_set().contains(x) == c.to_set().contains(x) by {
            if p.contains(x) {
                let k = choose|k: int| 0 <= k < p.len() && p[k] == x;
                assert(pred(p[k]));
            }
            if c.contains(x) {
                let k = choose|k: int| 0 <= k < c.len() && c[k] == x;
                assert(chosen[k] < n);
                assert(pred(x));
                assert(p.contains(x));
            }
        }
    }
    p.unique_seq_to_set();
    c.unique_seq_to_set();
}

/// The positions below `n` in increasing order.
fn all_indices(n: usize) -> (r: Vec<u32>)
    requires
        n <= u32::MAX,
    ensures
        r@.len() == n,
        forall|i: int| 0 <= i < n ==> #[trigger] r@[i] == i,
{
    let mut r: Vec<u32> = Vec::new();
    let mut i: usize = 0;
    while i < n
        invariant
            i <= n <= u32::MAX,
            r@.len() == i,
            forall|j: int| 0 <= j < i ==> #[trigger] r@[j] == j,
        decreases n - i,
    {
        r.push(i as u32);
        i += 1;
    }
    r
}

/// Tile numbers as mathematical numbers.
pub open spec fn tile_positions(v: Seq<u32>) -> Seq<int> {
    v.map_values(|i: u32| i as int)
}

/// The tiles that the rolls pick, in increasing order.
pub fn tiles_by_rolls(num_tiles: usize, rolls: &Vec<usize>) -> (r: Vec<u32>)
    requires
        num_tiles <= u32::MAX,
        rolls_in_range(num_tiles as nat, rolls@),
    ensures
        tile_positions(r@) == picked(
            num_tiles as nat,
            |i: int| positions(rolled(num_tiles as nat, rolls@)).contains(i),
        ),
        r@.len() == rolls@.len(),
{
    let ghost n = num_tiles as nat;
    let mut indices: Vec<usize> = Vec::new();
    let mut i: usize = 0;
    while i < num_tiles
        invariant
            i <= num_tiles,
            indices@.len() == i,
            forall|j: int| 0 <= j < i ==> #[trigger] indices@[j] == j,
        decreases num_tiles - i,
    {
        indices.push(i);
        i += 1;
    }
    let mut k: usize = 0;
    proof {
        assert(rolls@.take(0).len() == 0);
        assert(indices@ =~= shuffled(n, rolls@.take(0)));
    }
    while k < rolls.len()
        invariant
            n == num_tiles,
            k <= rolls@.len() <= num_tiles,
            rolls_in_range(n, rolls@),
            indices@.len() == num_tiles,
            indices@ == shuffled(n, rolls@.take(k as int)),
        decreases rolls@.len() - k,
    {
        let j: usize = rolls[k];
        let ghost before = indices@;
        proof {
            assert(k <= rolls@[k as int] < n);
            assert(rolls@.take(k + 1).drop_last() =~= rolls@.take(k as int));
            assert(rolls@.take(k + 1).last() == j);
        }
        let a: usize = indices[k];
        let b: usize = indices[j];
        indices.set(k, b);
        indices.set(j, a);
        proof {
            assert(indices@ =~= exchanged(before, k as int, j as int));
        }
        k += 1;
    }
    proof {
        assert(rolls@.take(k as int) =~= rolls@);
        lemma_shuffled(n, rolls@);
    }
    let ghost chosen = rolled(n, rolls@);
    let ghost pred = |i: int| positions(rolled(n, rolls@)).contains(i);
    let mut r: Vec<u32> = Vec::new();
    let mut t: usize = 0;
    proof {
        assert(tile_positions(r@) =~= picked(0, pred));
    }
    while t < num_tiles
        invariant
            n == num_tiles <= u32::MAX,
            t <= num_tiles,
            rolls@.len() <= num_tiles,
            indices@.len() == num_tiles,
            chosen == indices@.take(rolls@.len() as int),
            chosen == rolled(n, rolls@),
            pred == (|i: int| positions(rolled(n, rolls@)).contains(i)),
            tile_positions(r@) == picked(t as nat, pred),
        decreases num_tiles - t,
    {
        let mut q: usize = 0;
        while q < rolls.len() && indices[q] != t
            invariant
                q <= rolls@.len() <= indices@.len(),
                forall|j: int| 0 <= j < q ==> #[trigger] indices@[j] != t,
            decreases rolls@.len() - q,
        {
            q += 1;
        }
        let ghost before = r@;
        if q < rolls.len() {
            r.push(t as u32);
            proof {
                assert(positions(chosen)[q as int] == t);
                assert(pred(t as int));
                assert(tile_positions(r@) =~= tile_positions(before).push(t as int));
            }
        } else {
            proof {
                if positions(chosen).contains(t as int) {
                    let j = choose|j: int| 0 <= j < chosen.len() && positions(chosen)[j] == t;
                    assert(indices@[j] == t);
                }
                assert(!pred(t as int));
            }
        }
        t += 1;
    }
    proof {
        assert forall|i: int| 0 <= i < chosen.len() implies #[trigger] chosen[i] < n by {
            assert(shuffled(n, rolls@)[i] < n);
        }
        assert(chosen.no_duplicates()) by {
            assert forall|i: int, j: int| 0 <= i < chosen.len() && 0 <= j < chosen.len() && i != j implies chosen[i] != chosen[j] by {
                assert(shuffled(n, rolls@)[i] != shuffled(n, rolls@)[j]);
            }
        }
        lemma_picked_count(n, pred, chosen);
        assert(tile_positions(r@).len() == r@.len());
    }
    r
}

/// How many tiles of a slice are proved: all of them where the run only measures
/// miners or the whole is asked for, else as many as are wanted, but at least
/// one.
pub open spec fn sample_count(num_tiles: usize, run_source: RunSource, wanted: Option<usize>) -> usize {
    match wanted {
        Some(w) => if run_source == RunSource::Benchmark || num_tiles <= 1 {
            num_tiles
        } else if w < 1 {
            1
        } else if w >= num_tiles {
            num_tiles
        } else {
            w
        },
        None => num_tiles,
    }
}

/// Picks the tiles of a slice that are proved, in increasing order. Which ones
/// they are is left to chance where not all of them are.
pub fn sample_tile_indices(num_tiles: usize, run_source: RunSource, wanted: Option<usize>) -> (r: Vec<
    u32,
>)
    requires
        num_tiles <= u32::MAX,
    ensures
        r@.len() == sample_count(num_tiles, run_source, wanted),
        forall|i: int| 0 <= i < r@.len() ==> #[trigger] r@[i] < num_tiles,
        forall|i: int, j: int|
            0 <= i < j < r@.len() ==> #[trigger] r@[i] < #[trigger] r@[j],
{
    let w: usize = match wanted {
        None => {
            return all_indices(num_tiles);
        },
        Some(w) => w,
    };
    if run_source == RunSource::Benchmark || num_tiles <= 1 || w >= num_tiles {
        return all_indices(num_tiles);
    }
    let target: usize = if w < 1 {
        1
    } else {
        w
    };
    let mut rolls: Vec<usize> = Vec::new();
    let mut i: usize = 0;
    while i < target
        invariant
            i <= target < num_tiles <= u32::MAX,
            rolls@.len() == i,
            rolls_in_range(num_tiles as nat, rolls@),
        decreases target - i,
    {
        let roll: u64 = random_below((num_tiles - i) as u64);
        rolls.push(i + roll as usize);
        i += 1;
    }
    let r = tiles_by_rolls(num_tiles, &rolls);
    proof {
        let n = num_tiles as nat;
        let pred = |i: int| positions(rolled(n, rolls@)).contains(i);
        crate::dispatch::lemma_picked(n, pred);
        crate::dispatch::lemma_picked_increases(n, pred);
        let p = picked(n, pred);
        assert(tile_positions(r@) == p);
        assert forall|i: int| 0 <= i < r@.len() implies #[trigger] r@[i] < num_tiles by {
            assert(tile_positions(r@)[i] == r@[i]);
            assert(p[i] < n);
        }
        assert forall|i: int, j: int| 0 <= i < j < r@.len() implies #[trigger] r@[i]
            < #[trigger] r@[j] by {
            assert(tile_positions(r@)[i] == r@[i] && tile_positions(r@)[j] == r@[j]);
            assert(p[i] < p[j]);
        }
    }
    r
}

/// How a slice is handed out to miners.
#[derive(Clone, Copy, Debug, PartialEq, Eq, Structural)]
pub enum PlanRoute {
    /// Its inputs are not numbers to be worked with; the run ends.
    NotFinite,
    /// In groups along a dimension.
    Groups,
    /// In units that carry their weights with them.
    WeightBound,
    /// In a way that is not supported; the slice is passed over.
    Unsupported,
    /// In tiles.
    Tiles,
    /// As a whole.
    Single,
}

/// How a slice is handed out to miners.
pub open spec fn route(w: SliceWork, dim_split_enabled: bool) -> PlanRoute {
    if !w.input_finite {
        PlanRoute::NotFinite
    } else if group_split(w) is Some {
        PlanRoute::Groups
    } else {
        match w.dim_split {
            Some(ds) => if dim_split_enabled && weight_bound(ds) {
                PlanRoute::WeightBound
            } else {
                PlanRoute::Unsupported
            },
            None => if w.tiling is Some {
                PlanRoute::Tiles
            } else {
                PlanRoute::Single
            },
        }
    }
}

/// Decides how a slice is handed out to miners.
pub fn plan_route(work: &SliceWork, dim_split_enabled: bool) -> (r: PlanRoute)
    ensures
        r == route(*work, dim_split_enabled),
{
    if !work.input_finite {
        return PlanRoute::NotFinite;
    }
    if group_dim_split(work).is_some() {
        return PlanRoute::Groups;
    }
    match &work.dim_split {
        Some(ds) => if dim_split_enabled && is_weight_bound_dim_split(ds) {
            PlanRoute::WeightBound
        } else {
            PlanRoute::Unsupported
        },
        None => if work.tiling.is_some() {
            PlanRoute::Tiles
        } else {
            PlanRoute::Single
        },
    }
}

/// Whether a setting switches something on.
pub open spec fn switched_on(v: Seq<char>) -> bool {
    v == "1"@ || v == "true"@ || v == "TRUE"@ || v == "on"@ || v == "yes"@
}

/// Whether the setting for units with weights switches them on; without a
/// setting they are off.
pub fn dim_split_dispatch_enabled(setting: Option<&str>) -> (r: bool)
    ensures
        r == (setting matches Some(v) && switched_on(crate::text::trimmed(v@))),
{
    match setting {
        Some(v) => {
            let t = crate::text::trim(v);
            str_eq(t, "1") || str_eq(t, "true") || str_eq(t, "TRUE") || str_eq(t, "on") || str_eq(
                t,
                "yes",
            )
        },
        None => false,
    }
}

/// The work of a slice, planned but not yet made.
#[derive(Debug)]
pub enum PlannedPayload {
    Single,
    Tiled { tiling: TilingInfo, indices: Vec<u32> },
    DimSplit { ds: DimSplitInfo, indices: Vec<u32>, group_plan: Option<Vec<GroupPayloadPart>> },
}

/// A slice whose work is planned.
#[derive(Debug)]
pub struct PlannedSliceWork {
    pub run_uid: String,
    pub circuit: Circuit,
    pub slice_id: String,
    pub run_source: RunSource,
    pub circuit_path: Option<String>,
    pub onnx_path: Option<String>,
    pub component_sha: Option<String>,
    pub payload: PlannedPayload,
}

/// What the start of a count of units says.
pub open spec fn units_error(
    s: RunsV,
    run: Seq<char>,
    slice: Seq<char>,
    total: usize,
    expected: Seq<u32>,
) -> Option<CounterError> {
    if total == 0 {
        Some(CounterError::NoUnits)
    } else {
        expected_error(s, run, slice, total, expected.to_set())
    }
}

/// Plans a slice that is handed out in groups. `sampled` are the groups that are
/// proved, and `group_plan` what is sent for one, as far as it could be worked
/// out. A slice that cannot be planned is passed over.
pub fn plan_group_work(
    runs: &mut IncrementalRunManager,
    run_uid: &str,
    slice_id: &str,
    ds: &DimSplitInfo,
    sampled: Vec<u32>,
    group_plan: Option<Vec<GroupPayloadPart>>,
) -> (r: Option<(PlannedPayload, usize)>)
    requires
        old(runs).wf(),
    ensures
        final(runs).wf(),
        match units_error(old(runs)@, run_uid@, slice_id@, ds.num_groups, sampled@) {
            Some(_) => r is None && final(runs)@ == old(runs)@,
            None => {
                &&& final(runs)@ == counting(
                    old(runs)@,
                    run_uid@,
                    slice_id@,
                    ds.num_groups,
                    sampled@.to_set(),
                )
                &&& r is Some == group_plan is Some
                &&& r matches Some((p, n)) ==> n == sampled@.len() && p == (
                PlannedPayload::DimSplit { ds: *ds, indices: sampled, group_plan })
            },
        },
{
    if runs.init_dim_split_counter(run_uid, slice_id, ds.num_groups, &sampled).is_err() {
        return None;
    }
    if group_plan.is_none() {
        return None;
    }
    let count: usize = sampled.len();
    Some((PlannedPayload::DimSplit { ds: ds.copy(), indices: sampled, group_plan }, count))
}

/// Plans a slice that is handed out in units with their weights. `num_units` is
/// how many there are, as far as it could be worked out.
pub fn plan_dim_split_work(
    runs: &mut IncrementalRunManager,
    run_uid: &str,
    slice_id: &str,
    has_onnx: bool,
    ds: &DimSplitInfo,
    num_units: Option<usize>,
    sampled: Vec<u32>,
) -> (r: Option<(PlannedPayload, usize)>)
    requires
        old(runs).wf(),
    ensures
        final(runs).wf(),
        !has_onnx || num_units is None ==> r is None && final(runs)@ == old(runs)@,
        has_onnx && num_units is Some ==> match units_error(
            old(runs)@,
            run_uid@,
            slice_id@,
            num_units->0,
            sampled@,
        ) {
            Some(_) => r is None && final(runs)@ == old(runs)@,
            None => {
                &&& final(runs)@ == counting(
                    old(runs)@,
                    run_uid@,
                    slice_id@,
                    num_units->0,
                    sampled@.to_set(),
                )
                &&& r == Some(
                    (
                        (PlannedPayload::DimSplit { ds: *ds, indices: sampled, group_plan: None }),
                        sampled@.len() as usize,
                    ),
                )
            },
        },
{
    if !has_onnx {
        return None;
    }
    let total: usize = match num_units {
        Some(n) => n,
        None => {
            return None;
        },
    };
    if runs.init_dim_split_counter(run_uid, slice_id, total, &sampled).is_err() {
        return None;
    }
    let count: usize = sampled.len();
    Some((PlannedPayload::DimSplit { ds: ds.copy(), indices: sampled, group_plan: None }, count))
}

/// What the start of a count of tiles says.
pub open spec fn tiles_error(
    s: RunsV,
    run: Seq<char>,
    slice: Seq<char>,
    t: TilingInfo,
    expected: Seq<u32>,
) -> Option<CounterError> {
    if t.num_tiles != t.tiles_y * t.tiles_x {
        Some(CounterError::InconsistentGrid)
    } else {
        expected_error(s, run, slice, t.num_tiles, expected.to_set())
    }
}

/// Plans a slice that is handed out in tiles. `prepared` are the tiles that are
/// proved, in increasing order, as far as the slice could be cut into them. A
/// slice that cannot be planned ends the run.
pub fn plan_tiled_work(
    runs: &mut IncrementalRunManager,
    run_uid: &str,
    slice_id: &str,
    tiling: &TilingInfo,
    prepared: Option<Vec<u32>>,
) -> (r: Option<(PlannedPayload, usize)>)
    requires
        old(runs).wf(),
        tiling.tiles_y * tiling.tiles_x <= usize::MAX,
    ensures
        final(runs).wf(),
        prepared is None ==> r is None && final(runs)@ == old(runs)@,
        prepared matches Some(p) ==> match tiles_error(
            old(runs)@,
            run_uid@,
            slice_id@,
            *tiling,
            p@,
        ) {
            Some(_) => r is None && final(runs)@ == old(runs)@,
            None => {
                &&& final(runs)@ == counting(
                    old(runs)@,
                    run_uid@,
                    slice_id@,
                    tiling.num_tiles,
                    p@.to_set(),
                )
                &&& r == Some(
                    ((PlannedPayload::Tiled { tiling: *tiling, indices: p }), p@.len() as usize),
                )
            },
        },
{
    let indices = match prepared {
        Some(p) => p,
        None => {
            return None;
        },
    };
    let grid = TileGrid {
        num_tiles: tiling.num_tiles,
        tiles_y: tiling.tiles_y,
        tiles_x: tiling.tiles_x,
    };
    if runs.init_tile_counter(run_uid, slice_id, &grid, &indices).is_err() {
        return None;
    }
    let count: usize = indices.len();
    Some((PlannedPayload::Tiled { tiling: *tiling, indices }, count))
}

/// After a slice has been passed over.
pub open spec fn passed_over(s: RunsV, run: Seq<char>, slice: Seq<char>, now: u64) -> RunsV {
    RunsV {
        counters: s.counters.remove((run, slice)),
        skipped: s.skipped.insert((run, slice)),
        ..s.touched(run, now)
    }
}

/// Passes a slice over: it is given up without being sent to a miner.
pub fn skip_slice(runs: &mut IncrementalRunManager, run_uid: &str, slice_id: &str, now: u64)
    requires
        old(runs).wf(),
    ensures
        final(runs).wf(),
        final(runs)@ == passed_over(old(runs)@, run_uid@, slice_id@, now),
{
    runs.mark_slice_failed(run_uid, slice_id, now);
    runs.note_slice_skipped(run_uid, slice_id);
    proof {
        assert(runs@ =~= passed_over(old(runs)@, run_uid@, slice_id@, now));
    }
}

/// The slices that found no miner to prove them in a whole run, with the block
/// at which that was found.
pub struct DisabledSlices {
    since: VecMap<SliceKey, u64>,
}

impl View for DisabledSlices {
    type V = Map<(Seq<char>, Seq<char>), u64>;

    closed spec fn view(&self) -> Map<(Seq<char>, Seq<char>), u64> {
        self.since@
    }
}

/// Whether a slice of a circuit is left out of runs at a block.
pub open spec fn left_out(
    d: Map<(Seq<char>, Seq<char>), u64>,
    circuit: Seq<char>,
    slice: Seq<char>,
    block: u64,
    rehab_blocks: u64,
) -> bool {
    d.contains_key((circuit, slice)) && minus(block, d[(circuit, slice)]) < rehab_blocks
}

/// What of a list of slices takes part in a run.
pub open spec fn taking_part(
    ids: Seq<String>,
    d: Map<(Seq<char>, Seq<char>), u64>,
    circuit: Seq<char>,
    block: u64,
    rehab_blocks: u64,
    part: bool,
) -> Seq<Seq<char>>
    decreases ids.len(),
{
    if ids.len() == 0 {
        Seq::empty()
    } else {
        let r = taking_part(ids.drop_last(), d, circuit, block, rehab_blocks, part);
        if left_out(d, circuit, ids.last()@, block, rehab_blocks) == !part {
            r.push(ids.last()@)
        } else {
            r
        }
    }
}

/// The runs after some slices have been passed over, in order.
pub open spec fn all_passed_over(s: RunsV, run: Seq<char>, slices: Seq<Seq<char>>, now: u64) -> RunsV
    decreases slices.len(),
{
    if slices.len() == 0 {
        s
    } else {
        passed_over(all_passed_over(s, run, slices.drop_last(), now), run, slices.last(), now)
    }
}

impl DisabledSlices {
    /// No slice is left out.
    pub fn new() -> (d: Self)
        ensures
            d@ == Map::<(Seq<char>, Seq<char>), u64>::empty(),
    {
        DisabledSlices { since: VecMap::new() }
    }

    /// Whether a slice of a circuit is left out of runs at a block.
    pub fn is_left_out(&self, circuit: &str, slice: &str, block: u64, rehab_blocks: u64) -> (r: bool)
        ensures
            r == left_out(self@, circuit@, slice@, block, rehab_blocks),
    {
        match self.since.get(&slice_key(circuit, slice)) {
            Some(at) => block.saturating_sub(*at) < rehab_blocks,
            None => false,
        }
    }

    /// Forgets what is known of the slices of a circuit.
    pub fn forget_circuit(&mut self, circuit: &str)
        ensures
            final(self)@ == old(self)@.remove_keys(of_runs(set![circuit@])),
    {
        let mut gone: Vec<String> = Vec::new();
        gone.push(circuit.to_owned());
        proof {
            assert(texts(gone@) =~= seq![circuit@]);
            assert(seq![circuit@].to_set() =~= set![circuit@]) by {
                assert(seq![circuit@][0] == circuit@);
            }
        }
        drop_runs(&mut self.since, &gone);
    }

    /// Passes over the slices that are left out, and hands back the others, in
    /// order.
    pub fn filter_slices(
        &self,
        runs: &mut IncrementalRunManager,
        run_uid: &str,
        circuit: &str,
        slice_ids: Vec<String>,
        block: u64,
        rehab_blocks: u64,
        now: u64,
    ) -> (kept: Vec<String>)
        requires
            old(runs).wf(),
        ensures
            final(runs).wf(),
            texts(kept@) == taking_part(slice_ids@, self@, circuit@, block, rehab_blocks, true),
            final(runs)@ == all_passed_over(
                old(runs)@,
                run_uid@,
                taking_part(slice_ids@, self@, circuit@, block, rehab_blocks, false),
                now,
            ),
    {
        let ghost d = self@;
        let mut kept: Vec<String> = Vec::new();
        let mut i: usize = 0;
        proof {
            assert(slice_ids@.take(0).len() == 0);
            assert(texts(kept@) =~= taking_part(
                slice_ids@.take(0),
                d,
                circuit@,
                block,
                rehab_blocks,
                true,
            ));
        }
        while i < slice_ids.len()
            invariant
                d == self@,
                i <= slice_ids@.len(),
                runs.wf(),
                texts(kept@) == taking_part(
                    slice_ids@.take(i as int),
                    d,
                    circuit@,
                    block,
                    rehab_blocks,
                    true,
                ),
                runs@ == all_passed_over(
                    old(runs)@,
                    run_uid@,
                    taking_part(
                        slice_ids@.take(i as int),
                        d,
                        circuit@,
                        block,
                        rehab_blocks,
                        false,
                    ),
                    now,
                ),
            decreases slice_ids@.len() - i,
        {
            let ghost before = texts(kept@);
            let ghost over = taking_part(
                slice_ids@.take(i as int),
                d,
                circuit@,
                block,
                rehab_blocks,
                false,
            );
            proof {
                assert(slice_ids@.take(i + 1).drop_last() =~= slice_ids@.take(i as int));
                assert(slice_ids@.take(i + 1).last() == slice_ids@[i as int]);
            }
            if self.is_left_out(circuit, slice_ids[i].as_str(), block, rehab_blocks) {
                skip_slice(runs, run_uid, slice_ids[i].as_str(), now);
                proof {
                    assert(over.push(slice_ids@[i as int]@).drop_last() =~= over);
                }
            } else {
                kept.push(slice_ids[i].clone());
                proof {
                    assert(texts(kept@) =~= before.push(slice_ids@[i as int]@));
                }
            }
            i += 1;
        }
        proof {
            assert(slice_ids@.take(i as int) =~= slice_ids@);
        }
        kept
    }
}

/// What became of a slice that was to be planned.
#[derive(Clone, Copy, Debug, PartialEq, Eq, Structural)]
pub enum SliceStep {
    /// The run cannot go on.
    EndRun,
    /// The slice was passed over.
    PassedOver,
    /// The slice was planned, in so many units.
    Planned(usize),
}

/// What was worked out of a slice before it is planned.
#[derive(Debug)]
pub struct SliceUnits {
    /// The groups, units or tiles that are proved, in increasing order.
    pub sampled: Vec<u32>,
    /// What is sent for a group, as far as it could be worked out.
    pub group_plan: Option<Vec<GroupPayloadPart>>,
    /// How many units with weights there are, as far as it could be worked out.
    pub num_units: Option<usize>,
    /// The tiles that are proved and could be cut out, if any.
    pub prepared: Option<Vec<u32>>,
}

/// Whether a plan is that of a slice.
pub open spec fn is_plan_of(
    p: PlannedSliceWork,
    run: Seq<char>,
    circuit: Circuit,
    work: SliceWork,
    run_source: RunSource,
    component_sha: Option<String>,
    payload: PlannedPayload,
) -> bool {
    &&& p.run_uid@ == run
    &&& p.circuit == circuit
    &&& p.slice_id == work.slice_id
    &&& p.run_source == run_source
    &&& p.circuit_path == work.circuit_path
    &&& p.onnx_path == work.onnx_path
    &&& p.component_sha == component_sha
    &&& p.payload == payload
}

/// What planning a slice does to the runs, and what comes of it: the payload that
/// is planned and its units, or how it ended else.
pub open spec fn slice_planned(
    s: RunsV,
    run: Seq<char>,
    work: SliceWork,
    units: SliceUnits,
    dim_split_enabled: bool,
    now: u64,
) -> (RunsV, SliceStep, Option<PlannedPayload>) {
    let slice = work.slice_id@;
    let over = (passed_over(s, run, slice, now), SliceStep::PassedOver, None::<PlannedPayload>);
    match route(work, dim_split_enabled) {
        PlanRoute::NotFinite => (s, SliceStep::EndRun, None),
        PlanRoute::Unsupported => over,
        PlanRoute::Single => (s, SliceStep::Planned(1), Some(PlannedPayload::Single)),
        PlanRoute::Groups => {
            let ds = group_split(work)->0;
            if units_error(s, run, slice, ds.num_groups, units.sampled@) is Some {
                over
            } else {
                let t = counting(s, run, slice, ds.num_groups, units.sampled@.to_set());
                if units.group_plan is None {
                    (passed_over(t, run, slice, now), SliceStep::PassedOver, None)
                } else {
                    (
                        t,
                        SliceStep::Planned(units.sampled@.len() as usize),
                        Some(
                            PlannedPayload::DimSplit {
                                ds,
                                indices: units.sampled,
                                group_plan: units.group_plan,
                            },
                        ),
                    )
                }
            }
        },
        PlanRoute::WeightBound => {
            if work.onnx_path is None || units.num_units is None || units_error(
                s,
                run,
                slice,
                units.num_units->0,
                units.sampled@,
            ) is Some {
                over
            } else {
                (
                    counting(s, run, slice, units.num_units->0, units.sampled@.to_set()),
                    SliceStep::Planned(units.sampled@.len() as usize),
                    Some(
                        PlannedPayload::DimSplit {
                            ds: work.dim_split->0,
                            indices: units.sampled,
                            group_plan: None,
                        },
                    ),
                )
            }
        },
        PlanRoute::Tiles => {
            let t = work.tiling->0;
            if units.prepared is None || tiles_error(s, run, slice, t, units.prepared->0@) is Some {
                (s, SliceStep::EndRun, None)
            } else {
                let p = units.prepared->0;
                (
                    counting(s, run, slice, t.num_tiles, p@.to_set()),
                    SliceStep::Planned(p@.len() as usize),
                    Some(PlannedPayload::Tiled { tiling: t, indices: p }),
                )
            }
        },
    }
}

/// Plans a slice of a run: its plan goes to the end of the queue, or the slice is
/// passed over, or the run cannot go on.
pub fn plan_slice(
    runs: &mut IncrementalRunManager,
    plan: &mut VecDeque<PlannedSliceWork>,
    run_uid: &str,
    circuit: &Circuit,
    run_source: RunSource,
    component_sha: Option<String>,
    work: &SliceWork,
    units: SliceUnits,
    dim_split_enabled: bool,
    now: u64,
) -> (r: SliceStep)
    requires
        old(runs).wf(),
        work.tiling matches Some(t) ==> t.tiles_y * t.tiles_x <= usize::MAX,
    ensures
        final(runs).wf(),
        ({
            let (s, step, payload) = slice_planned(
                old(runs)@,
                run_uid@,
                *work,
                units,
                dim_split_enabled,
                now,
            );
            &&& final(runs)@ == s
            &&& r == step
            &&& payload is None ==> final(plan)@ == old(plan)@
            &&& payload matches Some(p) ==> {
                &&& final(plan)@.len() == old(plan)@.len() + 1
                &&& final(plan)@.drop_last() == old(plan)@
                &&& is_plan_of(
                    final(plan)@.last(),
                    run_uid@,
                    *circuit,
                    *work,
                    run_source,
                    component_sha,
                    p,
                )
            }
        }),
{
    let planned = match plan_route(work, dim_split_enabled) {
        PlanRoute::NotFinite => {
            return SliceStep::EndRun;
        },
        PlanRoute::Unsupported => None,
        PlanRoute::Single => Some((PlannedPayload::Single, 1usize)),
        PlanRoute::Groups => {
            match group_dim_split(work) {
                Some(ds) => plan_group_work(
                    runs,
                    run_uid,
                    work.slice_id.as_str(),
                    ds,
                    units.sampled,
                    units.group_plan,
                ),
                None => None,
            }
        },
        PlanRoute::WeightBound => {
            match &work.dim_split {
                Some(ds) => plan_dim_split_work(
                    runs,
                    run_uid,
                    work.slice_id.as_str(),
                    work.onnx_path.is_some(),
                    ds,
                    units.num_units,
                    units.sampled,
                ),
                None => None,
            }
        },
        PlanRoute::Tiles => {
            let tiled = match &work.tiling {
                Some(t) => plan_tiled_work(
                    runs,
                    run_uid,
                    work.slice_id.as_str(),
                    t,
                    units.prepared,
                ),
                None => None,
            };
            match tiled {
                Some(p) => Some(p),
                None => {
                    return SliceStep::EndRun;
                },
            }
        },
    };
    match planned {
        Some((payload, count)) => {
            let ghost before = plan@;
            plan.push_back(
                PlannedSliceWork {
                    run_uid: run_uid.to_owned(),
                    circuit: circuit.copy(),
                    slice_id: work.slice_id.clone(),
                    run_source,
                    circuit_path: copy_text(&work.circuit_path),
                    onnx_path: copy_text(&work.onnx_path),
                    component_sha,
                    payload,
                },
            );
            proof {
                assert(plan@.drop_last() =~= before);
            }
            SliceStep::Planned(count)
        },
        None => {
            skip_slice(runs, run_uid, work.slice_id.as_str(), now);
            SliceStep::PassedOver
        },
    }
}

/// What is left to be done once all slices of a run have been looked at.
#[derive(Clone, Copy, Debug, PartialEq, Eq, Structural)]
pub enum PlanEnd {
    /// Nothing is to be proved; the run is over.
    Finalize,
    /// The queues are filled up.
    Refill,
}

/// What is left to be done once all slices of a run have been looked at.
pub fn plan_end(planned_slices: usize) -> (r: PlanEnd)
    ensures
        r == (if planned_slices == 0 {
            PlanEnd::Finalize
        } else {
            PlanEnd::Refill
        }),
{
    if planned_slices == 0 {
        PlanEnd::Finalize
    } else {
        PlanEnd::Refill
    }
}

/// Whether a tile is wanted.
pub open spec fn is_wanted(wanted: Seq<u32>, i: int) -> bool {
    tile_positions(wanted).contains(i)
}

fn wants(wanted: &Vec<u32>, i: usize) -> (r: bool)
    ensures
        r == is_wanted(wanted@, i as int),
{
    let mut k: usize = 0;
    while k < wanted.len()
        invariant
            k <= wanted@.len(),
            forall|j: int| 0 <= j < k ==> tile_positions(wanted@)[j] != i,
        decreases wanted@.len() - k,
    {
        if wanted[k] as usize == i {
            proof {
                assert(tile_positions(wanted@)[k as int] == i);
            }
            return true;
        }
        k += 1;
    }
    false
}

/// The wanted units among `n`, in increasing order.
pub fn wanted_units(n: usize, wanted: &Vec<u32>) -> (r: Vec<usize>)
    ensures
        positions(r@) == picked(n as nat, |i: int| is_wanted(wanted@, i)),
{
    let ghost pred = |i: int| is_wanted(wanted@, i);
    let mut r: Vec<usize> = Vec::new();
    let mut i: usize = 0;
    proof {
        assert(positions(r@) =~= picked(0, pred));
    }
    while i < n
        invariant
            i <= n,
            pred == (|i: int| is_wanted(wanted@, i)),
            positions(r@) == picked(i as nat, pred),
        decreases n - i,
    {
        let ghost before = r@;
        if wants(wanted, i) {
            r.push(i);
            proof {
                assert(positions(r@) =~= positions(before).push(i as int));
            }
        }
        i += 1;
    }
    r
}

/// The wanted tiles of a slice that was cut into `actual` of them. There must be
/// as many as the tiling says, and one of them must be wanted.
pub fn tiles_to_send(actual: usize, tiling: &TilingInfo, wanted: &Vec<u32>) -> (r: Option<Vec<usize>>)
    ensures
        match r {
            Some(v) => {
                &&& actual == tiling.num_tiles
                &&& actual > 0
                &&& v@.len() > 0
                &&& positions(v@) == picked(actual as nat, |i: int| is_wanted(wanted@, i))
            },
            None => actual == 0 || actual != tiling.num_tiles || picked(
                actual as nat,
                |i: int| is_wanted(wanted@, i),
            ).len() == 0,
        },
{
    if actual == 0 || actual != tiling.num_tiles {
        return None;
    }
    let v = wanted_units(actual, wanted);
    proof {
        assert(positions(v@).len() == v@.len());
    }
    if v.len() == 0 {
        None
    } else {
        Some(v)
    }
}

/// The wanted units among `num_units`, if there are any.
pub fn units_to_send(num_units: usize, wanted: &Vec<u32>) -> (r: Option<Vec<usize>>)
    ensures
        match r {
            Some(v) => v@.len() > 0 && positions(v@) == picked(
                num_units as nat,
                |i: int| is_wanted(wanted@, i),
            ),
            None => picked(num_units as nat, |i: int| is_wanted(wanted@, i)).len() == 0,
        },
{
    let v = wanted_units(num_units, wanted);
    proof {
        assert(positions(v@).len() == v@.len());
    }
    if v.len() == 0 {
        None
    } else {
        Some(v)
    }
}

/// What is sent for a unit: its activations and behind them the weights of its
/// chunk. The chunks take turns.
pub fn bind_unit<T: Copy>(
    activations: &Vec<Vec<T>>,
    weight_chunks: &Vec<Vec<T>>,
    idx: usize,
) -> (r: Vec<T>)
    requires
        idx < activations@.len(),
        weight_chunks@.len() > 0,
    ensures
        r@ == activations@[idx as int]@ + weight_chunks@[idx as int % weight_chunks@.len() as int]@,
{
    let chunks: usize = weight_chunks.len();
    let at: usize = idx % chunks;
    let a = &activations[idx];
    let w = &weight_chunks[at];
    let mut r: Vec<T> = Vec::new();
    let mut i: usize = 0;
    while i < a.len()
        invariant
            i <= a@.len(),
            r@ == a@.take(i as int),
        decreases a@.len() - i,
    {
        r.push(a[i]);
        proof {
            assert(r@ =~= a@.take(i + 1));
        }
        i += 1;
    }
    let mut j: usize = 0;
    proof {
        assert(a@.take(i as int) =~= a@);
        assert(r@ =~= a@ + w@.take(0));
    }
    while j < w.len()
        invariant
            j <= w@.len(),
            r@ == a@ + w@.take(j as int),
        decreases w@.len() - j,
    {
        r.push(w[j]);
        proof {
            assert(r@ =~= a@ + w@.take(j + 1));
        }
        j += 1;
    }
    proof {
        assert(w@.take(j as int) =~= w@);
    }
    r
}

/// The request for a planned slice, or for one of its units.
pub open spec fn is_request_of(
    r: DSliceRequest,
    plan: PlannedSliceWork,
    inputs: Seq<u8>,
    tile_idx: Option<u32>,
) -> bool {
    &&& r.circuit == plan.circuit
    &&& r.inputs@ == inputs
    &&& r.proof_system == plan.circuit.proof_system
    &&& r.slice_num == plan.slice_id
    &&& r.run_uid == plan.run_uid
    &&& r.is_tile == tile_idx is Some
    &&& r.tile_idx == tile_idx
    &&& r.task_id is None
    &&& r.run_source == plan.run_source
    &&& r.retry_count == 0
    &&& r.circuit_path == plan.circuit_path
    &&& r.component_sha == plan.component_sha
}

/// Makes the request for a planned slice, or for one of its units.
pub fn build_request(plan: &PlannedSliceWork, inputs: Vec<u8>, tile_idx: Option<u32>) -> (r:
    DSliceRequest)
    ensures
        is_request_of(r, *plan, inputs@, tile_idx),
{
    DSliceRequest {
        circuit: plan.circuit.copy(),
        inputs,
        proof_system: plan.circuit.proof_system,
        slice_num: plan.slice_id.clone(),
        run_uid: plan.run_uid.clone(),
        is_tile: tile_idx.is_some(),
        tile_idx,
        task_id: None,
        run_source: plan.run_source,
        retry_count: 0,
        circuit_path: copy_text(&plan.circuit_path),
        component_sha: copy_text(&plan.component_sha),
    }
}

/// Makes the requests for the units of a planned slice, in order. Each unit comes
/// with its number and its inputs.
pub fn materialize_units(plan: &PlannedSliceWork, units: Vec<(u32, Vec<u8>)>) -> (r: Vec<
    DSliceRequest,
>)
    ensures
        r@.len() == units@.len(),
        forall|i: int|
            0 <= i < r@.len() ==> is_request_of(
                #[trigger] r@[i],
                *plan,
                units@[i].1@,
                Some(units@[i].0),
            ),
{
    let ghost all = units@;
    let mut rest = units;
    let mut r: Vec<DSliceRequest> = Vec::new();
    let n: usize = rest.len();
    let mut i: usize = 0;
    proof {
        assert(rest@ =~= all.skip(0));
    }
    while i < n
        invariant
            n == all.len(),
            i <= n,
            rest@ == all.skip(i as int),
            r@.len() == i,
            forall|j: int|
                0 <= j < i ==> is_request_of(#[trigger] r@[j], *plan, all[j].1@, Some(all[j].0)),
        decreases n - i,
    {
        let (idx, inputs) = rest.remove(0);
        proof {
            assert(all.skip(i as int)[0] == all[i as int]);
            assert(rest@ =~= all.skip(i + 1));
        }
        r.push(build_request(plan, inputs, Some(idx)));
        i += 1;
    }
    r
}

/// Makes the request for a slice that is handed out as a whole.
pub fn materialize_single(plan: &PlannedSliceWork, inputs: Vec<u8>) -> (r: Vec<DSliceRequest>)
    ensures
        r@.len() == 1,
        is_request_of(r@[0], *plan, inputs@, None),
{
    let mut r: Vec<DSliceRequest> = Vec::new();
    r.push(build_request(plan, inputs, None));
    r
}

/// When the queues are filled up, and how far.
pub open spec fn refill_marks_of(caps_sum: usize, low_mark: usize, low_max: usize) -> (usize, usize) {
    let twice = capped(caps_sum * 2);
    let low: usize = if twice < low_mark {
        low_mark
    } else if twice > low_max {
        low_max
    } else {
        twice
    };
    (low, capped(low * 2))
}

/// When the queues are filled up, and how far: twice what the miners can take,
/// within limits, and twice that.
pub fn refill_marks(caps_sum: usize, low_mark: usize, low_max: usize) -> (r: (usize, usize))
    requires
        low_mark <= low_max,
    ensures
        r == refill_marks_of(caps_sum, low_mark, low_max),
{
    let twice: usize = capped_product(caps_sum, 2);
    let low: usize = if twice < low_mark {
        low_mark
    } else if twice > low_max {
        low_max
    } else {
        twice
    };
    (low, capped_product(low, 2))
}

/// The values of a map, summed up.
pub open spec fn value_sum(s: Seq<(u16, usize)>) -> int
    decreases s.len(),
{
    if s.len() == 0 {
        0
    } else {
        value_sum(s.drop_last()) + s.last().1
    }
}

proof fn lemma_value_sum_nonneg(s: Seq<(u16, usize)>)
    ensures
        value_sum(s) >= 0,
    decreases s.len(),
{
    if s.len() > 0 {
        lemma_value_sum_nonneg(s.drop_last());
    }
}

/// What the miners can take together, as far as a machine number goes.
pub fn capacity_sum(capacities: &UidMap<usize>) -> (r: usize)
    ensures
        r == capped(value_sum(capacities.entries())),
{
    let n: usize = capacities.len();
    let mut total: usize = 0;
    let mut i: usize = 0;
    let ghost e = capacities.entries();
    while i < n
        invariant
            e == capacities.entries(),
            n == e.len(),
            i <= n,
            total == capped(value_sum(e.take(i as int))),
        decreases n - i,
    {
        proof {
            assert(e.take(i + 1).drop_last() =~= e.take(i as int));
            assert(e.take(i + 1).last() == e[i as int]);
            lemma_value_sum_nonneg(e.take(i as int));
        }
        total = total.saturating_add(*capacities.value_at(i));
        i += 1;
    }
    proof {
        assert(e.take(i as int) =~= e);
    }
    total
}

/// Where the first plan of a run under way stands.
pub open spec fn first_live(plan: Seq<PlannedSliceWork>, running: Set<Seq<char>>) -> int
    decreases plan.len(),
{
    if plan.len() == 0 {
        0
    } else if running.contains(plan[0].run_uid@) {
        0
    } else {
        1 + first_live(plan.drop_first(), running)
    }
}

/// Takes the next plan out whose run is under way, dropping those before it. None
/// is taken once `total` requests wait.
pub fn next_planned(
    plan: &mut VecDeque<PlannedSliceWork>,
    runs: &IncrementalRunManager,
    total: usize,
    high: usize,
) -> (r: Option<PlannedSliceWork>)
    ensures
        total >= high ==> r is None && final(plan)@ == old(plan)@,
        total < high ==> {
            let at = first_live(old(plan)@, runs@.runs.dom());
            &&& 0 <= at <= old(plan)@.len()
            &&& match r {
                Some(p) => {
                    &&& at < old(plan)@.len()
                    &&& p == old(plan)@[at]
                    &&& final(plan)@ == old(plan)@.skip(at + 1)
                },
                None => at == old(plan)@.len() && final(plan)@.len() == 0,
            }
        },
{
    if total >= high {
        return None;
    }
    let ghost all = plan@;
    let ghost running = runs@.runs.dom();
    let ghost mut gone: int = 0;
    proof {
        assert(all.skip(0) =~= all);
    }
    while plan.len() > 0
        invariant
            total < high,
            all == old(plan)@,
            running == runs@.runs.dom(),
            0 <= gone <= all.len(),
            plan@ == all.skip(gone),
            first_live(all, running) == gone + first_live(plan@, running),
        decreases plan@.len(),
    {
        let ghost before = plan@;
        if let Some(p) = plan.pop_front() {
            proof {
                assert(plan@ =~= before.drop_first());
                assert(before.drop_first() =~= all.skip(gone + 1));
                assert(before[0] == all[gone]);
            }
            if runs.has_run(p.run_uid.as_str()) {
                return Some(p);
            }
            proof {
                gone = gone + 1;
            }
        }
    }
    None
}

/// Puts the requests of a plan at the end of their queue, in order.
pub fn enqueue_requests(
    queues: &mut WorkQueues,
    run_source: RunSource,
    requests: Vec<DSliceRequest>,
)
    ensures
        final(queues).rwr == old(queues).rwr,
        run_source == RunSource::Api ==> final(queues).api@ == old(queues).api@ + requests@
            && final(queues).stacked@ == old(queues).stacked@,
        run_source == RunSource::Benchmark ==> final(queues).stacked@ == old(queues).stacked@
            + requests@ && final(queues).api@ == old(queues).api@,
{
    let ghost all = requests@;
    let mut rest = requests;
    let n: usize = rest.len();
    let mut i: usize = 0;
    proof {
        assert(rest@ =~= all.skip(0));
        assert(queues.api@ =~= old(queues).api@ + all.take(0));
        assert(queues.stacked@ =~= old(queues).stacked@ + all.take(0));
    }
    while i < n
        invariant
            n == all.len(),
            i <= n,
            rest@ == all.skip(i as int),
            queues.rwr == old(queues).rwr,
            run_source == RunSource::Api ==> queues.api@ == old(queues).api@ + all.take(i as int)
                && queues.stacked@ == old(queues).stacked@,
            run_source == RunSource::Benchmark ==> queues.stacked@ == old(queues).stacked@ + all.take(
                i as int,
            ) && queues.api@ == old(queues).api@,
        decreases n - i,
    {
        let q = rest.remove(0);
        proof {
            assert(all.skip(i as int)[0] == all[i as int]);
            assert(rest@ =~= all.skip(i + 1));
        }
        queues.push_dslice(q, run_source);
        proof {
            assert(all.take(i + 1) =~= all.take(i as int).push(q));
            if run_source == RunSource::Api {
                assert(queues.api@ =~= old(queues).api@ + all.take(i + 1));
            } else {
                assert(queues.stacked@ =~= old(queues).stacked@ + all.take(i + 1));
            }
        }
        i += 1;
    }
    proof {
        assert(all.take(i as int) =~= all);
    }
}

/// Takes in what became of the next plan: its requests go to the end of their
/// queue, or, where there are none, the slice is passed over. The result is how
/// many requests were added.
pub fn settle_planned(
    queues: &mut WorkQueues,
    runs: &mut IncrementalRunManager,
    plan: &PlannedSliceWork,
    requests: Option<Vec<DSliceRequest>>,
    now: u64,
) -> (added: usize)
    requires
        old(runs).wf(),
    ensures
        final(runs).wf(),
        final(queues).rwr == old(queues).rwr,
        match requests {
            Some(q) => added == q@.len(),
            None => added == 0,
        },
        added > 0 ==> {
            let q = requests->0@;
            &&& final(runs)@ == old(runs)@
            &&& plan.run_source == RunSource::Api ==> final(queues).api@ == old(queues).api@ + q
                && final(queues).stacked@ == old(queues).stacked@
            &&& plan.run_source == RunSource::Benchmark ==> final(queues).stacked@ == old(
                queues,
            ).stacked@ + q && final(queues).api@ == old(queues).api@
        },
        added == 0 ==> {
            &&& final(runs)@ == passed_over(old(runs)@, plan.run_uid@, plan.slice_id@, now)
            &&& final(queues).api@ == old(queues).api@
            &&& final(queues).stacked@ == old(queues).stacked@
        },
{
    match requests {
        Some(q) => if q.len() > 0 {
            let n: usize = q.len();
            enqueue_requests(queues, plan.run_source, q);
            return n;
        },
        None => {},
    }
    skip_slice(runs, plan.run_uid.as_str(), plan.slice_id.as_str(), now);
    0
}

/// Whether a slice was sent to miners, given up, and not one tile of it proved.
pub open spec fn fruitless(s: RunsV, run: Seq<char>, slice: Seq<char>, failed: bool) -> bool {
    &&& !s.skipped.contains((run, slice))
    &&& failed
    &&& s.verified_tiles(run, slice) == 0
}

/// The slices that bore no fruit, in order. `failed` says of each whether it was
/// given up.
pub open spec fn fruitless_slices(
    s: RunsV,
    run: Seq<char>,
    slices: Seq<(String, bool)>,
) -> Seq<Seq<char>>
    decreases slices.len(),
{
    if slices.len() == 0 {
        Seq::empty()
    } else {
        let r = fruitless_slices(s, run, slices.drop_last());
        if fruitless(s, run, slices.last().0@, slices.last().1) {
            r.push(slices.last().0@)
        } else {
            r
        }
    }
}

/// How many slices of a run were passed over.
pub open spec fn skipped_in(s: RunsV, run: Seq<char>) -> nat {
    s.skipped.filter(|k: (Seq<char>, Seq<char>)| k.0 == run).len()
}

/// Whether every slice that was sent to miners bore no fruit. That is a sign of
/// trouble on the validator's side.
pub open spec fn run_wide_failure(s: RunsV, run: Seq<char>, slices: Seq<(String, bool)>) -> bool {
    let skipped = skipped_in(s, run);
    let attempted = if slices.len() >= skipped {
        slices.len() - skipped
    } else {
        0
    };
    attempted > 0 && fruitless_slices(s, run, slices).len() == attempted
}

/// Slices left out with some more, from a block on.
pub open spec fn with_left_out(
    d: Map<(Seq<char>, Seq<char>), u64>,
    circuit: Seq<char>,
    slices: Seq<Seq<char>>,
    block: u64,
) -> Map<(Seq<char>, Seq<char>), u64>
    decreases slices.len(),
{
    if slices.len() == 0 {
        d
    } else {
        with_left_out(d, circuit, slices.drop_last(), block).insert((circuit, slices.last()), block)
    }
}

impl DisabledSlices {
    /// Leaves out of later runs the slices of a finished run that were sent to
    /// miners and bore no fruit, unless all that were sent did. `slices` lists the
    /// slices of the run, and says of each whether it was given up. The result
    /// says how many are left out on that account.
    pub fn disable_fruitless(
        &mut self,
        runs: &IncrementalRunManager,
        run_uid: &str,
        circuit: &str,
        slices: &Vec<(String, bool)>,
        block: u64,
    ) -> (r: usize)
        ensures
            run_wide_failure(runs@, run_uid@, slices@) ==> final(self)@ == old(self)@ && r == 0,
            !run_wide_failure(runs@, run_uid@, slices@) ==> {
                &&& final(self)@ == with_left_out(
                    old(self)@,
                    circuit@,
                    fruitless_slices(runs@, run_uid@, slices@),
                    block,
                )
                &&& r == fruitless_slices(runs@, run_uid@, slices@).len()
            },
    {
        let ghost s = runs@;
        let mut candidates: Vec<String> = Vec::new();
        let mut i: usize = 0;
        proof {
            assert(slices@.take(0).len() == 0);
            assert(texts(candidates@) =~= fruitless_slices(s, run_uid@, slices@.take(0)));
        }
        while i < slices.len()
            invariant
                s == runs@,
                *self == *old(self),
                i <= slices@.len(),
                texts(candidates@) == fruitless_slices(s, run_uid@, slices@.take(i as int)),
            decreases slices@.len() - i,
        {
            let ghost before = texts(candidates@);
            proof {
                assert(slices@.take(i + 1).drop_last() =~= slices@.take(i as int));
                assert(slices@.take(i + 1).last() == slices@[i as int]);
            }
            if !runs.is_slice_skipped(run_uid, slices[i].0.as_str()) && slices[i].1
                && runs.verified_tile_count(run_uid, slices[i].0.as_str()) == 0 {
                candidates.push(slices[i].0.clone());
                proof {
                    assert(texts(candidates@) =~= before.push(slices@[i as int].0@));
                }
            }
            i += 1;
        }
        proof {
            assert(slices@.take(i as int) =~= slices@);
        }
        let skipped: usize = runs.skipped_slice_count(run_uid);
        let attempted: usize = slices.len().saturating_sub(skipped);
        if attempted > 0 && candidates.len() == attempted {
            return 0;
        }
        let ghost t = texts(candidates@);
        let mut k: usize = 0;
        proof {
            assert(t.take(0).len() == 0);
        }
        while k < candidates.len()
            invariant
                t == texts(candidates@),
                k <= candidates@.len(),
                self@ == with_left_out(old(self)@, circuit@, t.take(k as int), block),
            decreases candidates@.len() - k,
        {
            proof {
                assert(t.take(k + 1).drop_last() =~= t.take(k as int));
                assert(t.take(k + 1).last() == candidates@[k as int]@);
            }
            self.since.insert(slice_key(circuit, candidates[k].as_str()), block);
            k += 1;
        }
        proof {
            assert(t.take(k as int) =~= t);
        }
        candidates.len()
    }
}

/// The scale of the inputs of slices, as the bits of a number.
pub struct InputScales {
    scales: VecMap<SliceKey, u64>,
}

impl View for InputScales {
    type V = Map<(Seq<char>, Seq<char>), u64>;

    closed spec fn view(&self) -> Map<(Seq<char>, Seq<char>), u64> {
        self.scales@
    }
}

impl InputScales {
    /// No slice is scaled.
    pub fn new() -> (s: Self)
        ensures
            s@ == Map::<(Seq<char>, Seq<char>), u64>::empty(),
    {
        InputScales { scales: VecMap::new() }
    }

    /// Notes the scale of a slice.
    pub fn set(&mut self, run_uid: &str, slice_id: &str, scale: u64)
        ensures
            final(self)@ == old(self)@.insert((run_uid@, slice_id@), scale),
    {
        self.scales.insert(slice_key(run_uid, slice_id), scale);
    }

    /// The scale of a slice.
    pub fn get(&self, run_uid: &str, slice_id: &str) -> (r: Option<u64>)
        ensures
            match r {
                Some(v) => self@.contains_key((run_uid@, slice_id@)) && v == self@[(
                    run_uid@,
                    slice_id@,
                )],
                None => !self@.contains_key((run_uid@, slice_id@)),
            },
    {
        match self.scales.get(&slice_key(run_uid, slice_id)) {
            Some(v) => Some(*v),
            None => None,
        }
    }

    /// Forgets the scales of some runs.
    pub fn drop_runs(&mut self, runs: &Vec<String>)
        ensures
            final(self)@ == old(self)@.remove_keys(of_runs(texts(runs@).to_set())),
    {
        drop_runs(&mut self.scales, runs)
    }
}

/// Ends a run before it is complete: nothing of it is left in the books or in
/// the queues, and its result can no longer be asked for.
pub fn teardown_run(
    runs: &mut IncrementalRunManager,
    queues: &mut WorkQueues,
    scales: &mut InputScales,
    pending: &mut PendingRequests,
    run_uid: &str,
) -> (r: Option<crate::incremental_runner::ActiveRun>)
    requires
        old(runs).wf(),
    ensures
        final(runs).wf(),
        final(runs)@ == old(runs)@.without(set![run_uid@]),
        match r {
            Some(run) => {
                &&& old(runs)@.runs.contains_key(run_uid@)
                &&& run@ == old(runs)@.runs[run_uid@]
                &&& run.run_uid@ == run_uid@
            },
            None => !old(runs)@.runs.contains_key(run_uid@),
        },
        final(queues).rwr == old(queues).rwr,
        final(queues).api@ == old(queues).api@.filter(
            |q: DSliceRequest| !set![run_uid@].contains(q.run_uid@),
        ),
        final(queues).stacked@ == old(queues).stacked@.filter(
            |q: DSliceRequest| !set![run_uid@].contains(q.run_uid@),
        ),
        final(scales)@ == old(scales)@.remove_keys(of_runs(set![run_uid@])),
        final(pending)@ == old(pending)@.remove(run_uid@),
{
    let mut gone: Vec<String> = Vec::new();
    gone.push(run_uid.to_owned());
    proof {
        assert(texts(gone@) =~= seq![run_uid@]);
        assert(seq![run_uid@].to_set() =~= set![run_uid@]) by {
            assert(seq![run_uid@][0] == run_uid@);
        }
    }
    let r = runs.remove_run(run_uid);
    queues.drop_runs(&gone);
    scales.drop_runs(&gone);
    pending.remove_pending(run_uid);
    r
}

/// Gives runs up in which nothing has happened for a while: nothing of them is
/// left in the books or in the queues. Which ones they are is handed back.
pub fn gc_stale_runs(
    runs: &mut IncrementalRunManager,
    queues: &mut WorkQueues,
    scales: &mut InputScales,
    pending: &mut PendingRequests,
    now: u64,
    idle_timeout: u64,
) -> (r: Vec<String>)
    requires
        old(runs).wf(),
    ensures
        final(runs).wf(),
        texts(r@).no_duplicates(),
        texts(r@).to_set() == crate::incremental_runner::meant_runs(
            crate::incremental_runner::RunFilter::IdleFor { now, timeout: idle_timeout },
            old(runs)@,
        ),
        final(runs)@ == (RunsV {
            evicted: crate::incremental_runner::evicted_with(old(runs)@.evicted, texts(r@)),
            ..old(runs)@.without(texts(r@).to_set())
        }),
        final(queues).rwr == old(queues).rwr,
        final(queues).api@ == old(queues).api@.filter(
            |q: DSliceRequest| !texts(r@).to_set().contains(q.run_uid@),
        ),
        final(queues).stacked@ == old(queues).stacked@.filter(
            |q: DSliceRequest| !texts(r@).to_set().contains(q.run_uid@),
        ),
        final(scales)@ == old(scales)@.remove_keys(of_runs(texts(r@).to_set())),
        final(pending)@ == old(pending)@.remove_keys(texts(r@).to_set()),
{
    let gone = runs.gc_stale(now, idle_timeout);
    scales.drop_runs(&gone);
    queues.drop_runs(&gone);
    forget_results(pending, &gone);
    gone
}

/// The results of some runs can no longer be asked for.
pub fn forget_results(pending: &mut PendingRequests, runs: &Vec<String>)
    ensures
        final(pending)@ == old(pending)@.remove_keys(texts(runs@).to_set()),
{
    let ghost t = texts(runs@);
    let mut i: usize = 0;
    proof {
        assert(t.take(0) =~= Seq::empty());
        assert(pending@ =~= old(pending)@.remove_keys(t.take(0).to_set()));
    }
    while i < runs.len()
        invariant
            t == texts(runs@),
            i <= runs@.len(),
            pending@ == old(pending)@.remove_keys(t.take(i as int).to_set()),
        decreases runs@.len() - i,
    {
        pending.remove_pending(runs[i].as_str());
        proof {
            assert(t.take(i + 1) =~= t.take(i as int).push(runs@[i as int]@));
            lemma_to_set_push(t.take(i as int), runs@[i as int]@);
            assert(pending@ =~= old(pending)@.remove_keys(t.take(i + 1).to_set()));
        }
        i += 1;
    }
    proof {
        assert(t.take(i as int) =~= t);
    }
}

/// Gives up the runs of a circuit that is no longer offered: nothing of them is
/// left in the books or in the queues, and what was known of its slices is
/// forgotten. Which runs they are is handed back.
pub fn evict_deactivated_circuit(
    runs: &mut IncrementalRunManager,
    queues: &mut WorkQueues,
    scales: &mut InputScales,
    pending: &mut PendingRequests,
    disabled: &mut DisabledSlices,
    circuit_id: &str,
) -> (r: Vec<String>)
    requires
        old(runs).wf(),
    ensures
        final(runs).wf(),
        texts(r@).no_duplicates(),
        texts(r@).to_set() == crate::incremental_runner::meant_runs(
            crate::incremental_runner::RunFilter::OfCircuit(circuit_id),
            old(runs)@,
        ),
        final(runs)@ == (RunsV {
            evicted: crate::incremental_runner::evicted_with(old(runs)@.evicted, texts(r@)),
            ..old(runs)@.without(texts(r@).to_set())
        }),
        final(queues).rwr == old(queues).rwr,
        final(queues).api@ == old(queues).api@.filter(
            |q: DSliceRequest| q.circuit.id@ != circuit_id@,
        ),
        final(queues).stacked@ == old(queues).stacked@.filter(
            |q: DSliceRequest| q.circuit.id@ != circuit_id@,
        ),
        final(scales)@ == old(scales)@.remove_keys(of_runs(texts(r@).to_set())),
        final(pending)@ == old(pending)@.remove_keys(texts(r@).to_set()),
        final(disabled)@ == old(disabled)@.remove_keys(of_runs(set![circuit_id@])),
{
    disabled.forget_circuit(circuit_id);
    let gone = runs.evict_by_circuit(circuit_id);
    scales.drop_runs(&gone);
    forget_results(pending, &gone);
    queues.drop_circuit(circuit_id);
    gone
}

/// A slice that is left out is not left out longer by a run that passes it over:
/// only slices that were sent to miners are noted anew.
pub proof fn passing_over_keeps_the_clock(
    s: RunsV,
    run: Seq<char>,
    slices: Seq<(String, bool)>,
    d: Map<(Seq<char>, Seq<char>), u64>,
    circuit: Seq<char>,
    slice: Seq<char>,
    block: u64,
)
    requires
        s.skipped.contains((run, slice)),
    ensures
        !fruitless_slices(s, run, slices).contains(slice),
        with_left_out(d, circuit, fruitless_slices(s, run, slices), block).contains_key(
            (circuit, slice),
        ) == d.contains_key((circuit, slice)),
        d.contains_key((circuit, slice)) ==> with_left_out(
            d,
            circuit,
            fruitless_slices(s, run, slices),
            block,
        )[(circuit, slice)] == d[(circuit, slice)],
{
    lemma_fruitless_not_skipped(s, run, slices, slice);
    lemma_left_out_elsewhere(d, circuit, fruitless_slices(s, run, slices), block, slice);
}

proof fn lemma_fruitless_not_skipped(
    s: RunsV,
    run: Seq<char>,
    slices: Seq<(String, bool)>,
    slice: Seq<char>,
)
    requires
        s.skipped.contains((run, slice)),
    ensures
        !fruitless_slices(s, run, slices).contains(slice),
    decreases slices.len(),
{
    if slices.len() > 0 {
        let d = fruitless_slices(s, run, slices.drop_last());
        lemma_fruitless_not_skipped(s, run, slices.drop_last(), slice);
        let r = fruitless_slices(s, run, slices);
        if r.contains(slice) {
            let k = choose|k: int| 0 <= k < r.len() && r[k] == slice;
            if k < d.len() {
                assert(d[k] == slice);
            }
        }
    }
}

proof fn lemma_left_out_elsewhere(
    d: Map<(Seq<char>, Seq<char>), u64>,
    circuit: Seq<char>,
    slices: Seq<Seq<char>>,
    block: u64,
    slice: Seq<char>,
)
    requires
        !slices.contains(slice),
    ensures
        with_left_out(d, circuit, slices, block).contains_key((circuit, slice)) == d.contains_key(
            (circuit, slice),
        ),
        d.contains_key((circuit, slice)) ==> with_left_out(d, circuit, slices, block)[(
            circuit,
            slice,
        )] == d[(circuit, slice)],
    decreases slices.len(),
{
    if slices.len() > 0 {
        let p = slices.drop_last();
        assert(slices[slices.len() - 1] != slice);
        assert(!p.contains(slice)) by {
            if p.contains(slice) {
                let k = choose|k: int| 0 <= k < p.len() && p[k] == slice;
                assert(slices[k] == slice);
            }
        }
        lemma_left_out_elsewhere(d, circuit, p, block, slice);
    }
}

/// A slice that is left out comes back after the rehabilitation time.
pub proof fn left_out_slices_come_back(
    d: Map<(Seq<char>, Seq<char>), u64>,
    circuit: Seq<char>,
    slice: Seq<char>,
    block: u64,
    rehab_blocks: u64,
)
    requires
        d.contains_key((circuit, slice)),
        block >= d[(circuit, slice)] + rehab_blocks,
    ensures
        !left_out(d, circuit, slice, block, rehab_blocks),
{
}

} // verus!
