//! The runs under way: which tiles of which slices have been proved.

use std::collections::HashSet;
use vstd::prelude::*;
use vstd::string::*;

use crate::fifo::{fifo_insert, BoundedFifoSet};
use crate::json::Json;
use crate::keyed::{MapKey, StrMap, VecMap};
use crate::seqs::{lemma_to_set_push, texts};
use crate::text::{decimal, decimal_text, str_eq};
use crate::types::{ProofSystem, RunSource};

verus! {

broadcast use vstd::std_specs::hash::group_hash_axioms;

/// What a proof of a tile leads to.
#[derive(Debug)]
pub enum TileBufferOutcome {
    Waiting,
    AllReceived,
    Failed(String),
}

/// What is kept of a proof for the run's record. Times are the bits of a number
/// of seconds.
#[derive(Debug)]
pub struct SliceArtifact {
    pub slice_num: String,
    pub proof_system: Option<ProofSystem>,
    pub proof_hex: Option<String>,
    pub witness_hex: Option<String>,
    pub computed_outputs: Option<Json>,
    pub tile_idx: Option<u32>,
    pub response_time: u64,
    pub verification_time: u64,
}

/// A run under way.
#[derive(Debug)]
pub struct ActiveRun {
    pub run_uid: String,
    pub circuit_id: String,
    pub circuit_name: String,
    pub run_source: RunSource,
    pub started_at: u64,
    pub last_activity: u64,
    pub artifacts: Vec<SliceArtifact>,
    pub relay_request_id: Option<u32>,
}

/// A slice of a run.
#[derive(Debug)]
pub struct SliceKey {
    pub run: String,
    pub slice: String,
}

impl View for SliceKey {
    type V = (Seq<char>, Seq<char>);

    open spec fn view(&self) -> (Seq<char>, Seq<char>) {
        (self.run@, self.slice@)
    }
}

impl MapKey for SliceKey {
    type Query = SliceKey;

    open spec fn query_view(q: &SliceKey) -> (Seq<char>, Seq<char>) {
        q@
    }

    fn matches(&self, q: &SliceKey) -> (r: bool) {
        str_eq(self.run.as_str(), q.run.as_str()) && str_eq(self.slice.as_str(), q.slice.as_str())
    }

    fn as_query(&self) -> (q: &SliceKey) {
        self
    }
}

pub(crate) fn slice_key(run: &str, slice: &str) -> (k: SliceKey)
    ensures
        k@ == (run@, slice@),
{
    SliceKey { run: run.to_owned(), slice: slice.to_owned() }
}

/// Which tiles of a slice are to be proved, and which have been.
#[derive(Debug)]
pub struct TileCounter {
    pub grid_total: usize,
    pub expected: HashSet<u32>,
    pub received: HashSet<u32>,
}

/// The tiles of a slice as sets.
#[verifier::ext_equal]
pub struct CounterV {
    pub grid_total: usize,
    pub expected: Set<u32>,
    pub received: Set<u32>,
}

impl View for TileCounter {
    type V = CounterV;

    open spec fn view(&self) -> CounterV {
        CounterV {
            grid_total: self.grid_total,
            expected: self.expected@,
            received: self.received@,
        }
    }
}

/// A run under way, as plain values.
#[verifier::ext_equal]
pub struct RunV {
    pub run_uid: Seq<char>,
    pub circuit_id: Seq<char>,
    pub circuit_name: Seq<char>,
    pub run_source: RunSource,
    pub started_at: u64,
    pub last_activity: u64,
    pub artifacts: Seq<SliceArtifact>,
    pub relay_request_id: Option<u32>,
}

impl View for ActiveRun {
    type V = RunV;

    open spec fn view(&self) -> RunV {
        RunV {
            run_uid: self.run_uid@,
            circuit_id: self.circuit_id@,
            circuit_name: self.circuit_name@,
            run_source: self.run_source,
            started_at: self.started_at,
            last_activity: self.last_activity,
            artifacts: self.artifacts@,
            relay_request_id: self.relay_request_id,
        }
    }
}

/// The runs under way, as plain values.
#[verifier::ext_equal]
pub struct RunsV {
    pub runs: Map<Seq<char>, RunV>,
    /// The latest runs that were given up, oldest first.
    pub evicted: Seq<Seq<char>>,
    pub counters: Map<(Seq<char>, Seq<char>), CounterV>,
    pub verified: Map<(Seq<char>, Seq<char>), usize>,
    /// The slices that were given up without being sent to a miner.
    pub skipped: Set<(Seq<char>, Seq<char>)>,
}

/// How many given-up runs are kept in mind.
pub const MAX_EVICTED: usize = 256;

/// The layout of the tiles of a slice.
#[derive(Clone, Copy, Debug, PartialEq, Eq, Structural)]
pub struct TileGrid {
    pub num_tiles: usize,
    pub tiles_y: usize,
    pub tiles_x: usize,
}

/// Why no tiles can be counted.
#[derive(Clone, Copy, Debug, PartialEq, Eq, Structural)]
pub enum CounterError {
    /// The number of tiles is not that of rows times columns.
    InconsistentGrid,
    /// There are no units at all.
    NoUnits,
    /// No tile is to be proved.
    NothingExpected,
    /// A tile to be proved is not in the grid.
    OutOfRange,
    /// The tiles of the slice are already being counted.
    AlreadyCounting,
}

/// The runs under way.
pub struct IncrementalRunManager {
    runs: StrMap<ActiveRun>,
    evicted: BoundedFifoSet,
    tile_counters: VecMap<SliceKey, TileCounter>,
    verified_tile_counts: VecMap<SliceKey, usize>,
    skipped_slices: VecMap<SliceKey, ()>,
}

impl View for IncrementalRunManager {
    type V = RunsV;

    closed spec fn view(&self) -> RunsV {
        RunsV {
            runs: self.runs@.map_values(|r: ActiveRun| r@),
            evicted: self.evicted@,
            counters: self.tile_counters@.map_values(|c: TileCounter| c@),
            verified: self.verified_tile_counts@,
            skipped: self.skipped_slices@.dom(),
        }
    }
}

/// A counter that still waits for tiles: some tile of the grid is to be proved,
/// and what has been proved is part of what is to be, but not all of it.
pub open spec fn counter_open(c: CounterV) -> bool {
    &&& c.expected.finite()
    &&& c.received.subset_of(c.expected)
    &&& c.received != c.expected
    &&& forall|i: u32| #[trigger] c.expected.contains(i) ==> i < c.grid_total
}

impl RunsV {
    /// Every counter still waits for tiles.
    pub open spec fn sound(self) -> bool {
        forall|k: (Seq<char>, Seq<char>)| #[trigger]
            self.counters.contains_key(k) ==> counter_open(self.counters[k])
    }

    /// Each run carries the uid that it stands under.
    pub open spec fn named(self) -> bool {
        forall|k: Seq<char>| #[trigger] self.runs.contains_key(k) ==> self.runs[k].run_uid == k
    }

    /// Nothing is under way.
    pub open spec fn empty() -> RunsV {
        RunsV {
            runs: Map::empty(),
            evicted: Seq::empty(),
            counters: Map::empty(),
            verified: Map::empty(),
            skipped: Set::empty(),
        }
    }

    /// After a run has been started. One that is under way stays as it is.
    pub open spec fn started(self, run: Seq<char>, r: RunV) -> RunsV {
        if self.runs.contains_key(run) {
            self
        } else {
            RunsV { runs: self.runs.insert(run, r), ..self }
        }
    }

    /// After something happened in a run.
    pub open spec fn touched(self, run: Seq<char>, now: u64) -> RunsV {
        if self.runs.contains_key(run) {
            RunsV {
                runs: self.runs.insert(run, RunV { last_activity: now, ..self.runs[run] }),
                ..self
            }
        } else {
            self
        }
    }

    /// How many tiles of a slice have been proved.
    pub open spec fn verified_tiles(self, run: Seq<char>, slice: Seq<char>) -> usize {
        if self.verified.contains_key((run, slice)) {
            self.verified[(run, slice)]
        } else {
            0
        }
    }

    /// The tiles of a slice once one more has come.
    pub open spec fn received_with(self, run: Seq<char>, slice: Seq<char>, tile: u32) -> Set<u32> {
        self.counters[(run, slice)].received.insert(tile)
    }

    /// Whether a tile is news: its slice waits for it, and it has not come yet.
    pub open spec fn is_news(self, run: Seq<char>, slice: Seq<char>, tile: u32) -> bool {
        &&& self.counters.contains_key((run, slice))
        &&& tile < self.counters[(run, slice)].grid_total
        &&& self.counters[(run, slice)].expected.contains(tile)
        &&& !self.counters[(run, slice)].received.contains(tile)
    }

    /// After a proof of a tile. Only news counts; the last tile that a slice
    /// waits for ends the count.
    pub open spec fn tile_recorded(
        self,
        run: Seq<char>,
        slice: Seq<char>,
        tile: u32,
        now: u64,
    ) -> RunsV {
        let t = self.touched(run, now);
        if self.is_news(run, slice, tile) {
            let k = (run, slice);
            let c = self.counters[k];
            RunsV {
                verified: self.verified.insert(k, (self.verified_tiles(run, slice) + 1) as usize),
                counters: if c.received.insert(tile) == c.expected {
                    self.counters.remove(k)
                } else {
                    self.counters.insert(
                        k,
                        CounterV { received: c.received.insert(tile), ..c },
                    )
                },
                ..t
            }
        } else {
            t
        }
    }

    /// After everything about the runs in `gone` has been dropped.
    pub open spec fn without(self, gone: Set<Seq<char>>) -> RunsV {
        let of_gone = Set::new(|k: (Seq<char>, Seq<char>)| gone.contains(k.0));
        RunsV {
            runs: self.runs.remove_keys(gone),
            counters: self.counters.remove_keys(of_gone),
            verified: self.verified.remove_keys(of_gone),
            skipped: self.skipped.difference(of_gone),
            ..self
        }
    }
}

/// The given-up runs after those in `gone` have been given up, in order.
pub open spec fn evicted_with(evicted: Seq<Seq<char>>, gone: Seq<Seq<char>>) -> Seq<Seq<char>>
    decreases gone.len(),
{
    if gone.len() == 0 {
        evicted
    } else {
        fifo_insert(evicted_with(evicted, gone.drop_last()), MAX_EVICTED as nat, gone.last())
    }
}

/// How the rejection of a tile outside the grid is worded.
pub open spec fn out_of_range_text(
    run: Seq<char>,
    slice: Seq<char>,
    tile: u32,
    grid_total: usize,
) -> Seq<char> {
    "tile_idx "@ + decimal_text(tile as nat) + " out of range (grid_total "@ + decimal_text(
        grid_total as nat,
    ) + ") for run="@ + run + " slice="@ + slice
}

proof fn lemma_values_insert<K, V, W>(m: Map<K, V>, f: spec_fn(V) -> W, k: K, v: V)
    ensures
        m.insert(k, v).map_values(f) == m.map_values(f).insert(k, f(v)),
{
    assert(m.insert(k, v).map_values(f) =~= m.map_values(f).insert(k, f(v)));
}

proof fn lemma_values_remove<K, V, W>(m: Map<K, V>, f: spec_fn(V) -> W, k: K)
    ensures
        m.remove(k).map_values(f) == m.map_values(f).remove(k),
{
    assert(m.remove(k).map_values(f) =~= m.map_values(f).remove(k));
}

/// What the start of a count says of its tiles.
pub open spec fn expected_error(
    s: RunsV,
    run: Seq<char>,
    slice: Seq<char>,
    grid_total: usize,
    expected: Set<u32>,
) -> Option<CounterError> {
    if expected == Set::<u32>::empty() {
        Some(CounterError::NothingExpected)
    } else if exists|i: u32| #[trigger] expected.contains(i) && i >= grid_total {
        Some(CounterError::OutOfRange)
    } else if s.counters.contains_key((run, slice)) {
        Some(CounterError::AlreadyCounting)
    } else {
        None
    }
}

/// After the tiles of a slice have begun to be counted.
pub open spec fn counting(
    s: RunsV,
    run: Seq<char>,
    slice: Seq<char>,
    grid_total: usize,
    expected: Set<u32>,
) -> RunsV {
    RunsV {
        counters: s.counters.insert(
            (run, slice),
            CounterV { grid_total, expected, received: Set::empty() },
        ),
        ..s
    }
}

/// The keys of a map over slices that belong to one of the runs in `gone`.
pub open spec fn of_runs(gone: Set<Seq<char>>) -> Set<(Seq<char>, Seq<char>)> {
    Set::new(|k: (Seq<char>, Seq<char>)| gone.contains(k.0))
}

/// Takes the slices of the runs in `gone` out of a map.
pub(crate) fn drop_runs<V>(m: &mut VecMap<SliceKey, V>, gone: &Vec<String>)
    ensures
        final(m)@ == old(m)@.remove_keys(of_runs(texts(gone@).to_set())),
{
    let ghost set = texts(gone@).to_set();
    let mut i: usize = 0;
    while i < m.len()
        invariant
            set == texts(gone@).to_set(),
            i <= m.entries().len(),
            forall|k: (Seq<char>, Seq<char>)| #[trigger]
                m@.contains_key(k) ==> old(m)@.contains_key(k) && m@[k] == old(m)@[k],
            forall|k: (Seq<char>, Seq<char>)| #[trigger]
                old(m)@.contains_key(k) && !m@.contains_key(k) ==> set.contains(k.0),
            forall|j: int| 0 <= j < i ==> !set.contains((#[trigger] m.entries()[j]).0@.0),
        decreases m.entries().len() - i,
    {
        let key = m.key_at(i);
        if crate::dispatch::listed(gone, key.run.as_str()) {
            m.remove_at(i);
        } else {
            i += 1;
        }
    }
    proof {
        assert(m@ =~= old(m)@.remove_keys(of_runs(set))) by {
            assert forall|k: (Seq<char>, Seq<char>)| m@.contains_key(k) implies !set.contains(k.0) by {
                let j = choose|j: int| 0 <= j < m.entries().len() && (#[trigger] m.entries()[j]).0@ == k;
                assert(!set.contains(m.entries()[j].0@.0));
            }
        }
    }
}

impl IncrementalRunManager {
    /// Every counter still waits for tiles, each run carries the uid that it stands
    /// under, and the memory of given-up runs has its limit.
    pub closed spec fn wf(&self) -> bool {
        &&& self@.sound()
        &&& self@.named()
        &&& self.evicted.limit() == MAX_EVICTED
    }

    /// Nothing is under way.
    pub fn new() -> (m: Self)
        ensures
            m.wf(),
            m@ == RunsV::empty(),
    {
        let m = IncrementalRunManager {
            runs: VecMap::new(),
            evicted: BoundedFifoSet::new(MAX_EVICTED),
            tile_counters: VecMap::new(),
            verified_tile_counts: VecMap::new(),
            skipped_slices: VecMap::new(),
        };
        proof {
            assert(m@ =~= RunsV::empty());
        }
        m
    }

    /// Starts a run. One that is under way stays as it is.
    pub fn start_run(
        &mut self,
        run_uid: String,
        circuit_id: String,
        circuit_name: String,
        run_source: RunSource,
        relay_request_id: Option<u32>,
        now: u64,
    )
        requires
            old(self).wf(),
        ensures
            final(self).wf(),
            final(self)@ == old(self)@.started(
                run_uid@,
                RunV {
                    run_uid: run_uid@,
                    circuit_id: circuit_id@,
                    circuit_name: circuit_name@,
                    run_source,
                    started_at: now,
                    last_activity: now,
                    artifacts: Seq::empty(),
                    relay_request_id,
                },
            ),
    {
        if self.runs.contains_key(run_uid.as_str()) {
            return;
        }
        let ghost before = self.runs@;
        let run = ActiveRun {
            run_uid: run_uid.clone(),
            circuit_id,
            circuit_name,
            run_source,
            started_at: now,
            last_activity: now,
            artifacts: Vec::new(),
            relay_request_id,
        };
        proof {
            lemma_values_insert(before, |r: ActiveRun| r@, run_uid@, run);
        }
        self.runs.insert(run_uid, run);
        proof {
            assert(self@.counters == old(self)@.counters);
            assert(self@.sound());
        }
    }

    /// Whether a run is under way.
    pub fn has_run(&self, run_uid: &str) -> (r: bool)
        ensures
            r == self@.runs.contains_key(run_uid@),
    {
        self.runs.contains_key(run_uid)
    }

    /// The circuit of a run under way.
    pub fn circuit_id_for_run(&self, run_uid: &str) -> (r: Option<&str>)
        ensures
            match r {
                Some(c) => self@.runs.contains_key(run_uid@) && c@ == self@.runs[run_uid@].circuit_id,
                None => !self@.runs.contains_key(run_uid@),
            },
    {
        match self.runs.get(run_uid) {
            Some(run) => Some(run.circuit_id.as_str()),
            None => None,
        }
    }

    /// Who asked for a run under way.
    pub fn run_source(&self, run_uid: &str) -> (r: Option<RunSource>)
        ensures
            match r {
                Some(c) => self@.runs.contains_key(run_uid@) && c == self@.runs[run_uid@].run_source,
                None => !self@.runs.contains_key(run_uid@),
            },
    {
        match self.runs.get(run_uid) {
            Some(run) => Some(run.run_source),
            None => None,
        }
    }

    /// How many tiles of a slice have been proved.
    pub fn verified_tile_count(&self, run_uid: &str, slice_id: &str) -> (r: usize)
        ensures
            r == self@.verified_tiles(run_uid@, slice_id@),
    {
        match self.verified_tile_counts.get(&slice_key(run_uid, slice_id)) {
            Some(n) => *n,
            None => 0,
        }
    }

    /// Whether a run was given up not long ago.
    pub fn is_evicted(&self, run_uid: &str) -> (r: bool)
        ensures
            r == self@.evicted.contains(run_uid@),
    {
        self.evicted.contains(run_uid)
    }

    fn open_counter(
        &mut self,
        run_uid: &str,
        slice_id: &str,
        grid_total: usize,
        expected_indices: &Vec<u32>,
    ) -> (r: Result<(), CounterError>)
        requires
            old(self).wf(),
        ensures
            final(self).wf(),
            match expected_error(
                old(self)@,
                run_uid@,
                slice_id@,
                grid_total,
                expected_indices@.to_set(),
            ) {
                Some(e) => r == Err::<(), CounterError>(e) && final(self)@ == old(self)@,
                None => r == Ok::<(), CounterError>(()) && final(self)@ == counting(
                    old(self)@,
                    run_uid@,
                    slice_id@,
                    grid_total,
                    expected_indices@.to_set(),
                ),
            },
    {
        let ghost set = expected_indices@.to_set();
        if expected_indices.len() == 0 {
            proof {
                assert(set =~= Set::<u32>::empty());
            }
            return Err(CounterError::NothingExpected);
        }
        proof {
            assert(set.contains(expected_indices@[0]));
        }
        let mut expected: HashSet<u32> = HashSet::new();
        let mut i: usize = 0;
        proof {
            assert(expected_indices@.take(0).to_set() =~= expected@);
        }
        while i < expected_indices.len()
            invariant
                i <= expected_indices@.len(),
                *self == *old(self),
                old(self).wf(),
                set == expected_indices@.to_set(),
                set != Set::<u32>::empty(),
                expected@ == expected_indices@.take(i as int).to_set(),
                expected@.finite(),
                forall|j: int| 0 <= j < i ==> #[trigger] expected_indices@[j] < grid_total,
            decreases expected_indices@.len() - i,
        {
            let idx: u32 = expected_indices[i];
            if idx as usize >= grid_total {
                proof {
                    assert(set.contains(expected_indices@[i as int]));
                }
                return Err(CounterError::OutOfRange);
            }
            proof {
                assert(expected_indices@.take(i + 1) =~= expected_indices@.take(i as int).push(idx));
                lemma_to_set_push(expected_indices@.take(i as int), idx);
            }
            expected.insert(idx);
            i += 1;
        }
        proof {
            assert(expected_indices@.take(i as int) =~= expected_indices@);
            assert forall|x: u32| #[trigger] set.contains(x) implies x < grid_total by {
                let j = choose|j: int| 0 <= j < expected_indices@.len() && expected_indices@[j] == x;
                assert(expected_indices@[j] < grid_total);
            }
        }
        let key = slice_key(run_uid, slice_id);
        if self.tile_counters.contains_key(&key) {
            return Err(CounterError::AlreadyCounting);
        }
        let counter = TileCounter { grid_total, expected, received: HashSet::new() };
        proof {
            lemma_values_insert(self.tile_counters@, |c: TileCounter| c@, key@, counter);
        }
        self.tile_counters.insert(key, counter);
        proof {
            assert(self@ =~= counting(old(self)@, run_uid@, slice_id@, grid_total, set));
            assert forall|k: (Seq<char>, Seq<char>)| #[trigger]
                self@.counters.contains_key(k) implies counter_open(self@.counters[k]) by {
                if k != (run_uid@, slice_id@) {
                    assert(old(self)@.counters.contains_key(k));
                }
            }
        }
        Ok(())
    }

    /// Begins to count the tiles of a slice.
    pub fn init_tile_counter(
        &mut self,
        run_uid: &str,
        slice_id: &str,
        tiling: &TileGrid,
        expected_indices: &Vec<u32>,
    ) -> (r: Result<(), CounterError>)
        requires
            old(self).wf(),
            tiling.tiles_y * tiling.tiles_x <= usize::MAX,
        ensures
            final(self).wf(),
            tiling.num_tiles != tiling.tiles_y * tiling.tiles_x ==> r == Err::<(), CounterError>(
                CounterError::InconsistentGrid,
            ) && final(self)@ == old(self)@,
            tiling.num_tiles == tiling.tiles_y * tiling.tiles_x ==> match expected_error(
                old(self)@,
                run_uid@,
                slice_id@,
                tiling.num_tiles,
                expected_indices@.to_set(),
            ) {
                Some(e) => r == Err::<(), CounterError>(e) && final(self)@ == old(self)@,
                None => r == Ok::<(), CounterError>(()) && final(self)@ == counting(
                    old(self)@,
                    run_uid@,
                    slice_id@,
                    tiling.num_tiles,
                    expected_indices@.to_set(),
                ),
            },
    {
        let grid_total: usize = tiling.tiles_y * tiling.tiles_x;
        if tiling.num_tiles != grid_total {
            return Err(CounterError::InconsistentGrid);
        }
        self.open_counter(run_uid, slice_id, tiling.num_tiles, expected_indices)
    }

    /// Begins to count the units of a slice that is split along a dimension.
    pub fn init_dim_split_counter(
        &mut self,
        run_uid: &str,
        slice_id: &str,
        total_units: usize,
        expected_indices: &Vec<u32>,
    ) -> (r: Result<(), CounterError>)
        requires
            old(self).wf(),
        ensures
            final(self).wf(),
            total_units == 0 ==> r == Err::<(), CounterError>(CounterError::NoUnits) && final(self)@
                == old(self)@,
            total_units > 0 ==> match expected_error(
                old(self)@,
                run_uid@,
                slice_id@,
                total_units,
                expected_indices@.to_set(),
            ) {
                Some(e) => r == Err::<(), CounterError>(e) && final(self)@ == old(self)@,
                None => r == Ok::<(), CounterError>(()) && final(self)@ == counting(
                    old(self)@,
                    run_uid@,
                    slice_id@,
                    total_units,
                    expected_indices@.to_set(),
                ),
            },
    {
        if total_units == 0 {
            return Err(CounterError::NoUnits);
        }
        self.open_counter(run_uid, slice_id, total_units, expected_indices)
    }

    /// Notes that something happened in a run.
    pub fn touch(&mut self, run_uid: &str, now: u64)
        requires
            old(self).wf(),
        ensures
            final(self).wf(),
            final(self)@ == old(self)@.touched(run_uid@, now),
    {
        let ghost before = self.runs@;
        if let Some(run) = self.runs.remove(run_uid) {
            let mut run = run;
            run.last_activity = now;
            proof {
                lemma_values_remove(before, |r: ActiveRun| r@, run_uid@);
                lemma_values_insert(before.remove(run_uid@), |r: ActiveRun| r@, run_uid@, run);
            }
            self.runs.insert(run_uid.to_owned(), run);
        }
        proof {
            assert(self@.runs =~= old(self)@.touched(run_uid@, now).runs);
            assert(self@ =~= old(self)@.touched(run_uid@, now));
        }
    }

    /// Takes in the proof of a tile.
    pub fn record_tile(&mut self, run_uid: &str, slice_id: &str, tile_idx: u32, now: u64) -> (r:
        TileBufferOutcome)
        requires
            old(self).wf(),
            old(self)@.is_news(run_uid@, slice_id@, tile_idx) ==> old(self)@.verified_tiles(
                run_uid@,
                slice_id@,
            ) < usize::MAX,
        ensures
            final(self).wf(),
            final(self)@ == old(self)@.tile_recorded(run_uid@, slice_id@, tile_idx, now),
            match r {
                TileBufferOutcome::Failed(text) => {
                    let k = (run_uid@, slice_id@);
                    &&& old(self)@.counters.contains_key(k)
                    &&& tile_idx >= old(self)@.counters[k].grid_total
                    &&& text@ == out_of_range_text(
                        run_uid@,
                        slice_id@,
                        tile_idx,
                        old(self)@.counters[k].grid_total,
                    )
                },
                TileBufferOutcome::AllReceived => {
                    &&& old(self)@.is_news(run_uid@, slice_id@, tile_idx)
                    &&& old(self)@.received_with(run_uid@, slice_id@, tile_idx)
                        == old(self)@.counters[(run_uid@, slice_id@)].expected
                },
                TileBufferOutcome::Waiting => {
                    let k = (run_uid@, slice_id@);
                    &&& old(self)@.counters.contains_key(k) ==> tile_idx
                        < old(self)@.counters[k].grid_total
                    &&& old(self)@.is_news(run_uid@, slice_id@, tile_idx) ==> old(
                        self,
                    )@.received_with(run_uid@, slice_id@, tile_idx) != old(
                        self,
                    )@.counters[k].expected
                },
            },
    {
        self.touch(run_uid, now);
        let ghost touched = self@;
        let ghost k = (run_uid@, slice_id@);
        let key = slice_key(run_uid, slice_id);
        let ghost counters0 = self.tile_counters@;
        match self.tile_counters.get(&key) {
            None => {
                return TileBufferOutcome::Waiting;
            },
            Some(counter) => {
                proof {
                    assert(touched.counters[k] == counter@);
                }
                if tile_idx as usize >= counter.grid_total {
                    let mut text = "tile_idx ".to_owned();
                    text.append(decimal(tile_idx as u64).as_str());
                    text.append(" out of range (grid_total ");
                    text.append(decimal(counter.grid_total as u64).as_str());
                    text.append(") for run=");
                    text.append(run_uid);
                    text.append(" slice=");
                    text.append(slice_id);
                    return TileBufferOutcome::Failed(text);
                }
                if !counter.expected.contains(&tile_idx) {
                    return TileBufferOutcome::Waiting;
                }
                if counter.received.contains(&tile_idx) {
                    return TileBufferOutcome::Waiting;
                }
            },
        }
        let ghost c = touched.counters[k];
        proof {
            assert(touched.sound());
            assert(touched.counters.contains_key(k));
            assert(counter_open(c));
        }
        let done = match self.tile_counters.remove(&key) {
            None => false,
            Some(counter) => {
                let mut counter = counter;
                counter.received.insert(tile_idx);
                let came: usize = counter.received.len();
                let wanted: usize = counter.expected.len();
                let all = came >= wanted;
                proof {
                    let now_received = c.received.insert(tile_idx);
                    assert(counter.received@ == now_received);
                    assert(now_received.subset_of(c.expected));
                    vstd::set_lib::lemma_len_subset(now_received, c.expected);
                    if now_received.len() == c.expected.len() {
                        vstd::set_lib::lemma_subset_equality(now_received, c.expected);
                    }
                    assert(all == (now_received == c.expected));
                    lemma_values_remove(counters0, |c: TileCounter| c@, k);
                }
                if !all {
                    proof {
                        lemma_values_insert(
                            counters0.remove(k),
                            |c: TileCounter| c@,
                            k,
                            counter,
                        );
                    }
                    self.tile_counters.insert(slice_key(run_uid, slice_id), counter);
                }
                all
            },
        };
        let count: usize = match self.verified_tile_counts.get(&key) {
            Some(n) => *n,
            None => 0,
        };
        self.verified_tile_counts.insert(key, count + 1);
        proof {
            let after = old(self)@.tile_recorded(run_uid@, slice_id@, tile_idx, now);
            assert(self@.counters =~= after.counters);
            assert(self@.verified =~= after.verified);
            assert(self@ =~= after);
            assert forall|q: (Seq<char>, Seq<char>)| #[trigger]
                self@.counters.contains_key(q) implies counter_open(self@.counters[q]) by {
                if q != k {
                    assert(old(self)@.counters.contains_key(q));
                }
            }
        }
        if done {
            TileBufferOutcome::AllReceived
        } else {
            TileBufferOutcome::Waiting
        }
    }
}

/// Which runs are meant.
#[derive(Debug)]
pub enum RunFilter<'a> {
    /// Those that measure miners.
    Benchmark,
    /// Those of a circuit.
    OfCircuit(&'a str),
    /// Those in which nothing has happened for a while.
    IdleFor { now: u64, timeout: u64 },
}

/// Whether a run is meant.
pub open spec fn meant(f: RunFilter, r: RunV) -> bool {
    match f {
        RunFilter::Benchmark => r.run_source == RunSource::Benchmark,
        RunFilter::OfCircuit(id) => r.circuit_id == id@,
        RunFilter::IdleFor { now, timeout } => crate::rsv::minus(now, r.last_activity) >= timeout,
    }
}

/// The runs that are meant.
pub open spec fn meant_runs(f: RunFilter, s: RunsV) -> Set<Seq<char>> {
    Set::new(|k: Seq<char>| s.runs.contains_key(k) && meant(f, s.runs[k]))
}

impl IncrementalRunManager {
    /// The runs that are meant, each once.
    fn select(&self, f: &RunFilter) -> (r: Vec<String>)
        ensures
            texts(r@).no_duplicates(),
            texts(r@).to_set() == meant_runs(*f, self@),
    {
        let mut r: Vec<String> = Vec::new();
        let n: usize = self.runs.len();
        let ghost entries = self.runs.entries();
        let mut i: usize = 0;
        proof {
            assert(texts(r@) =~= Seq::empty());
        }
        while i < n
            invariant
                n == entries.len(),
                entries == self.runs.entries(),
                i <= n,
                crate::keyed::distinct_keys(entries),
                forall|j: int|
                    0 <= j < n ==> {
                        &&& self.runs@.contains_key((#[trigger] entries[j]).0@)
                        &&& self.runs@[entries[j].0@] == entries[j].1
                    },
                texts(r@).no_duplicates(),
                forall|k: Seq<char>| #[trigger]
                    texts(r@).contains(k) ==> meant_runs(*f, self@).contains(k) && exists|j: int|
                        0 <= j < i && (#[trigger] entries[j]).0@ == k,
                forall|j: int|
                    0 <= j < i && meant(*f, (#[trigger] entries[j]).1@) ==> texts(r@).contains(
                        entries[j].0@,
                    ),
            decreases n - i,
        {
            let run = self.runs.value_at(i);
            let pick = match f {
                RunFilter::Benchmark => run.run_source == RunSource::Benchmark,
                RunFilter::OfCircuit(id) => str_eq(run.circuit_id.as_str(), id),
                RunFilter::IdleFor { now, timeout } => now.saturating_sub(run.last_activity)
                    >= *timeout,
            };
            if pick {
                let ghost before = texts(r@);
                let ghost k0 = entries[i as int].0@;
                r.push(self.runs.key_at(i).clone());
                proof {
                    assert(texts(r@) =~= before.push(k0));
                    lemma_to_set_push(before, k0);
                    assert(!before.contains(k0)) by {
                        if before.contains(k0) {
                            let j = choose|j: int| 0 <= j < i && (#[trigger] entries[j]).0@ == k0;
                            assert(entries[i as int].0@ != entries[j].0@);
                        }
                    }
                    assert forall|k: Seq<char>| #[trigger]
                        texts(r@).contains(k) implies meant_runs(*f, self@).contains(k) && exists|j: int|
                        0 <= j < i + 1 && (#[trigger] entries[j]).0@ == k by {
                        if k == k0 {
                            assert(entries[i as int].0@ == k);
                        } else {
                            assert(texts(r@).to_set().contains(k));
                            assert(before.contains(k));
                            let j = choose|j: int| 0 <= j < i && (#[trigger] entries[j]).0@ == k;
                            assert(0 <= j < i + 1 && entries[j].0@ == k);
                        }
                    }
                    assert(texts(r@).no_duplicates());
                }
            } else {
                proof {
                    assert forall|k: Seq<char>| #[trigger]
                        texts(r@).contains(k) implies meant_runs(*f, self@).contains(k) && exists|j: int|
                        0 <= j < i + 1 && (#[trigger] entries[j]).0@ == k by {
                        let j = choose|j: int| 0 <= j < i && (#[trigger] entries[j]).0@ == k;
                        assert(0 <= j < i + 1 && entries[j].0@ == k);
                    }
                }
            }
            i += 1;
        }
        proof {
            assert forall|k: Seq<char>| texts(r@).to_set().contains(k) == meant_runs(
                *f,
                self@,
            ).contains(k) by {
                if texts(r@).contains(k) {
                }
                if meant_runs(*f, self@).contains(k) {
                    assert(self.runs@.contains_key(k));
                    let j = choose|j: int| 0 <= j < entries.len() && (#[trigger] entries[j]).0@ == k;
                    assert(self.runs@[entries[j].0@] == entries[j].1);
                    assert(texts(r@).contains(entries[j].0@));
                }
            }
            assert(texts(r@).to_set() =~= meant_runs(*f, self@));
        }
        r
    }

    /// The runs that measure miners.
    pub fn benchmark_run_uids(&self) -> (r: Vec<String>)
        ensures
            texts(r@).no_duplicates(),
            texts(r@).to_set() == meant_runs(RunFilter::Benchmark, self@),
    {
        self.select(&RunFilter::Benchmark)
    }

    /// How many runs are under way.
    pub fn active_count(&self) -> (r: usize)
        ensures
            self@.runs.dom().finite(),
            r == self@.runs.dom().len(),
    {
        proof {
            assert(self@.runs.dom() =~= self.runs@.dom());
        }
        self.runs.len()
    }

    /// Notes that a slice is proved.
    pub fn mark_slice_done(&mut self, run_uid: &str, now: u64)
        requires
            old(self).wf(),
        ensures
            final(self).wf(),
            final(self)@ == old(self)@.touched(run_uid@, now),
    {
        self.touch(run_uid, now)
    }

    /// Gives a slice up: its tiles are no longer counted.
    pub fn mark_slice_failed(&mut self, run_uid: &str, slice_id: &str, now: u64)
        requires
            old(self).wf(),
        ensures
            final(self).wf(),
            final(self)@ == (RunsV {
                counters: old(self)@.counters.remove((run_uid@, slice_id@)),
                ..old(self)@.touched(run_uid@, now)
            }),
    {
        proof {
            lemma_values_remove(
                self.tile_counters@,
                |c: TileCounter| c@,
                (run_uid@, slice_id@),
            );
        }
        self.tile_counters.remove(&slice_key(run_uid, slice_id));
        proof {
            assert(self@.counters =~= old(self)@.counters.remove((run_uid@, slice_id@)));
            assert forall|k: (Seq<char>, Seq<char>)| #[trigger]
                self@.counters.contains_key(k) implies counter_open(self@.counters[k]) by {
                assert(old(self)@.counters.contains_key(k));
            }
        }
        self.touch(run_uid, now);
        proof {
            assert(self@ =~= (RunsV {
                counters: old(self)@.counters.remove((run_uid@, slice_id@)),
                ..old(self)@.touched(run_uid@, now)
            }));
        }
    }

    /// Records that a slice was given up without ever being sent to a miner.
    pub fn note_slice_skipped(&mut self, run_uid: &str, slice_id: &str)
        requires
            old(self).wf(),
        ensures
            final(self).wf(),
            final(self)@ == (RunsV {
                skipped: old(self)@.skipped.insert((run_uid@, slice_id@)),
                ..old(self)@
            }),
    {
        self.skipped_slices.insert(slice_key(run_uid, slice_id), ());
        proof {
            assert(self@.counters == old(self)@.counters);
            assert(self@.sound());
            assert(self@.skipped =~= old(self)@.skipped.insert((run_uid@, slice_id@)));
        }
    }

    /// Whether a slice was given up without ever being sent to a miner.
    pub fn is_slice_skipped(&self, run_uid: &str, slice_id: &str) -> (r: bool)
        ensures
            r == self@.skipped.contains((run_uid@, slice_id@)),
    {
        self.skipped_slices.contains_key(&slice_key(run_uid, slice_id))
    }

    /// How many slices of a run were given up without being sent to a miner.
    pub fn skipped_slice_count(&self, run_uid: &str) -> (r: usize)
        ensures
            r == self@.skipped.filter(|k: (Seq<char>, Seq<char>)| k.0 == run_uid@).len(),
    {
        let n: usize = self.skipped_slices.len();
        let ghost entries = self.skipped_slices.entries();
        let ghost all = self@.skipped.filter(|k: (Seq<char>, Seq<char>)| k.0 == run_uid@);
        let ghost mut seen: Set<(Seq<char>, Seq<char>)> = Set::empty();
        let mut r: usize = 0;
        let mut i: usize = 0;
        while i < n
            invariant
                n == entries.len(),
                entries == self.skipped_slices.entries(),
                i <= n,
                r <= i,
                crate::keyed::distinct_keys(entries),
                forall|j: int|
                    0 <= j < n ==> self.skipped_slices@.contains_key((#[trigger] entries[j]).0@),
                seen.finite(),
                seen.len() == r,
                all == self@.skipped.filter(|k: (Seq<char>, Seq<char>)| k.0 == run_uid@),
                forall|k: (Seq<char>, Seq<char>)| #[trigger]
                    seen.contains(k) <==> all.contains(k) && exists|j: int|
                        0 <= j < i && (#[trigger] entries[j]).0@ == k,
            decreases n - i,
        {
            let ghost k0 = entries[i as int].0@;
            let ghost seen0 = seen;
            proof {
                assert(!seen.contains(k0)) by {
                    if seen.contains(k0) {
                        let j = choose|j: int| 0 <= j < i && (#[trigger] entries[j]).0@ == k0;
                        assert(entries[i as int].0@ != entries[j].0@);
                    }
                }
            }
            if str_eq(self.skipped_slices.key_at(i).run.as_str(), run_uid) {
                r += 1;
                proof {
                    seen = seen.insert(k0);
                }
            }
            proof {
                assert forall|k: (Seq<char>, Seq<char>)| #[trigger]
                    seen.contains(k) <==> all.contains(k) && exists|j: int|
                        0 <= j < i + 1 && (#[trigger] entries[j]).0@ == k by {
                    if seen0.contains(k) {
                        let j = choose|j: int| 0 <= j < i && (#[trigger] entries[j]).0@ == k;
                        assert(0 <= j < i + 1 && entries[j].0@ == k);
                    }
                    assert(entries[i as int].0@ == k0);
                }
            }
            i += 1;
        }
        proof {
            assert(seen =~= all) by {
                assert forall|k: (Seq<char>, Seq<char>)| all.contains(k) implies seen.contains(k) by {
                    assert(self.skipped_slices@.contains_key(k));
                }
            }
        }
        r
    }

    /// Keeps a proof for the record of its run, if the run is under way.
    pub fn push_artifact(&mut self, run_uid: &str, artifact: SliceArtifact)
        requires
            old(self).wf(),
        ensures
            final(self).wf(),
            final(self)@ == (if old(self)@.runs.contains_key(run_uid@) {
                RunsV {
                    runs: old(self)@.runs.insert(
                        run_uid@,
                        RunV {
                            artifacts: old(self)@.runs[run_uid@].artifacts.push(artifact),
                            ..old(self)@.runs[run_uid@]
                        },
                    ),
                    ..old(self)@
                }
            } else {
                old(self)@
            }),
    {
        let ghost before = self.runs@;
        if let Some(run) = self.runs.remove(run_uid) {
            let mut run = run;
            run.artifacts.push(artifact);
            proof {
                lemma_values_remove(before, |r: ActiveRun| r@, run_uid@);
                lemma_values_insert(before.remove(run_uid@), |r: ActiveRun| r@, run_uid@, run);
                assert(self@.counters == old(self)@.counters);
            }
            self.runs.insert(run_uid.to_owned(), run);
            proof {
                assert(self@.runs =~= old(self)@.runs.insert(
                    run_uid@,
                    RunV {
                        artifacts: old(self)@.runs[run_uid@].artifacts.push(artifact),
                        ..old(self)@.runs[run_uid@]
                    },
                ));
            }
        } else {
            proof {
                assert(self.runs@ =~= before);
            }
        }
        proof {
            assert(self@.counters == old(self)@.counters);
            assert(self@.sound());
        }
    }

    /// Drops everything about a run, and hands the run out if it was under way.
    pub fn remove_run(&mut self, run_uid: &str) -> (r: Option<ActiveRun>)
        requires
            old(self).wf(),
        ensures
            final(self).wf(),
            final(self)@ == old(self)@.without(set![run_uid@]),
            match r {
                Some(run) => old(self)@.runs.contains_key(run_uid@) && run@
                    == old(self)@.runs[run_uid@] && run.run_uid@ == run_uid@,
                None => !old(self)@.runs.contains_key(run_uid@),
            },
    {
        let mut gone: Vec<String> = Vec::new();
        gone.push(run_uid.to_owned());
        proof {
            assert(texts(gone@) =~= seq![run_uid@]);
            assert(seq![run_uid@].to_set() =~= set![run_uid@]) by {
                assert(seq![run_uid@][0] == run_uid@);
            }
        }
        self.drop_details(&gone);
        let ghost before = self.runs@;
        let r = self.runs.remove(run_uid);
        proof {
            lemma_values_remove(before, |r: ActiveRun| r@, run_uid@);
            assert(self@.runs =~= old(self)@.without(set![run_uid@]).runs);
            assert(self@ =~= old(self)@.without(set![run_uid@]));
            assert(self@.sound());
        }
        r
    }

    /// Drops what is kept of the slices of some runs.
    fn drop_details(&mut self, gone: &Vec<String>)
        requires
            old(self).wf(),
        ensures
            final(self).wf(),
            final(self).runs == old(self).runs,
            final(self).evicted == old(self).evicted,
            final(self)@ == (RunsV {
                runs: old(self)@.runs,
                ..old(self)@.without(texts(gone@).to_set())
            }),
    {
        drop_runs(&mut self.tile_counters, gone);
        drop_runs(&mut self.verified_tile_counts, gone);
        drop_runs(&mut self.skipped_slices, gone);
        proof {
            let want = RunsV {
                runs: old(self)@.runs,
                ..old(self)@.without(texts(gone@).to_set())
            };
            assert(self@.counters =~= want.counters);
            assert(self@.verified =~= want.verified);
            assert(self@.skipped =~= want.skipped);
            assert(self@ =~= want);
            assert(self@.sound());
        }
    }

    /// Gives some runs up.
    fn give_up(&mut self, gone: &Vec<String>)
        requires
            old(self).wf(),
        ensures
            final(self).wf(),
            final(self)@ == (RunsV {
                evicted: evicted_with(old(self)@.evicted, texts(gone@)),
                ..old(self)@.without(texts(gone@).to_set())
            }),
    {
        self.drop_details(gone);
        let ghost details = self@;
        let ghost t = texts(gone@);
        let mut i: usize = 0;
        proof {
            assert(t.take(0) =~= Seq::empty());
            assert(self@.runs =~= old(self)@.runs.remove_keys(t.take(0).to_set()));
        }
        while i < gone.len()
            invariant
                i <= gone@.len(),
                t == texts(gone@),
                self.wf(),
                self@.counters == details.counters,
                self@.verified == details.verified,
                self@.skipped == details.skipped,
                self@.runs == old(self)@.runs.remove_keys(t.take(i as int).to_set()),
                self@.evicted == evicted_with(old(self)@.evicted, t.take(i as int)),
            decreases gone@.len() - i,
        {
            let ghost before = self.runs@;
            let ghost k = gone@[i as int]@;
            proof {
                assert(t.take(i + 1) =~= t.take(i as int).push(k));
                assert(t.take(i + 1).drop_last() =~= t.take(i as int));
                lemma_to_set_push(t.take(i as int), k);
                lemma_values_remove(before, |r: ActiveRun| r@, k);
            }
            self.runs.remove(gone[i].as_str());
            self.evicted.insert(gone[i].clone());
            proof {
                assert(self@.runs =~= old(self)@.runs.remove_keys(t.take(i + 1).to_set()));
                assert(self@.counters == details.counters);
                assert(self@.sound());
            }
            i += 1;
        }
        proof {
            assert(t.take(i as int) =~= t);
            assert(self@ =~= (RunsV {
                evicted: evicted_with(old(self)@.evicted, t),
                ..old(self)@.without(t.to_set())
            }));
        }
    }

    /// Gives the runs of a circuit up, and says which ones they are.
    pub fn evict_by_circuit(&mut self, circuit_id: &str) -> (r: Vec<String>)
        requires
            old(self).wf(),
        ensures
            final(self).wf(),
            texts(r@).no_duplicates(),
            texts(r@).to_set() == meant_runs(RunFilter::OfCircuit(circuit_id), old(self)@),
            final(self)@ == (RunsV {
                evicted: evicted_with(old(self)@.evicted, texts(r@)),
                ..old(self)@.without(texts(r@).to_set())
            }),
    {
        let gone = self.select(&RunFilter::OfCircuit(circuit_id));
        self.give_up(&gone);
        gone
    }

    /// Gives the runs up in which nothing has happened for `idle_timeout`, and
    /// says which ones they are.
    pub fn gc_stale(&mut self, now: u64, idle_timeout: u64) -> (r: Vec<String>)
        requires
            old(self).wf(),
        ensures
            final(self).wf(),
            texts(r@).no_duplicates(),
            texts(r@).to_set() == meant_runs(
                RunFilter::IdleFor { now, timeout: idle_timeout },
                old(self)@,
            ),
            final(self)@ == (RunsV {
                evicted: evicted_with(old(self)@.evicted, texts(r@)),
                ..old(self)@.without(texts(r@).to_set())
            }),
    {
        let gone = self.select(&RunFilter::IdleFor { now, timeout: idle_timeout });
        self.give_up(&gone);
        gone
    }
}

/// A tile that has come does not count again, and neither does one that was not
/// asked for or one of a slice that is done: nothing but the run's last activity
/// changes.
pub proof fn only_news_counts(
    s: RunsV,
    run: Seq<char>,
    slice: Seq<char>,
    tile: u32,
    now: u64,
)
    requires
        !s.is_news(run, slice, tile),
    ensures
        s.tile_recorded(run, slice, tile, now) == s.touched(run, now),
{
}

/// A tile that counts is not news afterwards.
pub proof fn news_comes_once(
    s: RunsV,
    run: Seq<char>,
    slice: Seq<char>,
    tile: u32,
    now: u64,
)
    requires
        s.sound(),
        s.is_news(run, slice, tile),
    ensures
        !s.tile_recorded(run, slice, tile, now).is_news(run, slice, tile),
        s.tile_recorded(run, slice, tile, now).sound(),
{
    let t = s.tile_recorded(run, slice, tile, now);
    assert forall|k: (Seq<char>, Seq<char>)| #[trigger] t.counters.contains_key(k) implies counter_open(
        t.counters[k],
    ) by {
        assert(s.counters.contains_key(k));
    }
}

/// The state after proofs of some tiles of a slice, in order, each with its moment.
pub open spec fn all_recorded(
    s: RunsV,
    run: Seq<char>,
    slice: Seq<char>,
    calls: Seq<(u32, u64)>,
) -> RunsV
    decreases calls.len(),
{
    if calls.len() == 0 {
        s
    } else {
        all_recorded(s, run, slice, calls.drop_last()).tile_recorded(
            run,
            slice,
            calls.last().0,
            calls.last().1,
        )
    }
}

/// The tiles among those in `expected` that have come.
pub open spec fn delivered(expected: Set<u32>, calls: Seq<(u32, u64)>) -> Set<u32>
    decreases calls.len(),
{
    if calls.len() == 0 {
        Set::empty()
    } else if expected.contains(calls.last().0) {
        delivered(expected, calls.drop_last()).insert(calls.last().0)
    } else {
        delivered(expected, calls.drop_last())
    }
}

/// Whether the proof of a tile is the last that its slice waits for.
pub open spec fn completes(s: RunsV, run: Seq<char>, slice: Seq<char>, tile: u32) -> bool {
    s.is_news(run, slice, tile) && s.received_with(run, slice, tile) == s.counters[(
        run,
        slice,
    )].expected
}

/// There are no more numbers below `n` than `n`.
proof fn lemma_below(s: Set<u32>, n: nat)
    requires
        s.finite(),
        forall|i: u32| #[trigger] s.contains(i) ==> i < n,
    ensures
        s.len() <= n,
    decreases n,
{
    if n == 0 {
        assert(s =~= Set::<u32>::empty());
    } else if n - 1 <= u32::MAX {
        let last = (n - 1) as u32;
        let t = s.remove(last);
        assert forall|i: u32| #[trigger] t.contains(i) implies i < n - 1 by {
            assert(s.contains(i));
        }
        lemma_below(t, (n - 1) as nat);
    } else {
        lemma_below(s, (n - 1) as nat);
    }
}

proof fn lemma_delivered(expected: Set<u32>, calls: Seq<(u32, u64)>)
    requires
        expected.finite(),
    ensures
        delivered(expected, calls).finite(),
        delivered(expected, calls).subset_of(expected),
        delivered(expected, calls).len() <= expected.len(),
    decreases calls.len(),
{
    if calls.len() > 0 {
        lemma_delivered(expected, calls.drop_last());
    }
    vstd::set_lib::lemma_len_subset(delivered(expected, calls), expected);
}

/// From the start of a count on, as many tiles are counted as have come of those
/// that were asked for, each once, and the slice is waited for until all of them
/// have. One more that has not come can always be counted.
pub proof fn tiles_are_counted_once_each(
    s: RunsV,
    run: Seq<char>,
    slice: Seq<char>,
    grid_total: usize,
    expected: Set<u32>,
    calls: Seq<(u32, u64)>,
)
    requires
        s.verified_tiles(run, slice) == 0,
        expected.finite(),
        expected_error(s, run, slice, grid_total, expected) is None,
    ensures
        ({
            let t = all_recorded(counting(s, run, slice, grid_total, expected), run, slice, calls);
            let came = delivered(expected, calls);
            &&& t.verified_tiles(run, slice) == came.len()
            &&& t.counters.contains_key((run, slice)) <==> came != expected
            &&& came != expected ==> t.counters[(run, slice)] == (CounterV {
                grid_total,
                expected,
                received: came,
            })
            &&& forall|tile: u32| #[trigger]
                t.is_news(run, slice, tile) ==> t.verified_tiles(run, slice) < usize::MAX
        }),
    decreases calls.len(),
{
    let start = counting(s, run, slice, grid_total, expected);
    lemma_delivered(expected, calls);
    assert forall|i: u32| #[trigger] expected.contains(i) implies i < grid_total by {}
    lemma_below(expected, grid_total as nat);
    if calls.len() > 0 {
        let head = calls.drop_last();
        tiles_are_counted_once_each(s, run, slice, grid_total, expected, head);
        lemma_delivered(expected, head);
        let before = all_recorded(start, run, slice, head);
        let tile = calls.last().0;
        let came = delivered(expected, head);
        if came == expected {
            assert(!before.is_news(run, slice, tile));
            assert(delivered(expected, calls) =~= expected);
        } else if expected.contains(tile) && !came.contains(tile) {
            assert(before.is_news(run, slice, tile));
        } else {
            assert(!before.is_news(run, slice, tile));
            assert(delivered(expected, calls) =~= came);
        }
    }
    let t = all_recorded(start, run, slice, calls);
    assert forall|tile: u32| #[trigger] t.is_news(run, slice, tile) implies t.verified_tiles(
        run,
        slice,
    ) < usize::MAX by {
        let came = delivered(expected, calls);
        assert(came.insert(tile).subset_of(expected));
        vstd::set_lib::lemma_len_subset(came.insert(tile), expected);
    }
}

/// Of the proofs that follow the start of a count, all of tiles of the grid, exactly
/// one completes the slice: the one that delivers the last tile that was asked for
/// and had not come. Any other is waited past, one that comes twice, was not asked
/// for or follows the last one too.
pub proof fn slices_complete_once(
    s: RunsV,
    run: Seq<char>,
    slice: Seq<char>,
    grid_total: usize,
    expected: Set<u32>,
    calls: Seq<(u32, u64)>,
    n: int,
)
    requires
        s.verified_tiles(run, slice) == 0,
        expected.finite(),
        expected_error(s, run, slice, grid_total, expected) is None,
        0 <= n < calls.len(),
        calls[n].0 < grid_total,
    ensures
        ({
            let start = counting(s, run, slice, grid_total, expected);
            let before = all_recorded(start, run, slice, calls.take(n));
            &&& completes(before, run, slice, calls[n].0) <==> {
                &&& delivered(expected, calls.take(n)) != expected
                &&& delivered(expected, calls.take(n + 1)) == expected
            }
            &&& before.counters.contains_key((run, slice)) ==> calls[n].0 < before.counters[(
                run,
                slice,
            )].grid_total
            &&& forall|m: int|
                0 <= m < n && #[trigger] completes(
                    all_recorded(start, run, slice, calls.take(m)),
                    run,
                    slice,
                    calls[m].0,
                ) ==> !completes(before, run, slice, calls[n].0)
        }),
{
    let start = counting(s, run, slice, grid_total, expected);
    let before = all_recorded(start, run, slice, calls.take(n));
    let tile = calls[n].0;
    lemma_step_completes(s, run, slice, grid_total, expected, calls, n);
    assert forall|m: int|
        0 <= m < n && #[trigger] completes(
            all_recorded(start, run, slice, calls.take(m)),
            run,
            slice,
            calls[m].0,
        ) implies !completes(before, run, slice, tile) by {
        lemma_step_completes(s, run, slice, grid_total, expected, calls, m);
        lemma_delivered_grows(expected, calls, m + 1, n);
    }
}

/// What has come does not go again.
proof fn lemma_delivered_grows(expected: Set<u32>, calls: Seq<(u32, u64)>, m: int, n: int)
    requires
        expected.finite(),
        0 <= m <= n <= calls.len(),
        delivered(expected, calls.take(m)) == expected,
    ensures
        delivered(expected, calls.take(n)) == expected,
    decreases n - m,
{
    if m < n {
        lemma_delivered_grows(expected, calls, m, n - 1);
        assert(calls.take(n).drop_last() =~= calls.take(n - 1));
        lemma_delivered(expected, calls.take(n));
        assert(delivered(expected, calls.take(n)) =~= expected);
    }
}

proof fn lemma_step_completes(
    s: RunsV,
    run: Seq<char>,
    slice: Seq<char>,
    grid_total: usize,
    expected: Set<u32>,
    calls: Seq<(u32, u64)>,
    n: int,
)
    requires
        s.verified_tiles(run, slice) == 0,
        expected.finite(),
        expected_error(s, run, slice, grid_total, expected) is None,
        0 <= n < calls.len(),
    ensures
        ({
            let before = all_recorded(
                counting(s, run, slice, grid_total, expected),
                run,
                slice,
                calls.take(n),
            );
            &&& completes(before, run, slice, calls[n].0) <==> {
                &&& delivered(expected, calls.take(n)) != expected
                &&& delivered(expected, calls.take(n + 1)) == expected
            }
            &&& before.counters.contains_key((run, slice)) ==> before.counters[(
                run,
                slice,
            )].grid_total == grid_total
        }),
{
    let tile = calls[n].0;
    let came = delivered(expected, calls.take(n));
    tiles_are_counted_once_each(s, run, slice, grid_total, expected, calls.take(n));
    lemma_delivered(expected, calls.take(n));
    assert(calls.take(n + 1).drop_last() =~= calls.take(n));
    assert(calls.take(n + 1).last() == calls[n]);
    assert forall|i: u32| #[trigger] expected.contains(i) implies i < grid_total by {}
    if expected.contains(tile) && came.contains(tile) {
        assert(came.insert(tile) =~= came);
    }
}

/// The runs that are newly remembered when those in `gone` are given up.
pub open spec fn newcomers(evicted: Seq<Seq<char>>, gone: Seq<Seq<char>>) -> Seq<Seq<char>>
    decreases gone.len(),
{
    if gone.len() == 0 {
        Seq::empty()
    } else {
        let r = newcomers(evicted, gone.drop_last());
        if evicted.contains(gone.last()) {
            r
        } else {
            r.push(gone.last())
        }
    }
}

/// The given-up runs once some were given up while there is room for those that
/// were among them: the oldest make room.
proof fn lemma_evicted_with(evicted: Seq<Seq<char>>, gone: Seq<Seq<char>>, total: nat)
    requires
        evicted.len() <= MAX_EVICTED,
        gone.no_duplicates(),
        newcomers(evicted, gone).len() <= total <= MAX_EVICTED,
        forall|i: int|
            0 <= i < evicted.len() && gone.contains(#[trigger] evicted[i]) ==> i + MAX_EVICTED
                >= evicted.len() + total,
    ensures
        ({
            let all = evicted + newcomers(evicted, gone);
            evicted_with(evicted, gone) == (if all.len() <= MAX_EVICTED {
                all
            } else {
                all.skip(all.len() - MAX_EVICTED)
            })
        }),
        forall|u: Seq<char>| newcomers(evicted, gone).contains(u) ==> gone.contains(u),
    decreases gone.len(),
{
    let news = newcomers(evicted, gone);
    if gone.len() == 0 {
        assert(evicted + news =~= evicted);
    } else {
        let head = gone.drop_last();
        let u = gone.last();
        let before = newcomers(evicted, head);
        assert forall|x: Seq<char>| head.contains(x) implies gone.contains(x) && x != u by {
            let j = choose|j: int| 0 <= j < head.len() && head[j] == x;
            assert(gone[j] == x);
        }
        assert(gone[gone.len() - 1] == u);
        lemma_evicted_with(evicted, head, total);
        let all = evicted + before;
        let kept = evicted_with(evicted, head);
        let cut: int = if all.len() <= MAX_EVICTED {
            0
        } else {
            all.len() - MAX_EVICTED
        };
        assert(kept =~= all.skip(cut));
        if evicted.contains(u) {
            let i = choose|i: int| 0 <= i < evicted.len() && evicted[i] == u;
            assert(gone.contains(evicted[i]));
            assert(all[i] == u);
            assert(kept[i - cut] == u);
        } else {
            assert(!kept.contains(u)) by {
                if kept.contains(u) {
                    let j = choose|j: int| 0 <= j < kept.len() && kept[j] == u;
                    assert(all[j + cut] == u);
                    if j + cut < evicted.len() {
                        assert(evicted[j + cut] == u);
                        assert(evicted.contains(u));
                    } else {
                        let b = j + cut - evicted.len();
                        assert(0 <= b < before.len());
                        assert(before[b] == u);
                        assert(before.contains(u));
                        assert(head.contains(u));
                    }
                }
            }
            let more = evicted + news;
            assert(more =~= all.push(u));
            if kept.len() >= MAX_EVICTED {
                assert(kept.drop_first().push(u) =~= more.skip(more.len() - MAX_EVICTED));
            } else {
                assert(kept.push(u) =~= more);
            }
            assert forall|x: Seq<char>| news.contains(x) implies gone.contains(x) by {
                let j = choose|j: int| 0 <= j < news.len() && news[j] == x;
                if j < before.len() {
                    assert(before[j] == x);
                    assert(before.contains(x));
                }
            }
        }
    }
}

proof fn lemma_newcomers(evicted: Seq<Seq<char>>, gone: Seq<Seq<char>>, u: Seq<char>)
    requires
        gone.contains(u),
        !evicted.contains(u),
    ensures
        newcomers(evicted, gone).contains(u),
    decreases gone.len(),
{
    let news = newcomers(evicted, gone);
    let head = gone.drop_last();
    if gone.last() == u {
        assert(news.last() == u);
    } else {
        let j = choose|j: int| 0 <= j < gone.len() && gone[j] == u;
        assert(head[j] == u);
        lemma_newcomers(evicted, head, u);
        let k = choose|k: int|
            0 <= k < newcomers(evicted, head).len() && newcomers(evicted, head)[k] == u;
        assert(news[k] == u);
    }
}

/// Once the runs of a circuit have been given up, none of them is under way and
/// nothing is kept of their slices, but each is remembered as given up; all other
/// runs are as they were, and there is nothing left of the circuit to give up. A run
/// that had been given up before must not be among the oldest that make room.
pub proof fn given_up_runs_are_remembered(
    s: RunsV,
    circuit_id: &str,
    gone: Seq<Seq<char>>,
    u: Seq<char>,
    slice: Seq<char>,
)
    requires
        s.evicted.len() <= MAX_EVICTED,
        gone.no_duplicates(),
        gone.to_set() == meant_runs(RunFilter::OfCircuit(circuit_id), s),
        gone.len() <= MAX_EVICTED,
        forall|i: int|
            0 <= i < s.evicted.len() && gone.contains(#[trigger] s.evicted[i]) ==> i + MAX_EVICTED
                >= s.evicted.len() + newcomers(s.evicted, gone).len(),
    ensures
        ({
            let t = RunsV {
                evicted: evicted_with(s.evicted, gone),
                ..s.without(gone.to_set())
            };
            &&& gone.contains(u) ==> {
                &&& !t.runs.contains_key(u)
                &&& t.evicted.contains(u)
                &&& t.verified_tiles(u, slice) == 0
                &&& !t.counters.contains_key((u, slice))
                &&& !t.skipped.contains((u, slice))
            }
            &&& !gone.contains(u) ==> {
                &&& t.runs.contains_key(u) == s.runs.contains_key(u)
                &&& s.runs.contains_key(u) ==> t.runs[u] == s.runs[u]
                &&& t.verified_tiles(u, slice) == s.verified_tiles(u, slice)
                &&& t.counters.contains_key((u, slice)) == s.counters.contains_key((u, slice))
                &&& s.counters.contains_key((u, slice)) ==> t.counters[(u, slice)]
                    == s.counters[(u, slice)]
                &&& t.skipped.contains((u, slice)) == s.skipped.contains((u, slice))
            }
            &&& meant_runs(RunFilter::OfCircuit(circuit_id), t) == Set::<Seq<char>>::empty()
        }),
{
    let t = RunsV { evicted: evicted_with(s.evicted, gone), ..s.without(gone.to_set()) };
    let news = newcomers(s.evicted, gone);
    lemma_newcomers_len(s.evicted, gone);
    lemma_evicted_with(s.evicted, gone, news.len());
    assert(gone.to_set().contains(u) == gone.contains(u));
    let all = s.evicted + news;
    let cut: int = if all.len() <= MAX_EVICTED {
        0
    } else {
        all.len() - MAX_EVICTED
    };
    assert(t.evicted =~= all.skip(cut));
    if gone.contains(u) {
        if s.evicted.contains(u) {
            let i = choose|i: int| 0 <= i < s.evicted.len() && s.evicted[i] == u;
            assert(gone.contains(s.evicted[i]));
            assert(t.evicted[i - cut] == u);
        } else {
            lemma_newcomers(s.evicted, gone, u);
            let k = choose|k: int| 0 <= k < news.len() && news[k] == u;
            assert(all[s.evicted.len() + k] == u);
            assert(t.evicted[s.evicted.len() + k - cut] == u);
        }
    }
    assert(meant_runs(RunFilter::OfCircuit(circuit_id), t) =~= Set::<Seq<char>>::empty());
}

proof fn lemma_newcomers_len(evicted: Seq<Seq<char>>, gone: Seq<Seq<char>>)
    ensures
        newcomers(evicted, gone).len() <= gone.len(),
    decreases gone.len(),
{
    if gone.len() > 0 {
        lemma_newcomers_len(evicted, gone.drop_last());
    }
}

/// What is noted of one run says nothing of another, and is gone once the run
/// is.
pub proof fn skips_are_per_run(s: RunsV, run: Seq<char>, slice: Seq<char>, other: Seq<char>)
    requires
        other != run,
    ensures
        (RunsV { skipped: s.skipped.insert((run, slice)), ..s }).skipped.contains((other, slice))
            == s.skipped.contains((other, slice)),
        !s.without(set![run]).skipped.contains((run, slice)),
        !s.without(set![run]).counters.contains_key((run, slice)),
        s.without(set![run]).verified_tiles(run, slice) == 0,
        s.without(set![run]).skipped.contains((other, slice)) == s.skipped.contains((other, slice)),
        s.without(set![run]).verified_tiles(other, slice) == s.verified_tiles(other, slice),
{
}

} // verus!
