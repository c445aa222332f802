//! Runs that go slice by slice: each slice is worked out here or sent to miners,
//! and the next one is taken up with its result.

use vstd::prelude::*;

use crate::tensor::{check_shape, shape_product};
use crate::types::{copy_text, Circuit, DSliceRequest, RunSource};

verus! {

/// A slice of a run, as it is taken up. The inputs are those of the slice as a
/// whole.
#[derive(Debug)]
pub struct StepSlice {
    pub slice_id: String,
    /// Whether there is a circuit, so that miners can prove the slice.
    pub use_circuit: bool,
    pub onnx_path: Option<String>,
    pub named_inputs: usize,
    pub input_dims: usize,
    pub tiled: bool,
    pub inputs: Vec<u8>,
    pub circuit_path: Option<String>,
}

/// Where a run stands between two slices.
#[derive(Debug)]
pub enum Stage {
    /// The next slice is being looked for.
    Choosing,
    /// The files of a slice are being unpacked.
    Extracting(StepSlice),
    /// A slice without a circuit is being worked out.
    Inferring(StepSlice),
    /// The result of a slice that was worked out here is being taken in.
    Applying,
    /// The input of a slice is being cut into tiles.
    Splitting(StepSlice),
    /// Room is being made for the results of the tiles, whose inputs are at hand.
    Buffering(StepSlice, Vec<Vec<u8>>),
    /// Nothing more happens before a miner answers.
    Resting,
}

/// What has come of an action.
#[derive(Debug)]
pub enum StepEvent {
    /// The next slice, where there is one.
    Chosen(Option<StepSlice>),
    Extracted(bool),
    /// How many numbers came out, and their shape.
    Inferred(Option<(usize, Vec<usize>)>),
    /// Whether the run is complete with the result, where it could be taken in.
    Applied(Option<bool>),
    /// The inputs of the tiles.
    Tiles(Option<Vec<Vec<u8>>>),
    Buffered(bool),
}

/// What is to be done next.
#[derive(Debug)]
pub enum StepAction {
    Choose,
    Extract,
    /// The slice is worked out, from several named inputs or from one.
    Infer { several: bool },
    Apply,
    Split,
    Buffer,
    /// The run is complete.
    Complete,
    /// The run is given up.
    TearDown,
    /// The requests wait for miners.
    Enqueue(Vec<DSliceRequest>),
    /// There is nothing to do.
    Rest,
}

/// Whether an event is what a run waits for.
pub open spec fn expects(stage: Stage, event: StepEvent) -> bool {
    match stage {
        Stage::Choosing => event is Chosen,
        Stage::Extracting(_) => event is Extracted,
        Stage::Inferring(_) => event is Inferred,
        Stage::Applying => event is Applied,
        Stage::Splitting(_) => event is Tiles,
        Stage::Buffering(_, _) => event is Buffered,
        Stage::Resting => false,
    }
}

/// The request for a slice, or for one of its tiles.
pub open spec fn is_step_request(
    r: DSliceRequest,
    slice: StepSlice,
    circuit: Circuit,
    run_uid: Seq<char>,
    run_source: RunSource,
    inputs: Seq<u8>,
    tile_idx: Option<u32>,
) -> bool {
    &&& r.circuit == circuit
    &&& r.inputs@ == inputs
    &&& r.proof_system == circuit.proof_system
    &&& r.slice_num == slice.slice_id
    &&& r.run_uid@ == run_uid
    &&& r.is_tile == tile_idx is Some
    &&& r.tile_idx == tile_idx
    &&& r.task_id is None
    &&& r.run_source == run_source
    &&& r.retry_count == 0
    &&& r.circuit_path == slice.circuit_path
    &&& r.component_sha is None
}

fn step_request(
    slice: &StepSlice,
    circuit: &Circuit,
    run_uid: &str,
    run_source: RunSource,
    inputs: Vec<u8>,
    tile_idx: Option<u32>,
) -> (r: DSliceRequest)
    ensures
        is_step_request(r, *slice, *circuit, run_uid@, run_source, inputs@, tile_idx),
{
    DSliceRequest {
        circuit: circuit.copy(),
        inputs,
        proof_system: circuit.proof_system,
        slice_num: slice.slice_id.clone(),
        run_uid: run_uid.to_owned(),
        is_tile: tile_idx.is_some(),
        tile_idx,
        task_id: None,
        run_source,
        retry_count: 0,
        circuit_path: copy_text(&slice.circuit_path),
        component_sha: None,
    }
}

/// The requests for the tiles of a slice, in order.
pub open spec fn are_tile_requests(
    r: Seq<DSliceRequest>,
    slice: StepSlice,
    circuit: Circuit,
    run_uid: Seq<char>,
    run_source: RunSource,
    tiles: Seq<Vec<u8>>,
) -> bool {
    &&& r.len() == tiles.len()
    &&& forall|i: int|
        0 <= i < r.len() ==> is_step_request(
            #[trigger] r[i],
            slice,
            circuit,
            run_uid,
            run_source,
            tiles[i]@,
            Some(i as u32),
        )
}

fn tile_requests(
    slice: &StepSlice,
    circuit: &Circuit,
    run_uid: &str,
    run_source: RunSource,
    tiles: Vec<Vec<u8>>,
) -> (r: Vec<DSliceRequest>)
    requires
        tiles@.len() <= u32::MAX,
    ensures
        are_tile_requests(r@, *slice, *circuit, run_uid@, run_source, tiles@),
{
    let ghost all = tiles@;
    let mut rest = tiles;
    let n: usize = rest.len();
    let mut r: Vec<DSliceRequest> = Vec::new();
    let mut i: usize = 0;
    proof {
        assert(rest@ =~= all.skip(0));
    }
    while i < n
        invariant
            n == all.len(),
            n <= u32::MAX,
            i <= n,
            rest@ == all.skip(i as int),
            are_tile_requests(
                r@,
                *slice,
                *circuit,
                run_uid@,
                run_source,
                all.take(i as int),
            ),
        decreases n - i,
    {
        let inputs = rest.remove(0);
        proof {
            assert(all.skip(i as int)[0] == all[i as int]);
            assert(rest@ =~= all.skip(i + 1));
            assert forall|k: int| 0 <= k < i implies all.take(i as int)[k] == all.take(i + 1)[k] by {}
        }
        r.push(step_request(slice, circuit, run_uid, run_source, inputs, Some(i as u32)));
        i += 1;
    }
    proof {
        assert(all.take(i as int) =~= all);
    }
    r
}

/// What is to be done with a slice whose files are at hand.
pub open spec fn extracted_step(s: StepSlice) -> StepRoute {
    if !s.use_circuit {
        if s.onnx_path is Some {
            StepRoute::Infer
        } else {
            StepRoute::TearDown
        }
    } else if s.tiled {
        if s.input_dims == 4 {
            StepRoute::Split
        } else {
            StepRoute::TearDown
        }
    } else {
        StepRoute::Enqueue
    }
}

/// The ways on from a slice whose files are at hand.
#[derive(Clone, Copy, Debug, PartialEq, Eq, Structural)]
pub enum StepRoute {
    Infer,
    Split,
    Enqueue,
    TearDown,
}

/// Whether so many numbers fill a shape.
pub open spec fn fills(out: Option<(usize, Vec<usize>)>) -> bool {
    match out {
        Some((count, shape)) => count == shape_product(shape@),
        None => false,
    }
}

/// Goes on with a run after an action. A slice without a circuit is worked out
/// here; one that is tiled is sent tile by tile, any other as a whole. Whatever
/// fails gives the run up.
pub fn enqueue_next_dslice(
    stage: Stage,
    event: StepEvent,
    circuit: &Circuit,
    run_uid: &str,
    run_source: RunSource,
) -> (r: (Stage, StepAction))
    requires
        expects(stage, event),
        stage matches Stage::Buffering(_, tiles) ==> tiles@.len() <= u32::MAX,
    ensures
        event == StepEvent::Chosen(None) ==> r == (Stage::Resting, StepAction::Rest),
        event matches StepEvent::Chosen(Some(s)) ==> r == (
            Stage::Extracting(s),
            StepAction::Extract,
        ),
        event == StepEvent::Extracted(false) ==> r == (Stage::Resting, StepAction::TearDown),
        event == StepEvent::Extracted(true) ==> {
            let s = stage->Extracting_0;
            match extracted_step(s) {
                StepRoute::TearDown => r == (Stage::Resting, StepAction::TearDown),
                StepRoute::Infer => r == (
                    Stage::Inferring(s),
                    StepAction::Infer { several: s.named_inputs > 1 },
                ),
                StepRoute::Split => r == (Stage::Splitting(s), StepAction::Split),
                StepRoute::Enqueue => {
                    &&& r.0 == Stage::Resting
                    &&& r.1 matches StepAction::Enqueue(q) && q@.len() == 1 && is_step_request(
                        q@[0],
                        s,
                        *circuit,
                        run_uid@,
                        run_source,
                        s.inputs@,
                        None,
                    )
                },
            }
        },
        event matches StepEvent::Inferred(out) ==> r == (if fills(out) {
            (Stage::Applying, StepAction::Apply)
        } else {
            (Stage::Resting, StepAction::TearDown)
        }),
        event matches StepEvent::Applied(a) ==> r == (match a {
            Some(true) => (Stage::Resting, StepAction::Complete),
            Some(false) => (Stage::Choosing, StepAction::Choose),
            None => (Stage::Resting, StepAction::TearDown),
        }),
        event matches StepEvent::Tiles(tiles) ==> r == (match tiles {
            Some(t) => (Stage::Buffering(stage->Splitting_0, t), StepAction::Buffer),
            None => (Stage::Resting, StepAction::TearDown),
        }),
        event == StepEvent::Buffered(false) ==> r == (Stage::Resting, StepAction::TearDown),
        event == StepEvent::Buffered(true) ==> {
            &&& r.0 == Stage::Resting
            &&& r.1 matches StepAction::Enqueue(q) && are_tile_requests(
                q@,
                stage->Buffering_0,
                *circuit,
                run_uid@,
                run_source,
                stage->Buffering_1@,
            )
        },
{
    match (stage, event) {
        (Stage::Choosing, StepEvent::Chosen(Some(s))) => (
            Stage::Extracting(s),
            StepAction::Extract,
        ),
        (Stage::Choosing, _) => (Stage::Resting, StepAction::Rest),
        (Stage::Extracting(s), StepEvent::Extracted(true)) => {
            if !s.use_circuit {
                if s.onnx_path.is_none() {
                    return (Stage::Resting, StepAction::TearDown);
                }
                let several = s.named_inputs > 1;
                return (Stage::Inferring(s), StepAction::Infer { several });
            }
            if s.tiled {
                if s.input_dims != 4 {
                    return (Stage::Resting, StepAction::TearDown);
                }
                return (Stage::Splitting(s), StepAction::Split);
            }
            let inputs = s.inputs.clone();
            proof {
                assert(inputs@ =~= s.inputs@);
            }
            let mut q: Vec<DSliceRequest> = Vec::new();
            q.push(step_request(&s, circuit, run_uid, run_source, inputs, None));
            (Stage::Resting, StepAction::Enqueue(q))
        },
        (Stage::Inferring(_), StepEvent::Inferred(Some((count, shape)))) => {
            match check_shape(&shape, count) {
                Ok(_) => (Stage::Applying, StepAction::Apply),
                Err(_) => (Stage::Resting, StepAction::TearDown),
            }
        },
        (Stage::Applying, StepEvent::Applied(Some(true))) => (
            Stage::Resting,
            StepAction::Complete,
        ),
        (Stage::Applying, StepEvent::Applied(Some(false))) => (
            Stage::Choosing,
            StepAction::Choose,
        ),
        (Stage::Splitting(s), StepEvent::Tiles(Some(t))) => (
            Stage::Buffering(s, t),
            StepAction::Buffer,
        ),
        (Stage::Buffering(s, t), StepEvent::Buffered(true)) => (
            Stage::Resting,
            StepAction::Enqueue(tile_requests(&s, circuit, run_uid, run_source, t)),
        ),
        _ => (Stage::Resting, StepAction::TearDown),
    }
}

/// What came of a result that was put with the others of its slice.
#[derive(Debug)]
pub enum TileBufferOutcome {
    Waiting,
    /// All results of the slice are there.
    Ready,
    Failed,
}

/// What becomes of a run after a miner's answer for one of its slices.
#[derive(Clone, Copy, Debug, PartialEq, Eq, Structural)]
pub enum SliceEnd {
    /// More answers for the slice are awaited.
    Wait,
    /// The result of the slice is taken in.
    Apply,
    /// The run is given up.
    TearDown,
}

/// What is done with a tile's answer. `buffered` is what came of its result, if
/// it could be read.
pub fn tile_answered(tile_idx: Option<u32>, buffered: Option<TileBufferOutcome>) -> (r: SliceEnd)
    ensures
        r == (match (tile_idx, buffered) {
            (Some(_), Some(TileBufferOutcome::Waiting)) => SliceEnd::Wait,
            (Some(_), Some(TileBufferOutcome::Ready)) => SliceEnd::Apply,
            _ => SliceEnd::TearDown,
        }),
{
    if tile_idx.is_none() {
        return SliceEnd::TearDown;
    }
    match buffered {
        Some(TileBufferOutcome::Waiting) => SliceEnd::Wait,
        Some(TileBufferOutcome::Ready) => SliceEnd::Apply,
        _ => SliceEnd::TearDown,
    }
}

/// What becomes of a run once a slice's result is taken in, if it could be: the
/// run is complete, or its next slice is looked for.
pub fn apply_dslice_result(applied: Option<bool>) -> (r: (Stage, StepAction))
    ensures
        r == (match applied {
            Some(true) => (Stage::Resting, StepAction::Complete),
            Some(false) => (Stage::Choosing, StepAction::Choose),
            None => (Stage::Resting, StepAction::TearDown),
        }),
{
    match applied {
        Some(true) => (Stage::Resting, StepAction::Complete),
        Some(false) => (Stage::Choosing, StepAction::Choose),
        None => (Stage::Resting, StepAction::TearDown),
    }
}

/// A slice that is worked out here never reaches a miner, and one that has a
/// circuit is never worked out here.
pub proof fn circuits_decide_who_works(s: StepSlice)
    ensures
        !s.use_circuit ==> extracted_step(s) != StepRoute::Enqueue && extracted_step(s)
            != StepRoute::Split,
        s.use_circuit ==> extracted_step(s) != StepRoute::Infer,
{
}

} // verus!
