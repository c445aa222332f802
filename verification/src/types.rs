//! The plain data that passes between the parts of the validator.

use vstd::prelude::*;

use crate::json::Json;

verus! {

/// What a miner is asked for.
#[derive(Clone, Copy, Debug, PartialEq, Eq, Structural)]
pub enum RequestType {
    ProofOfWeights,
    Rwr,
    DSlice,
    Benchmark,
}

/// Who asked for a run.
#[derive(Clone, Copy, Debug, PartialEq, Eq, Structural)]
pub enum RunSource {
    Api,
    Benchmark,
}

/// A proof system, by its number.
#[derive(Clone, Copy, Debug, PartialEq, Eq, Structural)]
pub struct ProofSystem {
    pub code: u8,
}

/// A circuit, as far as the scheduling of its work needs to know it.
#[derive(Debug)]
pub struct Circuit {
    pub id: String,
    pub name: String,
    pub proof_system: ProofSystem,
}

impl Circuit {
    /// Another value for the same circuit.
    pub fn copy(&self) -> (c: Circuit)
        ensures
            c == *self,
    {
        Circuit { id: self.id.clone(), name: self.name.clone(), proof_system: self.proof_system }
    }
}

/// The text of an optional text, copied.
pub fn copy_text(t: &Option<String>) -> (r: Option<String>)
    ensures
        r == *t,
{
    match t {
        Some(s) => Some(s.clone()),
        None => None,
    }
}

/// A piece of a run that a miner is to prove.
#[derive(Debug)]
pub struct DSliceRequest {
    pub circuit: Circuit,
    pub inputs: Vec<u8>,
    pub proof_system: ProofSystem,
    pub slice_num: String,
    pub run_uid: String,
    pub is_tile: bool,
    pub tile_idx: Option<u32>,
    pub task_id: Option<String>,
    pub run_source: RunSource,
    pub retry_count: u32,
    pub circuit_path: Option<String>,
    pub component_sha: Option<String>,
}

/// A request of a customer for a proof.
#[derive(Debug)]
pub struct RwrSubmission {
    pub circuit_id: String,
    pub inputs: Json,
    pub request_id: Option<u32>,
    pub retry_count: u32,
}

/// A request of a customer for a whole run.
#[derive(Debug)]
pub struct DsperseSubmission {
    pub circuit_id: String,
    pub inputs: Json,
    pub tensor_data: Option<Vec<u8>>,
    pub request_id: Option<u32>,
}

/// What is sent again when a miner fails.
#[derive(Debug)]
pub enum RetryPayload {
    Rwr(RwrSubmission),
    DSlice(DSliceRequest),
    Nothing,
}

} // verus!
