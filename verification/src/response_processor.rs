//! What of a miner's answer is checked, and what becomes of the check.

use vstd::prelude::*;
use vstd::string::*;

use crate::json::{Json, JsonV};
use crate::response::MinerResponse;
use crate::text::{decimal, decimal_text, str_eq};
use crate::types::ProofSystem;

verus! {

/// Checks the answers of miners.
#[derive(Clone, Copy, Debug)]
pub struct ResponseProcessor;

/// An answer without a proof, by the miner that gave it.
#[derive(Clone, Copy, Debug, PartialEq, Eq, Structural)]
pub struct EmptyProof {
    pub uid: u16,
}

/// Where the compiled circuit of a slice lies below its model.
pub open spec fn bundle_text(slice_num: Option<u64>) -> Seq<char> {
    "slices/slice_"@ + decimal_text(
        match slice_num {
            Some(n) => n as nat,
            None => 0,
        },
    ) + "/jstprove/circuit.bundle"@
}

/// Where the compiled circuit of a slice lies below its model. An answer that
/// speaks of no slice is about the first one.
pub fn resolve_circuit_path(slice_num: Option<u64>) -> (r: String)
    ensures
        r@ == bundle_text(slice_num),
{
    let n: u64 = match slice_num {
        Some(n) => n,
        None => 0,
    };
    "slices/slice_".to_owned().concat(decimal(n).as_str()).concat("/jstprove/circuit.bundle")
}

/// The text of an answer's proof, empty where it has none.
pub open spec fn proof_text(r: MinerResponse) -> Seq<char> {
    match r.proof_content {
        Some(j) => match j@.text() {
            Some(t) => t,
            None => Seq::empty(),
        },
        None => Seq::empty(),
    }
}

/// The text of an answer's witness, empty where it has none.
pub open spec fn witness_text(r: MinerResponse) -> Seq<char> {
    match r.witness {
        Some(w) => w@,
        None => Seq::empty(),
    }
}

/// Whether an answer holds what a check takes: a proof, a witness, and a circuit
/// of the proof system that can be checked.
pub open spec fn is_checkable(r: MinerResponse, supported: ProofSystem) -> bool {
    &&& proof_text(r).len() > 0
    &&& witness_text(r).len() > 0
    &&& r.circuit matches Some(c) && c.proof_system == supported
}

/// What is handed to the check of a proof.
#[derive(Debug)]
pub struct CheckRequest {
    pub request_id: String,
    pub circuit_path: String,
    pub witness_hex: String,
    pub proof_hex: String,
    pub num_inputs: usize,
    pub pcs_type: String,
}

/// What is done with an answer.
#[derive(Debug)]
pub enum CheckPlan {
    /// It is rejected without a check.
    Reject,
    /// Its proof is checked.
    Check(CheckRequest),
}

/// How the commitments of a proof are made, as a circuit's settings say.
pub open spec fn commitment_kind(settings: JsonV) -> Seq<char> {
    match settings.member("pcs_type"@) {
        Some(v) => match v.text() {
            Some(t) => t,
            None => "raw"@,
        },
        None => "raw"@,
    }
}

/// How many inputs a circuit takes: as its settings say, else as its compiled form
/// says, else as many as the answer was asked with.
pub open spec fn input_count(settings: JsonV, compiled: Option<usize>, asked: Option<usize>) -> u64 {
    match settings.member("num_inputs"@) {
        Some(v) => match v.unsigned() {
            Some(n) => n,
            None => input_fallback(compiled, asked),
        },
        None => input_fallback(compiled, asked),
    }
}

/// How many inputs a circuit takes where its settings do not say.
pub open spec fn input_fallback(compiled: Option<usize>, asked: Option<usize>) -> u64 {
    match compiled {
        Some(d) => if d > 0 {
            d as u64
        } else {
            match asked {
                Some(n) => n as u64,
                None => 0,
            }
        },
        None => match asked {
            Some(n) => n as u64,
            None => 0,
        },
    }
}

/// Works out how many inputs a circuit takes. `compiled` is what its compiled form
/// says, and `asked` how many the answer was asked with.
pub fn load_num_inputs(settings: &Json, compiled: Option<usize>, asked: Option<usize>) -> (r: u64)
    ensures
        r == input_count(settings@, compiled, asked),
{
    if let Some(v) = settings.get("num_inputs") {
        if let Some(n) = v.as_u64() {
            return n;
        }
    }
    if let Some(d) = compiled {
        if d > 0 {
            return d as u64;
        }
    }
    match asked {
        Some(n) => n as u64,
        None => 0,
    }
}

fn commitments(settings: &Json) -> (r: String)
    ensures
        r@ == commitment_kind(settings@),
{
    if let Some(v) = settings.get("pcs_type") {
        if let Some(t) = v.as_str() {
            return t.to_owned();
        }
    }
    "raw".to_owned()
}

/// Where the weights of a slice were looked for, to be put behind its inputs.
#[derive(Debug)]
pub enum WeightLookup<T> {
    /// There is no model or nothing is known of it.
    NotFound,
    /// The model cannot be read.
    Unreadable,
    /// The weights, tensor by tensor.
    Found(Vec<Vec<T>>),
}

/// The numbers of some tensors, one after the other.
pub open spec fn joined<T>(s: Seq<Vec<T>>) -> Seq<T>
    decreases s.len(),
{
    if s.len() == 0 {
        Seq::empty()
    } else {
        joined(s.drop_last()) + s.last()@
    }
}

/// The inputs that a proof must have been made of, where they are known.
pub open spec fn known_inputs<T>(
    activations: Option<Seq<T>>,
    weights_as_inputs: bool,
    weights: WeightLookup<T>,
) -> Option<Seq<T>> {
    match activations {
        None => None,
        Some(a) => if a.len() == 0 {
            None
        } else if !weights_as_inputs {
            Some(a)
        } else {
            match weights {
                WeightLookup::NotFound => None,
                WeightLookup::Unreadable => Some(a),
                WeightLookup::Found(w) => Some(a + joined(w@)),
            }
        },
    }
}

/// Puts the inputs together that a proof must have been made of: those that the
/// miner was given, and behind them the weights where the circuit takes them in.
pub fn build_expected_inputs<T: Copy>(
    activations: Option<Vec<T>>,
    weights_as_inputs: bool,
    weights: WeightLookup<T>,
) -> (r: Option<Vec<T>>)
    ensures
        ({
            let known = known_inputs(
                match activations {
                    Some(a) => Some(a@),
                    None => None,
                },
                weights_as_inputs,
                weights,
            );
            match r {
                Some(v) => known == Some(v@),
                None => known is None,
            }
        }),
{
    let mut flat = match activations {
        Some(a) => a,
        None => {
            return None;
        },
    };
    if flat.len() == 0 {
        return None;
    }
    if !weights_as_inputs {
        return Some(flat);
    }
    let w = match weights {
        WeightLookup::NotFound => {
            return None;
        },
        WeightLookup::Unreadable => {
            return Some(flat);
        },
        WeightLookup::Found(w) => w,
    };
    let ghost start = flat@;
    let mut i: usize = 0;
    proof {
        assert(w@.take(0).len() == 0);
        assert(flat@ =~= start + joined(w@.take(0)));
    }
    while i < w.len()
        invariant
            i <= w@.len(),
            flat@ == start + joined(w@.take(i as int)),
        decreases w@.len() - i,
    {
        proof {
            assert(w@.take(i + 1).drop_last() =~= w@.take(i as int));
            assert(w@.take(i + 1).last() == w@[i as int]);
        }
        let ghost before = flat@;
        let part = &w[i];
        let mut k: usize = 0;
        proof {
            assert(flat@ =~= before + part@.take(0));
        }
        while k < part.len()
            invariant
                k <= part@.len(),
                flat@ == before + part@.take(k as int),
            decreases part@.len() - k,
        {
            flat.push(part[k]);
            proof {
                assert(flat@ =~= before + part@.take(k + 1));
            }
            k += 1;
        }
        proof {
            assert(part@.take(k as int) =~= part@);
            assert(flat@ =~= start + (joined(w@.take(i as int)) + part@));
        }
        i += 1;
    }
    proof {
        assert(w@.take(i as int) =~= w@);
    }
    Some(flat)
}

impl ResponseProcessor {
    /// A processor; it keeps nothing.
    pub fn new() -> (p: Self)
        ensures
            p == ResponseProcessor,
    {
        ResponseProcessor
    }

    /// Decides what is done with an answer. One without any proof is an error of
    /// its own. `circuit_path` is where its compiled circuit was found, if it was,
    /// and `settings` are those of its circuit.
    pub fn verify_response(
        &self,
        response: &MinerResponse,
        supported: ProofSystem,
        circuit_path: Option<String>,
        settings: &Json,
        num_inputs: usize,
    ) -> (r: Result<CheckPlan, EmptyProof>)
        ensures
            match r {
                Err(e) => response.proof_content is None && e.uid == response.uid,
                Ok(CheckPlan::Reject) => response.proof_content is Some && !(is_checkable(
                    *response,
                    supported,
                ) && circuit_path is Some),
                Ok(CheckPlan::Check(c)) => {
                    &&& is_checkable(*response, supported)
                    &&& circuit_path == Some(c.circuit_path)
                    &&& c.request_id@ == "verify-"@ + decimal_text(response.uid as nat)
                    &&& c.witness_hex@ == witness_text(*response)
                    &&& c.proof_hex@ == proof_text(*response)
                    &&& c.num_inputs == num_inputs
                    &&& c.pcs_type@ == commitment_kind(settings@)
                },
            },
    {
        proof {
            reveal_strlit("");
        }
        let proof_hex: &str = match &response.proof_content {
            None => {
                return Err(EmptyProof { uid: response.uid });
            },
            Some(j) => match j.as_str() {
                Some(t) => t,
                None => "",
            },
        };
        proof {
            assert(""@ =~= Seq::<char>::empty());
            assert(proof_hex@ =~= proof_text(*response));
            if proof_hex@.len() == 0 {
                assert(proof_hex@ =~= ""@);
            }
        }
        if str_eq(proof_hex, "") {
            return Ok(CheckPlan::Reject);
        }
        let witness_hex: &str = match &response.witness {
            Some(w) => w.as_str(),
            None => {
                return Ok(CheckPlan::Reject);
            },
        };
        proof {
            if witness_hex@.len() == 0 {
                assert(witness_hex@ =~= ""@);
            }
        }
        if str_eq(witness_hex, "") {
            return Ok(CheckPlan::Reject);
        }
        let known = match &response.circuit {
            Some(c) => c.proof_system == supported,
            None => false,
        };
        if !known {
            return Ok(CheckPlan::Reject);
        }
        match circuit_path {
            None => Ok(CheckPlan::Reject),
            Some(path) => Ok(
                CheckPlan::Check(
                    CheckRequest {
                        request_id: "verify-".to_owned().concat(
                            decimal(response.uid as u64).as_str(),
                        ),
                        circuit_path: path,
                        witness_hex: witness_hex.to_owned(),
                        proof_hex: proof_hex.to_owned(),
                        num_inputs,
                        pcs_type: commitments(settings),
                    },
                ),
            ),
        }
    }

    /// Takes in what became of the check: outputs where the proof holds. The
    /// result says whether it does.
    pub fn settle(&self, response: &mut MinerResponse, outputs: Option<Json>, took: u64) -> (r: bool)
        ensures
            r == outputs is Some,
            *final(response) == (MinerResponse {
                computed_outputs: if outputs is Some {
                    outputs
                } else {
                    old(response).computed_outputs
                },
                verification_time: Some(took),
                ..*old(response)
            }),
    {
        response.verification_time = Some(took);
        match outputs {
            Some(o) => {
                response.computed_outputs = Some(o);
                true
            },
            None => false,
        }
    }
}

/// Whatever an answer claims, its proof is only checked where it has one, comes
/// with a witness, and is of the proof system that can be checked.
pub proof fn only_whole_answers_are_checked(r: MinerResponse, supported: ProofSystem)
    requires
        r.witness is None || r.circuit is None || r.proof_content is None,
    ensures
        !is_checkable(r, supported),
{
}

} // verus!
