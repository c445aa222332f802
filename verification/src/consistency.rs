//! Whether what a miner computed agrees with what the model gives. Numbers are
//! written as the bits of floating-point numbers.

use vstd::prelude::*;

use crate::incremental_runner::IncrementalRunManager;

verus! {

/// How a miner's outputs compare with those of the model.
#[derive(Clone, Copy, Debug, PartialEq, Eq, Structural)]
pub enum OutputConsistency {
    Consistent { max_rel_err: u64 },
    Diverged { max_rel_err: u64 },
    LengthMismatch { expected: usize, actual: usize },
    NoExpected,
    NoRun,
}

/// What is left to do before it is known how outputs compare.
#[derive(Clone, Copy, Debug, PartialEq, Eq, Structural)]
pub enum Comparison {
    /// Nothing: this is how they compare.
    Settled(OutputConsistency),
    /// The first so many outputs are compared number by number.
    Compare(usize),
}

/// The largest relative error that is tolerated: a tenth.
pub const OUTPUT_CONSISTENCY_THRESHOLD: u64 = 0x3fb9_9999_9999_999a;

/// An error beyond every bound.
pub const UNBOUNDED: u64 = 0x7ff0_0000_0000_0000;

const SIGN: u64 = 0x8000_0000_0000_0000;

/// Whether bits stand for a finite number.
pub open spec fn finite(bits: u64) -> bool {
    bits % 0x8000_0000_0000_0000 < 0x7ff0_0000_0000_0000
}

/// Whether the first numbers of a list are finite.
pub open spec fn finite_up_to(s: Seq<u64>, n: int) -> bool {
    forall|i: int| 0 <= i < n ==> finite(#[trigger] s[i])
}

fn all_finite(v: &Vec<u64>, n: usize) -> (r: bool)
    requires
        n <= v@.len(),
    ensures
        r == finite_up_to(v@, n as int),
{
    let mut i: usize = 0;
    while i < n
        invariant
            i <= n <= v@.len(),
            finite_up_to(v@, i as int),
        decreases n - i,
    {
        if v[i] % SIGN >= UNBOUNDED {
            proof {
                assert(!finite(v@[i as int]));
            }
            return false;
        }
        i += 1;
    }
    true
}

/// How outputs compare, as far as that is known before the numbers are held
/// against each other: those beyond the shorter list do not count, an empty list
/// compares with nothing, and a number that is not finite agrees with none.
pub open spec fn compared(expected: Seq<u64>, actual: Seq<u64>) -> Comparison {
    let n = if expected.len() < actual.len() {
        expected.len()
    } else {
        actual.len()
    };
    if expected.len() == 0 || actual.len() == 0 {
        Comparison::Settled(
            OutputConsistency::LengthMismatch {
                expected: expected.len() as usize,
                actual: actual.len() as usize,
            },
        )
    } else if !finite_up_to(expected, n as int) || !finite_up_to(actual, n as int) {
        Comparison::Settled(OutputConsistency::Diverged { max_rel_err: UNBOUNDED })
    } else {
        Comparison::Compare(n as usize)
    }
}

/// How a miner's outputs compare with those of the model, before the numbers are
/// held against each other.
pub fn classify_output_consistency(expected: &Vec<u64>, actual: &Vec<u64>) -> (r: Comparison)
    ensures
        r == compared(expected@, actual@),
{
    let m: usize = expected.len();
    let k: usize = actual.len();
    if m == 0 || k == 0 {
        return Comparison::Settled(
            OutputConsistency::LengthMismatch { expected: m, actual: k },
        );
    }
    let n: usize = if m < k {
        m
    } else {
        k
    };
    if !all_finite(expected, n) || !all_finite(actual, n) {
        return Comparison::Settled(OutputConsistency::Diverged { max_rel_err: UNBOUNDED });
    }
    Comparison::Compare(n)
}

/// How outputs compare whose largest relative error is known. The error is no
/// negative number.
pub fn judge(max_rel_err: u64) -> (r: OutputConsistency)
    ensures
        r == (if max_rel_err > OUTPUT_CONSISTENCY_THRESHOLD {
            OutputConsistency::Diverged { max_rel_err }
        } else {
            OutputConsistency::Consistent { max_rel_err }
        }),
{
    if max_rel_err > OUTPUT_CONSISTENCY_THRESHOLD {
        OutputConsistency::Diverged { max_rel_err }
    } else {
        OutputConsistency::Consistent { max_rel_err }
    }
}

impl IncrementalRunManager {
    /// How a miner's outputs for a run compare with those of the model, before the
    /// numbers are held against each other. `expected` are the model's outputs,
    /// where there are any.
    pub fn verify_output_consistency(
        &self,
        run_uid: &str,
        expected: Option<&Vec<u64>>,
        miner_outputs: &Vec<u64>,
    ) -> (r: Comparison)
        ensures
            r == (if !self@.runs.contains_key(run_uid@) {
                Comparison::Settled(OutputConsistency::NoRun)
            } else {
                match expected {
                    None => Comparison::Settled(OutputConsistency::NoExpected),
                    Some(e) => compared(e@, miner_outputs@),
                }
            }),
    {
        if !self.has_run(run_uid) {
            return Comparison::Settled(OutputConsistency::NoRun);
        }
        match expected {
            None => Comparison::Settled(OutputConsistency::NoExpected),
            Some(e) => classify_output_consistency(e, miner_outputs),
        }
    }
}

/// Outputs that are not finite never agree with anything.
pub proof fn only_finite_outputs_agree(expected: Seq<u64>, actual: Seq<u64>, i: int)
    requires
        0 <= i < expected.len(),
        0 <= i < actual.len(),
        !finite(expected[i]) || !finite(actual[i]),
    ensures
        compared(expected, actual) == Comparison::Settled(
            OutputConsistency::Diverged { max_rel_err: UNBOUNDED },
        ),
{
    let n = if expected.len() < actual.len() {
        expected.len()
    } else {
        actual.len()
    };
    if finite_up_to(expected, n as int) {
        assert(finite(expected[i]));
    }
    if finite_up_to(actual, n as int) {
        assert(finite(actual[i]));
    }
}

} // verus!
