//! The answers that wait for a proof of how they were scored.

use std::collections::VecDeque;
use vstd::prelude::*;
use vstd::string::*;

use crate::json::{items, lemma_items, put, Json, JsonV};

verus! {

/// An answer whose score is to be proved. Times and scores are numbers.
#[derive(Debug)]
pub struct PowItem {
    pub miner_uid: u16,
    pub validator_uid: u16,
    pub verified: bool,
    pub response_time: Json,
    pub proof_size: u64,
    pub previous_score: Json,
    pub maximum_score: Json,
    pub maximum_response_time: Json,
    pub minimum_response_time: Json,
    pub block_number: u64,
}

/// The answers that wait, and how many are proved together.
#[derive(Debug)]
pub struct PowManager {
    pub queue: VecDeque<PowItem>,
    pub batch_size: usize,
}

/// What the inputs of a proof list of each answer.
#[derive(Clone, Copy, Debug, PartialEq, Eq, Structural)]
pub enum PowColumn {
    MaximumScore,
    PreviousScore,
    Verified,
    ProofSize,
    ResponseTime,
    MaximumResponseTime,
    MinimumResponseTime,
    BlockNumber,
    ValidatorUid,
    MinerUid,
}

/// What a column holds of an answer.
pub open spec fn cell(item: PowItem, c: PowColumn) -> JsonV {
    match c {
        PowColumn::MaximumScore => item.maximum_score@,
        PowColumn::PreviousScore => item.previous_score@,
        PowColumn::Verified => JsonV::Int(
            if item.verified {
                1
            } else {
                0
            },
        ),
        PowColumn::ProofSize => JsonV::Int(item.proof_size as int),
        PowColumn::ResponseTime => item.response_time@,
        PowColumn::MaximumResponseTime => item.maximum_response_time@,
        PowColumn::MinimumResponseTime => item.minimum_response_time@,
        PowColumn::BlockNumber => JsonV::Int(item.block_number as int),
        PowColumn::ValidatorUid => JsonV::Int(item.validator_uid as int),
        PowColumn::MinerUid => JsonV::Int(item.miner_uid as int),
    }
}

/// A column of the inputs of a proof.
pub open spec fn column(s: Seq<PowItem>, c: PowColumn) -> JsonV {
    JsonV::Array(Seq::new(s.len(), |i: int| cell(s[i], c)))
}

fn cell_value(item: &PowItem, c: PowColumn) -> (r: Json)
    ensures
        r@ == cell(*item, c),
{
    match c {
        PowColumn::MaximumScore => item.maximum_score.copy(),
        PowColumn::PreviousScore => item.previous_score.copy(),
        PowColumn::Verified => Json::Unsigned(
            if item.verified {
                1
            } else {
                0
            },
        ),
        PowColumn::ProofSize => Json::Unsigned(item.proof_size),
        PowColumn::ResponseTime => item.response_time.copy(),
        PowColumn::MaximumResponseTime => item.maximum_response_time.copy(),
        PowColumn::MinimumResponseTime => item.minimum_response_time.copy(),
        PowColumn::BlockNumber => Json::Unsigned(item.block_number),
        PowColumn::ValidatorUid => Json::Unsigned(item.validator_uid as u64),
        PowColumn::MinerUid => Json::Unsigned(item.miner_uid as u64),
    }
}

fn column_value(list: &Vec<PowItem>, c: PowColumn) -> (r: Json)
    ensures
        r@ == column(list@, c),
{
    let mut cells: Vec<Json> = Vec::new();
    let mut i: usize = 0;
    while i < list.len()
        invariant
            i <= list@.len(),
            cells@.len() == i,
            forall|k: int| 0 <= k < i ==> (#[trigger] cells@[k])@ == cell(list@[k], c),
        decreases list@.len() - i,
    {
        cells.push(cell_value(&list[i], c));
        i += 1;
    }
    proof {
        lemma_items(cells@);
        assert(items(cells@) =~= Seq::new(list@.len(), |k: int| cell(list@[k], c)));
    }
    Json::Array(cells)
}

/// What a proof of scores is made from: a list for each of the quantities.
pub open spec fn weights_inputs(s: Seq<PowItem>) -> JsonV {
    JsonV::Object(
        Map::<Seq<char>, JsonV>::empty()
            .insert("maximum_score"@, column(s, PowColumn::MaximumScore))
            .insert("previous_score"@, column(s, PowColumn::PreviousScore))
            .insert("verified"@, column(s, PowColumn::Verified))
            .insert("proof_size"@, column(s, PowColumn::ProofSize))
            .insert("response_time"@, column(s, PowColumn::ResponseTime))
            .insert("maximum_response_time"@, column(s, PowColumn::MaximumResponseTime))
            .insert("minimum_response_time"@, column(s, PowColumn::MinimumResponseTime))
            .insert("block_number"@, column(s, PowColumn::BlockNumber))
            .insert("validator_uid"@, column(s, PowColumn::ValidatorUid))
            .insert("miner_uid"@, column(s, PowColumn::MinerUid)),
    )
}

/// How many items the next batch takes.
pub open spec fn batch_len(m: PowManager) -> int {
    if m.queue@.len() < m.batch_size {
        m.queue@.len() as int
    } else {
        m.batch_size as int
    }
}

impl PowManager {
    /// No answer waits.
    pub fn new(batch_size: usize) -> (m: Self)
        ensures
            m.queue@.len() == 0,
            m.batch_size == batch_size,
    {
        PowManager { queue: VecDeque::new(), batch_size }
    }

    /// An answer waits behind the others.
    pub fn push(&mut self, item: PowItem)
        ensures
            final(self).queue@ == old(self).queue@.push(item),
            final(self).batch_size == old(self).batch_size,
    {
        self.queue.push_back(item);
    }

    /// Whether enough answers wait to be proved together.
    pub fn should_batch(&self) -> (r: bool)
        ensures
            r == (self.queue@.len() >= self.batch_size),
    {
        self.queue.len() >= self.batch_size
    }

    /// Takes the answers out that are proved together, those that waited longest.
    pub fn drain_batch(&mut self) -> (r: Vec<PowItem>)
        ensures
            r@ == old(self).queue@.take(batch_len(*old(self))),
            final(self).queue@ == old(self).queue@.skip(batch_len(*old(self))),
            final(self).batch_size == old(self).batch_size,
    {
        let waiting: usize = self.queue.len();
        let n: usize = if waiting < self.batch_size {
            waiting
        } else {
            self.batch_size
        };
        let ghost all = self.queue@;
        let mut r: Vec<PowItem> = Vec::new();
        let mut i: usize = 0;
        proof {
            assert(all.skip(0) =~= all);
            assert(r@ =~= all.take(0));
        }
        while i < n
            invariant
                i <= n <= all.len(),
                self.queue@ == all.skip(i as int),
                r@ == all.take(i as int),
                self.batch_size == old(self).batch_size,
            decreases n - i,
        {
            if let Some(item) = self.queue.pop_front() {
                proof {
                    assert(all.skip(i as int)[0] == all[i as int]);
                }
                r.push(item);
            }
            proof {
                assert(self.queue@ =~= all.skip(i + 1));
                assert(r@ =~= all.take(i + 1));
            }
            i += 1;
        }
        r
    }

    /// The inputs of a proof of how some answers were scored: a list of each
    /// column.
    pub fn prepare_inputs(list: &Vec<PowItem>) -> (r: Json)
        ensures
            r@ == weights_inputs(list@),
    {
        let mut m: Vec<(String, Json)> = Vec::new();
        proof {
            crate::json::lemma_members_empty(m@);
        }
        put(&mut m, "maximum_score", column_value(list, PowColumn::MaximumScore));
        put(&mut m, "previous_score", column_value(list, PowColumn::PreviousScore));
        put(&mut m, "verified", column_value(list, PowColumn::Verified));
        put(&mut m, "proof_size", column_value(list, PowColumn::ProofSize));
        put(&mut m, "response_time", column_value(list, PowColumn::ResponseTime));
        put(&mut m, "maximum_response_time", column_value(list, PowColumn::MaximumResponseTime));
        put(&mut m, "minimum_response_time", column_value(list, PowColumn::MinimumResponseTime));
        put(&mut m, "block_number", column_value(list, PowColumn::BlockNumber));
        put(&mut m, "validator_uid", column_value(list, PowColumn::ValidatorUid));
        put(&mut m, "miner_uid", column_value(list, PowColumn::MinerUid));
        Json::Object(m)
    }
}

/// Where the scores and the miners stand in the outputs of a proof.
#[derive(Clone, Copy, Debug)]
pub struct WitnessLayout {
    /// How many answers a proof is about.
    pub stride: usize,
    /// How many numbers the outputs hold of each answer.
    pub arrays: usize,
    pub scores_offset: usize,
    pub uids_offset: usize,
}

/// A number of a proof's outputs: its nearest whole number, where that is a
/// miner's, and its bits, where it is finite.
#[derive(Clone, Copy, Debug)]
pub struct WitnessNumber {
    pub uid: Option<u16>,
    pub score: Option<u64>,
}

/// The miners and scores of the first answers of a proof, without those that are
/// no miner or no score.
pub open spec fn witnessed(outputs: Seq<WitnessNumber>, l: WitnessLayout, n: int) -> Seq<(u16, u64)>
    decreases n,
{
    if n <= 0 {
        Seq::empty()
    } else {
        let before = witnessed(outputs, l, n - 1);
        match (outputs[l.uids_offset + n - 1].uid, outputs[l.scores_offset + n - 1].score) {
            (Some(uid), Some(score)) => before.push((uid, score)),
            _ => before,
        }
    }
}

/// Reads the miners and their scores out of the outputs of a proof. Outputs that
/// are too short say nothing.
pub fn witness_scores(outputs: &Vec<WitnessNumber>, l: WitnessLayout) -> (r: Option<
    (Vec<u16>, Vec<u64>),
>)
    requires
        l.scores_offset + l.stride <= l.stride * l.arrays,
        l.uids_offset + l.stride <= l.stride * l.arrays,
        l.stride * l.arrays <= usize::MAX,
    ensures
        r is Some == (outputs@.len() >= l.stride * l.arrays),
        r matches Some((uids, scores)) ==> {
            let w = witnessed(outputs@, l, l.stride as int);
            &&& uids@ == w.map_values(|p: (u16, u64)| p.0)
            &&& scores@ == w.map_values(|p: (u16, u64)| p.1)
        },
{
    let expected: usize = l.stride * l.arrays;
    let n: usize = outputs.len();
    if n < expected {
        return None;
    }
    let mut uids: Vec<u16> = Vec::new();
    let mut scores: Vec<u64> = Vec::new();
    let mut i: usize = 0;
    let ghost first = |p: (u16, u64)| p.0;
    let ghost second = |p: (u16, u64)| p.1;
    proof {
        assert(uids@ =~= witnessed(outputs@, l, 0).map_values(first));
        assert(scores@ =~= witnessed(outputs@, l, 0).map_values(second));
    }
    while i < l.stride
        invariant
            i <= l.stride,
            n == outputs@.len(),
            l.scores_offset + l.stride <= n,
            l.uids_offset + l.stride <= n,
            first == (|p: (u16, u64)| p.0),
            second == (|p: (u16, u64)| p.1),
            uids@ == witnessed(outputs@, l, i as int).map_values(first),
            scores@ == witnessed(outputs@, l, i as int).map_values(second),
        decreases l.stride - i,
    {
        let uid = outputs[l.uids_offset + i].uid;
        let score = outputs[l.scores_offset + i].score;
        if let Some(u) = uid {
            if let Some(s) = score {
                uids.push(u);
                scores.push(s);
            }
        }
        i += 1;
        proof {
            assert(uids@ =~= witnessed(outputs@, l, i as int).map_values(first));
            assert(scores@ =~= witnessed(outputs@, l, i as int).map_values(second));
        }
    }
    Some((uids, scores))
}

} // verus!
