//! Keeps a request from being sent twice while it is under way.

use vstd::prelude::*;
use vstd::string::*;

use crate::digest::{hex_encode, hex_text, sha256, sha256_of};
use crate::fifo::{fifo_insert, fifo_remove, BoundedFifoSet};
use crate::json::{json_bytes, json_normal, Json, JsonV};
use crate::text::{decimal, decimal_text};
use crate::types::{Circuit, ProofSystem};

verus! {

/// How many requests are kept in mind.
pub const MAX_HASHES: usize = 32768;

/// The fingerprint of a message, as text.
pub open spec fn fingerprint(message: Seq<u8>) -> Seq<char> {
    hex_text(sha256_of(message))
}

/// The fingerprint of the inputs of a request.
pub open spec fn input_hash(inputs: JsonV) -> Seq<char> {
    fingerprint(json_bytes(json_normal(inputs)))
}

/// What identifies a piece of a run: circuit, slice, run and, for a tile, its
/// number, with colons between.
pub open spec fn dslice_key(
    circuit_id: Seq<char>,
    slice_num: Seq<char>,
    run_uid: Seq<char>,
    tile_idx: Option<u32>,
) -> Seq<char> {
    let base = circuit_id + ":"@ + slice_num + ":"@ + run_uid;
    match tile_idx {
        Some(i) => base + ":"@ + decimal_text(i as nat),
        None => base,
    }
}

/// The fingerprint of a piece of a run.
pub open spec fn dslice_hash(
    circuit_id: Seq<char>,
    slice_num: Seq<char>,
    run_uid: Seq<char>,
    tile_idx: Option<u32>,
) -> Seq<char> {
    fingerprint(vstd::utf8::encode_utf8(dslice_key(circuit_id, slice_num, run_uid, tile_idx)))
}

/// What a miner is sent for a piece of a run.
#[derive(Debug)]
pub struct DSliceProofGenerationDataModel {
    pub circuit: Option<String>,
    pub proof_system: ProofSystem,
    pub inputs: Option<Json>,
    pub outputs: Option<Json>,
    pub slice_num: Option<String>,
    pub run_uid: Option<String>,
    pub component_sha: Option<String>,
}

/// The requests under way, by fingerprint.
pub struct RequestPipeline {
    hash_guard: BoundedFifoSet,
}

impl View for RequestPipeline {
    type V = Seq<Seq<char>>;

    closed spec fn view(&self) -> Seq<Seq<char>> {
        self.hash_guard@
    }
}

impl RequestPipeline {
    /// How many requests are kept in mind at most.
    pub closed spec fn limit(&self) -> nat {
        self.hash_guard.limit()
    }

    /// Nothing is under way.
    pub fn new() -> (p: Self)
        ensures
            p@.len() == 0,
            p.limit() == MAX_HASHES,
    {
        RequestPipeline { hash_guard: BoundedFifoSet::new(MAX_HASHES) }
    }

    /// Nothing is under way, and at most `capacity` requests are kept in mind.
    pub fn with_capacity(capacity: usize) -> (p: Self)
        requires
            capacity > 0,
        ensures
            p@.len() == 0,
            p.limit() == capacity,
    {
        RequestPipeline { hash_guard: BoundedFifoSet::new(capacity) }
    }

    fn claim(&mut self, hash: String) -> (r: Option<String>)
        ensures
            final(self)@ == fifo_insert(old(self)@, old(self).limit(), hash@),
            final(self).limit() == old(self).limit(),
            match r {
                Some(h) => h@ == hash@ && !old(self)@.contains(hash@),
                None => old(self)@.contains(hash@),
            },
    {
        if self.hash_guard.contains(hash.as_str()) {
            return None;
        }
        self.hash_guard.insert(hash.clone());
        Some(hash)
    }

    /// Claims the fingerprint of the inputs, and hands it out unless a request
    /// with the same inputs is under way.
    pub fn check_hash(&mut self, inputs: &Json) -> (r: Option<String>)
        ensures
            final(self)@ == fifo_insert(old(self)@, old(self).limit(), input_hash(inputs@)),
            final(self).limit() == old(self).limit(),
            match r {
                Some(h) => h@ == input_hash(inputs@) && !old(self)@.contains(h@),
                None => old(self)@.contains(input_hash(inputs@)),
            },
    {
        let bytes = inputs.to_bytes();
        let digest = sha256(bytes.as_slice());
        let hash = hex_encode(digest.as_slice());
        self.claim(hash)
    }

    /// Claims the fingerprint of a piece of a run, and hands it out unless the
    /// same piece is under way.
    pub fn check_dslice_hash(
        &mut self,
        circuit_id: &str,
        slice_num: &str,
        run_uid: &str,
        tile_idx: Option<u32>,
    ) -> (r: Option<String>)
        ensures
            final(self)@ == fifo_insert(
                old(self)@,
                old(self).limit(),
                dslice_hash(circuit_id@, slice_num@, run_uid@, tile_idx),
            ),
            final(self).limit() == old(self).limit(),
            match r {
                Some(h) => h@ == dslice_hash(circuit_id@, slice_num@, run_uid@, tile_idx)
                    && !old(self)@.contains(h@),
                None => old(self)@.contains(
                    dslice_hash(circuit_id@, slice_num@, run_uid@, tile_idx),
                ),
            },
    {
        let mut key = circuit_id.to_owned();
        key.append(":");
        key.append(slice_num);
        key.append(":");
        key.append(run_uid);
        if let Some(idx) = tile_idx {
            key.append(":");
            key.append(decimal(idx as u64).as_str());
        }
        let digest = sha256(key.as_str().as_bytes());
        let hash = hex_encode(digest.as_slice());
        self.claim(hash)
    }

    /// What a miner is sent for a piece of a run.
    pub fn prepare_dslice_request(
        &self,
        circuit: &Circuit,
        inputs: Json,
        outputs: Option<Json>,
        slice_num: &str,
        run_uid: &str,
        proof_system: ProofSystem,
        component_sha: Option<String>,
    ) -> (r: DSliceProofGenerationDataModel)
        ensures
            r.circuit == Some(circuit.id),
            r.proof_system == proof_system,
            r.inputs == Some(inputs),
            r.outputs == outputs,
            r.slice_num matches Some(s) && s@ == slice_num@,
            r.run_uid matches Some(s) && s@ == run_uid@,
            r.component_sha == component_sha,
    {
        DSliceProofGenerationDataModel {
            circuit: Some(circuit.id.clone()),
            proof_system,
            inputs: Some(inputs),
            outputs,
            slice_num: Some(slice_num.to_owned()),
            run_uid: Some(run_uid.to_owned()),
            component_sha,
        }
    }

    /// Gives a fingerprint up, so that the request can be made again.
    pub fn release_hash(&mut self, hash: &str)
        ensures
            final(self)@ == fifo_remove(old(self)@, hash@),
            final(self).limit() == old(self).limit(),
    {
        self.hash_guard.remove(hash);
    }

    /// Gives every fingerprint up.
    pub fn clear_guard(&mut self)
        ensures
            final(self)@.len() == 0,
            final(self).limit() == old(self).limit(),
    {
        self.hash_guard.clear();
    }

    /// How many requests are kept in mind: never more than the limit, and none
    /// twice.
    pub fn len(&self) -> (n: usize)
        ensures
            n == self@.len(),
            n <= self.limit(),
            self@.no_duplicates(),
    {
        self.hash_guard.len()
    }
}

/// While a fingerprint is claimed, a second claim fails; once it is given up, the
/// next claim succeeds.
pub proof fn claim_release_claim(s: Seq<Seq<char>>, capacity: nat, hash: Seq<char>)
    requires
        s.no_duplicates(),
        s.len() <= capacity,
        capacity > 0,
    ensures
        fifo_insert(s, capacity, hash).contains(hash),
        !fifo_remove(fifo_insert(s, capacity, hash), hash).contains(hash),
{
    crate::fifo::insert_stays_within_limit(s, capacity, hash);
    crate::fifo::removed_is_absent(fifo_insert(s, capacity, hash), hash);
}

/// What can happen to the fingerprints that are kept in mind.
pub enum GuardStep {
    Claim(Seq<char>),
    Release(Seq<char>),
}

/// The fingerprints after some steps, in order.
pub open spec fn guard_after(s: Seq<Seq<char>>, capacity: nat, steps: Seq<GuardStep>) -> Seq<
    Seq<char>,
>
    decreases steps.len(),
{
    if steps.len() == 0 {
        s
    } else {
        let before = guard_after(s, capacity, steps.drop_last());
        match steps.last() {
            GuardStep::Claim(h) => fifo_insert(before, capacity, h),
            GuardStep::Release(h) => fifo_remove(before, h),
        }
    }
}

/// How many of some steps are claims that succeed.
pub open spec fn new_claims(s: Seq<Seq<char>>, capacity: nat, steps: Seq<GuardStep>) -> nat
    decreases steps.len(),
{
    if steps.len() == 0 {
        0
    } else {
        new_claims(s, capacity, steps.drop_last()) + match steps.last() {
            GuardStep::Claim(h) => if guard_after(s, capacity, steps.drop_last()).contains(h) {
                0nat
            } else {
                1nat
            },
            GuardStep::Release(_) => 0,
        }
    }
}

/// Whether one of some steps gives the fingerprint up.
pub open spec fn releases(steps: Seq<GuardStep>, hash: Seq<char>) -> bool {
    exists|i: int| 0 <= i < steps.len() && #[trigger] steps[i] == GuardStep::Release(hash)
}

/// A fingerprint at position `at` has at most as many after it as were newly claimed
/// since it was claimed itself.
proof fn lemma_claim_stands(
    s: Seq<Seq<char>>,
    capacity: nat,
    hash: Seq<char>,
    steps: Seq<GuardStep>,
) -> (at: int)
    requires
        s.no_duplicates(),
        s.len() <= capacity,
        capacity > 0,
        !s.contains(hash),
        !releases(steps, hash),
        new_claims(fifo_insert(s, capacity, hash), capacity, steps) < capacity,
    ensures
        ({
            let t = guard_after(fifo_insert(s, capacity, hash), capacity, steps);
            &&& t.no_duplicates()
            &&& t.len() <= capacity
            &&& 0 <= at < t.len()
            &&& t[at] == hash
            &&& t.len() - 1 - at <= new_claims(fifo_insert(s, capacity, hash), capacity, steps)
        }),
    decreases steps.len(),
{
    let first = fifo_insert(s, capacity, hash);
    crate::fifo::insert_stays_within_limit(s, capacity, hash);
    if steps.len() == 0 {
        first.len() - 1
    } else {
        let head = steps.drop_last();
        assert(!releases(head, hash)) by {
            if releases(head, hash) {
                let i = choose|i: int|
                    0 <= i < head.len() && #[trigger] head[i] == GuardStep::Release(hash);
                assert(steps[i] == GuardStep::Release(hash));
            }
        }
        let at = lemma_claim_stands(s, capacity, hash, head);
        let before = guard_after(first, capacity, head);
        match steps.last() {
            GuardStep::Claim(h) => {
                crate::fifo::insert_stays_within_limit(before, capacity, h);
                let after = fifo_insert(before, capacity, h);
                if before.contains(h) {
                    at
                } else if before.len() >= capacity {
                    assert(after[at - 1] == hash);
                    at - 1
                } else {
                    assert(after[at] == hash);
                    at
                }
            },
            GuardStep::Release(h) => {
                assert(h != hash) by {
                    assert(steps[steps.len() - 1] == GuardStep::Release(h));
                }
                crate::fifo::removed_is_absent(before, h);
                if before.contains(h) {
                    let gone = before.index_of(h);
                    let after = before.remove(gone);
                    assert(before[gone] == h);
                    assert(after.no_duplicates()) by {
                        assert forall|a: int, b: int|
                            0 <= a < after.len() && 0 <= b < after.len() && a != b implies after[a]
                            != after[b] by {
                            let a2 = if a < gone { a } else { a + 1 };
                            let b2 = if b < gone { b } else { b + 1 };
                            assert(after[a] == before[a2] && after[b] == before[b2]);
                        }
                    }
                    if gone < at {
                        assert(after[at - 1] == hash);
                        at - 1
                    } else {
                        assert(after[at] == hash);
                        at
                    }
                } else {
                    at
                }
            },
        }
    }
}

/// A claim stands until it is given up, whatever else is claimed and given up, as
/// long as fewer claims succeed in the meantime than fingerprints are kept in mind: a
/// second claim fails and changes nothing, so that it stands in no other claim's way.
/// Once the claim is given up, alone or with all others, the next one succeeds.
pub proof fn claims_stand_until_given_up(
    s: Seq<Seq<char>>,
    capacity: nat,
    hash: Seq<char>,
    steps: Seq<GuardStep>,
)
    requires
        s.no_duplicates(),
        s.len() <= capacity,
        capacity > 0,
        !s.contains(hash),
        !releases(steps, hash),
        new_claims(fifo_insert(s, capacity, hash), capacity, steps) < capacity,
    ensures
        ({
            let t = guard_after(fifo_insert(s, capacity, hash), capacity, steps);
            &&& t.contains(hash)
            &&& fifo_insert(t, capacity, hash) == t
            &&& !fifo_remove(t, hash).contains(hash)
            &&& fifo_insert(fifo_remove(t, hash), capacity, hash).contains(hash)
            &&& !Seq::<Seq<char>>::empty().contains(hash)
            &&& fifo_insert(Seq::empty(), capacity, hash).contains(hash)
        }),
{
    let t = guard_after(fifo_insert(s, capacity, hash), capacity, steps);
    let at = lemma_claim_stands(s, capacity, hash, steps);
    assert(t[at] == hash);
    crate::fifo::removed_is_absent(t, hash);
    let none = Seq::<Seq<char>>::empty();
    assert(none.push(hash)[0] == hash);
    let left = fifo_remove(t, hash);
    assert(left.push(hash)[left.len() as int] == hash);
    assert(left.len() < capacity);
}

/// Two tiles of one slice of one run are told apart by what identifies them.
pub proof fn tiles_are_told_apart(
    circuit_id: Seq<char>,
    slice_num: Seq<char>,
    run_uid: Seq<char>,
    a: u32,
    b: u32,
)
    requires
        dslice_key(circuit_id, slice_num, run_uid, Some(a)) == dslice_key(
            circuit_id,
            slice_num,
            run_uid,
            Some(b),
        ),
    ensures
        a == b,
{
    let base = circuit_id + ":"@ + slice_num + ":"@ + run_uid + ":"@;
    let x = base + decimal_text(a as nat);
    let y = base + decimal_text(b as nat);
    assert(x == y);
    assert(x.skip(base.len() as int) =~= decimal_text(a as nat));
    assert(y.skip(base.len() as int) =~= decimal_text(b as nat));
    crate::text::decimal_is_injective(a as nat, b as nat);
}

} // verus!
