//! What a request carries, how a slice is cut for it, and what a tensor on the wire
//! holds.

use vstd::prelude::*;

use crate::address::{miner_address, MinerAddressError};
use crate::dispatch::{next_service, served, DispatchCandidate};
use crate::dispatch_pass::available_count;
use crate::dslice::{
    rolled, rolls_in_range, shuffled, slice_planned, tiles_error, units_error, SliceUnits,
};
use crate::fifo::{fifo_insert, fifo_remove};
use crate::incremental_runner::{ActiveRun, CounterError, RunsV};
use crate::json::{Json, JsonV};
use crate::planning::{
    activation_prefix, activation_size, bundle_mismatch, covering_groups, group_size, group_split,
    is_activation, mismatch_unless_equal, part_size, product, product_sum, tile_request_size,
    weight_bound, BundleParams, DimSplitInfo, DispatchStrategy, GroupPayloadPart, SliceWork,
    TilingInfo,
};
use crate::request_pipeline::{guard_after, new_claims, releases, GuardStep};
use crate::rounds::{benchmark_inputs, is_unasked_request, weights_json};
use crate::simulator::{is_decay, is_discovery, is_overload, EventKind, Scenario};
use crate::submission::{are_ended, dims_in};
use crate::tensor::{group_region, Tensor};
use crate::text::{all_digits, digits_value};
use crate::types::{Circuit, RequestType};
use crate::wire::{
    continued, field_at, field_numbers, le32, varint, within, words, yields, TensorError,
};
use crate::work::DispatchedRequest;

verus! {

proof fn lemma_names()
    ensures
        "inputs"@ != "proof"@,
        "inputs"@ != "public_signals"@,
        "proof"@ != "public_signals"@,
        "proof_system"@ != "inputs"@,
        "proof_system"@ != "proof"@,
        "proof_system"@ != "public_signals"@,
        "subnet_uid"@ != "inputs"@,
        "subnet_uid"@ != "proof"@,
        "subnet_uid"@ != "proof_system"@,
        "subnet_uid"@ != "public_signals"@,
        "subnet_uid"@ != "verification_key_hash"@,
        "verification_key_hash"@ != "inputs"@,
        "verification_key_hash"@ != "proof"@,
        "verification_key_hash"@ != "proof_system"@,
        "verification_key_hash"@ != "public_signals"@,
{
    reveal_strlit("subnet_uid");
    reveal_strlit("verification_key_hash");
    reveal_strlit("proof_system");
    reveal_strlit("inputs");
    reveal_strlit("proof");
    reveal_strlit("public_signals");
    assert("subnet_uid"@.len() == 10);
    assert("verification_key_hash"@.len() == 21);
    assert("proof_system"@.len() == 12);
    assert("inputs"@.len() == 6);
    assert("proof"@.len() == 5);
    assert("public_signals"@.len() == 14);
}

/// What nobody asked for belongs to no run and no customer, is for its circuit with its
/// inputs, keeps nobody else's work back and is not tried again.
pub proof fn unasked_requests_are_nobodys(
    d: DispatchedRequest,
    t: RequestType,
    circuit: Circuit,
    inputs: JsonV,
)
    requires
        is_unasked_request(d, t, circuit, inputs),
    ensures
        d.request_type == t,
        d.external_request_hash is None && d.run_uid is None && d.slice_num is None,
        !d.is_tile && d.tile_idx is None && d.task_id is None,
        d.task_circuit == Some(circuit) && d.task_proof_system == Some(circuit.proof_system),
        d.task_inputs matches Some(i) && i@ == inputs,
        d.guard_hash matches Some(h) && h@ == ""@,
        d.retry_payload is Nothing && d.retry_count == 0,
        d.dsperse_circuit_path is None && d.component_sha is None && !d.pre_sampled,
{
}

/// Who proves scores is told the subnet, the circuit, the system and the inputs; a
/// benchmark is for what the circuit has for that.
pub proof fn proofs_of_scores_are_asked_for_by_name(
    netuid: u16,
    id: Seq<char>,
    system: Seq<char>,
    inputs: JsonV,
    own: Option<Json>,
)
    ensures
        ({
            let j = weights_json(netuid, id, system, inputs);
            &&& j.member("subnet_uid"@) == Some(JsonV::Int(netuid as int))
            &&& j.member("verification_key_hash"@) == Some(JsonV::Text(id))
            &&& j.member("proof_system"@) == Some(JsonV::Text(system))
            &&& j.member("inputs"@) == Some(inputs)
            &&& j.member("proof"@) == Some(JsonV::Text(""@))
            &&& j.member("public_signals"@) == Some(JsonV::Text(""@))
        }),
        own matches Some(i) ==> benchmark_inputs(own) == i@,
        own is None ==> benchmark_inputs(own) == JsonV::Object(Map::empty()),
{
    lemma_names();
}

/// Who may still get work is counted one by one, and who is served is served after
/// everybody before.
pub proof fn those_who_may_get_work_are_counted(
    s: Seq<DispatchCandidate>,
    c: DispatchCandidate,
    n: u64,
    order: Map<Seq<char>, u64>,
    k: Seq<char>,
)
    ensures
        available_count(Seq::empty()) == 0,
        c.available ==> available_count(s.push(c)) == available_count(s) + 1,
        !c.available ==> available_count(s.push(c)) == available_count(s),
        n < u64::MAX ==> next_service(n) == n + 1,
        next_service(u64::MAX) == u64::MAX,
        order.contains_key(k) ==> served(order, k) == order[k],
        !order.contains_key(k) ==> served(order, k) == 0,
{
    assert(s.push(c).drop_last() =~= s);
}

/// The inputs of a circuit are activations up to the first that has neither the size of
/// a tensor of the slice nor that of a group of one.
pub proof fn activations_come_first(
    inputs: Seq<Vec<usize>>,
    x: Vec<usize>,
    shapes: Seq<Vec<usize>>,
    ds: DimSplitInfo,
    j: int,
)
    ensures
        activation_prefix(Seq::empty(), shapes, ds) == 0,
        activation_prefix(inputs, shapes, ds) <= inputs.len(),
        activation_prefix(inputs, shapes, ds) == inputs.len() && is_activation(
            product(x@),
            shapes,
            ds,
        ) ==> activation_prefix(inputs.push(x), shapes, ds) == inputs.len() + 1,
        activation_prefix(inputs, shapes, ds) == inputs.len() && !is_activation(
            product(x@),
            shapes,
            ds,
        ) ==> activation_prefix(inputs.push(x), shapes, ds) == inputs.len(),
        activation_prefix(inputs, shapes, ds) < inputs.len() ==> activation_prefix(
            inputs.push(x),
            shapes,
            ds,
        ) == activation_prefix(inputs, shapes, ds),
        0 <= j < shapes.len() ==> is_activation(product(shapes[j]@), shapes, ds) && is_activation(
            group_size(product(shapes[j]@), ds),
            shapes,
            ds,
        ),
        is_activation(product(x@), shapes, ds) ==> exists|j: int|
            0 <= j < shapes.len() && (product((#[trigger] shapes[j])@) == product(x@) || group_size(
                product(shapes[j]@),
                ds,
            ) == product(x@)),
        activation_prefix(inputs, shapes, ds) == inputs.len() ==> activation_size(
            inputs,
            shapes,
            ds,
        ) == product_sum(inputs),
    decreases inputs.len(),
{
    assert(inputs.push(x).drop_last() =~= inputs);
    if inputs.len() > 0 {
        activations_come_first(inputs.drop_last(), inputs.last(), shapes, ds, j);
        assert(inputs.drop_last().push(inputs.last()) =~= inputs);
    }
    assert(inputs.take(inputs.len() as int) =~= inputs);
    if 0 <= j < shapes.len() {
        assert(product(shapes[j]@) == product(shapes[j]@));
    }
}

/// What is sent of a tensor is all of it, or as much as falls to one group.
pub proof fn groups_take_their_share(i: usize, shapes: Seq<Vec<usize>>, ds: DimSplitInfo, each: nat)
    requires
        ds.dim_size > 0,
    ensures
        part_size(GroupPayloadPart::Whole(i), shapes, ds) == product(shapes[i as int]@),
        product(shapes[i as int]@) == ds.dim_size * each ==> part_size(
            GroupPayloadPart::Split(i),
            shapes,
            ds,
        ) == each * ds.elements_per_group,
        covering_groups(ds) ==> ds.num_groups * ds.elements_per_group == ds.dim_size
            && ds.weight_name is None && ds.num_groups > 0 && ds.elements_per_group > 0,
        weight_bound(ds) <==> ds.weight_name is Some && ds.k_dim >= 1 && ds.n_dim >= 1,
        ds.weight_name is None && ds.num_groups > 0 && ds.elements_per_group > 0 && ds.num_groups
            * ds.elements_per_group == ds.dim_size ==> covering_groups(ds),
{
    if product(shapes[i as int]@) == ds.dim_size * each {
        assert((ds.dim_size * each) / (ds.dim_size as int) == each) by (nonlinear_arith)
            requires
                ds.dim_size > 0,
        ;
    }
}

/// A mismatch says how the slice was to be handed out: in groups, by its weights, in
/// tiles of one input or of several, or whole.
pub proof fn mismatches_say_how_it_was_sent(
    w: SliceWork,
    b: BundleParams,
    plan: Option<Seq<GroupPayloadPart>>,
    first: Option<usize>,
)
    ensures
        bundle_mismatch(w, b, plan, first) matches Some(m) ==> {
            &&& group_split(w) is Some ==> m.strategy == DispatchStrategy::DimSplitGroup
            &&& group_split(w) is None && w.dim_split is Some ==> m.strategy
                == DispatchStrategy::DimSplit
            &&& group_split(w) is None && w.dim_split is None && w.tiling is Some
                && w.named_input_shapes@.len() > 1 ==> m.strategy == DispatchStrategy::TiledMultiInput
            &&& group_split(w) is None && w.dim_split is None && w.tiling is Some
                && w.named_input_shapes@.len() <= 1 ==> m.strategy
                == DispatchStrategy::TiledSingleInput
            &&& group_split(w) is None && w.dim_split is None && w.tiling is None ==> m.strategy
                == DispatchStrategy::Single && m.per_request_actual == w.input_len
        },
        group_split(w) is Some && plan is None ==> bundle_mismatch(w, b, plan, first) is None,
        group_split(w) matches Some(ds) ==> (w.named_input_shapes@.len() > 1 && w.meta_dim_split
            == Some(ds)),
        b.weights_as_inputs && b.initializers is None && group_split(w) is None && w.dim_split is None
            ==> bundle_mismatch(w, b, plan, first) is None,
{
}

/// What is sent for a tile is a segment for each input, or what the first tile holds,
/// shared evenly between the inputs.
pub proof fn tiles_are_sent_for_every_input(t: TilingInfo, n: usize)
    requires
        n <= 0xffff_ffff,
    ensures
        t.ndim == 1 && t.segment_size == Some(n) ==> tile_request_size(t, 1, None) == Some(n),
        t.ndim == 1 && t.segment_size is None ==> tile_request_size(t, 1, Some(n)) is None,
        t.ndim != 1 ==> tile_request_size(t, 1, Some(n)) == Some(n) && tile_request_size(t, 0, Some(n))
            == Some(n),
        t.ndim != 1 && n % 2 == 0 ==> tile_request_size(t, 2, Some(n)) == Some(n),
        t.ndim != 1 && n % 2 == 1 ==> tile_request_size(t, 2, Some(n)) == Some((n - 1) as usize),
        t.ndim != 1 ==> tile_request_size(t, 2, None) is None,
{
}

/// Sizes that are equal are no mismatch, and those that differ are told of.
pub proof fn equal_sizes_fit(a: usize, b: usize, s: DispatchStrategy)
    ensures
        mismatch_unless_equal(a, a, s) is None,
        a != b ==> (mismatch_unless_equal(a, b, s) matches Some(m) && m.bundle_expected == a
            && m.per_request_actual == b && m.strategy == s),
{
}

/// A slice that can be cut and counted is planned: groups with a plan for them, weights
/// that are there, tiles that were prepared. Else groups and weights are passed over,
/// and tiles end the run.
pub proof fn slices_that_can_be_sent_are_planned(
    s: RunsV,
    run: Seq<char>,
    work: SliceWork,
    units: SliceUnits,
    on: bool,
    now: u64,
)
    requires
        work.input_finite,
    ensures
        ({
            let slice = work.slice_id@;
            let (t, step, payload) = slice_planned(s, run, work, units, on, now);
            &&& group_split(work) matches Some(ds) ==> {
                &&& payload is Some <==> units_error(s, run, slice, ds.num_groups, units.sampled@) is None
                    && units.group_plan is Some
                &&& payload is None ==> step is PassedOver
            }
            &&& group_split(work) is None ==> (work.dim_split matches Some(ds) ==> {
                &&& !on || !weight_bound(ds) ==> step is PassedOver
                &&& on && weight_bound(ds) ==> (payload is Some <==> work.onnx_path is Some
                    && units.num_units is Some && units_error(
                    s,
                    run,
                    slice,
                    units.num_units->0,
                    units.sampled@,
                ) is None)
                &&& payload is None ==> step is PassedOver
            })
            &&& group_split(work) is None && work.dim_split is None ==> (work.tiling matches Some(g)
                ==> {
                &&& payload is Some <==> units.prepared is Some && tiles_error(
                    s,
                    run,
                    slice,
                    g,
                    units.prepared->0@,
                ) is None
                &&& payload is None ==> step is EndRun
            })
        }),
        units_error(s, run, work.slice_id@, 0, units.sampled@) == Some(CounterError::NoUnits),
{
}

/// A dimension that no machine number holds makes no shape.
pub proof fn dimensions_are_machine_numbers(s: Seq<JsonV>, n: u64)
    ensures
        n > usize::MAX ==> dims_in(s.push(JsonV::Int(n as int))) is None,
        dims_in(s) matches Some(d) ==> (n <= usize::MAX ==> dims_in(s.push(JsonV::Int(n as int)))
            == Some(d.push(n as usize))),
        dims_in(s) is None ==> dims_in(s.push(JsonV::Int(n as int))) is None,
{
    assert(s.push(JsonV::Int(n as int)).drop_last() =~= s);
}

/// Chance picks by exchanging: what was rolled comes to its place, what stood there
/// takes the place of what was rolled, and the rest stays. So no number is picked
/// twice, and none that there is not.
pub proof fn picks_are_exchanges(n: nat, rolls: Seq<usize>, r: usize, i: int)
    requires
        n <= usize::MAX,
        rolls_in_range(n, rolls.push(r)),
        0 <= i < n,
    ensures
        rolls.len() <= r < n,
        rolls_in_range(n, rolls),
        shuffled(n, Seq::empty())[i] == i,
        shuffled(n, rolls.push(r)).len() == n,
        shuffled(n, rolls.push(r))[rolls.len() as int] == shuffled(n, rolls)[r as int],
        shuffled(n, rolls.push(r))[r as int] == shuffled(n, rolls)[rolls.len() as int],
        i != r && i != rolls.len() ==> shuffled(n, rolls.push(r))[i] == shuffled(n, rolls)[i],
        rolled(n, rolls.push(r)).len() == rolls.len() + 1,
        rolled(n, rolls.push(r)).last() == shuffled(n, rolls)[r as int],
        rolled(n, rolls.push(r)).drop_last() == rolled(n, rolls),
{
    assert(rolls.push(r).drop_last() =~= rolls);
    assert(rolls.push(r)[rolls.len() as int] == r);
    assert forall|k: int| 0 <= k < rolls.len() implies k <= #[trigger] rolls[k] < n by {
        assert(rolls.push(r)[k] == rolls[k]);
    }
    lemma_shuffled_len(n, rolls);
    assert(rolled(n, rolls.push(r)).drop_last() =~= rolled(n, rolls));
}

proof fn lemma_shuffled_len(n: nat, rolls: Seq<usize>)
    requires
        rolls_in_range(n, rolls),
    ensures
        shuffled(n, rolls).len() == n,
    decreases rolls.len(),
{
    if rolls.len() > 0 {
        assert forall|k: int| 0 <= k < rolls.drop_last().len() implies k
            <= #[trigger] rolls.drop_last()[k] < n by {
            assert(rolls[k] == rolls.drop_last()[k]);
        }
        assert(rolls[rolls.len() - 1] < n);
        lemma_shuffled_len(n, rolls.drop_last());
    }
}

/// A fingerprint can be claimed where it is not claimed yet, and each such claim counts
/// once; to give one up is no claim.
pub proof fn claims_are_counted(s: Seq<Seq<char>>, capacity: nat, steps: Seq<GuardStep>, h: Seq<char>)
    ensures
        guard_after(s, capacity, Seq::empty()) == s,
        guard_after(s, capacity, steps.push(GuardStep::Claim(h))) == fifo_insert(
            guard_after(s, capacity, steps),
            capacity,
            h,
        ),
        guard_after(s, capacity, steps.push(GuardStep::Release(h))) == fifo_remove(
            guard_after(s, capacity, steps),
            h,
        ),
        new_claims(s, capacity, Seq::empty()) == 0,
        guard_after(s, capacity, steps).contains(h) ==> new_claims(
            s,
            capacity,
            steps.push(GuardStep::Claim(h)),
        ) == new_claims(s, capacity, steps),
        !guard_after(s, capacity, steps).contains(h) ==> new_claims(
            s,
            capacity,
            steps.push(GuardStep::Claim(h)),
        ) == new_claims(s, capacity, steps) + 1,
        new_claims(s, capacity, steps.push(GuardStep::Release(h))) == new_claims(s, capacity, steps),
        steps.contains(GuardStep::Release(h)) <==> releases(steps, h),
{
    assert(steps.push(GuardStep::Claim(h)).drop_last() =~= steps);
    assert(steps.push(GuardStep::Release(h)).drop_last() =~= steps);
}

/// The runs that end are those that go, each once and as it was.
pub proof fn ended_runs_are_as_they_were(ended: Seq<ActiveRun>, gone: Set<Seq<char>>, s: RunsV, i: int, j: int, u: Seq<char>)
    requires
        are_ended(ended, gone, s),
        0 <= i < ended.len(),
        0 <= j < ended.len(),
    ensures
        gone.contains(ended[i].run_uid@),
        ended[i]@ == s.runs[ended[i].run_uid@],
        i != j ==> ended[i].run_uid@ != ended[j].run_uid@,
        gone.contains(u) ==> exists|k: int| 0 <= k < ended.len() && (#[trigger] ended[k]).run_uid@ == u,
{
}

/// A group beyond the last is none.
pub proof fn there_is_no_group_beyond_the_last<T>(t: Tensor<T>, axis: usize, n: usize, g: u32)
    requires
        axis < t.shape@.len(),
        t.shape@[axis as int] > 0,
        n > 0,
        g >= n,
    ensures
        group_region(t, axis, n, g) is None,
{
    let dim = t.shape@[axis as int] as int;
    if dim % n as int == 0 {
        assert(dim > 0 && n > 0 && g >= n ==> g * (dim / n as int) + dim / n as int > dim)
            by (nonlinear_arith)
            requires
                dim % n as int == 0,
                dim > 0,
                n > 0,
                g >= n,
        ;
    }
}

/// A miner's address with a blank host is refused.
pub proof fn blank_hosts_are_refused(port: Seq<char>)
    requires
        all_digits(port),
        port.len() > 0,
        1 <= digits_value(port) <= 65535,
    ensures
        miner_address(seq![':'] + port) == Err::<(Seq<char>, u16), MinerAddressError>(
            MinerAddressError::EmptyHost,
        ),
{
    let a = seq![':'] + port;
    super::keeping::lemma_last(Seq::empty(), port);
    assert(Seq::<char>::empty() + seq![':'] + port =~= a);
    assert(a.skip(1) =~= port);
    assert(a.take(0) =~= Seq::<char>::empty());
    assert(crate::text::is_digit(port[0]));
}

/// Of a message only the first field is a tensor: its numbers stand packed together or
/// one by one, each in four bytes. Other fields are passed by, and what reaches beyond
/// the end is an error.
pub proof fn tensors_are_in_the_first_field(raw: Seq<u8>, at: nat, n: nat, len: u64, m: nat, tag: u64)
    requires
        varint(raw.skip(at as int)) == Ok::<(u64, nat), crate::wire::VarintError>((tag, n)),
    ensures
        tag == 13 && at + n + 4 <= raw.len() ==> field_at(raw, at) == Ok::<
            (Seq<u32>, nat),
            TensorError,
        >((seq![le32(raw.skip((at + n) as int))], (at + n + 4) as nat)),
        tag == 13 && at + n + 4 > raw.len() ==> field_at(raw, at) == Err::<
            (Seq<u32>, nat),
            TensorError,
        >(TensorError::FixedOverflow),
        tag == 10 && varint(raw.skip((at + n) as int)) == Ok::<
            (u64, nat),
            crate::wire::VarintError,
        >((len, m)) ==> {
            let from = at + n + m;
            &&& from + len <= raw.len() ==> field_at(raw, at) == Ok::<(Seq<u32>, nat), TensorError>(
                (words(raw.subrange(from as int, from + len)), (from + len) as nat),
            )
            &&& from + len > raw.len() ==> field_at(raw, at) == Err::<(Seq<u32>, nat), TensorError>(
                TensorError::PackedOverflow,
            )
        },
        tag / 8 != 1 && tag % 8 == 2 && varint(raw.skip((at + n) as int)) == Ok::<
            (u64, nat),
            crate::wire::VarintError,
        >((len, m)) && at + n + m + len <= raw.len() ==> field_at(raw, at) == Ok::<
            (Seq<u32>, nat),
            TensorError,
        >((Seq::empty(), (at + n + m + len) as nat)),
        tag % 8 == 0 && varint(raw.skip((at + n) as int)) == Ok::<
            (u64, nat),
            crate::wire::VarintError,
        >((len, m)) && at + n + m <= raw.len() ==> field_at(raw, at) == Ok::<
            (Seq<u32>, nat),
            TensorError,
        >((Seq::empty(), (at + n + m) as nat)),
        tag % 8 == 1 && at + n + 8 <= raw.len() ==> field_at(raw, at) == Ok::<
            (Seq<u32>, nat),
            TensorError,
        >((Seq::empty(), (at + n + 8) as nat)),
        tag % 8 == 1 && at + n + 8 > raw.len() ==> field_at(raw, at) == Ok::<
            (Seq<u32>, nat),
            TensorError,
        >((Seq::empty(), raw.len())),
        tag % 8 == 3 ==> field_at(raw, at) == Err::<(Seq<u32>, nat), TensorError>(
            TensorError::UnknownWireType(3),
        ),
        tag / 8 != 1 && tag % 8 == 5 && at + n + 4 <= raw.len() ==> field_at(raw, at) == Ok::<
            (Seq<u32>, nat),
            TensorError,
        >((Seq::empty(), (at + n + 4) as nat)),
        tag % 8 == 5 && at + n + 4 > raw.len() ==> field_at(raw, at) == Err::<
            (Seq<u32>, nat),
            TensorError,
        >(TensorError::FixedOverflow),
        within(raw, raw.len() as int + 5) == raw.len(),
{
}

/// The numbers of one field come before those of the next, and what cannot be read
/// spoils the whole.
pub proof fn fields_follow_one_another(raw: Seq<u8>, at: nat, s: Seq<u32>, next: nat)
    requires
        at < next <= raw.len(),
        field_at(raw, at) == Ok::<(Seq<u32>, nat), TensorError>((s, next)),
    ensures
        field_numbers(raw, next) matches Ok(r) ==> field_numbers(raw, at) == Ok::<
            Seq<u32>,
            TensorError,
        >(s + r),
        field_numbers(raw, next) matches Err(e) ==> field_numbers(raw, at) == Err::<
            Seq<u32>,
            TensorError,
        >(e),
        next == raw.len() ==> field_numbers(raw, at) == Ok::<Seq<u32>, TensorError>(s),
{
    reveal_with_fuel(field_numbers, 2);
    assert(s + Seq::<u32>::empty() =~= s);
}

/// A tensor is read with the numbers and in the shape that were expected, and what kept
/// it from being read is told.
pub proof fn tensors_are_read_as_expected(
    t: Tensor<u32>,
    e: TensorError,
    v: Seq<u32>,
    shape: Seq<usize>,
    s: Seq<u8>,
)
    ensures
        yields(Ok(t), Ok(v), shape) <==> t.data@ == v && t.shape@ == shape,
        !yields(Ok(t), Err(e), shape) && !yields(Err(e), Ok(v), shape),
        yields(Err(e), Err(e), shape),
        s.len() >= 10 && (forall|i: int| 0 <= i < 10 ==> s[i] >= 128) ==> varint(s) == Err::<
            (u64, nat),
            crate::wire::VarintError,
        >(crate::wire::VarintError::TooLong),
{
    if s.len() >= 10 && (forall|i: int| 0 <= i < 10 ==> s[i] >= 128) {
        lemma_continued(s, 10);
    }
}

proof fn lemma_continued(s: Seq<u8>, k: nat)
    requires
        k <= s.len(),
        forall|i: int| 0 <= i < k ==> s[i] >= 128,
    ensures
        continued(s) >= k,
    decreases k,
{
    if k > 0 {
        let t = s.drop_first();
        assert forall|i: int| 0 <= i < k - 1 implies t[i] >= 128 by {
            assert(s[i + 1] >= 128);
        }
        lemma_continued(t, (k - 1) as nat);
    }
}

/// The figures of the worlds that come with the program.
pub proof fn worlds_have_their_figures(a: Scenario, b: Scenario, c: Scenario, i: int)
    requires
        is_discovery(a),
        is_decay(b),
        is_overload(c),
    ensures
        a.miners@[0].uid == 1 && a.miners@[0].hotkey@ == "hk_incumbent_a"@
            && a.miners@[0].response_time_ms == 500 && a.miners@[0].cap_ceiling == 100
            && a.miners@[0].alive_after_secs == 0 && a.miners@[0].success_rate
            == 0x3fee_6666_6666_6666,
        a.miners@[1].uid == 2 && a.miners@[1].hotkey@ == "hk_incumbent_b"@
            && a.miners@[1].response_time_ms == 800 && a.miners@[1].cap_ceiling == 80
            && a.miners@[1].alive_after_secs == 0 && a.miners@[1].success_rate
            == 0x3fed_70a3_d70a_3d71,
        a.events@[0].kind matches EventKind::AddMiner(p) && p.hotkey@ == "hk_new_fast"@
            && p.response_time_ms == 100 && p.cap_ceiling == 500 && p.success_rate
            == 0x3fef_ae14_7ae1_47ae,
        b.miners@[0].uid == 10 && b.miners@[0].hotkey@ == "hk_steady"@
            && b.miners@[0].response_time_ms == 400 && b.miners@[0].cap_ceiling == 200
            && b.miners@[0].alive_after_secs == 0 && b.miners@[0].success_rate
            == 0x3fef_0a3d_70a3_d70a,
        b.miners@[1].uid == 20 && b.miners@[1].hotkey@ == "hk_degrading"@
            && b.miners@[1].response_time_ms == 300 && b.miners@[1].cap_ceiling == 1000
            && b.miners@[1].alive_after_secs == 0 && b.miners@[1].success_rate
            == 0x3fef_ae14_7ae1_47ae,
        b.events@[1].kind matches EventKind::SetSuccessRate { uid, value } && value
            == 0x3fd9_9999_9999_999a,
        c.miners@[0].success_rate == 0x3fef_5c28_f5c2_8f5c && c.miners@[0].alive_after_secs == 0,
        0 <= i < 200 ==> c.miners@[i].hotkey@ == "hk_"@ + crate::simulator::three_digits(i as nat),
        a.run.output_path@ == "/tmp/sim_"@ + "new_miner"@ + ".tsv"@,
        b.run.output_path@ == "/tmp/sim_"@ + "old_miner_decay"@ + ".tsv"@,
        c.run.output_path@ == "/tmp/sim_"@ + "overload"@ + ".tsv"@,
{
}

} // verus!
