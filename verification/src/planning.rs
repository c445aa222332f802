//! How the slices of a run become work for miners.

use vstd::prelude::*;
use vstd::string::*;

use crate::types::copy_text;

verus! {

/// What the description of a slice says of the size of its inputs.
#[derive(Clone, Copy, Debug, PartialEq, Eq, Structural)]
pub enum ExpectedInputs {
    NoMetadata,
    Count(usize),
    Invalid,
}

/// The product of the dimensions of a shape.
pub open spec fn signed_product(s: Seq<i64>) -> int
    decreases s.len(),
{
    if s.len() == 0 {
        1
    } else {
        signed_product(s.drop_last()) * s.last()
    }
}

/// Whether every dimension of a shape is positive.
pub open spec fn all_positive(s: Seq<i64>) -> bool {
    forall|i: int| 0 <= i < s.len() ==> #[trigger] s[i] > 0
}

/// How many elements some shapes hold together.
pub open spec fn signed_total(s: Seq<Vec<i64>>) -> int
    decreases s.len(),
{
    if s.len() == 0 {
        0
    } else {
        signed_total(s.drop_last()) + signed_product(s.last()@)
    }
}

/// Whether every dimension of every shape is positive.
pub open spec fn shapes_positive(s: Seq<Vec<i64>>) -> bool {
    forall|i: int| 0 <= i < s.len() ==> all_positive(#[trigger] s[i]@)
}

/// What the description of a slice says of the size of its inputs. Dimensions
/// must be positive, and the total must be a machine number.
pub open spec fn input_elements(s: Seq<Vec<i64>>) -> ExpectedInputs {
    if s.len() == 0 {
        ExpectedInputs::NoMetadata
    } else if shapes_positive(s) && signed_total(s) <= usize::MAX {
        ExpectedInputs::Count(signed_total(s) as usize)
    } else {
        ExpectedInputs::Invalid
    }
}

proof fn lemma_signed_product_grows(s: Seq<i64>, i: int)
    requires
        0 <= i <= s.len(),
        all_positive(s),
    ensures
        1 <= signed_product(s.take(i)) <= signed_product(s),
    decreases s.len() - i,
{
    if i == s.len() {
        assert(s.take(i) =~= s);
        lemma_signed_product_positive(s);
    } else {
        lemma_signed_product_grows(s, i + 1);
        let t = s.take(i + 1);
        assert(t.drop_last() =~= s.take(i));
        assert(t.last() == s[i]);
        lemma_signed_product_positive(s.take(i));
        let p = signed_product(s.take(i));
        let d = s[i] as int;
        assert(p <= p * d) by (nonlinear_arith)
            requires
                p >= 1,
                d >= 1,
        ;
    }
}

proof fn lemma_signed_product_positive(s: Seq<i64>)
    requires
        all_positive(s),
    ensures
        signed_product(s) >= 1,
    decreases s.len(),
{
    if s.len() > 0 {
        let d = s.drop_last();
        assert forall|i: int| 0 <= i < d.len() implies #[trigger] d[i] > 0 by {
            assert(s[i] > 0);
        }
        lemma_signed_product_positive(d);
        let p = signed_product(d);
        let l = s.last() as int;
        assert(s[s.len() - 1] > 0);
        assert(p * l >= 1) by (nonlinear_arith)
            requires
                p >= 1,
                l >= 1,
        ;
    }
}

proof fn lemma_signed_total_grows(s: Seq<Vec<i64>>, i: int)
    requires
        0 <= i <= s.len(),
        shapes_positive(s),
    ensures
        0 <= signed_total(s.take(i)) <= signed_total(s),
    decreases s.len() - i,
{
    if i == s.len() {
        assert(s.take(i) =~= s);
        lemma_signed_total_nonneg(s);
    } else {
        lemma_signed_total_grows(s, i + 1);
        let t = s.take(i + 1);
        assert(t.drop_last() =~= s.take(i));
        assert(t.last() == s[i]);
        lemma_signed_product_positive(s[i]@);
        assert forall|k: int| 0 <= k < s.take(i).len() implies all_positive(
            #[trigger] s.take(i)[k]@,
        ) by {
            assert(all_positive(s[k]@));
        }
        lemma_signed_total_nonneg(s.take(i));
    }
}

proof fn lemma_signed_total_nonneg(s: Seq<Vec<i64>>)
    requires
        shapes_positive(s),
    ensures
        signed_total(s) >= 0,
    decreases s.len(),
{
    if s.len() > 0 {
        let d = s.drop_last();
        assert forall|i: int| 0 <= i < d.len() implies all_positive(#[trigger] d[i]@) by {
            assert(all_positive(s[i]@));
        }
        lemma_signed_total_nonneg(d);
        assert(all_positive(s[s.len() - 1]@));
        lemma_signed_product_positive(s.last()@);
    }
}

/// The size of a shape: `None` where a dimension is not positive or the size is
/// no machine number.
fn shape_size(shape: &Vec<i64>) -> (r: Option<usize>)
    ensures
        match r {
            Some(n) => all_positive(shape@) && n == signed_product(shape@),
            None => !all_positive(shape@) || signed_product(shape@) > usize::MAX,
        },
{
    let mut product: usize = 1;
    let mut i: usize = 0;
    proof {
        assert(shape@.take(0).len() == 0);
    }
    while i < shape.len()
        invariant
            i <= shape@.len(),
            forall|j: int| 0 <= j < i ==> #[trigger] shape@[j] > 0,
            product == signed_product(shape@.take(i as int)),
            product >= 1,
        decreases shape@.len() - i,
    {
        let dim: i64 = shape[i];
        if dim <= 0 {
            proof {
                assert(!(shape@[i as int] > 0));
            }
            return None;
        }
        proof {
            assert(shape@.take(i + 1).drop_last() =~= shape@.take(i as int));
            assert(shape@.take(i + 1).last() == dim);
            if all_positive(shape@) {
                lemma_signed_product_grows(shape@, i + 1);
            }
            assert(product * dim >= dim) by (nonlinear_arith)
                requires
                    product >= 1,
                    dim >= 1,
            ;
        }
        if dim as u64 > usize::MAX as u64 {
            return None;
        }
        let size: usize = dim as usize;
        product = match product.checked_mul(size) {
            Some(p) => p,
            None => {
                return None;
            },
        };
        proof {
            assert(product >= 1) by (nonlinear_arith)
                requires
                    product == signed_product(shape@.take(i as int)) * dim,
                    signed_product(shape@.take(i as int)) >= 1,
                    dim >= 1,
            ;
        }
        i += 1;
    }
    proof {
        assert(shape@.take(i as int) =~= shape@);
    }
    Some(product)
}

/// What the description of a slice says of the size of its inputs.
pub fn expected_input_elements(input_shape: &Vec<Vec<i64>>) -> (r: ExpectedInputs)
    ensures
        r == input_elements(input_shape@),
{
    if input_shape.len() == 0 {
        return ExpectedInputs::NoMetadata;
    }
    let mut total: usize = 0;
    let mut i: usize = 0;
    proof {
        assert(input_shape@.take(0).len() == 0);
    }
    while i < input_shape.len()
        invariant
            input_shape@.len() > 0,
            i <= input_shape@.len(),
            forall|j: int| 0 <= j < i ==> all_positive(#[trigger] input_shape@[j]@),
            total == signed_total(input_shape@.take(i as int)),
        decreases input_shape@.len() - i,
    {
        proof {
            assert(input_shape@.take(i + 1).drop_last() =~= input_shape@.take(i as int));
            assert(input_shape@.take(i + 1).last() == input_shape@[i as int]);
            if shapes_positive(input_shape@) {
                lemma_signed_total_grows(input_shape@, i + 1);
                lemma_signed_total_grows(input_shape@, i as int);
            }
        }
        match shape_size(&input_shape[i]) {
            Some(n) => {
                total = match total.checked_add(n) {
                    Some(t) => t,
                    None => {
                        return ExpectedInputs::Invalid;
                    },
                };
            },
            None => {
                return ExpectedInputs::Invalid;
            },
        }
        i += 1;
    }
    proof {
        assert(input_shape@.take(i as int) =~= input_shape@);
    }
    ExpectedInputs::Count(total)
}

/// How a slice is cut into tiles.
#[derive(Clone, Copy, Debug, PartialEq, Eq, Structural)]
pub struct TilingInfo {
    pub num_tiles: usize,
    pub tiles_y: usize,
    pub tiles_x: usize,
    pub ndim: usize,
    pub segment_size: Option<usize>,
}

/// How a slice is split along a dimension.
#[derive(Debug)]
pub struct DimSplitInfo {
    pub weight_name: Option<String>,
    pub split_dim: usize,
    pub dim_size: usize,
    pub num_groups: usize,
    pub elements_per_group: usize,
    pub k_dim: usize,
    pub n_dim: usize,
    pub k_chunks: usize,
    pub concat_axis: usize,
}

impl Default for DimSplitInfo {
    fn default() -> (r: DimSplitInfo)
        ensures
            r.weight_name is None,
            r.split_dim == 0,
            r.dim_size == 0,
            r.num_groups == 0,
            r.elements_per_group == 0,
            r.k_dim == 0,
            r.n_dim == 0,
            r.k_chunks == 0,
            r.concat_axis == 0,
    {
        DimSplitInfo {
            weight_name: None,
            split_dim: 0,
            dim_size: 0,
            num_groups: 0,
            elements_per_group: 0,
            k_dim: 0,
            n_dim: 0,
            k_chunks: 0,
            concat_axis: 0,
        }
    }
}

impl DimSplitInfo {
    /// Another value for the same split.
    pub fn copy(&self) -> (r: DimSplitInfo)
        ensures
            r == *self,
    {
        DimSplitInfo {
            weight_name: copy_text(&self.weight_name),
            split_dim: self.split_dim,
            dim_size: self.dim_size,
            num_groups: self.num_groups,
            elements_per_group: self.elements_per_group,
            k_dim: self.k_dim,
            n_dim: self.n_dim,
            k_chunks: self.k_chunks,
            concat_axis: self.concat_axis,
        }
    }
}

/// A slice of a run that is to be proved, as far as planning needs to know it.
#[derive(Debug)]
pub struct SliceWork {
    pub slice_id: String,
    /// How many elements the slice takes in.
    pub input_len: usize,
    /// Whether all of them are finite numbers.
    pub input_finite: bool,
    /// The shapes of the tensors that the slice takes in by name.
    pub named_input_shapes: Vec<Vec<usize>>,
    pub tiling: Option<TilingInfo>,
    pub dim_split: Option<DimSplitInfo>,
    pub circuit_path: Option<String>,
    pub onnx_path: Option<String>,
    /// The input shapes in the slice's description.
    pub meta_input_shape: Vec<Vec<i64>>,
    /// The split in the slice's description.
    pub meta_dim_split: Option<DimSplitInfo>,
}

/// Whether a split carries its weights with it: it names them and gives both of
/// their dimensions.
pub open spec fn weight_bound(ds: DimSplitInfo) -> bool {
    ds.weight_name is Some && ds.k_dim > 0 && ds.n_dim > 0
}

/// Whether a split carries its weights with it.
pub fn is_weight_bound_dim_split(ds: &DimSplitInfo) -> (r: bool)
    ensures
        r == weight_bound(*ds),
{
    ds.weight_name.is_some() && ds.k_dim > 0 && ds.n_dim > 0
}

/// Whether a split cuts the dimension into whole groups without weights.
pub open spec fn covering_groups(ds: DimSplitInfo) -> bool {
    &&& ds.weight_name is None
    &&& ds.num_groups > 0
    &&& ds.elements_per_group > 0
    &&& ds.num_groups * ds.elements_per_group == ds.dim_size
}

/// The split into groups by which a slice of several inputs is handed out.
pub open spec fn group_split(w: SliceWork) -> Option<DimSplitInfo> {
    match w.meta_dim_split {
        Some(ds) => if w.named_input_shapes@.len() > 1 && covering_groups(ds) {
            Some(ds)
        } else {
            None
        },
        None => None,
    }
}

/// The split into groups by which a slice of several inputs is handed out.
pub fn group_dim_split(work: &SliceWork) -> (r: Option<&DimSplitInfo>)
    ensures
        match r {
            Some(ds) => group_split(*work) == Some(*ds),
            None => group_split(*work) is None,
        },
{
    match &work.meta_dim_split {
        Some(ds) => {
            let covers = match ds.num_groups.checked_mul(ds.elements_per_group) {
                Some(n) => n == ds.dim_size,
                None => false,
            };
            if work.named_input_shapes.len() > 1 && ds.weight_name.is_none() && ds.num_groups > 0
                && ds.elements_per_group > 0 && covers {
                Some(ds)
            } else {
                None
            }
        },
        None => None,
    }
}

/// The product of the dimensions of a shape.
pub open spec fn product(s: Seq<usize>) -> nat
    decreases s.len(),
{
    if s.len() == 0 {
        1
    } else {
        product(s.drop_last()) * s.last() as nat
    }
}

/// The sizes of some shapes, summed up.
pub open spec fn product_sum(s: Seq<Vec<usize>>) -> nat
    decreases s.len(),
{
    if s.len() == 0 {
        0
    } else {
        product_sum(s.drop_last()) + product(s.last()@)
    }
}

/// Every way of multiplying the dimensions of a shape from the front stays a
/// machine number.
pub open spec fn product_fits(s: Seq<usize>) -> bool {
    forall|i: int| 0 <= i <= s.len() ==> product(#[trigger] s.take(i)) <= usize::MAX
}

/// The sizes of the shapes, and the sums of them from the front, are machine
/// numbers.
pub open spec fn sizes_fit(s: Seq<Vec<usize>>) -> bool {
    &&& forall|i: int| 0 <= i < s.len() ==> product_fits(#[trigger] s[i]@)
    &&& forall|i: int| 0 <= i <= s.len() ==> product_sum(#[trigger] s.take(i)) <= usize::MAX
}

fn size_of_shape(shape: &Vec<usize>) -> (r: usize)
    requires
        product_fits(shape@),
    ensures
        r == product(shape@),
{
    let mut p: usize = 1;
    let mut i: usize = 0;
    proof {
        assert(shape@.take(0).len() == 0);
    }
    while i < shape.len()
        invariant
            i <= shape@.len(),
            product_fits(shape@),
            p == product(shape@.take(i as int)),
        decreases shape@.len() - i,
    {
        proof {
            assert(shape@.take(i + 1).drop_last() =~= shape@.take(i as int));
            assert(shape@.take(i + 1).last() == shape@[i as int]);
            assert(product(shape@.take(i + 1)) <= usize::MAX);
        }
        p = p * shape[i];
        i += 1;
    }
    proof {
        assert(shape@.take(i as int) =~= shape@);
    }
    p
}

fn sum_of_sizes(shapes: &Vec<Vec<usize>>, n: usize) -> (r: usize)
    requires
        n <= shapes@.len(),
        sizes_fit(shapes@),
    ensures
        r == product_sum(shapes@.take(n as int)),
{
    let mut total: usize = 0;
    let mut i: usize = 0;
    proof {
        assert(shapes@.take(0).len() == 0);
    }
    while i < n
        invariant
            i <= n <= shapes@.len(),
            sizes_fit(shapes@),
            total == product_sum(shapes@.take(i as int)),
        decreases n - i,
    {
        proof {
            assert(shapes@.take(i + 1).drop_last() =~= shapes@.take(i as int));
            assert(shapes@.take(i + 1).last() == shapes@[i as int]);
            assert(product_sum(shapes@.take(i + 1)) <= usize::MAX);
        }
        total = total + size_of_shape(&shapes[i]);
        i += 1;
    }
    total
}

/// What the compiled circuit of a slice takes in.
#[derive(Debug)]
pub struct BundleParams {
    /// The shapes of its inputs, in order.
    pub input_shapes: Vec<Vec<usize>>,
    /// Whether the last inputs are weights.
    pub weights_as_inputs: bool,
    /// How many of the inputs are weights, where that could be found out.
    pub initializers: Option<usize>,
}

/// What is sent for one input of a circuit: a whole tensor, or one group of it.
#[derive(Clone, Copy, Debug, PartialEq, Eq, Structural)]
pub enum GroupPayloadPart {
    Whole(usize),
    Split(usize),
}

/// How a slice is handed out.
#[derive(Clone, Copy, Debug, PartialEq, Eq, Structural)]
pub enum DispatchStrategy {
    DimSplitGroup,
    DimSplit,
    TiledMultiInput,
    TiledSingleInput,
    Single,
}

/// What is sent does not fit what the compiled circuit takes in.
#[derive(Clone, Copy, Debug, PartialEq, Eq, Structural)]
pub struct BundleDispatchMismatch {
    pub bundle_expected: usize,
    pub per_request_actual: usize,
    pub strategy: DispatchStrategy,
}

/// The size of one group of a tensor.
pub open spec fn group_size(n: nat, ds: DimSplitInfo) -> nat {
    n / (ds.dim_size as nat) * (ds.elements_per_group as nat)
}

/// The size of what is sent for one input.
pub open spec fn part_size(p: GroupPayloadPart, shapes: Seq<Vec<usize>>, ds: DimSplitInfo) -> nat {
    match p {
        GroupPayloadPart::Whole(i) => product(shapes[i as int]@),
        GroupPayloadPart::Split(i) => group_size(product(shapes[i as int]@), ds),
    }
}

/// The size of all that is sent.
pub open spec fn plan_size(
    plan: Seq<GroupPayloadPart>,
    shapes: Seq<Vec<usize>>,
    ds: DimSplitInfo,
) -> nat
    decreases plan.len(),
{
    if plan.len() == 0 {
        0
    } else {
        plan_size(plan.drop_last(), shapes, ds) + part_size(plan.last(), shapes, ds)
    }
}

/// Whether an input of the circuit is an activation: it has the size of one of
/// the slice's tensors, or of a group of one.
pub open spec fn is_activation(n: nat, shapes: Seq<Vec<usize>>, ds: DimSplitInfo) -> bool {
    exists|j: int|
        0 <= j < shapes.len() && (product((#[trigger] shapes[j])@) == n || group_size(
            product(shapes[j]@),
            ds,
        ) == n)
}

/// How many inputs of the circuit come before the first that is no activation.
pub open spec fn activation_prefix(
    inputs: Seq<Vec<usize>>,
    shapes: Seq<Vec<usize>>,
    ds: DimSplitInfo,
) -> nat
    decreases inputs.len(),
{
    if inputs.len() == 0 {
        0
    } else {
        let n = activation_prefix(inputs.drop_last(), shapes, ds);
        if n == inputs.len() - 1 && is_activation(product(inputs.last()@), shapes, ds) {
            inputs.len()
        } else {
            n
        }
    }
}

/// The size of the activations that the circuit takes in.
pub open spec fn activation_size(
    inputs: Seq<Vec<usize>>,
    shapes: Seq<Vec<usize>>,
    ds: DimSplitInfo,
) -> nat {
    product_sum(inputs.take(activation_prefix(inputs, shapes, ds) as int))
}

/// The least number of parts of size `b` that `a` fills.
pub open spec fn parts_of(a: nat, b: nat) -> nat
    recommends
        b > 0,
{
    if a % b == 0 {
        a / b
    } else {
        a / b + 1
    }
}

/// The greater of a number and one.
pub open spec fn at_least_one(n: usize) -> usize {
    if n < 1 {
        1
    } else {
        n
    }
}

/// The mismatch, unless both sides are equal.
pub open spec fn mismatch_unless_equal(
    expected: usize,
    actual: usize,
    strategy: DispatchStrategy,
) -> Option<BundleDispatchMismatch> {
    if actual == expected {
        None
    } else {
        Some(BundleDispatchMismatch { bundle_expected: expected, per_request_actual: actual, strategy })
    }
}

/// What is sent for one tile: a segment for each input of the slice, or as many
/// elements as the first tile holds for each of them. It is not known where the
/// tiling gives no segment, where the slice could not be cut into tiles, or where
/// it is no machine number.
pub open spec fn tile_request_size(t: TilingInfo, named: nat, first_tile: Option<usize>) -> Option<
    usize,
> {
    let one: Option<usize> = if t.ndim == 1 {
        t.segment_size
    } else {
        match first_tile {
            Some(n) => Some(
                if named > 1 {
                    (n / (named as usize)) as usize
                } else {
                    n
                },
            ),
            None => None,
        }
    };
    match one {
        Some(n) => if n * at_least_one(named as usize) <= usize::MAX {
            Some((n * at_least_one(named as usize)) as usize)
        } else {
            None
        },
        None => None,
    }
}

/// Compares what is sent for one request with what the compiled circuit takes
/// in. There is a mismatch only where both are known and differ. They are not both
/// known where the circuit takes in weights that could not be counted, or fewer
/// inputs than weights, and where the size of a group or of a tile could not be
/// worked out. A size that is known to be zero is compared as any other.
pub open spec fn bundle_mismatch(
    w: SliceWork,
    b: BundleParams,
    group_plan: Option<Seq<GroupPayloadPart>>,
    first_tile: Option<usize>,
) -> Option<BundleDispatchMismatch> {
    let inputs = b.input_shapes@;
    let named = w.named_input_shapes@;
    match group_split(w) {
        Some(ds) => match group_plan {
            None => None,
            Some(plan) => {
                let actual = plan_size(plan, named, ds);
                if actual > 0 && actual == activation_size(inputs, named, ds) {
                    None
                } else {
                    Some(
                        BundleDispatchMismatch {
                            bundle_expected: product_sum(inputs) as usize,
                            per_request_actual: actual as usize,
                            strategy: DispatchStrategy::DimSplitGroup,
                        },
                    )
                }
            },
        },
        None => match w.dim_split {
            Some(ds) => mismatch_unless_equal(
                product_sum(inputs) as usize,
                crate::dispatch::capped(
                    parts_of(ds.k_dim as nat, at_least_one(ds.k_chunks) as nat) * (1 + ds.n_dim),
                ),
                DispatchStrategy::DimSplit,
            ),
            None => {
                let weights: Option<usize> = if b.weights_as_inputs {
                    b.initializers
                } else {
                    Some(0)
                };
                match weights {
                    None => None,
                    Some(n) => if n > inputs.len() {
                        None
                    } else {
                        let expected = product_sum(inputs.take(inputs.len() - n)) as usize;
                        match w.tiling {
                            Some(t) => match tile_request_size(t, named.len(), first_tile) {
                                None => None,
                                Some(actual) => mismatch_unless_equal(
                                    expected,
                                    actual,
                                    if named.len() > 1 {
                                        DispatchStrategy::TiledMultiInput
                                    } else {
                                        DispatchStrategy::TiledSingleInput
                                    },
                                ),
                            },
                            None => mismatch_unless_equal(
                                expected,
                                w.input_len,
                                DispatchStrategy::Single,
                            ),
                        }
                    },
                }
            },
        },
    }
}

/// The numbers of a group plan are machine numbers, and it speaks of tensors
/// that the slice has.
pub open spec fn plan_fits(
    plan: Seq<GroupPayloadPart>,
    shapes: Seq<Vec<usize>>,
    ds: DimSplitInfo,
) -> bool {
    &&& forall|i: int| 0 <= i < shapes.len() ==> product_fits(#[trigger] shapes[i]@)
    &&& forall|i: int|
        0 <= i < shapes.len() ==> group_size(product((#[trigger] shapes[i])@), ds) <= usize::MAX
    &&& forall|k: int|
        0 <= k < plan.len() ==> match #[trigger] plan[k] {
            GroupPayloadPart::Whole(i) => i < shapes.len(),
            GroupPayloadPart::Split(i) => i < shapes.len(),
        }
    &&& forall|k: int| 0 <= k <= plan.len() ==> plan_size(#[trigger] plan.take(k), shapes, ds)
        <= usize::MAX
}

fn group_size_of(n: usize, ds: &DimSplitInfo) -> (r: usize)
    requires
        ds.dim_size > 0,
        group_size(n as nat, *ds) <= usize::MAX,
    ensures
        r == group_size(n as nat, *ds),
{
    n / ds.dim_size * ds.elements_per_group
}

fn size_of_plan(
    plan: &Vec<GroupPayloadPart>,
    shapes: &Vec<Vec<usize>>,
    ds: &DimSplitInfo,
) -> (r: usize)
    requires
        ds.dim_size > 0,
        plan_fits(plan@, shapes@, *ds),
    ensures
        r == plan_size(plan@, shapes@, *ds),
{
    let mut total: usize = 0;
    let mut k: usize = 0;
    proof {
        assert(plan@.take(0).len() == 0);
    }
    while k < plan.len()
        invariant
            k <= plan@.len(),
            ds.dim_size > 0,
            plan_fits(plan@, shapes@, *ds),
            total == plan_size(plan@.take(k as int), shapes@, *ds),
        decreases plan@.len() - k,
    {
        proof {
            assert(plan@.take(k + 1).drop_last() =~= plan@.take(k as int));
            assert(plan@.take(k + 1).last() == plan@[k as int]);
            assert(plan_size(plan@.take(k + 1), shapes@, *ds) <= usize::MAX);
        }
        let part: usize = match plan[k] {
            GroupPayloadPart::Whole(i) => {
                proof {
                    assert(product_fits(shapes@[i as int]@));
                }
                size_of_shape(&shapes[i])
            },
            GroupPayloadPart::Split(i) => {
                proof {
                    assert(product_fits(shapes@[i as int]@));
                    assert(group_size(product(shapes@[i as int]@), *ds) <= usize::MAX);
                }
                group_size_of(size_of_shape(&shapes[i]), ds)
            },
        };
        total = total + part;
        k += 1;
    }
    proof {
        assert(plan@.take(k as int) =~= plan@);
    }
    total
}

fn activation(n: usize, shapes: &Vec<Vec<usize>>, ds: &DimSplitInfo) -> (r: bool)
    requires
        ds.dim_size > 0,
        forall|i: int| 0 <= i < shapes@.len() ==> product_fits(#[trigger] shapes@[i]@),
        forall|i: int|
            0 <= i < shapes@.len() ==> group_size(product((#[trigger] shapes@[i])@), *ds)
                <= usize::MAX,
    ensures
        r == is_activation(n as nat, shapes@, *ds),
{
    let mut j: usize = 0;
    while j < shapes.len()
        invariant
            j <= shapes@.len(),
            ds.dim_size > 0,
            forall|i: int| 0 <= i < shapes@.len() ==> product_fits(#[trigger] shapes@[i]@),
            forall|i: int|
                0 <= i < shapes@.len() ==> group_size(product((#[trigger] shapes@[i])@), *ds)
                    <= usize::MAX,
            forall|i: int|
                0 <= i < j ==> product((#[trigger] shapes@[i])@) != n && group_size(
                    product(shapes@[i]@),
                    *ds,
                ) != n,
        decreases shapes@.len() - j,
    {
        let m: usize = size_of_shape(&shapes[j]);
        if m == n || group_size_of(m, ds) == n {
            return true;
        }
        j += 1;
    }
    false
}

proof fn lemma_activation_prefix(
    inputs: Seq<Vec<usize>>,
    shapes: Seq<Vec<usize>>,
    ds: DimSplitInfo,
    i: int,
)
    requires
        0 <= i <= inputs.len(),
        forall|k: int|
            0 <= k < i ==> is_activation(product((#[trigger] inputs[k])@), shapes, ds),
        i < inputs.len() ==> !is_activation(product(inputs[i]@), shapes, ds),
    ensures
        activation_prefix(inputs, shapes, ds) == i,
    decreases inputs.len(),
{
    if inputs.len() > 0 {
        let d = inputs.drop_last();
        if i == inputs.len() {
            assert forall|k: int| 0 <= k < i - 1 implies is_activation(
                product((#[trigger] d[k])@),
                shapes,
                ds,
            ) by {
                assert(is_activation(product(inputs[k]@), shapes, ds));
            }
            lemma_activation_prefix(d, shapes, ds, i - 1);
            assert(is_activation(product(inputs[inputs.len() - 1]@), shapes, ds));
        } else {
            assert forall|k: int| 0 <= k < i implies is_activation(
                product((#[trigger] d[k])@),
                shapes,
                ds,
            ) by {
                assert(is_activation(product(inputs[k]@), shapes, ds));
            }
            lemma_activation_prefix(d, shapes, ds, i);
        }
    }
}

fn count_activations(
    inputs: &Vec<Vec<usize>>,
    shapes: &Vec<Vec<usize>>,
    ds: &DimSplitInfo,
) -> (r: usize)
    requires
        ds.dim_size > 0,
        sizes_fit(inputs@),
        forall|i: int| 0 <= i < shapes@.len() ==> product_fits(#[trigger] shapes@[i]@),
        forall|i: int|
            0 <= i < shapes@.len() ==> group_size(product((#[trigger] shapes@[i])@), *ds)
                <= usize::MAX,
    ensures
        r == activation_prefix(inputs@, shapes@, *ds),
        r <= inputs@.len(),
{
    let mut i: usize = 0;
    while i < inputs.len()
        invariant
            i <= inputs@.len(),
            ds.dim_size > 0,
            sizes_fit(inputs@),
            forall|i: int| 0 <= i < shapes@.len() ==> product_fits(#[trigger] shapes@[i]@),
            forall|i: int|
                0 <= i < shapes@.len() ==> group_size(product((#[trigger] shapes@[i])@), *ds)
                    <= usize::MAX,
            forall|k: int|
                0 <= k < i ==> is_activation(product((#[trigger] inputs@[k])@), shapes@, *ds),
        decreases inputs@.len() - i,
    {
        proof {
            assert(product_fits(inputs@[i as int]@));
        }
        if !activation(size_of_shape(&inputs[i]), shapes, ds) {
            proof {
                lemma_activation_prefix(inputs@, shapes@, *ds, i as int);
            }
            return i;
        }
        i += 1;
    }
    proof {
        lemma_activation_prefix(inputs@, shapes@, *ds, i as int);
    }
    i
}

/// The plan that an optional plan stands for.
pub open spec fn plan_view(p: Option<Vec<GroupPayloadPart>>) -> Option<Seq<GroupPayloadPart>> {
    match p {
        Some(v) => Some(v@),
        None => None,
    }
}

/// Compares what is sent for one request with what the compiled circuit takes
/// in. `group_plan` is what is sent for a slice that is split into groups, and
/// `first_tile` the size of the first tile of a slice that is cut into tiles, as
/// far as they could be worked out. Where they could not, there is nothing to
/// compare.
pub fn bundle_dispatch_mismatch(
    work: &SliceWork,
    params: &BundleParams,
    group_plan: &Option<Vec<GroupPayloadPart>>,
    first_tile: Option<usize>,
) -> (r: Option<BundleDispatchMismatch>)
    requires
        sizes_fit(params.input_shapes@),
        match (group_split(*work), *group_plan) {
            (Some(ds), Some(p)) => plan_fits(p@, work.named_input_shapes@, ds),
            _ => true,
        },
        work.dim_split matches Some(ds) ==> ds.n_dim < usize::MAX,
    ensures
        r == bundle_mismatch(*work, *params, plan_view(*group_plan), first_tile),
{
    let inputs = &params.input_shapes;
    let named = &work.named_input_shapes;
    proof {
        assert(inputs@.take(inputs@.len() as int) =~= inputs@);
    }
    if let Some(ds) = group_dim_split(work) {
        proof {
            assert(ds.dim_size > 0) by (nonlinear_arith)
                requires
                    ds.num_groups > 0,
                    ds.elements_per_group > 0,
                    ds.num_groups * ds.elements_per_group == ds.dim_size,
            ;
        }
        let actual: usize = match group_plan {
            Some(plan) => size_of_plan(plan, named, ds),
            None => {
                return None;
            },
        };
        let expected: usize = sum_of_sizes(inputs, inputs.len());
        let n: usize = count_activations(inputs, named, ds);
        let activations: usize = sum_of_sizes(inputs, n);
        return if actual > 0 && actual == activations {
            None
        } else {
            Some(
                BundleDispatchMismatch {
                    bundle_expected: expected,
                    per_request_actual: actual,
                    strategy: DispatchStrategy::DimSplitGroup,
                },
            )
        };
    }
    if let Some(ds) = &work.dim_split {
        let expected: usize = sum_of_sizes(inputs, inputs.len());
        let chunks: usize = if ds.k_chunks < 1 {
            1
        } else {
            ds.k_chunks
        };
        let whole: usize = ds.k_dim / chunks;
        proof {
            if ds.k_dim as int % chunks as int != 0 {
                assert(chunks > 1);
                assert(ds.k_dim as int / chunks as int * chunks + ds.k_dim as int % chunks as int
                    == ds.k_dim) by (nonlinear_arith)
                    requires
                        chunks > 0,
                ;
                assert(whole < usize::MAX) by (nonlinear_arith)
                    requires
                        whole * chunks <= ds.k_dim <= usize::MAX,
                        chunks > 1,
                ;
            }
        }
        let chunk: usize = if ds.k_dim % chunks == 0 {
            whole
        } else {
            whole + 1
        };
        let actual: usize = crate::dispatch::capped_product(chunk, 1 + ds.n_dim);
        return if actual == expected {
            None
        } else {
            Some(
                BundleDispatchMismatch {
                    bundle_expected: expected,
                    per_request_actual: actual,
                    strategy: DispatchStrategy::DimSplit,
                },
            )
        };
    }
    let weights: usize = if params.weights_as_inputs {
        match params.initializers {
            Some(n) => n,
            None => {
                return None;
            },
        }
    } else {
        0
    };
    if weights > inputs.len() {
        return None;
    }
    let expected: usize = sum_of_sizes(inputs, inputs.len() - weights);
    let count: usize = if named.len() < 1 {
        1
    } else {
        named.len()
    };
    let (actual, strategy): (usize, DispatchStrategy) = match &work.tiling {
        Some(t) => {
            let one: Option<usize> = if t.ndim == 1 {
                t.segment_size
            } else {
                match first_tile {
                    Some(n) => Some(
                        if named.len() > 1 {
                            n / named.len()
                        } else {
                            n
                        },
                    ),
                    None => None,
                }
            };
            let all: usize = match one {
                Some(n) => match n.checked_mul(count) {
                    Some(all) => all,
                    None => {
                        return None;
                    },
                },
                None => {
                    return None;
                },
            };
            (
                all,
                if named.len() > 1 {
                    DispatchStrategy::TiledMultiInput
                } else {
                    DispatchStrategy::TiledSingleInput
                },
            )
        },
        None => (work.input_len, DispatchStrategy::Single),
    };
    if actual == expected {
        None
    } else {
        Some(
            BundleDispatchMismatch { bundle_expected: expected, per_request_actual: actual, strategy },
        )
    }
}

/// The size of a shape, if every step of working it out is a machine number.
fn checked_size(shape: &Vec<usize>) -> (r: Option<usize>)
    ensures
        match r {
            Some(n) => product_fits(shape@) && n == product(shape@),
            None => !product_fits(shape@),
        },
{
    let mut p: usize = 1;
    let mut i: usize = 0;
    proof {
        assert(shape@.take(0).len() == 0);
    }
    while i < shape.len()
        invariant
            i <= shape@.len(),
            p == product(shape@.take(i as int)),
            forall|k: int| 0 <= k <= i ==> product(#[trigger] shape@.take(k)) <= usize::MAX,
        decreases shape@.len() - i,
    {
        proof {
            assert(shape@.take(i + 1).drop_last() =~= shape@.take(i as int));
            assert(shape@.take(i + 1).last() == shape@[i as int]);
        }
        p = match p.checked_mul(shape[i]) {
            Some(n) => n,
            None => {
                proof {
                    assert(product(shape@.take(i + 1)) > usize::MAX);
                }
                return None;
            },
        };
        i += 1;
    }
    proof {
        assert(shape@.take(i as int) =~= shape@);
    }
    Some(p)
}

/// Whether the sizes of the shapes, and the sums of them, are machine numbers.
pub fn sizes_are_numbers(shapes: &Vec<Vec<usize>>) -> (r: bool)
    ensures
        r == sizes_fit(shapes@),
{
    let mut total: usize = 0;
    let mut i: usize = 0;
    proof {
        assert(shapes@.take(0).len() == 0);
    }
    while i < shapes.len()
        invariant
            i <= shapes@.len(),
            total == product_sum(shapes@.take(i as int)),
            forall|k: int| 0 <= k < i ==> product_fits(#[trigger] shapes@[k]@),
            forall|k: int| 0 <= k <= i ==> product_sum(#[trigger] shapes@.take(k)) <= usize::MAX,
        decreases shapes@.len() - i,
    {
        proof {
            assert(shapes@.take(i + 1).drop_last() =~= shapes@.take(i as int));
            assert(shapes@.take(i + 1).last() == shapes@[i as int]);
        }
        let n: usize = match checked_size(&shapes[i]) {
            Some(n) => n,
            None => {
                proof {
                    assert(!product_fits(shapes@[i as int]@));
                }
                return false;
            },
        };
        total = match total.checked_add(n) {
            Some(t) => t,
            None => {
                proof {
                    assert(product_sum(shapes@.take(i + 1)) > usize::MAX);
                }
                return false;
            },
        };
        i += 1;
    }
    true
}

/// The size of one group of a tensor, if it is a machine number.
fn checked_group_size(n: usize, ds: &DimSplitInfo) -> (r: Option<usize>)
    requires
        ds.dim_size > 0,
    ensures
        match r {
            Some(g) => g == group_size(n as nat, *ds),
            None => group_size(n as nat, *ds) > usize::MAX,
        },
{
    (n / ds.dim_size).checked_mul(ds.elements_per_group)
}

/// Whether the numbers of a group plan are machine numbers, and it speaks of
/// tensors that the slice has.
pub fn plan_is_sound(
    plan: &Vec<GroupPayloadPart>,
    shapes: &Vec<Vec<usize>>,
    ds: &DimSplitInfo,
) -> (r: bool)
    requires
        ds.dim_size > 0,
    ensures
        r == plan_fits(plan@, shapes@, *ds),
{
    let mut i: usize = 0;
    while i < shapes.len()
        invariant
            i <= shapes@.len(),
            ds.dim_size > 0,
            forall|k: int| 0 <= k < i ==> product_fits(#[trigger] shapes@[k]@),
            forall|k: int|
                0 <= k < i ==> group_size(product((#[trigger] shapes@[k])@), *ds) <= usize::MAX,
        decreases shapes@.len() - i,
    {
        match checked_size(&shapes[i]) {
            Some(n) => {
                if checked_group_size(n, ds).is_none() {
                    proof {
                        assert(group_size(product(shapes@[i as int]@), *ds) > usize::MAX);
                    }
                    return false;
                }
            },
            None => {
                proof {
                    assert(!product_fits(shapes@[i as int]@));
                }
                return false;
            },
        }
        i += 1;
    }
    let mut total: usize = 0;
    let mut k: usize = 0;
    proof {
        assert(plan@.take(0).len() == 0);
    }
    while k < plan.len()
        invariant
            k <= plan@.len(),
            ds.dim_size > 0,
            forall|k: int| 0 <= k < shapes@.len() ==> product_fits(#[trigger] shapes@[k]@),
            forall|k: int|
                0 <= k < shapes@.len() ==> group_size(product((#[trigger] shapes@[k])@), *ds)
                    <= usize::MAX,
            forall|j: int|
                0 <= j < k ==> match #[trigger] plan@[j] {
                    GroupPayloadPart::Whole(i) => i < shapes@.len(),
                    GroupPayloadPart::Split(i) => i < shapes@.len(),
                },
            total == plan_size(plan@.take(k as int), shapes@, *ds),
            forall|j: int|
                0 <= j <= k ==> plan_size(#[trigger] plan@.take(j), shapes@, *ds) <= usize::MAX,
        decreases plan@.len() - k,
    {
        proof {
            assert(plan@.take(k + 1).drop_last() =~= plan@.take(k as int));
            assert(plan@.take(k + 1).last() == plan@[k as int]);
        }
        let (at, split): (usize, bool) = match plan[k] {
            GroupPayloadPart::Whole(i) => (i, false),
            GroupPayloadPart::Split(i) => (i, true),
        };
        if at >= shapes.len() {
            proof {
                assert(match plan@[k as int] {
                    GroupPayloadPart::Whole(i) => i >= shapes@.len(),
                    GroupPayloadPart::Split(i) => i >= shapes@.len(),
                });
            }
            return false;
        }
        proof {
            assert(product_fits(shapes@[at as int]@));
            assert(group_size(product(shapes@[at as int]@), *ds) <= usize::MAX);
        }
        let whole: usize = size_of_shape(&shapes[at]);
        let part: usize = if split {
            group_size_of(whole, ds)
        } else {
            whole
        };
        total = match total.checked_add(part) {
            Some(t) => t,
            None => {
                proof {
                    assert(plan_size(plan@.take(k + 1), shapes@, *ds) > usize::MAX);
                }
                return false;
            },
        };
        k += 1;
    }
    true
}

/// Whether a slice passes the check before anything of it is sent: its inputs
/// have the size that its description gives, and what is sent fits its compiled
/// circuit. Without a description or a circuit there is nothing to hold it to.
pub open spec fn preflight_passes(w: SliceWork, mismatch: Option<BundleDispatchMismatch>) -> bool {
    &&& match input_elements(w.meta_input_shape@) {
        ExpectedInputs::NoMetadata => true,
        ExpectedInputs::Count(n) => n == w.input_len,
        ExpectedInputs::Invalid => false,
    }
    &&& mismatch is None
}

/// Whether the inputs of a slice have the size that its description gives.
pub fn preflight_inputs(work: &SliceWork) -> (r: bool)
    ensures
        r == preflight_passes(*work, None),
{
    match expected_input_elements(&work.meta_input_shape) {
        ExpectedInputs::NoMetadata => true,
        ExpectedInputs::Count(n) => n == work.input_len,
        ExpectedInputs::Invalid => false,
    }
}

/// The slices that pass the check, and the names of those that do not.
#[derive(Debug)]
pub struct PreflightOutcome {
    pub kept: Vec<SliceWork>,
    pub failed: Vec<String>,
}

/// The slices that pass, in order.
pub open spec fn passing(
    works: Seq<SliceWork>,
    mismatches: Seq<Option<BundleDispatchMismatch>>,
) -> Seq<SliceWork>
    decreases works.len(),
{
    if works.len() == 0 {
        Seq::empty()
    } else {
        let r = passing(works.drop_last(), mismatches);
        if preflight_passes(works.last(), mismatches[works.len() - 1]) {
            r.push(works.last())
        } else {
            r
        }
    }
}

/// The names of the slices that do not pass, in order.
pub open spec fn failing(
    works: Seq<SliceWork>,
    mismatches: Seq<Option<BundleDispatchMismatch>>,
) -> Seq<Seq<char>>
    decreases works.len(),
{
    if works.len() == 0 {
        Seq::empty()
    } else {
        let r = failing(works.drop_last(), mismatches);
        if preflight_passes(works.last(), mismatches[works.len() - 1]) {
            r
        } else {
            r.push(works.last().slice_id@)
        }
    }
}

/// Sorts slices by whether they pass the check. `mismatches` holds what comparing
/// each with its compiled circuit gave.
pub fn preflight_work_items(
    works: Vec<SliceWork>,
    mismatches: &Vec<Option<BundleDispatchMismatch>>,
) -> (r: PreflightOutcome)
    requires
        mismatches@.len() == works@.len(),
    ensures
        r.kept@ == passing(works@, mismatches@),
        crate::seqs::texts(r.failed@) == failing(works@, mismatches@),
        r.kept@.len() + r.failed@.len() == works@.len(),
{
    let ghost all = works@;
    let mut rest = works;
    let mut kept: Vec<SliceWork> = Vec::new();
    let mut failed: Vec<String> = Vec::new();
    let mut i: usize = 0;
    let n: usize = rest.len();
    proof {
        assert(all.take(0).len() == 0);
        assert(crate::seqs::texts(failed@) =~= failing(all.take(0), mismatches@));
        assert(rest@ =~= all.skip(0));
    }
    while i < n
        invariant
            n == all.len(),
            mismatches@.len() == n,
            i <= n,
            rest@ == all.skip(i as int),
            kept@ == passing(all.take(i as int), mismatches@),
            crate::seqs::texts(failed@) == failing(all.take(i as int), mismatches@),
            kept@.len() + failed@.len() == i,
        decreases n - i,
    {
        let w = rest.remove(0);
        let ghost before = crate::seqs::texts(failed@);
        proof {
            assert(all.skip(i as int)[0] == all[i as int]);
            assert(rest@ =~= all.skip(i + 1));
            assert(all.take(i + 1).drop_last() =~= all.take(i as int));
            assert(all.take(i + 1).last() == all[i as int]);
        }
        if preflight_inputs(&w) && mismatches[i].is_none() {
            kept.push(w);
        } else {
            failed.push(w.slice_id.clone());
            proof {
                assert(crate::seqs::texts(failed@) =~= before.push(w.slice_id@));
            }
        }
        i += 1;
    }
    proof {
        assert(all.take(i as int) =~= all);
    }
    PreflightOutcome { kept, failed }
}

} // verus!
