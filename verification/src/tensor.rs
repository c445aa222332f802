//! Arrays of numbers with a shape.

use vstd::prelude::*;

use crate::json::{items, lemma_items, Json, JsonV};

verus! {

/// An array of numbers: those of the last dimension stand together.
#[derive(Debug)]
pub struct Tensor<T> {
    pub shape: Vec<usize>,
    pub data: Vec<T>,
}

/// How many numbers a shape asks for.
pub open spec fn shape_product(s: Seq<usize>) -> nat
    decreases s.len(),
{
    if s.len() == 0 {
        1
    } else {
        s[0] as nat * shape_product(s.drop_first())
    }
}

/// Whether a tensor has as many numbers as its shape asks for.
pub open spec fn fits_shape<T>(t: Tensor<T>) -> bool {
    t.data@.len() == shape_product(t.shape@)
}

proof fn lemma_product_split(s: Seq<usize>, i: int)
    requires
        0 <= i <= s.len(),
    ensures
        shape_product(s) == shape_product(s.take(i)) * shape_product(s.skip(i)),
    decreases i,
{
    if i == 0 {
        assert(s.skip(0) =~= s);
        assert(s.take(0).len() == 0);
        assert(shape_product(s.take(0)) == 1);
    } else {
        let d = s.drop_first();
        lemma_product_split(d, i - 1);
        assert(s.take(i).drop_first() =~= d.take(i - 1));
        assert(s.skip(i) =~= d.skip(i - 1));
        assert(s.take(i)[0] == s[0]);
        let a = s[0] as nat;
        let b = shape_product(d.take(i - 1));
        let c = shape_product(d.skip(i - 1));
        assert(a * (b * c) == (a * b) * c) by (nonlinear_arith);
    }
}

proof fn lemma_product_zero(s: Seq<usize>, i: int)
    requires
        0 <= i < s.len(),
        s[i] == 0,
    ensures
        shape_product(s) == 0,
    decreases i,
{
    if i > 0 {
        lemma_product_zero(s.drop_first(), i - 1);
        assert(s[0] as nat * 0 == 0) by (nonlinear_arith);
    } else {
        assert(0 * shape_product(s.drop_first()) == 0) by (nonlinear_arith);
    }
}

proof fn lemma_product_positive(s: Seq<usize>)
    requires
        forall|i: int| 0 <= i < s.len() ==> #[trigger] s[i] > 0,
    ensures
        shape_product(s) >= 1,
    decreases s.len(),
{
    if s.len() > 0 {
        let d = s.drop_first();
        assert forall|i: int| 0 <= i < d.len() implies #[trigger] d[i] > 0 by {
            assert(s[i + 1] > 0);
        }
        lemma_product_positive(d);
        let a = s[0] as nat;
        let b = shape_product(d);
        assert(a * b >= 1) by (nonlinear_arith)
            requires
                a >= 1,
                b >= 1,
        ;
    }
}

/// How many numbers a shape asks for, if a machine number can say.
pub fn shape_size(shape: &Vec<usize>) -> (r: Option<usize>)
    ensures
        match r {
            Some(n) => n == shape_product(shape@),
            None => shape_product(shape@) > usize::MAX,
        },
{
    let n: usize = shape.len();
    let mut k: usize = 0;
    while k < n
        invariant
            n == shape@.len(),
            k <= n,
            forall|i: int| 0 <= i < k ==> #[trigger] shape@[i] > 0,
        decreases n - k,
    {
        if shape[k] == 0 {
            proof {
                lemma_product_zero(shape@, k as int);
            }
            return Some(0);
        }
        k += 1;
    }
    let mut product: usize = 1;
    let mut i: usize = n;
    proof {
        assert(shape@.skip(n as int).len() == 0);
    }
    while i > 0
        invariant
            n == shape@.len(),
            i <= n,
            forall|j: int| 0 <= j < n ==> #[trigger] shape@[j] > 0,
            product == shape_product(shape@.skip(i as int)),
        decreases i,
    {
        i -= 1;
        let ghost rest = shape@.skip(i as int);
        proof {
            assert(rest[0] == shape@[i as int]);
            assert(rest.drop_first() =~= shape@.skip(i + 1));
        }
        match shape[i].checked_mul(product) {
            Some(p) => {
                product = p;
            },
            None => {
                proof {
                    lemma_product_split(shape@, i as int);
                    assert forall|j: int| 0 <= j < shape@.take(i as int).len() implies #[trigger] shape@.take(
                        i as int,
                    )[j] > 0 by {
                        assert(shape@[j] > 0);
                    }
                    lemma_product_positive(shape@.take(i as int));
                    let a = shape_product(shape@.take(i as int));
                    let b = shape_product(rest);
                    assert(a * b >= b) by (nonlinear_arith)
                        requires
                            a >= 1,
                            b >= 0,
                    ;
                }
                return None;
            },
        }
    }
    proof {
        assert(shape@.skip(0) =~= shape@);
    }
    Some(product)
}

/// Why numbers do not make an array of a shape.
#[derive(Clone, Copy, Debug, PartialEq, Eq, Structural)]
pub enum ShapeError {
    /// A single number is expected.
    ScalarExpected(usize),
    /// There are not as many numbers as the shape asks for.
    CountMismatch(usize),
}

/// Whether so many numbers make an array of a shape. Without dimensions that is a
/// single number.
pub fn check_shape(shape: &Vec<usize>, count: usize) -> (r: Result<(), ShapeError>)
    ensures
        match r {
            Ok(_) => count == shape_product(shape@),
            Err(ShapeError::ScalarExpected(n)) => {
                &&& n == count
                &&& shape@.len() == 0
                &&& count != 1
            },
            Err(ShapeError::CountMismatch(n)) => {
                &&& n == count
                &&& shape@.len() > 0
                &&& count != shape_product(shape@)
            },
        },
{
    if shape.len() == 0 {
        return if count == 1 {
            Ok(())
        } else {
            Err(ShapeError::ScalarExpected(count))
        };
    }
    let fits = match shape_size(shape) {
        Some(n) => n == count,
        None => false,
    };
    if fits {
        Ok(())
    } else {
        Err(ShapeError::CountMismatch(count))
    }
}

/// The numbers of an array at some positions of one dimension: `outer` times in a
/// row, `extent` of the `dim` positions from `start` on, each of `inner` numbers.
pub open spec fn region<T>(
    data: Seq<T>,
    outer: nat,
    dim: nat,
    inner: nat,
    start: nat,
    extent: nat,
) -> Seq<T>
    decreases outer,
{
    if outer == 0 || inner == 0 || extent == 0 {
        Seq::empty()
    } else {
        let o = (outer - 1) as nat;
        region(data, o, dim, inner, start, extent) + data.subrange(
            (o * dim + start) as int * inner as int,
            (o * dim + start + extent) as int * inner as int,
        )
    }
}

/// The numbers of an array that belong to a group, where the groups share one
/// dimension of it evenly.
pub open spec fn group_region<T>(t: Tensor<T>, axis: usize, num_groups: usize, group: u32) -> Option<
    Seq<T>,
> {
    if num_groups == 0 || axis >= t.shape@.len() || t.shape@[axis as int] as int % num_groups as int
        != 0 {
        None
    } else {
        let dim = t.shape@[axis as int] as nat;
        let extent = dim / num_groups as nat;
        let start = group as nat * extent;
        if start + extent > dim {
            None
        } else {
            Some(
                region(
                    t.data@,
                    shape_product(t.shape@.take(axis as int)),
                    dim,
                    shape_product(t.shape@.skip(axis + 1)),
                    start,
                    extent,
                ),
            )
        }
    }
}

/// The numbers of all arrays that belong to a group, if each of them has such.
pub open spec fn group_regions<T>(
    arrays: Seq<Tensor<T>>,
    axis: usize,
    num_groups: usize,
    group: u32,
) -> Option<Seq<T>>
    decreases arrays.len(),
{
    if arrays.len() == 0 {
        Some(Seq::empty())
    } else {
        match (
            group_regions(arrays.drop_last(), axis, num_groups, group),
            group_region(arrays.last(), axis, num_groups, group),
        ) {
            (Some(a), Some(b)) => Some(a + b),
            _ => None,
        }
    }
}

proof fn lemma_row_bounds(len: nat, outer: nat, dim: nat, inner: nat, o: nat, start: nat, extent: nat)
    requires
        len == outer * (dim * inner),
        o < outer,
        start + extent <= dim,
    ensures
        0 <= (o * dim + start) * inner <= (o * dim + start + extent) * inner <= len,
{
    assert(o * dim + dim <= outer * dim) by (nonlinear_arith)
        requires
            o + 1 <= outer,
    ;
    assert((o * dim + start + extent) * inner <= (outer * dim) * inner) by (nonlinear_arith)
        requires
            o * dim + start + extent <= outer * dim,
    ;
    assert((outer * dim) * inner == outer * (dim * inner)) by (nonlinear_arith);
    assert(0 <= (o * dim + start) * inner) by (nonlinear_arith);
    assert((o * dim + start) * inner <= (o * dim + start + extent) * inner) by (nonlinear_arith);
}

fn has_zero(shape: &Vec<usize>) -> (r: bool)
    ensures
        r == (exists|i: int| 0 <= i < shape@.len() && #[trigger] shape@[i] == 0),
{
    let mut i: usize = 0;
    while i < shape.len()
        invariant
            i <= shape@.len(),
            forall|j: int| 0 <= j < i ==> #[trigger] shape@[j] != 0,
        decreases shape@.len() - i,
    {
        if shape[i] == 0 {
            return true;
        }
        i += 1;
    }
    false
}

fn product_from(shape: &Vec<usize>, from: usize, to: usize) -> (r: usize)
    requires
        from <= to <= shape@.len(),
        forall|i: int| 0 <= i < shape@.len() ==> #[trigger] shape@[i] > 0,
        shape_product(shape@) <= usize::MAX,
    ensures
        r == shape_product(shape@.subrange(from as int, to as int)),
{
    let mut product: usize = 1;
    let mut i: usize = to;
    proof {
        assert(shape@.subrange(to as int, to as int).len() == 0);
    }
    while i > from
        invariant
            from <= i <= to <= shape@.len(),
            forall|j: int| 0 <= j < shape@.len() ==> #[trigger] shape@[j] > 0,
            shape_product(shape@) <= usize::MAX,
            product == shape_product(shape@.subrange(i as int, to as int)),
        decreases i,
    {
        i -= 1;
        proof {
            let s = shape@;
            let part = s.subrange(i as int, to as int);
            assert(part[0] == s[i as int]);
            assert(part.drop_first() =~= s.subrange(i + 1, to as int));
            lemma_product_split(s, i as int);
            lemma_product_split(s.skip(i as int), to - i);
            assert(s.skip(i as int).take(to - i) =~= part);
            let before = s.take(i as int);
            let after = s.skip(i as int).skip(to - i);
            assert forall|j: int| 0 <= j < before.len() implies #[trigger] before[j] > 0 by {
                assert(s[j] > 0);
            }
            assert forall|j: int| 0 <= j < after.len() implies #[trigger] after[j] > 0 by {
                assert(s[to + j] > 0);
            }
            lemma_product_positive(before);
            lemma_product_positive(after);
            let a = shape_product(before);
            let b = shape_product(part);
            let c = shape_product(after);
            assert(shape_product(s) == a * (b * c));
            assert(b <= a * (b * c)) by (nonlinear_arith)
                requires
                    a >= 1,
                    c >= 1,
                    b >= 0,
            ;
        }
        product = shape[i] * product;
    }
    product
}

/// Collects the numbers of the arrays that belong to a group, where the groups
/// share the dimension `concat_axis` evenly. None where they do not, or where
/// there are no numbers.
pub fn group_expected_region<T: Copy>(
    arrays: &[Tensor<T>],
    concat_axis: usize,
    num_groups: usize,
    tile_idx: u32,
) -> (r: Option<Vec<T>>)
    requires
        forall|i: int| 0 <= i < arrays@.len() ==> fits_shape(#[trigger] arrays@[i]),
    ensures
        match r {
            Some(v) => {
                &&& num_groups > 0
                &&& v@.len() > 0
                &&& group_regions(arrays@, concat_axis, num_groups, tile_idx) == Some(v@)
            },
            None => {
                ||| num_groups == 0
                ||| group_regions(arrays@, concat_axis, num_groups, tile_idx) is None
                ||| group_regions(arrays@, concat_axis, num_groups, tile_idx)->0.len() == 0
            },
        },
{
    if num_groups == 0 {
        return None;
    }
    let mut flat: Vec<T> = Vec::new();
    let mut i: usize = 0;
    proof {
        assert(arrays@.take(0).len() == 0);
        assert(flat@ =~= Seq::empty());
    }
    while i < arrays.len()
        invariant
            num_groups > 0,
            i <= arrays@.len(),
            forall|k: int| 0 <= k < arrays@.len() ==> fits_shape(#[trigger] arrays@[k]),
            group_regions(arrays@.take(i as int), concat_axis, num_groups, tile_idx) == Some(flat@),
        decreases arrays@.len() - i,
    {
        proof {
            assert(arrays@.take(i + 1).drop_last() =~= arrays@.take(i as int));
            assert(arrays@.take(i + 1).last() == arrays@[i as int]);
        }
        let t = &arrays[i];
        match push_region(t, concat_axis, num_groups, tile_idx, flat) {
            Some(f) => {
                flat = f;
            },
            None => {
                proof {
                    lemma_no_regions(arrays@, concat_axis, num_groups, tile_idx, i as int);
                }
                return None;
            },
        }
        i += 1;
    }
    proof {
        assert(arrays@.take(i as int) =~= arrays@);
    }
    if flat.len() == 0 {
        None
    } else {
        Some(flat)
    }
}

proof fn lemma_no_regions<T>(
    arrays: Seq<Tensor<T>>,
    axis: usize,
    num_groups: usize,
    group: u32,
    i: int,
)
    requires
        0 <= i < arrays.len(),
        group_region(arrays[i], axis, num_groups, group) is None,
    ensures
        group_regions(arrays, axis, num_groups, group) is None,
    decreases arrays.len(),
{
    if i < arrays.len() - 1 {
        assert(arrays.drop_last()[i] == arrays[i]);
        lemma_no_regions(arrays.drop_last(), axis, num_groups, group, i);
    }
}

fn push_region<T: Copy>(
    t: &Tensor<T>,
    axis: usize,
    num_groups: usize,
    group: u32,
    flat: Vec<T>,
) -> (r: Option<Vec<T>>)
    requires
        num_groups > 0,
        fits_shape(*t),
    ensures
        match r {
            Some(v) => group_region(*t, axis, num_groups, group) is Some && v@ == flat@
                + group_region(*t, axis, num_groups, group)->0,
            None => group_region(*t, axis, num_groups, group) is None,
        },
{
    if axis >= t.shape.len() {
        return None;
    }
    let dim: usize = t.shape[axis];
    if dim % num_groups != 0 {
        return None;
    }
    let extent: usize = dim / num_groups;
    let start: usize = if extent == 0 {
        0
    } else {
        if group as u64 > (dim / extent) as u64 {
            proof {
                let q = dim as int / extent as int;
                assert(group * extent >= (q + 1) * extent) by (nonlinear_arith)
                    requires
                        group >= q + 1,
                        extent > 0,
                ;
                assert((q + 1) * extent > dim) by (nonlinear_arith)
                    requires
                        q == dim as int / extent as int,
                        extent > 0,
                        dim >= 0,
                ;
            }
            return None;
        }
        proof {
            let q = dim as int / extent as int;
            assert(group * extent <= q * extent) by (nonlinear_arith)
                requires
                    group <= q,
                    extent > 0,
            ;
            assert(q * extent <= dim) by (nonlinear_arith)
                requires
                    q == dim as int / extent as int,
                    extent > 0,
                    dim >= 0,
            ;
        }
        group as usize * extent
    };
    proof {
        if extent == 0 {
            assert(group * extent == 0) by (nonlinear_arith)
                requires
                    extent == 0,
            ;
        }
        assert(start == group as nat * (dim as nat / num_groups as nat));
    }
    if extent > dim - start {
        return None;
    }
    let ghost outer_n = shape_product(t.shape@.take(axis as int));
    let ghost inner_n = shape_product(t.shape@.skip(axis + 1));
    let ghost whole = region(
        t.data@,
        outer_n,
        dim as nat,
        inner_n,
        start as nat,
        extent as nat,
    );
    let n: usize = t.data.len();
    if has_zero(&t.shape) {
        proof {
            let z = choose|z: int| 0 <= z < t.shape@.len() && #[trigger] t.shape@[z] == 0;
            if z < axis {
                assert(t.shape@.take(axis as int)[z] == 0);
                lemma_product_zero(t.shape@.take(axis as int), z);
                assert(whole =~= Seq::<T>::empty());
            } else if z == axis {
                assert(extent == 0) by (nonlinear_arith)
                    requires
                        dim == 0,
                        extent == dim / num_groups,
                        num_groups > 0,
                ;
            } else {
                assert(t.shape@.skip(axis + 1)[z - axis - 1] == 0);
                lemma_product_zero(t.shape@.skip(axis + 1), z - axis - 1);
            }
            assert(flat@ + whole =~= flat@);
        }
        return Some(flat);
    }
    proof {
        assert forall|i: int| 0 <= i < t.shape@.len() implies #[trigger] t.shape@[i] > 0 by {
            assert(t.shape@[i] != 0);
        }
        assert(t.shape@.subrange(0, axis as int) =~= t.shape@.take(axis as int));
        assert(t.shape@.subrange(axis + 1, t.shape@.len() as int) =~= t.shape@.skip(axis + 1));
        lemma_product_split(t.shape@, axis as int);
        let rest = t.shape@.skip(axis as int);
        assert(rest[0] == dim);
        assert(rest.drop_first() =~= t.shape@.skip(axis + 1));
    }
    let outer: usize = product_from(&t.shape, 0, axis);
    let inner: usize = product_from(&t.shape, axis + 1, t.shape.len());
    let mut out = flat;
    let mut o: usize = 0;
    proof {
        assert(n == outer * (dim * inner));
        assert(out@ =~= flat@ + region(
            t.data@,
            0,
            dim as nat,
            inner as nat,
            start as nat,
            extent as nat,
        ));
    }
    while o < outer
        invariant
            o <= outer,
            n == t.data@.len(),
            n == outer * (dim * inner),
            start + extent <= dim,
            out@ == flat@ + region(
                t.data@,
                o as nat,
                dim as nat,
                inner as nat,
                start as nat,
                extent as nat,
            ),
        decreases outer - o,
    {
        proof {
            lemma_row_bounds(
                n as nat,
                outer as nat,
                dim as nat,
                inner as nat,
                o as nat,
                start as nat,
                extent as nat,
            );
            assert(o * dim <= outer * dim) by (nonlinear_arith)
                requires
                    o <= outer,
            ;
            assert(inner > 0 ==> outer * dim <= outer * (dim * inner)) by (nonlinear_arith)
                requires
                    inner >= 0,
            ;
        }
        if inner > 0 {
            proof {
                assert(o * dim + start + extent <= (o * dim + start + extent) * inner)
                    by (nonlinear_arith)
                    requires
                        inner >= 1,
                        o * dim + start + extent >= 0,
                ;
            }
            let row: usize = o * dim + start;
            let from: usize = row * inner;
            let to: usize = (row + extent) * inner;
            out = push_range(&t.data, from, to, out);
        }
        proof {
            let a = (o * dim + start) as int * inner as int;
            let b = (o * dim + start + extent) as int * inner as int;
            if inner == 0 {
                assert(a == 0 && b == 0) by (nonlinear_arith)
                    requires
                        inner == 0,
                        a == (o * dim + start) as int * inner as int,
                        b == (o * dim + start + extent) as int * inner as int,
                ;
            }
            assert(out@ =~= flat@ + region(
                t.data@,
                (o + 1) as nat,
                dim as nat,
                inner as nat,
                start as nat,
                extent as nat,
            ));
        }
        o += 1;
    }
    Some(out)
}

fn push_range<T: Copy>(data: &Vec<T>, from: usize, to: usize, flat: Vec<T>) -> (r: Vec<T>)
    requires
        from <= to <= data@.len(),
    ensures
        r@ == flat@ + data@.subrange(from as int, to as int),
{
    let mut r = flat;
    let mut i: usize = from;
    proof {
        assert(r@ =~= flat@ + data@.subrange(from as int, from as int));
    }
    while i < to
        invariant
            from <= i <= to <= data@.len(),
            r@ == flat@ + data@.subrange(from as int, i as int),
        decreases to - i,
    {
        r.push(data[i]);
        proof {
            assert(r@ =~= flat@ + data@.subrange(from as int, i + 1));
        }
        i += 1;
    }
    r
}

/// Values in nested lists, as a shape asks for.
pub open spec fn nested(data: Seq<JsonV>, shape: Seq<usize>) -> JsonV
    decreases shape.len(), 0nat, 0nat,
{
    if shape.len() <= 1 {
        JsonV::Array(data)
    } else {
        JsonV::Array(nested_rows(data, shape.drop_first(), shape[0] as nat))
    }
}

/// The first `n` rows of values, each in nested lists as the inner shape asks
/// for.
pub open spec fn nested_rows(data: Seq<JsonV>, inner: Seq<usize>, n: nat) -> Seq<JsonV>
    decreases inner.len(), 1nat, n,
{
    if n == 0 {
        Seq::empty()
    } else {
        let stride = shape_product(inner) as int;
        nested_rows(data, inner, (n - 1) as nat).push(
            nested(data.subrange((n - 1) * stride, n * stride), inner),
        )
    }
}

fn build_nested(data: &Vec<Json>, from: usize, to: usize, shape: &Vec<usize>, dim: usize) -> (r: Json)
    requires
        dim < shape@.len(),
        from <= to <= data@.len(),
        to - from == shape_product(shape@.skip(dim as int)),
    ensures
        r@ == nested(items(data@).subrange(from as int, to as int), shape@.skip(dim as int)),
    decreases shape@.len() - dim,
{
    let ghost all = items(data@);
    let ghost here = shape@.skip(dim as int);
    let ghost part = all.subrange(from as int, to as int);
    proof {
        lemma_items(data@);
    }
    let mut list: Vec<Json> = Vec::new();
    let dims: usize = shape.len();
    if dim == dims - 1 {
        let mut i: usize = from;
        while i < to
            invariant
                from <= i <= to <= data@.len(),
                list@.len() == i - from,
                forall|k: int| 0 <= k < list@.len() ==> (#[trigger] list@[k])@ == data@[from + k]@,
            decreases to - i,
        {
            list.push(data[i].copy());
            i += 1;
        }
        proof {
            lemma_items(list@);
            assert(items(list@) =~= part) by {
                assert forall|k: int| 0 <= k < part.len() implies items(list@)[k] == part[k] by {
                    assert(list@[k]@ == data@[from + k]@);
                }
            }
        }
        return Json::Array(list);
    }
    let count: usize = shape[dim];
    let ghost inner = shape@.skip(dim + 1);
    proof {
        assert(here[0] == count);
        assert(here.drop_first() =~= inner);
    }
    if count > 0 {
        let ghost stride_n = shape_product(inner);
        let stride: usize = (to - from) / count;
        proof {
            assert(stride == stride_n) by (nonlinear_arith)
                requires
                    count > 0,
                    to - from == count * stride_n,
                    stride == (to - from) / count as int,
            ;
        }
        let mut i: usize = 0;
        proof {
            lemma_items(list@);
            assert(items(list@) =~= Seq::empty());
            reveal_with_fuel(nested_rows, 2);
        }
        while i < count
            invariant
                i <= count,
                count > 0,
                dims == shape@.len(),
                dim + 1 < dims,
                from <= to <= data@.len(),
                to - from == count * stride,
                inner == shape@.skip(dim + 1),
                stride == shape_product(inner),
                all == items(data@),
                all.len() == data@.len(),
                part == all.subrange(from as int, to as int),
                items(list@) == nested_rows(part, inner, i as nat),
            decreases count - i,
        {
            proof {
                assert((i + 1) * stride == i * stride + stride) by (nonlinear_arith);
                assert((i + 1) * stride <= count * stride) by (nonlinear_arith)
                    requires
                        i + 1 <= count,
                ;
                assert(0 <= i * stride) by (nonlinear_arith);
            }
            let a: usize = from + i * stride;
            let b: usize = a + stride;
            let one = build_nested(data, a, b, shape, dim + 1);
            proof {
                assert(all.subrange(a as int, b as int) =~= part.subrange(
                    i * stride,
                    (i + 1) * stride,
                ));
            }
            let ghost before = list@;
            list.push(one);
            proof {
                lemma_items(before);
                lemma_items(list@);
                assert(items(list@) =~= items(before).push(one@));
                reveal_with_fuel(nested_rows, 2);
            }
            i += 1;
        }
    } else {
        proof {
            lemma_items(list@);
            assert(items(list@) =~= Seq::empty());
            reveal_with_fuel(nested_rows, 2);
        }
    }
    proof {
        reveal_with_fuel(nested, 2);
    }
    Json::Array(list)
}

/// Puts the numbers of an array into nested lists; the number of one without
/// dimensions stands alone.
pub fn arrayd_to_json(data: &Vec<Json>, shape: &Vec<usize>) -> (r: Json)
    requires
        data@.len() == shape_product(shape@),
    ensures
        r@ == (if shape@.len() == 0 {
            items(data@)[0]
        } else {
            nested(items(data@), shape@)
        }),
{
    proof {
        lemma_items(data@);
        assert(shape@.skip(0) =~= shape@);
        assert(items(data@).subrange(0, data@.len() as int) =~= items(data@));
    }
    if shape.len() == 0 {
        return data[0].copy();
    }
    build_nested(data, 0, data.len(), shape, 0)
}

/// The values in nested lists, in order.
pub open spec fn flattened(v: JsonV) -> Seq<JsonV>
    decreases v,
{
    match v {
        JsonV::Array(s) => all_flattened(s),
        _ => seq![v],
    }
}

/// The values in a list of nested lists, in order.
pub open spec fn all_flattened(s: Seq<JsonV>) -> Seq<JsonV>
    decreases s,
{
    if s.len() == 0 {
        Seq::empty()
    } else {
        all_flattened(s.drop_last()) + flattened(s.last())
    }
}

proof fn lemma_plain_flattened(s: Seq<JsonV>)
    requires
        forall|i: int| 0 <= i < s.len() ==> !((#[trigger] s[i]) is Array),
    ensures
        all_flattened(s) == s,
    decreases s.len(),
{
    reveal_with_fuel(all_flattened, 2);
    reveal_with_fuel(flattened, 2);
    if s.len() > 0 {
        let d = s.drop_last();
        assert forall|i: int| 0 <= i < d.len() implies !((#[trigger] d[i]) is Array) by {
            assert(!(s[i] is Array));
        }
        lemma_plain_flattened(d);
        assert(!(s[s.len() - 1] is Array));
        assert(d + seq![s.last()] =~= s);
    } else {
        assert(s =~= Seq::empty());
    }
}

proof fn lemma_rows_flattened(data: Seq<JsonV>, inner: Seq<usize>, n: nat)
    requires
        inner.len() >= 1,
        n * shape_product(inner) <= data.len(),
        forall|i: int| 0 <= i < data.len() ==> !((#[trigger] data[i]) is Array),
    ensures
        all_flattened(nested_rows(data, inner, n)) == data.take((n * shape_product(inner)) as int),
    decreases inner.len(), 1nat, n,
{
    reveal_with_fuel(all_flattened, 2);
    reveal_with_fuel(nested_rows, 2);
    let stride = shape_product(inner) as int;
    if n == 0 {
        assert(0 * stride == 0) by (nonlinear_arith);
        assert(data.take(0) =~= Seq::empty());
        assert(nested_rows(data, inner, n) =~= Seq::empty());
    } else {
        let m = (n - 1) as nat;
        assert(n * stride == m * stride + stride) by (nonlinear_arith)
            requires
                n == m + 1,
        ;
        assert(0 <= m * stride) by (nonlinear_arith)
            requires
                stride >= 0,
        ;
        lemma_rows_flattened(data, inner, m);
        let last = data.subrange(m * stride, n * stride);
        let rows = nested_rows(data, inner, n);
        assert(rows.drop_last() =~= nested_rows(data, inner, m));
        assert(rows.last() == nested(last, inner));
        assert forall|i: int| 0 <= i < last.len() implies !((#[trigger] last[i]) is Array) by {
            assert(!(data[m * stride + i] is Array));
        }
        nested_lists_flatten_back(last, inner);
        assert(data.take(m * stride) + last =~= data.take(n * stride));
    }
}

/// The numbers of an array that were put into nested lists are there in order.
pub proof fn nested_lists_flatten_back(data: Seq<JsonV>, shape: Seq<usize>)
    requires
        shape.len() >= 1,
        data.len() == shape_product(shape),
        forall|i: int| 0 <= i < data.len() ==> !((#[trigger] data[i]) is Array),
    ensures
        flattened(nested(data, shape)) == data,
    decreases shape.len(), 0nat, 0nat,
{
    reveal_with_fuel(flattened, 2);
    reveal_with_fuel(all_flattened, 2);
    reveal_with_fuel(nested, 2);
    if shape.len() == 1 {
        lemma_plain_flattened(data);
    } else {
        let inner = shape.drop_first();
        lemma_rows_flattened(data, inner, shape[0] as nat);
        assert(data.take(data.len() as int) =~= data);
    }
}

} // verus!
