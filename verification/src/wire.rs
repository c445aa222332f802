//! Tensors in the form in which customers send them: packed numbers in a
//! protocol buffer, compressed.

use std::io::Read;
use vstd::prelude::*;
use vstd::slice::*;

use crate::digest::{base64_decode, base64_decoded};
use crate::tensor::{fits_shape, shape_product, shape_size, Tensor};

verus! {

/// How many bytes a number may take.
pub const MAX_VARINT: usize = 10;

/// The first number that eight bytes cannot hold.
pub const TWO_TO_64: u128 = 0x1_0000_0000_0000_0000;

/// Why a number cannot be read.
#[derive(Clone, Copy, Debug, PartialEq, Eq, Structural)]
pub enum VarintError {
    TooLong,
    Unterminated,
}

/// How many bytes at the front say that another one follows.
pub open spec fn continued(s: Seq<u8>) -> nat
    decreases s.len(),
{
    if s.len() > 0 && s[0] >= 128 {
        1 + continued(s.drop_first())
    } else {
        0
    }
}

/// A power of 128.
pub open spec fn pow128(n: nat) -> nat
    decreases n,
{
    if n == 0 {
        1
    } else {
        128 * pow128((n - 1) as nat)
    }
}

/// The number that bytes write in base 128, the lowest digit first.
pub open spec fn base128(s: Seq<u8>) -> nat
    decreases s.len(),
{
    if s.len() == 0 {
        0
    } else {
        base128(s.drop_last()) + (s.last() % 128) as nat * pow128((s.len() - 1) as nat)
    }
}

/// The number at the front of some bytes, as far as eight bytes hold it, and how
/// many bytes it takes.
pub open spec fn varint(s: Seq<u8>) -> Result<(u64, nat), VarintError> {
    let n = continued(s);
    if n >= MAX_VARINT {
        Err(VarintError::TooLong)
    } else if n == s.len() {
        Err(VarintError::Unterminated)
    } else {
        Ok(((base128(s.take(n as int + 1)) % TWO_TO_64 as nat) as u64, n + 1))
    }
}

proof fn lemma_continued(s: Seq<u8>, k: int)
    requires
        0 <= k <= s.len(),
        forall|i: int| 0 <= i < k ==> #[trigger] s[i] >= 128,
        k < s.len() ==> s[k] < 128,
    ensures
        continued(s) == k,
    decreases k,
{
    if k > 0 {
        assert(s[0] >= 128);
        let d = s.drop_first();
        assert forall|i: int| 0 <= i < k - 1 implies #[trigger] d[i] >= 128 by {
            assert(s[i + 1] >= 128);
        }
        lemma_continued(d, k - 1);
    }
}

proof fn lemma_continued_at_least(s: Seq<u8>, k: int)
    requires
        0 <= k <= s.len(),
        forall|i: int| 0 <= i < k ==> #[trigger] s[i] >= 128,
    ensures
        continued(s) >= k,
    decreases k,
{
    if k > 0 {
        assert(s[0] >= 128);
        let d = s.drop_first();
        assert forall|i: int| 0 <= i < k - 1 implies #[trigger] d[i] >= 128 by {
            assert(s[i + 1] >= 128);
        }
        lemma_continued_at_least(d, k - 1);
    }
}

proof fn lemma_pow128(n: nat)
    requires
        n <= 10,
    ensures
        pow128(n) <= 0x40_0000_0000_0000_0000,
{
    reveal_with_fuel(pow128, 12);
}

/// Reads the number that starts at `offset`. The result is the number and where
/// it ends. Past the end of the bytes there is none.
pub fn read_varint(buf: &[u8], offset: usize) -> (r: Result<(u64, usize), VarintError>)
    ensures
        offset > buf@.len() ==> r == Err::<(u64, usize), VarintError>(VarintError::Unterminated),
        offset <= buf@.len() ==> match r {
            Ok((value, next)) => offset < next <= buf@.len() && varint(buf@.skip(offset as int))
                == Ok::<(u64, nat), VarintError>((value, (next - offset) as nat)),
            Err(e) => varint(buf@.skip(offset as int)) == Err::<(u64, nat), VarintError>(e),
        },
{
    if offset > buf.len() {
        return Err(VarintError::Unterminated);
    }
    let ghost s = buf@.skip(offset as int);
    let n: usize = buf.len();
    let mut value: u128 = 0;
    let mut mult: u128 = 1;
    let mut pos: usize = offset;
    proof {
        assert(s.take(0).len() == 0);
    }
    while pos < n
        invariant
            n == buf@.len(),
            s == buf@.skip(offset as int),
            offset <= pos <= n,
            pos - offset < MAX_VARINT,
            forall|i: int| 0 <= i < pos - offset ==> #[trigger] s[i] >= 128,
            mult == pow128((pos - offset) as nat),
            value == base128(s.take(pos - offset)),
            value < mult,
        decreases n - pos,
    {
        let byte: u8 = buf[pos];
        let ghost k = pos - offset;
        proof {
            lemma_pow128((k + 1) as nat);
            assert(s[k] == byte);
            assert(s.take(k + 1).drop_last() =~= s.take(k));
            assert(s.take(k + 1).last() == byte);
            assert(0 <= (byte % 128) * mult <= 127 * mult) by (nonlinear_arith)
                requires
                    byte % 128 <= 127,
                    mult >= 0,
            ;
        }
        value = value + (byte % 128) as u128 * mult;
        mult = mult * 128;
        pos += 1;
        if byte < 128 {
            let low: u64 = (value % TWO_TO_64) as u64;
            proof {
                lemma_continued(s, k);
            }
            return Ok((low, pos));
        }
        if pos - offset >= MAX_VARINT {
            proof {
                assert forall|i: int| 0 <= i < pos - offset implies #[trigger] s[i] >= 128 by {
                    if i == k {
                        assert(s[k] == byte);
                    }
                }
                lemma_continued_at_least(s, pos - offset);
            }
            return Err(VarintError::TooLong);
        }
        proof {
            assert forall|i: int| 0 <= i < pos - offset implies #[trigger] s[i] >= 128 by {
                if i == k {
                    assert(s[k] == byte);
                }
            }
        }
    }
    proof {
        assert(s.len() == pos - offset);
        lemma_continued(s, pos - offset);
    }
    Err(VarintError::Unterminated)
}

/// Why a tensor cannot be read.
#[derive(Clone, Copy, Debug, PartialEq, Eq, Structural)]
pub enum TensorError {
    /// The text is not in base 64.
    NotBase64,
    /// The bytes cannot be decompressed.
    NotGzip,
    /// A number cannot be read.
    Varint(VarintError),
    /// A field of packed numbers reaches beyond the end.
    PackedOverflow,
    /// A single number reaches beyond the end.
    FixedOverflow,
    /// A field is of a kind that is not known.
    UnknownWireType(u64),
    /// There are not as many numbers as the shape asks for.
    CountMismatch(usize),
}

/// Four bytes as a number, the lowest one first.
pub open spec fn le32(s: Seq<u8>) -> u32 {
    (s[0] + s[1] * 0x100 + s[2] * 0x1_0000 + s[3] * 0x100_0000) as u32
}

/// The numbers of four bytes each at the front of some bytes. Fewer than four
/// bytes at the end are no number.
pub open spec fn words(s: Seq<u8>) -> Seq<u32>
    decreases s.len(),
{
    if s.len() < 4 {
        Seq::empty()
    } else {
        seq![le32(s)] + words(s.skip(4))
    }
}

/// A position, or the end of the bytes where it is beyond.
pub open spec fn within(raw: Seq<u8>, at: int) -> nat {
    if at < raw.len() {
        at as nat
    } else {
        raw.len()
    }
}

/// What one field of a message adds to the numbers of the first one, and where
/// the next field starts.
pub open spec fn field_at(raw: Seq<u8>, at: nat) -> Result<(Seq<u32>, nat), TensorError> {
    match varint(raw.skip(at as int)) {
        Err(e) => Err(TensorError::Varint(e)),
        Ok((tag, n)) => {
            let body = (at + n) as nat;
            let first = tag / 8 == 1;
            let wire = tag % 8;
            if wire == 2 {
                match varint(raw.skip(body as int)) {
                    Err(e) => Err(TensorError::Varint(e)),
                    Ok((len, m)) => {
                        let from = body + m;
                        if !first {
                            Ok((Seq::empty(), within(raw, from + len)))
                        } else if from + len > raw.len() {
                            Err(TensorError::PackedOverflow)
                        } else {
                            Ok(
                                (
                                    words(raw.subrange(from as int, from + len)),
                                    within(raw, from + len),
                                ),
                            )
                        }
                    },
                }
            } else if wire == 5 {
                if body + 4 > raw.len() {
                    Err(TensorError::FixedOverflow)
                } else if first {
                    Ok((seq![le32(raw.skip(body as int))], within(raw, body as int + 4)))
                } else {
                    Ok((Seq::empty(), within(raw, body as int + 4)))
                }
            } else if wire == 0 {
                match varint(raw.skip(body as int)) {
                    Err(e) => Err(TensorError::Varint(e)),
                    Ok((_, m)) => Ok((Seq::empty(), within(raw, (body + m) as int))),
                }
            } else if wire == 1 {
                Ok((Seq::empty(), within(raw, body as int + 8)))
            } else {
                Err(TensorError::UnknownWireType(wire))
            }
        },
    }
}

/// The numbers in the first field of a message, of which `at` bytes have been
/// read.
pub open spec fn field_numbers(raw: Seq<u8>, at: nat) -> Result<Seq<u32>, TensorError>
    decreases raw.len() - at,
{
    if at >= raw.len() {
        Ok(Seq::empty())
    } else {
        match field_at(raw, at) {
            Err(e) => Err(e),
            Ok((numbers, next)) => if at < next <= raw.len() {
                preceded(numbers, field_numbers(raw, next))
            } else {
                Ok(numbers)
            },
        }
    }
}

/// Numbers in front of those that follow, if these can be read.
pub open spec fn preceded(
    s: Seq<u32>,
    rest: Result<Seq<u32>, TensorError>,
) -> Result<Seq<u32>, TensorError> {
    match rest {
        Ok(r) => Ok(s + r),
        Err(e) => Err(e),
    }
}

fn read_word(raw: &[u8], at: usize) -> (r: u32)
    requires
        at + 4 <= raw@.len(),
    ensures
        r == le32(raw@.skip(at as int)),
{
    let ghost s = raw@.skip(at as int);
    proof {
        assert(s[0] == raw@[at as int] && s[1] == raw@[at + 1] && s[2] == raw@[at + 2] && s[3]
            == raw@[at + 3]);
    }
    raw[at] as u32 + raw[at + 1] as u32 * 0x100 + raw[at + 2] as u32 * 0x1_0000 + raw[at + 3] as u32
        * 0x100_0000
}

fn read_words(raw: &[u8], from: usize, to: usize, out: &mut Vec<u32>)
    requires
        from <= to <= raw@.len(),
    ensures
        final(out)@ == old(out)@ + words(raw@.subrange(from as int, to as int)),
{
    let ghost all = raw@.subrange(from as int, to as int);
    let mut at: usize = from;
    proof {
        assert(out@ + words(all) =~= old(out)@ + words(all));
    }
    while to - at >= 4
        invariant
            from <= at <= to <= raw@.len(),
            out@ + words(raw@.subrange(at as int, to as int)) == old(out)@ + words(all),
        decreases to - at,
    {
        let ghost s = raw@.subrange(at as int, to as int);
        let ghost before = out@;
        let w: u32 = read_word(raw, at);
        out.push(w);
        proof {
            assert(raw@.skip(at as int)[0] == s[0] && raw@.skip(at as int)[1] == s[1] && raw@.skip(
                at as int,
            )[2] == s[2] && raw@.skip(at as int)[3] == s[3]);
            assert(le32(raw@.skip(at as int)) == le32(s));
            assert(s.skip(4) =~= raw@.subrange(at + 4, to as int));
            assert(out@ + words(s.skip(4)) =~= before + words(s));
        }
        at += 4;
    }
    proof {
        let s = raw@.subrange(at as int, to as int);
        assert(words(s) =~= Seq::empty());
        assert(out@ + words(s) =~= out@);
    }
}

fn read_field(raw: &[u8], at: usize, out: &mut Vec<u32>) -> (r: Result<usize, TensorError>)
    requires
        at < raw@.len(),
    ensures
        match r {
            Ok(next) => {
                &&& at < next <= raw@.len()
                &&& field_at(raw@, at as nat) matches Ok((numbers, to)) && to == next && final(out)@
                    == old(out)@ + numbers
            },
            Err(e) => field_at(raw@, at as nat) == Err::<(Seq<u32>, nat), TensorError>(e),
        },
{
    let n: usize = raw.len();
    let ghost before = out@;
    proof {
        assert(before + Seq::<u32>::empty() =~= before);
    }
    let (tag, body): (u64, usize) = match read_varint(raw, at) {
        Ok(x) => x,
        Err(e) => {
            return Err(TensorError::Varint(e));
        },
    };
    let first = tag / 8 == 1;
    let kind: u64 = tag % 8;
    if kind == 2 {
        let (len, from): (u64, usize) = match read_varint(raw, body) {
            Ok(x) => x,
            Err(e) => {
                return Err(TensorError::Varint(e));
            },
        };
        let fits = len <= (n - from) as u64;
        if !first {
            return Ok(
                if fits {
                    from + len as usize
                } else {
                    n
                },
            );
        }
        if !fits {
            return Err(TensorError::PackedOverflow);
        }
        let end: usize = from + len as usize;
        read_words(raw, from, end, out);
        Ok(end)
    } else if kind == 5 {
        if n - body < 4 {
            return Err(TensorError::FixedOverflow);
        }
        if first {
            let w: u32 = read_word(raw, body);
            out.push(w);
            proof {
                assert(out@ =~= before + seq![w]);
            }
        }
        Ok(body + 4)
    } else if kind == 0 {
        match read_varint(raw, body) {
            Ok((_, next)) => Ok(next),
            Err(e) => Err(TensorError::Varint(e)),
        }
    } else if kind == 1 {
        Ok(
            if n - body >= 8 {
                body + 8
            } else {
                n
            },
        )
    } else {
        Err(TensorError::UnknownWireType(kind))
    }
}

/// Reads the numbers in the first field of a message.
pub fn packed_numbers(raw: &[u8]) -> (r: Result<Vec<u32>, TensorError>)
    ensures
        match r {
            Ok(v) => field_numbers(raw@, 0) == Ok::<Seq<u32>, TensorError>(v@),
            Err(e) => field_numbers(raw@, 0) == Err::<Seq<u32>, TensorError>(e),
        },
{
    let n: usize = raw.len();
    let mut out: Vec<u32> = Vec::new();
    let mut at: usize = 0;
    proof {
        if let Ok(v) = field_numbers(raw@, 0) {
            assert(Seq::<u32>::empty() + v =~= v);
        }
    }
    while at < n
        invariant
            n == raw@.len(),
            at <= n,
            field_numbers(raw@, 0) == preceded(out@, field_numbers(raw@, at as nat)),
        decreases n - at,
    {
        let ghost before = out@;
        match read_field(raw, at, &mut out) {
            Ok(next) => {
                proof {
                    let numbers = field_at(raw@, at as nat)->Ok_0.0;
                    if let Ok(v) = field_numbers(raw@, next as nat) {
                        assert(before + (numbers + v) =~= (before + numbers) + v);
                    }
                }
                at = next;
            },
            Err(e) => {
                return Err(e);
            },
        }
    }
    proof {
        assert(out@ + Seq::<u32>::empty() =~= out@);
    }
    Ok(out)
}

/// What compressed bytes hold, `None` where they cannot be decompressed.
pub uninterp spec fn gunzipped(data: Seq<u8>) -> Option<Seq<u8>>;

/// `flate2::read::GzDecoder`, read to its end: what compressed bytes hold, unless
/// they are not in the gzip format.
#[verifier::external_body]
fn gunzip(data: &[u8]) -> (r: Option<Vec<u8>>)
    ensures
        match r {
            Some(b) => gunzipped(data@) == Some(b@),
            None => gunzipped(data@) is None,
        },
{
    let mut raw = Vec::new();
    flate2::read::GzDecoder::new(data).read_to_end(&mut raw).ok().map(|_| raw)
}

/// The tensor that numbers make in a shape.
pub open spec fn shaped(
    numbers: Result<Seq<u32>, TensorError>,
    shape: Seq<usize>,
) -> Result<Seq<u32>, TensorError> {
    match numbers {
        Err(e) => Err(e),
        Ok(v) => if v.len() == shape_product(shape) {
            Ok(v)
        } else {
            Err(TensorError::CountMismatch(v.len() as usize))
        },
    }
}

/// Whether a tensor, or why there is none, is the one expected.
pub open spec fn yields(
    r: Result<Tensor<u32>, TensorError>,
    expected: Result<Seq<u32>, TensorError>,
    shape: Seq<usize>,
) -> bool {
    match r {
        Ok(t) => expected == Ok::<Seq<u32>, TensorError>(t.data@) && t.shape@ == shape,
        Err(e) => expected == Err::<Seq<u32>, TensorError>(e),
    }
}

/// Reads a tensor of a shape from a message. Its numbers are the bits of numbers
/// of four bytes.
pub fn decode_message(raw: &[u8], shape: &Vec<usize>) -> (r: Result<Tensor<u32>, TensorError>)
    ensures
        yields(r, shaped(field_numbers(raw@, 0), shape@), shape@),
        r matches Ok(t) ==> fits_shape(t),
{
    let data = match packed_numbers(raw) {
        Ok(v) => v,
        Err(e) => {
            return Err(e);
        },
    };
    let n: usize = data.len();
    let fits = match shape_size(shape) {
        Some(size) => size == n,
        None => false,
    };
    if !fits {
        return Err(TensorError::CountMismatch(n));
    }
    Ok(Tensor { shape: shape.clone(), data })
}

/// What is read from compressed bytes.
pub open spec fn unpacked(data: Seq<u8>, shape: Seq<usize>) -> Result<Seq<u32>, TensorError> {
    match gunzipped(data) {
        Some(raw) => shaped(field_numbers(raw, 0), shape),
        None => Err(TensorError::NotGzip),
    }
}

/// Reads a tensor of a shape from a compressed message.
pub fn decode_gzipped_protobuf_tensor(data: &[u8], shape: &Vec<usize>) -> (r: Result<
    Tensor<u32>,
    TensorError,
>)
    ensures
        yields(r, unpacked(data@, shape@), shape@),
        r matches Ok(t) ==> fits_shape(t),
{
    match gunzip(data) {
        Some(raw) => decode_message(raw.as_slice(), shape),
        None => Err(TensorError::NotGzip),
    }
}

/// Reads a tensor of a shape from a compressed message in base 64.
pub fn decode_protobuf_tensor(b64: &str, shape: &Vec<usize>) -> (r: Result<Tensor<u32>, TensorError>)
    ensures
        yields(
            r,
            match base64_decoded(b64@) {
                Some(data) => unpacked(data, shape@),
                None => Err(TensorError::NotBase64),
            },
            shape@,
        ),
        r matches Ok(t) ==> fits_shape(t),
{
    match base64_decode(b64) {
        Some(data) => decode_gzipped_protobuf_tensor(data.as_slice(), shape),
        None => Err(TensorError::NotBase64),
    }
}

} // verus!
