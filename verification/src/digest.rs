//! Fingerprints and their text forms.

use base64::Engine;
use sha2::Digest;
use vstd::prelude::*;

verus! {

/// The SHA-256 digest of a message.
pub uninterp spec fn sha256_of(message: Seq<u8>) -> Seq<u8>;

/// `sha2::Sha256::digest`: the digest of a message, 32 bytes long.
#[verifier::external_body]
pub(crate) fn sha256(message: &[u8]) -> (r: Vec<u8>)
    ensures
        r@ == sha256_of(message@),
        r@.len() == 32,
{
    sha2::Sha256::digest(message).to_vec()
}

/// A digit of base sixteen, in lower case.
pub open spec fn hex_digit(d: int) -> char {
    if d < 10 {
        ('0' as int + d) as char
    } else {
        ('a' as int + d - 10) as char
    }
}

/// Each byte as two digits, the higher one first.
pub open spec fn hex_text(b: Seq<u8>) -> Seq<char> {
    Seq::new(
        2 * b.len(),
        |i: int|
            hex_digit(
                if i % 2 == 0 {
                    b[i / 2] as int / 16
                } else {
                    b[i / 2] as int % 16
                },
            ),
    )
}

/// `hex::encode`: each byte as two lower-case digits of base sixteen, the higher
/// one first.
#[verifier::external_body]
pub(crate) fn hex_encode(b: &[u8]) -> (r: String)
    ensures
        r@ == hex_text(b@),
{
    hex::encode(b)
}

/// Different bytes have different text.
pub proof fn hex_text_is_injective(a: Seq<u8>, b: Seq<u8>)
    requires
        hex_text(a) == hex_text(b),
    ensures
        a == b,
{
    let x = hex_text(a);
    let y = hex_text(b);
    assert(x.len() == 2 * a.len() && y.len() == 2 * b.len());
    assert forall|i: int| 0 <= i < a.len() implies a[i] == b[i] by {
        assert((2 * i) / 2 == i && (2 * i) % 2 == 0);
        assert((2 * i + 1) / 2 == i && (2 * i + 1) % 2 == 1);
        assert(x[2 * i] == y[2 * i]);
        assert(x[2 * i + 1] == y[2 * i + 1]);
        let (ah, bh) = (a[i] as int / 16, b[i] as int / 16);
        let (al, bl) = (a[i] as int % 16, b[i] as int % 16);
        assert(hex_digit(ah) == hex_digit(bh));
        assert(hex_digit(al) == hex_digit(bl));
    }
    assert(a =~= b);
}

/// What a digit of base sixteen stands for, in either case; -1 for no digit.
pub open spec fn hex_value(c: char) -> int {
    if '0' <= c <= '9' {
        c as int - '0' as int
    } else if 'a' <= c <= 'f' {
        c as int - 'a' as int + 10
    } else if 'A' <= c <= 'F' {
        c as int - 'A' as int + 10
    } else {
        -1
    }
}

/// Whether a text writes bytes out in base sixteen, two digits for each.
pub open spec fn is_hex(t: Seq<char>) -> bool {
    t.len() % 2 == 0 && forall|i: int| 0 <= i < t.len() ==> hex_value(#[trigger] t[i]) >= 0
}

/// The bytes that a text writes out in base sixteen.
pub open spec fn hex_bytes(t: Seq<char>) -> Seq<u8> {
    Seq::new(
        (t.len() / 2) as nat,
        |i: int| (16 * hex_value(t[2 * i]) + hex_value(t[2 * i + 1])) as u8,
    )
}

/// `hex::decode`: the bytes that a text of an even number of digits of base
/// sixteen writes out; nothing else is accepted.
#[verifier::external_body]
pub(crate) fn hex_decode(t: &str) -> (r: Option<Vec<u8>>)
    ensures
        r is Some == is_hex(t@),
        r matches Some(b) ==> b@ == hex_bytes(t@),
{
    hex::decode(t).ok()
}

/// Bytes that are written out in base sixteen are read back.
pub proof fn hex_text_reads_back(b: Seq<u8>)
    ensures
        is_hex(hex_text(b)),
        hex_bytes(hex_text(b)) == b,
{
    let t = hex_text(b);
    assert(t.len() == 2 * b.len());
    assert forall|i: int| 0 <= i < t.len() implies hex_value(#[trigger] t[i]) >= 0 by {
        let d = if i % 2 == 0 {
            b[i / 2] as int / 16
        } else {
            b[i / 2] as int % 16
        };
        assert(0 <= d < 16);
        assert(t[i] == hex_digit(d));
    }
    assert forall|i: int| 0 <= i < b.len() implies hex_bytes(t)[i] == b[i] by {
        assert((2 * i) / 2 == i && (2 * i) % 2 == 0);
        assert((2 * i + 1) / 2 == i && (2 * i + 1) % 2 == 1);
        assert(t[2 * i] == hex_digit(b[i] as int / 16));
        assert(t[2 * i + 1] == hex_digit(b[i] as int % 16));
    }
    assert(hex_bytes(t) =~= b);
}

/// What a text in standard base 64 stands for, `None` where it is none.
pub uninterp spec fn base64_decoded(text: Seq<char>) -> Option<Seq<u8>>;

/// `base64`'s `Engine::decode` with the standard alphabet and padding.
#[verifier::external_body]
pub(crate) fn base64_decode(text: &str) -> (r: Option<Vec<u8>>)
    ensures
        match r {
            Some(b) => base64_decoded(text@) == Some(b@),
            None => base64_decoded(text@) is None,
        },
{
    base64::engine::general_purpose::STANDARD.decode(text).ok()
}

/// The text of bytes in standard base 64.
pub uninterp spec fn base64_encoded(b: Seq<u8>) -> Seq<char>;

/// `base64`'s `Engine::encode` with the standard alphabet and padding, which
/// `Engine::decode` undoes.
#[verifier::external_body]
pub(crate) fn base64_encode(b: &[u8]) -> (r: String)
    ensures
        r@ == base64_encoded(b@),
        base64_decoded(r@) == Some(b@),
{
    base64::engine::general_purpose::STANDARD.encode(b)
}

} // verus!
