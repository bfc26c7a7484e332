//! The wire codec: natural numbers as big-endian byte strings of an agreed
//! fixed width, without a sign.
//!
//! Bytes from the wire become numbers only through [`deserialize`], which
//! rejects every string that is not exactly of the agreed width.

use vstd::prelude::*;
use vstd::arithmetic::div_mod::lemma_fundamental_div_mod;
use vstd::arithmetic::power::{
    lemma_pow0, lemma_pow1, lemma_pow_adds, lemma_pow_increases, lemma_pow_positive, pow,
};
use crate::bignum::{
    be_value, lemma_be_value_bound, lemma_be_value_concat, lemma_be_value_positive,
    lemma_be_value_zeros, BigNum,
};

verus! {

/// Why a byte string was not accepted as a number.
#[derive(Debug, Clone, Copy, PartialEq, Eq)]
pub enum DecodeError {
    /// Fewer bytes than the agreed width.
    Truncated,
    /// More bytes than the agreed width.
    Oversized,
}

/// `v` can be written in `width` bytes.
pub open spec fn fits(v: nat, width: nat) -> bool {
    v < pow(256, width)
}

/// The `width` low-order base-256 digits of `v`, most significant first.
pub open spec fn encode_spec(v: nat, width: nat) -> Seq<u8>
    decreases width,
{
    if width == 0 {
        Seq::empty()
    } else {
        encode_spec(v / 256, (width - 1) as nat).push((v % 256) as u8)
    }
}

/// The number that a byte string of exactly `width` bytes spells; any other
/// length is an error.
pub open spec fn decode_spec(bytes: Seq<u8>, width: nat) -> Result<nat, DecodeError> {
    if bytes.len() < width {
        Err(DecodeError::Truncated)
    } else if bytes.len() > width {
        Err(DecodeError::Oversized)
    } else {
        Ok(be_value(bytes))
    }
}

/// A string with a nonzero byte more than `width` places from its end spells
/// a number that does not fit `width` bytes.
proof fn lemma_be_value_overflows(bytes: Seq<u8>, width: nat, at: int)
    requires
        0 <= at < bytes.len() - width,
        bytes[at] != 0,
    ensures
        !fits(be_value(bytes), width),
{
    let skip: int = bytes.len() - width;
    let head: Seq<u8> = bytes.subrange(0, skip);
    let rest: Seq<u8> = bytes.subrange(skip, bytes.len() as int);
    assert(bytes =~= head + rest);
    lemma_be_value_concat(head, rest);
    lemma_be_value_positive(head, at);
    lemma_pow_positive(256, rest.len());
    assert(be_value(head) * pow(256, rest.len()) >= pow(256, rest.len())) by (nonlinear_arith)
        requires
            be_value(head) >= 1,
            pow(256, rest.len()) > 0,
    ;
}

/// Only one string of a given width spells a given number.
pub proof fn lemma_encoding_unique(bytes: Seq<u8>, v: nat)
    requires
        be_value(bytes) == v,
    ensures
        bytes == encode_spec(v, bytes.len()),
    decreases bytes.len(),
{
    if bytes.len() == 0 {
        assert(bytes =~= Seq::<u8>::empty());
    } else {
        let front: Seq<u8> = bytes.drop_last();
        lemma_fundamental_div_mod(v as int, 256);
        assert(v / 256 == be_value(front));
        lemma_encoding_unique(front, v / 256);
        assert(bytes =~= front.push(bytes.last()));
    }
}

/// The encoding has the agreed width and spells the number it encodes.
pub proof fn lemma_encode_spec(v: nat, width: nat)
    requires
        fits(v, width),
    ensures
        encode_spec(v, width).len() == width,
        be_value(encode_spec(v, width)) == v,
    decreases width,
{
    if width == 0 {
        lemma_pow0(256);
    } else {
        lemma_pow_adds(256, (width - 1) as nat, 1);
        lemma_pow1(256);
        lemma_fundamental_div_mod(v as int, 256);
        lemma_encode_spec(v / 256, (width - 1) as nat);
        let front: Seq<u8> = encode_spec(v / 256, (width - 1) as nat);
        assert(encode_spec(v, width).drop_last() =~= front);
    }
}

/// Round trip: decoding the encoding of a number that fits the width gives
/// the number back.
pub proof fn lemma_round_trip(v: nat, width: nat)
    requires
        fits(v, width),
    ensures
        decode_spec(encode_spec(v, width), width) == Ok::<nat, DecodeError>(v),
{
    lemma_encode_spec(v, width);
}

/// Decoding accepts a string if and only if it has exactly the agreed width:
/// truncated and oversized strings are rejected.
pub proof fn lemma_decode_rejects_wrong_length(bytes: Seq<u8>, width: nat)
    ensures
        decode_spec(bytes, width) is Ok <==> bytes.len() == width,
        bytes.len() < width ==> decode_spec(bytes, width) == Err::<nat, DecodeError>(
            DecodeError::Truncated,
        ),
        bytes.len() > width ==> decode_spec(bytes, width) == Err::<nat, DecodeError>(
            DecodeError::Oversized,
        ),
{
}

/// Decodes a byte string of exactly `width` bytes.
pub fn deserialize(bytes: &[u8], width: usize) -> (r: Result<BigNum, DecodeError>)
    ensures
        match r {
            Ok(n) => decode_spec(bytes@, width as nat) == Ok::<nat, DecodeError>(n@),
            Err(e) => decode_spec(bytes@, width as nat) == Err::<nat, DecodeError>(e),
        },
{
    if bytes.len() < width {
        Err(DecodeError::Truncated)
    } else if bytes.len() > width {
        Err(DecodeError::Oversized)
    } else {
        Ok(BigNum::from_bytes_be(bytes))
    }
}

/// Encodes `v` in exactly `width` bytes, or returns `None` where `v` needs
/// more.
pub fn serialize(v: &BigNum, width: usize) -> (r: Option<Vec<u8>>)
    ensures
        match r {
            Some(bytes) => fits(v@, width as nat) && bytes@ == encode_spec(v@, width as nat),
            None => !fits(v@, width as nat),
        },
{
    let digits: &[u8] = v.digits();
    let n: usize = digits.len();
    let skip: usize = if n > width { n - width } else { 0 };
    let pad: usize = if n < width { width - n } else { 0 };
    let ghost head: Seq<u8> = digits@.subrange(0, skip as int);
    let ghost rest: Seq<u8> = digits@.subrange(skip as int, n as int);
    proof {
        assert(digits@ =~= head + rest);
        lemma_be_value_concat(head, rest);
        lemma_be_value_bound(rest);
        lemma_pow_positive(256, rest.len());
        if rest.len() <= width {
            lemma_pow_increases(256, rest.len(), width as nat);
        }
    }
    let mut i: usize = 0;
    while i < skip
        invariant
            i <= skip <= n,
            n == digits@.len(),
            skip > 0 ==> skip == n - width,
            be_value(digits@) == v@,
            forall|j: int| 0 <= j < i ==> digits@[j] == 0,
        decreases skip - i,
    {
        if digits[i] != 0 {
            proof {
                lemma_be_value_overflows(digits@, width as nat, i as int);
            }
            return None;
        }
        i += 1;
    }
    proof {
        lemma_be_value_zeros(head);
        assert(0 * pow(256, rest.len()) == 0);
    }
    let mut out: Vec<u8> = Vec::new();
    let mut j: usize = 0;
    while j < pad
        invariant
            j <= pad,
            out@.len() == j,
            forall|t: int| 0 <= t < j ==> out@[t] == 0,
        decreases pad - j,
    {
        out.push(0u8);
        j += 1;
    }
    let ghost zeros: Seq<u8> = out@;
    let mut t: usize = skip;
    while t < n
        invariant
            skip <= t <= n,
            n == digits@.len(),
            out@ == zeros + digits@.subrange(skip as int, t as int),
        decreases n - t,
    {
        out.push(digits[t]);
        proof {
            assert(digits@.subrange(skip as int, t + 1) =~= digits@.subrange(
                skip as int,
                t as int,
            ).push(digits@[t as int]));
            assert(out@ =~= zeros + digits@.subrange(skip as int, t + 1));
        }
        t += 1;
    }
    proof {
        lemma_be_value_zeros(zeros);
        lemma_be_value_concat(zeros, rest);
        assert(0 * pow(256, rest.len()) == 0);
        assert(be_value(out@) == v@);
        assert(out@.len() == width);
        lemma_encoding_unique(out@, v@);
    }
    Some(out)
}

} // verus!
