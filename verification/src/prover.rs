//! The prover's side of the protocol: what a client computes between the
//! messages it exchanges with the verifier. The secret `x` and the nonce `k`
//! never leave these functions but as the public values, the commitments and
//! the response.

use vstd::prelude::*;
use vstd::arithmetic::div_mod::lemma_mod_bound;
use vstd::arithmetic::power::pow;
use vstd::pervasive::unreached;
use vstd::string::StringSliceAdditionalSpecFns;
use crate::bignum::{be_value, lemma_byte_length_fits, BigNum};
use crate::codec::{decode_spec, deserialize, encode_spec, serialize, DecodeError};
use crate::engine::{exponentiate, solve};
use crate::group::{Group, GroupView};
use crate::relation::{pow_mod, response};

verus! {

/// Why a text is not a secret.
#[derive(Debug, Clone, Copy, PartialEq, Eq)]
pub enum SecretError {
    /// The text has an odd number of bytes.
    OddLength,
    /// A byte of the text is not a hexadecimal digit.
    InvalidDigit,
}

/// The value of a hexadecimal digit of ASCII, in either case.
pub open spec fn hex_digit(b: u8) -> Option<u8> {
    if 0x30 <= b <= 0x39 {
        Some((b - 0x30) as u8)
    } else if 0x61 <= b <= 0x66 {
        Some((b - 0x61 + 10) as u8)
    } else if 0x41 <= b <= 0x46 {
        Some((b - 0x41 + 10) as u8)
    } else {
        None
    }
}

/// Every byte of `text` is a hexadecimal digit.
pub open spec fn all_hex_digits(text: Seq<u8>) -> bool {
    forall|i: int| 0 <= i < text.len() ==> hex_digit(#[trigger] text[i]) is Some
}

/// The bytes that a text of hexadecimal digits spells, two digits to a byte,
/// the high digit first.
pub open spec fn hex_bytes(text: Seq<u8>) -> Seq<u8> {
    Seq::new(
        text.len() / 2,
        |i: int| (16 * hex_digit(text[2 * i])->Some_0 + hex_digit(text[2 * i + 1])->Some_0) as u8,
    )
}

/// An honest prover's pair of messages for an exponent `e`: `g^e mod p` and
/// `h^e mod p`, encoded. For the secret they are the public values, for a
/// nonce the commitments.
pub open spec fn honest_public_values(group: GroupView, e: nat) -> (Seq<u8>, Seq<u8>) {
    (
        encode_spec(pow_mod(group.g, e, group.p), group.width()),
        encode_spec(pow_mod(group.h, e, group.p), group.width()),
    )
}

/// An honest prover's response to the challenge `c`, from the secret `x` and
/// the nonce `k`, encoded.
pub open spec fn honest_response(group: GroupView, x: nat, k: nat, c: nat) -> Seq<u8> {
    encode_spec(response(x, k, c, group.q), group.width())
}

/// Reads a secret written in hexadecimal, as a big-endian number.
pub fn parse_secret(text: &str) -> (r: Result<BigNum, SecretError>)
    ensures
        match r {
            Ok(x) => {
                &&& text.spec_bytes().len() % 2 == 0
                &&& all_hex_digits(text.spec_bytes())
                &&& x@ == be_value(hex_bytes(text.spec_bytes()))
            },
            Err(SecretError::OddLength) => text.spec_bytes().len() % 2 != 0,
            Err(SecretError::InvalidDigit) => {
                &&& text.spec_bytes().len() % 2 == 0
                &&& !all_hex_digits(text.spec_bytes())
            },
        },
{
    let raw: &[u8] = text.as_bytes();
    match hex_decode(raw) {
        Ok(bytes) => Ok(BigNum::from_bytes_be(bytes.as_slice())),
        Err(_) => {
            if raw.len() % 2 != 0 {
                Err(SecretError::OddLength)
            } else {
                Err(SecretError::InvalidDigit)
            }
        },
    }
}

/// `g^e mod p` and `h^e mod p`, encoded for the wire: the public values of a
/// secret, or the commitments to a nonce.
pub fn public_values(group: &Group, e: &BigNum) -> (r: (Vec<u8>, Vec<u8>))
    ensures
        (r.0@, r.1@) == honest_public_values(group@, e@),
{
    let width: usize = group.width();
    let first: BigNum = exponentiate(group.g(), e, group.p());
    let second: BigNum = exponentiate(group.h(), e, group.p());
    proof {
        lemma_byte_length_fits(group@.p, width as nat);
        lemma_mod_bound(pow(group@.g as int, e@), group@.p as int);
        lemma_mod_bound(pow(group@.h as int, e@), group@.p as int);
    }
    let y1: Vec<u8> = match serialize(&first, width) {
        Some(bytes) => bytes,
        None => unreached(),
    };
    let y2: Vec<u8> = match serialize(&second, width) {
        Some(bytes) => bytes,
        None => unreached(),
    };
    (y1, y2)
}

/// The response to the challenge that the verifier sent, from the secret `x`
/// and the nonce `k`, encoded for the wire. Fails exactly when the challenge
/// does not decode.
pub fn answer(group: &Group, x: &BigNum, k: &BigNum, challenge: &[u8]) -> (r: Result<
    Vec<u8>,
    DecodeError,
>)
    ensures
        match r {
            Ok(s) => {
                &&& decode_spec(challenge@, group@.width()) is Ok
                &&& s@ == honest_response(
                    group@,
                    x@,
                    k@,
                    decode_spec(challenge@, group@.width())->Ok_0,
                )
            },
            Err(e) => decode_spec(challenge@, group@.width()) == Err::<nat, DecodeError>(e),
        },
{
    let width: usize = group.width();
    let c: BigNum = match deserialize(challenge, width) {
        Ok(n) => n,
        Err(e) => {
            return Err(e);
        },
    };
    let s: BigNum = solve(x, k, &c, group.q());
    proof {
        lemma_byte_length_fits(group@.p, width as nat);
    }
    match serialize(&s, width) {
        Some(bytes) => Ok(bytes),
        None => unreached(),
    }
}

/// The error of `hex::decode`, carried through unread.
#[verifier::external_type_specification]
#[verifier::external_body]
pub struct ExFromHexError(hex::FromHexError);

/// `hex::decode`: succeeds exactly on a text of an even number of
/// hexadecimal digits, upper or lower case, and then gives one byte for each
/// pair of digits, the high digit first.
#[verifier::external_body]
fn hex_decode(text: &[u8]) -> (r: Result<Vec<u8>, hex::FromHexError>)
    ensures
        match r {
            Ok(bytes) => {
                &&& text@.len() % 2 == 0
                &&& all_hex_digits(text@)
                &&& bytes@ == hex_bytes(text@)
            },
            Err(_) => !(text@.len() % 2 == 0 && all_hex_digits(text@)),
        },
{
    hex::decode(text)
}

} // verus!
