//! Arbitrary-precision natural numbers.
//!
//! A [`BigNum`] keeps its digits as big-endian bytes and is read through its
//! view, a `nat`. The arithmetic itself is done by `num-bigint`; the functions
//! that call it are the private ones at the end of this file, and their
//! contracts are taken on trust.

use vstd::prelude::*;
use vstd::arithmetic::power::{lemma_pow0, lemma_pow1, lemma_pow_adds, lemma_pow_positive, pow};
use vstd::slice::slice_to_vec;
use num_bigint::{BigUint, RandBigInt};
use crate::relation::pow_mod;

verus! {

/// The natural number that `bytes` spell in base 256, most significant digit
/// first. Leading zero bytes do not change it, and the empty sequence is 0.
pub open spec fn be_value(bytes: Seq<u8>) -> nat
    decreases bytes.len(),
{
    if bytes.len() == 0 {
        0
    } else {
        be_value(bytes.drop_last()) * 256 + bytes.last() as nat
    }
}

/// The value of a concatenation: the first part is shifted left by the
/// length of the second.
pub proof fn lemma_be_value_concat(a: Seq<u8>, b: Seq<u8>)
    ensures
        be_value(a + b) == be_value(a) * pow(256, b.len()) + be_value(b),
    decreases b.len(),
{
    if b.len() == 0 {
        assert(a + b =~= a);
        lemma_pow0(256);
    } else {
        let front: Seq<u8> = b.drop_last();
        assert((a + b).drop_last() =~= a + front);
        lemma_be_value_concat(a, front);
        lemma_pow_adds(256, front.len(), 1);
        lemma_pow1(256);
        let shift: int = pow(256, front.len());
        assert(be_value(a) * (shift * 256) == (be_value(a) * shift) * 256) by (nonlinear_arith);
    }
}

/// A string of `n` bytes spells a number below `256^n`.
pub proof fn lemma_be_value_bound(bytes: Seq<u8>)
    ensures
        be_value(bytes) < pow(256, bytes.len()),
    decreases bytes.len(),
{
    if bytes.len() == 0 {
        lemma_pow0(256);
    } else {
        let front: Seq<u8> = bytes.drop_last();
        lemma_be_value_bound(front);
        lemma_pow_adds(256, front.len(), 1);
        lemma_pow1(256);
    }
}

/// A string of zero bytes spells zero.
pub proof fn lemma_be_value_zeros(bytes: Seq<u8>)
    requires
        forall|i: int| 0 <= i < bytes.len() ==> bytes[i] == 0,
    ensures
        be_value(bytes) == 0,
    decreases bytes.len(),
{
    if bytes.len() > 0 {
        lemma_be_value_zeros(bytes.drop_last());
    }
}

/// A string with a nonzero byte spells a positive number.
pub proof fn lemma_be_value_positive(bytes: Seq<u8>, at: int)
    requires
        0 <= at < bytes.len(),
        bytes[at] != 0,
    ensures
        be_value(bytes) > 0,
    decreases bytes.len(),
{
    if at < bytes.len() - 1 {
        lemma_be_value_positive(bytes.drop_last(), at);
    }
}

/// The number of base-256 digits of `v`: the least width in which it can be
/// written. Zero has none.
pub open spec fn byte_length(v: nat) -> nat
    decreases v,
{
    if v == 0 {
        0
    } else {
        1 + byte_length(v / 256)
    }
}

/// A string that starts with a nonzero byte is as long as its number has
/// digits.
pub proof fn lemma_byte_length_of_digits(bytes: Seq<u8>)
    requires
        bytes.len() > 0,
        bytes[0] != 0,
    ensures
        byte_length(be_value(bytes)) == bytes.len(),
    decreases bytes.len(),
{
    let front: Seq<u8> = bytes.drop_last();
    lemma_be_value_positive(bytes, 0);
    if front.len() > 0 {
        lemma_byte_length_of_digits(front);
    } else {
        assert(be_value(front) == 0);
        assert(byte_length(0) == 0);
    }
    assert(be_value(bytes) / 256 == be_value(front));
}

/// A number fits every width from its own digit count on.
pub proof fn lemma_byte_length_fits(v: nat, width: nat)
    requires
        byte_length(v) <= width,
    ensures
        v < pow(256, width),
    decreases v,
{
    if v == 0 {
        lemma_pow_positive(256, width);
    } else {
        lemma_byte_length_fits(v / 256, (width - 1) as nat);
        lemma_pow_adds(256, (width - 1) as nat, 1);
        lemma_pow1(256);
    }
}

/// A natural number of any size.
#[derive(Debug)]
pub struct BigNum {
    bytes: Vec<u8>,
}

impl View for BigNum {
    type V = nat;

    closed spec fn view(&self) -> nat {
        be_value(self.bytes@)
    }
}

impl Clone for BigNum {
    fn clone(&self) -> (r: Self)
        ensures
            r@ == self@,
    {
        BigNum { bytes: self.bytes.clone() }
    }
}

impl BigNum {
    /// The number zero.
    pub fn zero() -> (r: Self)
        ensures
            r@ == 0,
    {
        BigNum { bytes: Vec::new() }
    }

    /// The number that `bytes` spell, most significant byte first.
    pub fn from_bytes_be(bytes: &[u8]) -> (r: Self)
        ensures
            r@ == be_value(bytes@),
    {
        BigNum { bytes: slice_to_vec(bytes) }
    }

    /// The digits as they are held: big-endian, possibly with leading zeros.
    pub(crate) fn digits(&self) -> (r: &[u8])
        ensures
            be_value(r@) == self@,
    {
        self.bytes.as_slice()
    }

    /// The number of bytes that the number needs: the held digits without
    /// their leading zeros.
    pub fn byte_length(&self) -> (r: usize)
        ensures
            r == byte_length(self@),
    {
        let n: usize = self.bytes.len();
        let mut lead: usize = 0;
        while lead < n && self.bytes[lead] == 0
            invariant
                lead <= n,
                n == self.bytes@.len(),
                forall|j: int| 0 <= j < lead ==> self.bytes@[j] == 0,
            decreases n - lead,
        {
            lead += 1;
        }
        proof {
            let head: Seq<u8> = self.bytes@.subrange(0, lead as int);
            let rest: Seq<u8> = self.bytes@.subrange(lead as int, n as int);
            assert(self.bytes@ =~= head + rest);
            lemma_be_value_concat(head, rest);
            lemma_be_value_zeros(head);
            assert(0 * pow(256, rest.len()) == 0);
            if rest.len() > 0 {
                lemma_byte_length_of_digits(rest);
            }
        }
        n - lead
    }

    /// `self == other`, as numbers.
    pub fn equals(&self, other: &BigNum) -> (r: bool)
        ensures
            r == (self@ == other@),
    {
        equal_be(self.bytes.as_slice(), other.bytes.as_slice())
    }

    /// `self < other`, as numbers.
    pub fn less_than(&self, other: &BigNum) -> (r: bool)
        ensures
            r == (self@ < other@),
    {
        less_be(self.bytes.as_slice(), other.bytes.as_slice())
    }

    /// Whether the number is zero.
    pub fn is_zero(&self) -> (r: bool)
        ensures
            r == (self@ == 0),
    {
        let none: Vec<u8> = Vec::new();
        equal_be(self.bytes.as_slice(), none.as_slice())
    }

    /// The product `self * other`.
    pub fn times(&self, other: &BigNum) -> (r: BigNum)
        ensures
            r@ == self@ * other@,
    {
        BigNum { bytes: mul_be(self.bytes.as_slice(), other.bytes.as_slice()) }
    }

    /// The difference `self - other`, for `other` no greater than `self`.
    pub fn minus(&self, other: &BigNum) -> (r: BigNum)
        requires
            other@ <= self@,
        ensures
            r@ == self@ - other@,
    {
        BigNum { bytes: sub_be(self.bytes.as_slice(), other.bytes.as_slice()) }
    }

    /// The remainder of `self` on division by a positive `modulus`.
    pub fn modulo(&self, modulus: &BigNum) -> (r: BigNum)
        requires
            modulus@ > 0,
        ensures
            r@ == self@ % modulus@,
    {
        BigNum { bytes: rem_be(self.bytes.as_slice(), modulus.bytes.as_slice()) }
    }

    /// `self` raised to `exp`, reduced by a positive `modulus`.
    pub fn modpow(&self, exp: &BigNum, modulus: &BigNum) -> (r: BigNum)
        requires
            modulus@ > 0,
        ensures
            r@ == pow_mod(self@, exp@, modulus@),
    {
        BigNum {
            bytes: modpow_be(
                self.bytes.as_slice(),
                exp.bytes.as_slice(),
                modulus.bytes.as_slice(),
            ),
        }
    }

    /// A number below a positive `bound`, drawn from a cryptographically
    /// secure generator. Two calls may differ; all that is known of the
    /// result is its range.
    pub fn random_below(bound: &BigNum) -> (r: BigNum)
        requires
            bound@ > 0,
        ensures
            r@ < bound@,
    {
        BigNum { bytes: random_below_be(bound.bytes.as_slice()) }
    }
}

/// `BigUint`'s `==` on the numbers that `a` and `b` spell in big-endian
/// order (`BigUint::from_bytes_be`): true exactly when they are the same
/// number.
#[verifier::external_body]
fn equal_be(a: &[u8], b: &[u8]) -> (r: bool)
    ensures
        r == (be_value(a@) == be_value(b@)),
{
    BigUint::from_bytes_be(a) == BigUint::from_bytes_be(b)
}

/// `BigUint`'s `<` on the numbers that `a` and `b` spell: true exactly when
/// the first is the smaller number.
#[verifier::external_body]
fn less_be(a: &[u8], b: &[u8]) -> (r: bool)
    ensures
        r == (be_value(a@) < be_value(b@)),
{
    BigUint::from_bytes_be(a) < BigUint::from_bytes_be(b)
}

/// `BigUint`'s `*`: the big-endian bytes (`BigUint::to_bytes_be`) of the
/// product of the numbers that `a` and `b` spell.
#[verifier::external_body]
fn mul_be(a: &[u8], b: &[u8]) -> (r: Vec<u8>)
    ensures
        be_value(r@) == be_value(a@) * be_value(b@),
{
    (BigUint::from_bytes_be(a) * BigUint::from_bytes_be(b)).to_bytes_be()
}

/// `BigUint`'s `-`: the bytes of the difference. It panics where the second
/// number is the larger, which the precondition leaves out.
#[verifier::external_body]
fn sub_be(a: &[u8], b: &[u8]) -> (r: Vec<u8>)
    requires
        be_value(b@) <= be_value(a@),
    ensures
        be_value(r@) == be_value(a@) - be_value(b@),
{
    (BigUint::from_bytes_be(a) - BigUint::from_bytes_be(b)).to_bytes_be()
}

/// `BigUint`'s `%`: the bytes of the remainder. It panics on a zero divisor,
/// which the precondition leaves out.
#[verifier::external_body]
fn rem_be(a: &[u8], m: &[u8]) -> (r: Vec<u8>)
    requires
        be_value(m@) > 0,
    ensures
        be_value(r@) == be_value(a@) % be_value(m@),
{
    (BigUint::from_bytes_be(a) % BigUint::from_bytes_be(m)).to_bytes_be()
}

/// `BigUint::modpow`: the bytes of `(base ^ exp) % modulus`. It panics on a
/// zero modulus, which the precondition leaves out.
#[verifier::external_body]
fn modpow_be(base: &[u8], exp: &[u8], modulus: &[u8]) -> (r: Vec<u8>)
    requires
        be_value(modulus@) > 0,
    ensures
        be_value(r@) == pow_mod(be_value(base@), be_value(exp@), be_value(modulus@)),
{
    let e = BigUint::from_bytes_be(exp);
    let m = BigUint::from_bytes_be(modulus);
    BigUint::from_bytes_be(base).modpow(&e, &m).to_bytes_be()
}

/// `RandBigInt::gen_biguint_below` on `rand::thread_rng()`: the bytes of a
/// number below the bound. It panics on a zero bound, which the precondition
/// leaves out. The result depends on the generator, so only its range is
/// stated.
#[verifier::external_body]
fn random_below_be(bound: &[u8]) -> (r: Vec<u8>)
    requires
        be_value(bound@) > 0,
    ensures
        be_value(r@) < be_value(bound@),
{
    rand::thread_rng().gen_biguint_below(&BigUint::from_bytes_be(bound)).to_bytes_be()
}

} // verus!
