//! Chaum-Pedersen zero-knowledge authentication.
//!
//! The crate root holds the machine-word engine; the arbitrary-precision
//! engine, the wire codec, the verifier's store and the protocol service live
//! in the modules below.

use vstd::prelude::*;
use vstd::arithmetic::div_mod::{
    lemma_fundamental_div_mod, lemma_mul_mod_noop_general, lemma_small_mod,
};
use vstd::arithmetic::mul::{lemma_mul_is_associative, lemma_mul_is_commutative};
use vstd::arithmetic::power::{
    lemma_pow0, lemma_pow1, lemma_pow_adds, lemma_pow_mod_noop, lemma_pow_multiplies,
    lemma_square_is_pow2, pow,
};
use rand::Rng;
use crate::relation::{accepts, lemma_response_from_remainders, mul_mod, pow_mod, response};

pub mod bignum;
pub mod codec;
pub mod engine;
pub mod group;
pub mod prover;
pub mod relation;
pub mod service;
pub mod store;

verus! {

/// One round of square-and-multiply keeps `acc * sq^e` unchanged modulo `m`.
proof fn lemma_square_and_multiply_step(acc: int, sq: int, e: nat, m: int)
    requires
        m > 0,
        e > 0,
    ensures
        ((if e % 2 == 1 { (acc * sq) % m } else { acc }) * pow((sq * sq) % m, e / 2)) % m
            == (acc * pow(sq, e)) % m,
{
    let half: nat = e / 2;
    let bit: nat = e % 2;
    let next_acc: int = if bit == 1 { (acc * sq) % m } else { acc };
    lemma_fundamental_div_mod(e as int, 2);
    assert(e == 2 * half + bit);
    // sq^e == (sq * sq)^half * sq^bit
    lemma_pow_adds(sq, 2 * half, bit);
    lemma_pow_multiplies(sq, 2, half);
    lemma_square_is_pow2(sq);
    assert(pow(sq, e) == pow(sq * sq, half) * pow(sq, bit));
    lemma_pow0(sq);
    lemma_pow1(sq);
    let tail: int = pow(sq * sq, half);
    // acc * sq^e == (acc * sq^bit) * tail
    assert(acc * pow(sq, e) == (acc * pow(sq, bit)) * tail) by {
        lemma_mul_is_commutative(tail, pow(sq, bit));
        lemma_mul_is_associative(acc, pow(sq, bit), tail);
    }
    assert(next_acc % m == (acc * pow(sq, bit)) % m) by {
        if bit == 1 {
            lemma_small_mod(((acc * sq) % m) as nat, m as nat);
        } else {
            assert(acc * 1 == acc) by (nonlinear_arith);
        }
    }
    lemma_pow_mod_noop(sq * sq, half, m);
    lemma_mul_mod_noop_general(next_acc, pow((sq * sq) % m, half), m);
    lemma_mul_mod_noop_general(acc * pow(sq, bit), tail, m);
    lemma_mul_mod_noop_general(next_acc, tail, m);
}

/// Modular exponentiation by square-and-multiply: `num^exp mod p` in a number
/// of steps logarithmic in `exp`.
pub fn exponentiate(num: u32, exp: u32, p: u32) -> (r: u32)
    requires
        p > 1,
    ensures
        r as nat == pow_mod(num as nat, exp as nat, p as nat),
        r < p,
{
    let m: u64 = p as u64;
    let mut acc: u64 = 1;
    let mut sq: u64 = (num as u64) % m;
    let mut e: u32 = exp;
    proof {
        lemma_pow_mod_noop(num as int, exp as nat, m as int);
        assert(1 * pow(sq as int, e as nat) == pow(sq as int, e as nat));
    }
    while e > 0
        invariant
            m == p,
            p > 1,
            acc < m,
            sq < m,
            (acc * pow(sq as int, e as nat)) % (m as int) == pow(num as int, exp as nat) % (m as int),
        decreases e,
    {
        proof {
            lemma_square_and_multiply_step(acc as int, sq as int, e as nat, m as int);
            assert(acc * sq <= 0xffff_ffff * 0xffff_ffff) by (nonlinear_arith)
                requires
                    acc <= 0xffff_ffff,
                    sq <= 0xffff_ffff,
            ;
            assert(sq * sq <= 0xffff_ffff * 0xffff_ffff) by (nonlinear_arith)
                requires
                    sq <= 0xffff_ffff,
            ;
        }
        if e % 2 == 1 {
            acc = (acc * sq) % m;
        }
        sq = (sq * sq) % m;
        e = e / 2;
    }
    proof {
        lemma_pow0(sq as int);
        assert(acc * 1 == acc);
        lemma_small_mod(acc as nat, m as nat);
    }
    acc as u32
}

/// The prover's response `s = (k - c * x) mod q`, always in `[0, q)`: the
/// remainder is the mathematical one, also where `c * x` exceeds `k`.
pub fn solve(x: u32, k: u32, c: u32, q: u32) -> (s: u32)
    requires
        q > 0,
    ensures
        s as nat == response(x as nat, k as nat, c as nat, q as nat),
        s < q,
{
    let m: u64 = q as u64;
    proof {
        assert(c * x <= 0xffff_ffff * 0xffff_ffff) by (nonlinear_arith)
            requires
                c <= 0xffff_ffff,
                x <= 0xffff_ffff,
        ;
    }
    let product: u64 = (c as u64) * (x as u64);
    let taken: u64 = product % m;
    let kept: u64 = (k as u64) % m;
    let s: u64 = if kept >= taken {
        kept - taken
    } else {
        m - (taken - kept)
    };
    proof {
        lemma_response_from_remainders(x as nat, k as nat, c as nat, q as nat);
    }
    s as u32
}

/// Checks both verification equations, `r1 == g^s * y1^c mod p` and
/// `r2 == h^s * y2^c mod p`; true only if both hold.
pub fn verify(g: u32, h: u32, p: u32, y1: u32, y2: u32, r1: u32, r2: u32, c: u32, s: u32) -> (ok:
    bool)
    requires
        p > 1,
    ensures
        ok == accepts(
            g as nat,
            h as nat,
            p as nat,
            y1 as nat,
            y2 as nat,
            r1 as nat,
            r2 as nat,
            c as nat,
            s as nat,
        ),
{
    let eq1: bool = r1 == multiply_mod(exponentiate(g, s, p), exponentiate(y1, c, p), p);
    let eq2: bool = r2 == multiply_mod(exponentiate(h, s, p), exponentiate(y2, c, p), p);
    eq1 && eq2
}

/// The product of two machine words modulo `p`, computed without overflow.
fn multiply_mod(a: u32, b: u32, p: u32) -> (r: u32)
    requires
        p > 0,
    ensures
        r as nat == mul_mod(a as nat, b as nat, p as nat),
{
    proof {
        assert(a * b <= 0xffff_ffff * 0xffff_ffff) by (nonlinear_arith)
            requires
                a <= 0xffff_ffff,
                b <= 0xffff_ffff,
        ;
    }
    (((a as u64) * (b as u64)) % (p as u64)) as u32
}

/// A machine word from the thread-local generator of `rand`
/// (`rand::thread_rng().gen()`), which is cryptographically secure and seeded
/// by the operating system. Nothing is claimed of the value: every `u32` can
/// come back.
#[verifier::external_body]
pub fn random_number() -> u32 {
    let mut rng = rand::thread_rng();
    rng.gen()
}

} // verus!
