//! The arbitrary-precision engine: the protocol's arithmetic on [`BigNum`].

use vstd::prelude::*;
use crate::bignum::BigNum;
use crate::relation::{accepts, equation_holds, lemma_response_from_remainders, pow_mod, response};

verus! {

/// Modular exponentiation, `base^exp mod modulus`.
pub fn exponentiate(base: &BigNum, exp: &BigNum, modulus: &BigNum) -> (r: BigNum)
    requires
        modulus@ > 1,
    ensures
        r@ == pow_mod(base@, exp@, modulus@),
{
    base.modpow(exp, modulus)
}

/// A number in `[0, bound)` from a cryptographically secure generator. It
/// serves for the prover's nonce and for the verifier's challenge.
pub fn random_secure_integer(bound: &BigNum) -> (r: BigNum)
    requires
        bound@ > 0,
    ensures
        r@ < bound@,
{
    BigNum::random_below(bound)
}

/// The prover's response `s = (k - c * x) mod q`, always in `[0, q)`.
pub fn solve(x: &BigNum, k: &BigNum, c: &BigNum, q: &BigNum) -> (s: BigNum)
    requires
        q@ > 0,
    ensures
        s@ == response(x@, k@, c@, q@),
        s@ < q@,
{
    let taken: BigNum = c.times(x).modulo(q);
    let kept: BigNum = k.modulo(q);
    proof {
        lemma_response_from_remainders(x@, k@, c@, q@);
    }
    if kept.less_than(&taken) {
        q.minus(&taken.minus(&kept))
    } else {
        kept.minus(&taken)
    }
}

/// One verification equation, `r == generator^s * y^c mod p`.
fn check_equation(
    generator: &BigNum,
    p: &BigNum,
    y: &BigNum,
    r: &BigNum,
    c: &BigNum,
    s: &BigNum,
) -> (ok: bool)
    requires
        p@ > 1,
    ensures
        ok == equation_holds(generator@, p@, y@, r@, c@, s@),
{
    let left: BigNum = generator.modpow(s, p);
    let right: BigNum = y.modpow(c, p);
    r.equals(&left.times(&right).modulo(p))
}

/// Checks both verification equations, `r1 == g^s * y1^c mod p` and
/// `r2 == h^s * y2^c mod p`; true only if both hold.
pub fn verify(
    g: &BigNum,
    h: &BigNum,
    p: &BigNum,
    y1: &BigNum,
    y2: &BigNum,
    r1: &BigNum,
    r2: &BigNum,
    c: &BigNum,
    s: &BigNum,
) -> (ok: bool)
    requires
        p@ > 1,
    ensures
        ok == accepts(g@, h@, p@, y1@, y2@, r1@, r2@, c@, s@),
{
    let eq1: bool = check_equation(g, p, y1, r1, c, s);
    let eq2: bool = check_equation(h, p, y2, r2, c, s);
    eq1 && eq2
}

} // verus!
