//! The Chaum-Pedersen relation over the natural numbers.
//!
//! Every executable engine of this crate, whatever integer type backs it, is
//! specified against the functions of this module.

use vstd::prelude::*;
use vstd::arithmetic::div_mod::{
    lemma_add_mod_noop, lemma_fundamental_div_mod, lemma_mod_add_multiples_vanish,
    lemma_mod_bound, lemma_mod_equivalence, lemma_mod_twice, lemma_mul_mod_noop_general,
    lemma_small_mod, lemma_sub_mod_noop,
};
use vstd::arithmetic::mul::lemma_mul_is_commutative;
use vstd::arithmetic::power::{
    lemma1_pow, lemma_pow_adds, lemma_pow_mod_noop, lemma_pow_multiplies, pow,
};

verus! {

/// `base` raised to `exp`, reduced modulo `modulus`.
pub open spec fn pow_mod(base: nat, exp: nat, modulus: nat) -> nat {
    (pow(base as int, exp) % (modulus as int)) as nat
}

/// The product of `a` and `b`, reduced modulo `modulus`.
pub open spec fn mul_mod(a: nat, b: nat, modulus: nat) -> nat {
    (((a * b) as int) % (modulus as int)) as nat
}

/// The prover's response `s = (k - c * x) mod q`, with the mathematical
/// (never negative) remainder.
pub open spec fn response(x: nat, k: nat, c: nat, q: nat) -> nat {
    ((k - c * x) % (q as int)) as nat
}

/// One verification equation: `r == generator^s * y^c (mod p)`.
pub open spec fn equation_holds(generator: nat, p: nat, y: nat, r: nat, c: nat, s: nat) -> bool {
    r == mul_mod(pow_mod(generator, s, p), pow_mod(y, c, p), p)
}

/// The verifier accepts when both equations hold.
pub open spec fn accepts(
    g: nat,
    h: nat,
    p: nat,
    y1: nat,
    y2: nat,
    r1: nat,
    r2: nat,
    c: nat,
    s: nat,
) -> bool {
    equation_holds(g, p, y1, r1, c, s) && equation_holds(h, p, y2, r2, c, s)
}

/// The response computed from remainders alone: with `kept = k mod q` and
/// `taken = (c * x) mod q`, it is `kept - taken` where that is not negative
/// and `q - (taken - kept)` where it is.
pub proof fn lemma_response_from_remainders(x: nat, k: nat, c: nat, q: nat)
    requires
        q > 0,
    ensures
        response(x, k, c, q) < q,
        k % q >= (c * x) % q ==> response(x, k, c, q) == k % q - (c * x) % q,
        k % q < (c * x) % q ==> response(x, k, c, q) == q - ((c * x) % q - k % q),
{
    let m: int = q as int;
    let cx: int = (c * x) as int;
    let kept: int = (k as int) % m;
    let taken: int = cx % m;
    lemma_mod_bound(k as int, m);
    lemma_mod_bound(cx, m);
    lemma_mod_bound(k - cx, m);
    lemma_sub_mod_noop(k as int, cx, m);
    if kept >= taken {
        lemma_small_mod((kept - taken) as nat, q);
    } else {
        lemma_mod_add_multiples_vanish(kept - taken, m);
        lemma_small_mod((m + kept - taken) as nat, q);
    }
}

/// `n` has no divisor strictly between 1 and itself.
pub open spec fn is_prime(n: nat) -> bool {
    n > 1 && forall|d: nat| 1 < d < n ==> #[trigger] (n % d) != 0
}

/// `a` has multiplicative order exactly `q` modulo `p`: `a^q` is 1 and no
/// smaller positive power is.
pub open spec fn has_order(a: nat, q: nat, p: nat) -> bool {
    pow_mod(a, q, p) == 1 && forall|d: nat| 0 < d < q ==> #[trigger] pow_mod(a, d, p) != 1
}

/// Valid group parameters: a prime modulus `p`, a prime `q` dividing `p - 1`,
/// and two generators `g`, `h` of the subgroup of order `q`.
pub open spec fn valid_group(g: nat, h: nat, p: nat, q: nat) -> bool {
    &&& is_prime(p)
    &&& is_prime(q)
    &&& (p - 1) % (q as int) == 0
    &&& has_order(g, q, p)
    &&& has_order(h, q, p)
}

/// Where `a^q` is 1 modulo `p`, so is every power of `a` whose exponent is a
/// multiple of `q`.
proof fn lemma_pow_period(a: int, p: int, q: nat, n: nat)
    requires
        p > 1,
        pow(a, q) % p == 1,
    ensures
        pow(a, q * n) % p == 1,
{
    lemma_pow_multiplies(a, q, n);
    lemma_pow_mod_noop(pow(a, q), n, p);
    lemma1_pow(n);
    lemma_small_mod(1, p as nat);
}

/// Where `a^q` is 1 modulo `p`, a power of `a` depends on its exponent only
/// through the exponent's remainder modulo `q`.
proof fn lemma_pow_reduce_exponent(a: int, p: int, q: nat, e: nat)
    requires
        p > 1,
        q > 0,
        pow(a, q) % p == 1,
    ensures
        pow(a, e) % p == pow(a, (e % q) as nat) % p,
{
    let n: nat = (e / q) as nat;
    let r: nat = (e % q) as nat;
    lemma_fundamental_div_mod(e as int, q as int);
    lemma_mod_bound(e as int, q as int);
    assert(e == q * n + r);
    lemma_pow_adds(a, q * n, r);
    lemma_pow_period(a, p, q, n);
    lemma_mul_mod_noop_general(pow(a, q * n), pow(a, r), p);
    assert(1 * pow(a, r) == pow(a, r));
}

/// Two powers of `a` that agree modulo `p`, with exponents `low <= high`
/// below `q`, differ by a power that is 1 modulo `p`.
proof fn lemma_pow_cancel(a: int, p: int, q: nat, low: nat, high: nat)
    requires
        p > 1,
        low <= high < q,
        pow(a, q) % p == 1,
        pow(a, low) % p == pow(a, high) % p,
    ensures
        pow(a, (high - low) as nat) % p == 1,
{
    let d: nat = (high - low) as nat;
    let w: nat = (q - low) as nat;
    lemma_pow_adds(a, low, w);
    lemma_pow_adds(a, high, w);
    assert(high + w == q + d);
    lemma_pow_adds(a, q, d);
    lemma_mul_mod_noop_general(pow(a, low), pow(a, w), p);
    lemma_mul_mod_noop_general(pow(a, high), pow(a, w), p);
    assert(pow(a, q) % p == (pow(a, q) * pow(a, d)) % p);
    lemma_mul_mod_noop_general(pow(a, q), pow(a, d), p);
    assert(1 * pow(a, d) == pow(a, d));
}

/// For an element of order exactly `q`, two powers agree modulo `p` if and
/// only if their exponents agree modulo `q`.
pub proof fn lemma_powers_agree_iff_exponents_agree(a: nat, p: nat, q: nat, e1: nat, e2: nat)
    requires
        p > 1,
        q > 0,
        has_order(a, q, p),
    ensures
        pow_mod(a, e1, p) == pow_mod(a, e2, p) <==> e1 % q == e2 % q,
{
    let ai: int = a as int;
    let pi: int = p as int;
    let r1: nat = (e1 % q) as nat;
    let r2: nat = (e2 % q) as nat;
    lemma_mod_bound(pow(ai, q), pi);
    lemma_mod_bound(pow(ai, e1), pi);
    lemma_mod_bound(pow(ai, e2), pi);
    lemma_mod_bound(e1 as int, q as int);
    lemma_mod_bound(e2 as int, q as int);
    lemma_pow_reduce_exponent(ai, pi, q, e1);
    lemma_pow_reduce_exponent(ai, pi, q, e2);
    if pow_mod(a, e1, p) == pow_mod(a, e2, p) && r1 != r2 {
        let low: nat = if r1 <= r2 { r1 } else { r2 };
        let high: nat = if r1 <= r2 { r2 } else { r1 };
        lemma_pow_cancel(ai, pi, q, low, high);
        let d: nat = (high - low) as nat;
        assert(0 < d < q);
        assert(pow_mod(a, d, p) == 1);
    }
}

/// For a generator `a` of order `q`, the commitment `a^k` and the public value
/// `a^x` satisfy the verification equation with challenge `c` and response
/// `s` exactly when `s + c * x` and `k` agree modulo `q`.
pub proof fn lemma_equation_holds_iff(a: nat, p: nat, q: nat, x: nat, k: nat, c: nat, s: nat)
    requires
        p > 1,
        q > 0,
        has_order(a, q, p),
    ensures
        equation_holds(a, p, pow_mod(a, x, p), pow_mod(a, k, p), c, s) <==> (s + c * x) % q == k
            % q,
{
    let ai: int = a as int;
    let pi: int = p as int;
    let y: nat = pow_mod(a, x, p);
    lemma_mod_bound(pow(ai, x), pi);
    lemma_mod_bound(pow(ai, s), pi);
    lemma_mod_bound(pow(y as int, c), pi);
    // y^c == a^(x * c) modulo p
    lemma_pow_mod_noop(pow(ai, x), c, pi);
    lemma_pow_multiplies(ai, x, c);
    assert(pow_mod(y, c, p) == pow(ai, x * c) % pi);
    // a^s * a^(x * c) == a^(s + x * c)
    lemma_pow_adds(ai, s, x * c);
    lemma_mul_mod_noop_general(pow(ai, s), pow(ai, x * c), pi);
    lemma_mul_is_commutative(x as int, c as int);
    lemma_mod_bound(pow(ai, s + c * x), pi);
    assert(mul_mod(pow_mod(a, s, p), pow_mod(y, c, p), p) == pow_mod(a, s + c * x, p));
    lemma_powers_agree_iff_exponents_agree(a, p, q, k, s + c * x);
}

/// Completeness: in a valid group, the response that an honest prover
/// computes from its secret `x`, its nonce `k` and the challenge `c` is
/// accepted against its own public values and commitments.
pub proof fn lemma_honest_response_accepted(
    g: nat,
    h: nat,
    p: nat,
    q: nat,
    x: nat,
    k: nat,
    c: nat,
)
    requires
        valid_group(g, h, p, q),
        x < q,
        k < q,
        c < q,
    ensures
        accepts(
            g,
            h,
            p,
            pow_mod(g, x, p),
            pow_mod(h, x, p),
            pow_mod(g, k, p),
            pow_mod(h, k, p),
            c,
            response(x, k, c, q),
        ),
{
    let s: nat = response(x, k, c, q);
    let cx: int = (c * x) as int;
    lemma_mod_bound(k - cx, q as int);
    lemma_add_mod_noop(k - cx, cx, q as int);
    lemma_add_mod_noop(s as int, cx, q as int);
    lemma_mod_twice(k - cx, q as int);
    assert((s + c * x) % q == k % q);
    lemma_equation_holds_iff(g, p, q, x, k, c, s);
    lemma_equation_holds_iff(h, p, q, x, k, c, s);
}

/// Against an honest prover's public values and commitments, and for the same
/// challenge, a response that differs from the honest one modulo `q` is
/// rejected.
pub proof fn lemma_tampered_response_rejected(
    g: nat,
    h: nat,
    p: nat,
    q: nat,
    x: nat,
    k: nat,
    c: nat,
    s: nat,
)
    requires
        valid_group(g, h, p, q),
        x < q,
        k < q,
        c < q,
        s % q != response(x, k, c, q),
    ensures
        !accepts(
            g,
            h,
            p,
            pow_mod(g, x, p),
            pow_mod(h, x, p),
            pow_mod(g, k, p),
            pow_mod(h, k, p),
            c,
            s,
        ),
{
    let cx: int = (c * x) as int;
    lemma_equation_holds_iff(g, p, q, x, k, c, s);
    if (s + c * x) % q == k % q {
        lemma_mod_bound(k - cx, q as int);
        lemma_mod_equivalence(s + cx, k as int, q as int);
        lemma_mod_equivalence(s as int, k - cx, q as int);
        assert(false);
    }
}

} // verus!
