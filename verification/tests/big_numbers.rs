use zkp_course::bignum::BigNum;
use zkp_course::engine::{exponentiate, random_secure_integer, solve, verify};

fn n(v: u64) -> BigNum {
    BigNum::from_bytes_be(&v.to_be_bytes())
}

#[test]
fn bytes_are_read_big_endian() {
    assert!(BigNum::from_bytes_be(&[4, 101]).equals(&n(1125)));
    assert!(BigNum::from_bytes_be(&[0, 0, 4, 101]).equals(&n(1125)));
    assert!(BigNum::from_bytes_be(&[]).equals(&BigNum::zero()));
    assert!(BigNum::from_bytes_be(&[0, 0]).is_zero());
    assert!(!BigNum::from_bytes_be(&[0, 1]).is_zero());
    assert!(!BigNum::from_bytes_be(&[4, 101]).equals(&BigNum::from_bytes_be(&[101, 4])));
}

#[test]
fn byte_length_ignores_leading_zeros() {
    assert_eq!(BigNum::zero().byte_length(), 0);
    assert_eq!(BigNum::from_bytes_be(&[0, 0, 0]).byte_length(), 0);
    assert_eq!(n(1).byte_length(), 1);
    assert_eq!(n(255).byte_length(), 1);
    assert_eq!(n(256).byte_length(), 2);
    assert_eq!(n(u64::MAX).byte_length(), 8);
    assert_eq!(BigNum::from_bytes_be(&[1, 0, 0, 0, 0, 0, 0, 0, 0]).byte_length(), 9);
}

#[test]
fn comparison_is_by_value() {
    assert!(n(3).less_than(&n(4)));
    assert!(!n(4).less_than(&n(4)));
    assert!(!n(5).less_than(&n(4)));
    assert!(BigNum::from_bytes_be(&[0, 0, 3]).less_than(&BigNum::from_bytes_be(&[4])));
    assert!(n(255).less_than(&n(256)));
    assert!(n(7).equals(&n(7).clone()));
}

#[test]
fn arithmetic_matches_machine_words() {
    assert!(n(1_000_003).times(&n(999_983)).equals(&n(1_000_003 * 999_983)));
    assert!(n(12).times(&BigNum::zero()).is_zero());
    assert!(n(1000).minus(&n(1)).equals(&n(999)));
    assert!(n(1000).minus(&n(1000)).is_zero());
    assert!(n(1000).modulo(&n(7)).equals(&n(6)));
    assert!(n(6).modulo(&n(7)).equals(&n(6)));
    assert!(n(4).modpow(&n(6), &n(23)).equals(&n(2)));
    assert!(n(4).modpow(&n(0), &n(23)).equals(&n(1)));
    assert!(n(4).modpow(&n(5), &n(1)).is_zero());
}

#[test]
fn modpow_at_the_edges() {
    assert!(n(4).modpow(&n(0), &n(1)).is_zero());
    assert!(n(4).modpow(&n(0), &n(2)).equals(&n(1)));
    assert!(n(0).modpow(&n(0), &n(7)).equals(&n(1)));
    assert!(n(0).modpow(&n(3), &n(7)).is_zero());
    assert!(n(5).modpow(&n(3), &n(8)).equals(&n(5)));
    assert!(n(1000).modpow(&n(1), &n(7)).equals(&n(6)));
}

#[test]
fn product_exceeds_machine_words() {
    // (2^64 - 1)^2 = 2^128 - 2^65 + 1
    let square = n(u64::MAX).times(&n(u64::MAX));
    let mut expected = [0xffu8; 16];
    expected[7] = 0xfe;
    for b in expected.iter_mut().skip(8) {
        *b = 0;
    }
    expected[15] = 1;
    assert!(square.equals(&BigNum::from_bytes_be(&expected)));
    assert_eq!(square.byte_length(), 16);
}

#[test]
fn big_exponentiate_matches_the_toy_group() {
    assert!(exponentiate(&n(4), &n(6), &n(23)).equals(&n(2)));
    assert!(exponentiate(&n(9), &n(6), &n(23)).equals(&n(3)));
    assert!(exponentiate(&n(4), &n(7), &n(23)).equals(&n(8)));
    assert!(exponentiate(&n(9), &n(7), &n(23)).equals(&n(4)));
    assert!(exponentiate(&n(9), &n(0), &n(23)).equals(&n(1)));
}

#[test]
fn fermat_holds_for_a_mersenne_prime() {
    // p = 2^521 - 1 is prime, so 3^(p-1) = 1 (mod p)
    let mut p = vec![0xffu8; 66];
    p[0] = 0x01;
    let mut p_minus_one = p.clone();
    p_minus_one[65] = 0xfe;
    let p = BigNum::from_bytes_be(&p);
    let e = BigNum::from_bytes_be(&p_minus_one);
    assert_eq!(p.byte_length(), 66);
    assert!(exponentiate(&n(3), &e, &p).equals(&n(1)));
    assert!(!exponentiate(&n(3), &n(521), &p).equals(&n(1)));
}

#[test]
fn big_solve_is_never_negative() {
    assert!(solve(&n(2), &n(10), &n(1), &n(101)).equals(&n(8)));
    assert!(solve(&n(2), &n(10), &n(6), &n(101)).equals(&n(99)));
    assert!(solve(&n(6), &n(7), &n(4), &n(11)).equals(&n(5)));
    // c * x a multiple of q: the response is 0, not q
    assert!(solve(&n(11), &n(0), &n(3), &n(11)).is_zero());
    assert!(solve(&n(5), &n(22), &n(0), &n(11)).is_zero());
}

#[test]
fn big_verify_accepts_the_scenario_and_rejects_a_wrong_challenge() {
    let (g, h, p) = (n(4), n(9), n(23));
    let (y1, y2, r1, r2) = (n(2), n(3), n(8), n(4));
    assert!(verify(&g, &h, &p, &y1, &y2, &r1, &r2, &n(4), &n(5)));
    assert!(!verify(&g, &h, &p, &y1, &y2, &r1, &r2, &n(6), &n(5)));
    assert!(!verify(&g, &h, &p, &y1, &y2, &r1, &r2, &n(4), &n(6)));
    assert!(!verify(&g, &h, &p, &y1, &y2, &r1, &n(5), &n(4), &n(5)));
    assert!(!verify(&g, &h, &p, &y1, &y2, &n(9), &r2, &n(4), &n(5)));
}

#[test]
fn big_honest_response_always_verifies_in_the_toy_group() {
    let (g, h, p, q) = (n(4), n(9), n(23), n(11));
    for x in 0..11u64 {
        let y1 = exponentiate(&g, &n(x), &p);
        let y2 = exponentiate(&h, &n(x), &p);
        for k in 0..11u64 {
            let r1 = exponentiate(&g, &n(k), &p);
            let r2 = exponentiate(&h, &n(k), &p);
            for c in 0..11u64 {
                let s = solve(&n(x), &n(k), &n(c), &q);
                assert!(s.less_than(&q));
                assert!(verify(&g, &h, &p, &y1, &y2, &r1, &r2, &n(c), &s));
                let next = solve(&n(x), &n(k + 1), &n(c), &q);
                assert!(!verify(&g, &h, &p, &y1, &y2, &r1, &r2, &n(c), &next));
            }
        }
    }
}

#[test]
fn random_integers_stay_below_the_bound() {
    let bound = n(11);
    let mut seen = [false; 11];
    for _ in 0..2000 {
        let r = random_secure_integer(&bound);
        assert!(r.less_than(&bound));
        for (v, slot) in seen.iter_mut().enumerate() {
            if r.equals(&n(v as u64)) {
                *slot = true;
            }
        }
    }
    assert!(seen.iter().all(|s| *s));
    assert!(random_secure_integer(&n(1)).is_zero());
    assert!(BigNum::random_below(&n(1)).is_zero());
}

#[test]
fn random_integers_fill_a_wide_range() {
    let mut bound = vec![0u8; 33];
    bound[0] = 1;
    let bound = BigNum::from_bytes_be(&bound);
    let a = random_secure_integer(&bound);
    let b = random_secure_integer(&bound);
    assert!(a.less_than(&bound));
    assert!(b.less_than(&bound));
    assert!(!a.equals(&b));
}
