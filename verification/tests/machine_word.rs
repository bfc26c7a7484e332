use zkp_course::{exponentiate, random_number, solve, verify};

#[test]
fn test_exponentiate() {
    assert_eq!(exponentiate(1, 2, 11), 1);
    assert_eq!(exponentiate(2, 3, 11), 8);
    assert_eq!(exponentiate(2, 4, 11), 5);
}

#[test]
fn test_solve() {
    // (10 - 2 * 1) mod 101 = 8
    assert_eq!(solve(2, 10, 1, 101), 8);
    // (10 - 2 * 6) mod 101 = 99
    assert_eq!(solve(2, 10, 6, 101), 99);
}

#[test]
fn test_verify() {
    //p=23 q=11 g=4 h=9 x=6 k=7 c=4 Y1=2, Y2=3, R1=8, R2=4, s=5
    let g = 4;
    let h = 9;
    let q = 11;
    let p = 23;
    let y1 = 2;
    let y2 = 3;
    let r1 = 8;
    let r2 = 4;
    let c = 4;
    let s = 5;
    assert!(verify(g, h, p, y1, y2, r1, r2, c, s));
    assert!(!verify(g, h, p, y1, y2, r1, r2, c, (s + 1) % q));
}

#[test]
fn test_toy_example() {
    //p=23 q=11 g=4 h=9 x=6 k=7 c=4 Y1=2, Y2=3, R1=8, R2=4, s=5
    let g = 4;
    let h = 9;
    let q = 11;
    let p = 23;

    let x = 6; // secret

    // registration
    let y1 = exponentiate(g, x, p);
    let y2 = exponentiate(h, x, p);

    // verification (a)
    let k = random_number() % 10; // 0 - 9
    let r1 = exponentiate(g, k, p);
    let r2 = exponentiate(h, k, p);

    // verification (b)
    let c = random_number() % 10; // 0 - 9

    // verification (c)
    let s = solve(x, k, c, q);
    assert!(verify(g, h, p, y1, y2, r1, r2, c, s));
    assert!(!verify(g, h, p, y1, y2, r1, r2, c, (s + 1) % q));
}

#[test]
fn exponent_zero_yields_one() {
    assert_eq!(exponentiate(5, 0, 23), 1);
    assert_eq!(exponentiate(0, 0, 2), 1);
    assert_eq!(exponentiate(0, 5, 23), 0);
}

#[test]
fn exponentiate_handles_full_width_operands() {
    // 3 has order 6 modulo 7 and u32::MAX = 6 * 715827882 + 3, so 3^u32::MAX = 3^3 = 6 (mod 7)
    assert_eq!(exponentiate(3, u32::MAX, 7), 6);
    // (p - 1)^2 = 1 (mod p) for the largest 32-bit prime
    assert_eq!(exponentiate(4294967290, 2, 4294967291), 1);
    // Fermat: 2^(p-1) = 1 (mod p)
    assert_eq!(exponentiate(2, 4294967290, 4294967291), 1);
}

#[test]
fn solve_is_never_negative() {
    // (7 - 4 * 6) mod 11 = -17 mod 11 = 5
    assert_eq!(solve(6, 7, 4, 11), 5);
    // c * x a multiple of q, k = 0: the response is 0, not q
    assert_eq!(solve(11, 0, 3, 11), 0);
    assert_eq!(solve(5, 22, 0, 11), 0);
}

#[test]
fn solve_handles_full_width_operands() {
    // 2^32 - 1 = 3 (mod 7), so c * x = 2 (mod 7) and (0 - 2) mod 7 = 5
    assert_eq!(solve(u32::MAX, 0, u32::MAX, 7), 5);
    // modulo 2^32 - 1 every operand is 0
    assert_eq!(solve(u32::MAX, u32::MAX, u32::MAX, u32::MAX), 0);
}

#[test]
fn end_to_end_scenario() {
    let (p, q, g, h, x) = (23, 11, 4, 9, 6);
    let y1 = exponentiate(g, x, p);
    let y2 = exponentiate(h, x, p);
    assert_eq!((y1, y2), (2, 3));
    let k = 7;
    let r1 = exponentiate(g, k, p);
    let r2 = exponentiate(h, k, p);
    assert_eq!((r1, r2), (8, 4));
    let c = 4;
    let s = solve(x, k, c, q);
    assert_eq!(s, 5);
    assert!(verify(4, 9, 23, 2, 3, 8, 4, 4, 5));
    assert!(!verify(4, 9, 23, 2, 3, 8, 4, 6, 5));
}

#[test]
fn honest_response_always_verifies_in_the_toy_group() {
    let (p, q, g, h) = (23, 11, 4, 9);
    for x in 0..q {
        let y1 = exponentiate(g, x, p);
        let y2 = exponentiate(h, x, p);
        for k in 0..q {
            let r1 = exponentiate(g, k, p);
            let r2 = exponentiate(h, k, p);
            for c in 0..q {
                let s = solve(x, k, c, q);
                assert!(s < q);
                assert!(verify(g, h, p, y1, y2, r1, r2, c, s));
            }
        }
    }
}

#[test]
fn any_other_response_is_rejected_in_the_toy_group() {
    let (p, q, g, h) = (23, 11, 4, 9);
    let (x, k, c) = (6, 7, 4);
    let y1 = exponentiate(g, x, p);
    let y2 = exponentiate(h, x, p);
    let r1 = exponentiate(g, k, p);
    let r2 = exponentiate(h, k, p);
    let s = solve(x, k, c, q);
    for t in 0..q {
        assert_eq!(verify(g, h, p, y1, y2, r1, r2, c, t), t == s);
    }
}

#[test]
fn verify_needs_both_equations() {
    // the first equation holds (8 = 4^5 * 2^4 mod 23), the second commitment is wrong
    assert!(!verify(4, 9, 23, 2, 3, 8, 5, 4, 5));
    // the second equation holds, the first commitment is wrong
    assert!(!verify(4, 9, 23, 2, 3, 9, 4, 4, 5));
}

#[test]
fn random_number_varies() {
    let first = random_number();
    let mut differs = false;
    for _ in 0..64 {
        if random_number() != first {
            differs = true;
        }
    }
    assert!(differs);
}
