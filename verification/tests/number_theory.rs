use evolver::bigint::BigNum;
use evolver::soul::primes::{is_probable_prime, next_prime_3_mod_4};
use evolver::soul::entropy::{expand_entropy, sha256_hex, to_hex_lower};
use sha2::{Digest, Sha256};

fn n(v: i64) -> BigNum {
    BigNum::from_i64(v)
}

#[test]
fn miller_rabin_small_values() {
    assert!(!is_probable_prime(&n(0), 5));
    assert!(!is_probable_prime(&n(1), 5));
    assert!(!is_probable_prime(&n(-7), 5));
    assert!(is_probable_prime(&n(2), 5));
    assert!(is_probable_prime(&n(3), 5));
    assert!(!is_probable_prime(&n(4), 5));
    assert!(!is_probable_prime(&n(9), 5));
    assert!(!is_probable_prime(&n(15), 5));
    assert!(!is_probable_prime(&n(25), 5));
    assert!(!is_probable_prime(&n(91), 5));
    assert!(is_probable_prime(&n(97), 5));
    assert!(is_probable_prime(&n(7919), 5));
}

#[test]
fn miller_rabin_carmichael_and_large() {
    assert!(!is_probable_prime(&n(561), 5));
    assert!(!is_probable_prime(&n(1105), 5));
    assert!(is_probable_prime(&n(2305843009213693951), 5));
    let composite = BigNum::from_bytes_be(&[0x20, 0, 0, 0, 0, 0, 0, 1]);
    assert_eq!(composite.to_i64(), Some(2305843009213693953));
    assert!(!is_probable_prime(&composite, 5));
}

#[test]
fn next_prime_congruent_to_three_mod_four() {
    let p = |s: i64| next_prime_3_mod_4(&n(s)).and_then(|x| x.to_i64());
    assert_eq!(p(0), Some(3));
    assert_eq!(p(1), Some(3));
    assert_eq!(p(10), Some(11));
    assert_eq!(p(12), Some(19));
    assert_eq!(p(100), Some(103));
    assert_eq!(p(1000), Some(1019));
}

#[test]
fn sha256_hex_of_abc() {
    assert_eq!(
        sha256_hex(b"abc"),
        "ba7816bf8f01cfea414140de5dae2223b00361a396177a9cb410ff61f20015ad"
    );
}

#[test]
fn hex_lower_pads_each_byte() {
    assert_eq!(to_hex_lower(&[0x00, 0xab, 0x10, 0xff]), "00ab10ff");
    assert_eq!(to_hex_lower(&[]), "");
}

#[test]
fn entropy_expansion_in_counter_mode() {
    let out = expand_entropy("abc", 40);
    assert_eq!(out.len(), 40);
    let mut h0 = Sha256::new();
    h0.update(b"abc");
    h0.update(0u32.to_be_bytes());
    let b0 = h0.finalize();
    let mut h1 = Sha256::new();
    h1.update(b"abc");
    h1.update(1u32.to_be_bytes());
    let b1 = h1.finalize();
    assert_eq!(&out[..32], &b0[..]);
    assert_eq!(&out[32..], &b1[..8]);
    assert_eq!(to_hex_lower(&out[32..]), "46c386ebccef82ba");
    assert_eq!(expand_entropy("abc", 0).len(), 0);
    assert_eq!(expand_entropy("abc", 256).len(), 256);
}

#[test]
fn bignum_arithmetic() {
    assert_eq!(n(-5).to_decimal(), "-5");
    assert_eq!(n(0).to_decimal(), "0");
    assert_eq!(n(1234567890123).to_decimal(), "1234567890123");
    assert_eq!(n(7).add(&n(-10)).to_i64(), Some(-3));
    assert_eq!(n(7).sub(&n(-10)).to_i64(), Some(17));
    assert_eq!(n(-7).mul(&n(6)).to_i64(), Some(-42));
    assert_eq!(n(-7).neg().to_i64(), Some(7));
    assert_eq!(n(-7).abs().to_i64(), Some(7));
    assert_eq!(n(-7).div_trunc(&n(2)).to_i64(), Some(-3));
    assert_eq!(n(-7).rem_trunc(&n(2)).to_i64(), Some(-1));
    assert_eq!(n(-7).rem_euclid(&n(2)).to_i64(), Some(1));
    assert_eq!(n(3).modpow(&n(4), &n(5)).to_i64(), Some(1));
    assert_eq!(n(2).modpow(&n(10), &n(1000)).to_i64(), Some(24));
    let big = n(i64::MAX).mul(&n(4));
    assert_eq!(big.to_i64(), None);
    assert_eq!(big.to_decimal(), "36893488147419103228");
    assert_eq!(BigNum::from_bytes_be(&[1, 0]).to_i64(), Some(256));
    assert_eq!(BigNum::from_bytes_be(&[]).to_i64(), Some(0));
}

#[test]
fn bignum_comparisons_and_gcd() {
    assert!(n(-3).lt(&n(2)));
    assert!(!n(2).lt(&n(2)));
    assert!(n(2).le(&n(2)));
    assert!(n(9).equals(&n(9)));
    assert!(!n(9).equals(&n(-9)));
    assert!(n(0).is_zero());
    assert!(n(-1).is_negative());
    assert!(!n(0).is_negative());
    assert!(n(-4).is_even());
    assert!(!n(7).is_even());
    let (g, x, y) = n(240).extended_gcd(&n(46));
    assert_eq!(g.to_i64(), Some(2));
    assert_eq!(240 * x.to_i64().unwrap() + 46 * y.to_i64().unwrap(), 2);
    let (g0, _, _) = n(0).extended_gcd(&n(0));
    assert_eq!(g0.to_i64(), Some(0));
}

#[test]
fn next_prime_from_a_negative_start() {
    let p = |s: i64| next_prime_3_mod_4(&n(s)).and_then(|x| x.to_i64());
    assert_eq!(p(-1), Some(3));
    assert_eq!(p(-100), Some(3));
    assert_eq!(p(3), Some(3));
    assert_eq!(p(4), Some(7));
}
