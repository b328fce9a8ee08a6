use ine5429_primes::prime_test::{basic_non_prime_check, fermat_tester, miller_rabin_tester};
use num_bigint::BigUint;

fn big(x: u64) -> BigUint {
    BigUint::from(x)
}

#[test]
fn prefilter_rejects_every_even_sample() {
    for n in [0u64, 2, 4, 6, 100, 1024, 65536, 4294967296] {
        assert!(basic_non_prime_check(&big(n)));
    }
}

#[test]
fn prefilter_keeps_small_primes() {
    for n in [5u64, 7, 11, 13] {
        assert!(!basic_non_prime_check(&big(n)));
    }
}

#[test]
fn prefilter_boundary_rejects_two_and_three() {
    // the square rule is a necessary condition only for primes above 3
    assert!(basic_non_prime_check(&big(2)));
    assert!(basic_non_prime_check(&big(3)));
}

#[test]
fn testers_reject_zero() {
    assert!(!miller_rabin_tester(&big(0), &big(42)));
    assert!(!fermat_tester(&big(0), &big(42)));
}

#[test]
fn prefilter_rejects_odd_composites_failing_the_square_rule() {
    // 9 is odd but (81 - 1) % 24 != 0, 15 likewise
    assert!(basic_non_prime_check(&big(9)));
    assert!(basic_non_prime_check(&big(15)));
}

#[test]
fn prefilter_is_idempotent() {
    for n in [1u64, 2, 3, 5, 15, 24, 25, 49, 104729] {
        let v = big(n);
        assert_eq!(basic_non_prime_check(&v), basic_non_prime_check(&v));
    }
}

#[test]
fn miller_rabin_accepts_known_primes() {
    let seed = big(42);
    assert!(miller_rabin_tester(&big(104729), &seed));
    assert!(miller_rabin_tester(&big(2147483647), &seed));
}

#[test]
fn miller_rabin_scenario_b_mersenne_prime() {
    let p = (BigUint::from(1u64) << 521) - BigUint::from(1u64);
    assert!(miller_rabin_tester(&p, &big(42)));
}

#[test]
fn miller_rabin_scenario_c_fifteen_is_composite() {
    assert!(!miller_rabin_tester(&big(15), &big(42)));
}

#[test]
fn miller_rabin_is_deterministic_for_a_fixed_seed() {
    let p = big(104729);
    assert_eq!(
        miller_rabin_tester(&p, &big(42)),
        miller_rabin_tester(&p, &big(42))
    );
}

#[test]
fn testers_reject_semiprime() {
    // 1022117 = 1009 * 1013, two primes of roughly half the width
    assert!(!miller_rabin_tester(&big(1022117), &big(42)));
    assert!(!fermat_tester(&big(1022117), &big(42)));
}

#[test]
fn testers_reject_even_numbers() {
    assert!(!miller_rabin_tester(&big(1048576), &big(42)));
    assert!(!fermat_tester(&big(65536), &big(42)));
}

#[test]
fn fermat_accepts_known_primes() {
    let seed = big(42);
    assert!(fermat_tester(&big(104729), &seed));
    assert!(fermat_tester(&big(2147483647), &seed));
}

#[test]
fn fermat_accepts_mersenne_prime() {
    let p = (BigUint::from(1u64) << 521) - BigUint::from(1u64);
    assert!(fermat_tester(&p, &big(42)));
}
