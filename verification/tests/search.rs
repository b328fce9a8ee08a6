use ine5429_primes::functions::{find_fermat, find_miller_rabin};
use ine5429_primes::prime_test::{fermat_tester, miller_rabin_tester};
use num_bigint::BigUint;

fn big(x: u64) -> BigUint {
    BigUint::from(x)
}

#[test]
fn scenario_d_find_sixteen_bit_probable_prime() {
    let seed = big(42);
    let p = find_miller_rabin(16, &seed);
    assert_eq!(p.bits(), 16);
    assert!(miller_rabin_tester(&p, &seed));
}

#[test]
fn find_miller_rabin_is_deterministic_for_a_fixed_seed() {
    assert_eq!(find_miller_rabin(16, &big(42)), find_miller_rabin(16, &big(42)));
}

#[test]
fn find_fermat_returns_probable_prime_of_requested_width() {
    let seed = big(7);
    let p = find_fermat(12, &seed);
    assert_eq!(p.bits(), 12);
    assert!(fermat_tester(&p, &seed));
}
