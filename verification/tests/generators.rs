use ine5429_primes::rand_gen::{LaggedFibonacci, LfOp, Mlcg};
use num_bigint::BigUint;

fn big(x: u64) -> BigUint {
    BigUint::from(x)
}

fn mersenne31() -> BigUint {
    (BigUint::from(1u64) << 31) - BigUint::from(1u64)
}

#[test]
fn mlcg_identical_seeds_reproduce_sequence() {
    let mut a = Mlcg::new_from_seed(big(16807), mersenne31(), 32, &big(1));
    let mut b = Mlcg::new_from_seed(big(16807), mersenne31(), 32, &big(1));
    for _ in 0..10 {
        assert_eq!(a.rand(), b.rand());
    }
}

#[test]
fn scenario_a_first_draw_matches_formula() {
    let m = mersenne31();
    let mut g = Mlcg::new_from_seed(big(16807), m.clone(), 32, &big(1));
    let w = g.value();
    // warm-up stopped exactly at the half-modulus threshold
    assert!((&w << 1u32) >= m);
    let raw = &w * &big(16807) % &m;
    let ones = (BigUint::from(1u64) << 32) - BigUint::from(1u64);
    let msb = BigUint::from(1u64) << 31;
    let expected = (&raw & &ones) | &msb;
    assert_eq!(g.rand(), expected);
}

#[test]
fn mlcg_draws_have_exact_width() {
    let mut g = Mlcg::new_mersene_from_seed(big(16807), 31, 24, &big(12345));
    for _ in 0..20 {
        let v = g.rand();
        assert_eq!(v.bits(), 24);
    }
}

#[test]
fn mlcg_new_std_matches_mersenne_form() {
    let mut a = Mlcg::new_std(32, &big(9));
    let mut b = Mlcg::new_mersene_from_seed(big(16807), 31, 32, &big(9));
    for _ in 0..5 {
        assert_eq!(a.rand(), b.rand());
    }
}

#[test]
fn mlcg_getters_return_seed_and_warmed_state() {
    let m = mersenne31();
    let g = Mlcg::new_from_seed(big(16807), m.clone(), 32, &big(99));
    assert_eq!(g.seed(), big(99));
    let w = g.value();
    assert!((&w << 1u32) >= m);
}

#[test]
fn width_one_draws_collapse_to_one() {
    let mut g = Mlcg::new_mersene_from_seed(big(16807), 31, 1, &big(5));
    assert_eq!(g.rand(), big(1));
    assert_eq!(g.rand(), big(1));
}

#[test]
fn lagged_fibonacci_multiply_first_draws() {
    let hist = vec![big(2), big(3), big(5)];
    let mut g = LaggedFibonacci::new_from_seed(hist, 2, 3, big(97), LfOp::Mul, 4, &big(7));
    // (3 * 2) % 97 = 6, projected to 4 bits: 6 % 8 + 8
    assert_eq!(g.rand(), big(14));
    // window is now [3, 5, 6]: (5 * 3) % 97 = 15, projected: 15 % 8 + 8
    assert_eq!(g.rand(), big(15));
}

#[test]
fn lagged_fibonacci_add_first_draw() {
    let hist = vec![big(2), big(3), big(5)];
    let mut g = LaggedFibonacci::new_from_seed(hist, 2, 3, big(97), LfOp::Add, 4, &big(7));
    // (3 + 2) % 97 = 5, projected to 4 bits: 5 % 8 + 8
    assert_eq!(g.rand(), big(13));
}

#[test]
fn lagged_fibonacci_xor_first_draw() {
    let hist = vec![big(2), big(3), big(5)];
    let mut g = LaggedFibonacci::new_from_seed(hist, 2, 3, big(97), LfOp::Xor, 4, &big(7));
    // (3 ^ 2) % 97 = 1, projected to 4 bits: 1 % 8 + 8
    assert_eq!(g.rand(), big(9));
}

#[test]
fn lagged_fibonacci_swapped_lags_normalize() {
    let hist = vec![big(2), big(3), big(5)];
    let mut a = LaggedFibonacci::new_from_seed(hist.clone(), 3, 2, big(97), LfOp::Mul, 4, &big(7));
    let mut b = LaggedFibonacci::new_from_seed(hist, 2, 3, big(97), LfOp::Mul, 4, &big(7));
    for _ in 0..6 {
        assert_eq!(a.rand(), b.rand());
    }
}

#[test]
fn lagged_fibonacci_equal_lags_normalize() {
    let hist = vec![big(2), big(3), big(5)];
    let mut a = LaggedFibonacci::new_from_seed(hist.clone(), 3, 3, big(97), LfOp::Mul, 4, &big(7));
    let mut b = LaggedFibonacci::new_from_seed(hist, 2, 3, big(97), LfOp::Mul, 4, &big(7));
    for _ in 0..6 {
        assert_eq!(a.rand(), b.rand());
    }
}

#[test]
fn lagged_fibonacci_truncates_to_most_recent() {
    let hist = vec![big(2), big(3), big(5), big(7), big(11)];
    let mut a = LaggedFibonacci::new_from_seed(hist, 2, 3, big(97), LfOp::Mul, 4, &big(7));
    let mut b = LaggedFibonacci::new_from_seed(
        vec![big(5), big(7), big(11)],
        2,
        3,
        big(97),
        LfOp::Mul,
        4,
        &big(7),
    );
    // (7 * 5) % 97 = 35, projected to 4 bits: 35 % 8 + 8
    assert_eq!(a.rand(), big(11));
    assert_eq!(b.rand(), big(11));
    for _ in 0..5 {
        assert_eq!(a.rand(), b.rand());
    }
}

#[test]
fn lagged_fibonacci_pads_short_history_deterministically() {
    let mut a =
        LaggedFibonacci::new_from_seed(Vec::new(), 2, 5, mersenne31(), LfOp::Mul, 16, &big(42));
    let mut b =
        LaggedFibonacci::new_from_seed(Vec::new(), 2, 5, mersenne31(), LfOp::Mul, 16, &big(42));
    for _ in 0..10 {
        let x = a.rand();
        assert_eq!(x.bits(), 16);
        assert_eq!(x, b.rand());
    }
}

#[test]
fn lagged_fibonacci_value_and_seed_getters() {
    let hist = vec![big(2), big(3), big(5)];
    let mut g = LaggedFibonacci::new_from_seed(hist, 2, 3, big(97), LfOp::Mul, 4, &big(7));
    assert_eq!(g.value(), big(5));
    g.rand();
    // the new stored entry is (3 * 2) % 97 = 6
    assert_eq!(g.value(), big(6));
    assert_eq!(g.seed(), &big(7));
}

#[test]
fn lagged_fibonacci_draws_have_exact_width() {
    let mut g =
        LaggedFibonacci::new_from_seed(Vec::new(), 3, 7, mersenne31(), LfOp::Add, 20, &big(13));
    for _ in 0..15 {
        assert_eq!(g.rand().bits(), 20);
    }
}
