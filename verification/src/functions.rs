//! The prime search loops: draw candidates of the requested width from a
//! standard MLCG and return the first draw that the chosen primality test
//! accepts.

use vstd::prelude::*;
use vstd::arithmetic::power2::{lemma2_to64, lemma_pow2_strictly_increases, pow2};
use num_bigint::BigUint;
use crate::big::big_value;
use crate::rand_gen::{mlcg_draw, mlcg_iter, warmed, warms_up, Mlcg};
use crate::prime_test::{
    fermat_result, fermat_tester, miller_rabin_result, miller_rabin_tester, witness_modulus,
};

verus! {

/// Candidate number `n` the search draws for a given seed and width: draw
/// `n` of the standard MLCG (multiplier 16807, Mersenne modulus `2^31 - 1`)
/// at that width.
pub open spec fn candidate_at(seed: nat, size: nat, n: nat) -> nat {
    mlcg_draw(seed, 16807, witness_modulus(), size, n)
}

/// Some candidate draw passes the Miller-Rabin driver: the search
/// terminates. On pathological seeds no draw ever passes and the original
/// loop runs forever; such seeds are excluded.
pub open spec fn mr_search_succeeds(seed: nat, size: nat) -> bool {
    exists|n: nat| #[trigger] miller_rabin_result(candidate_at(seed, size, n), seed)
}

/// Some candidate draw passes the Fermat driver: the search terminates.
pub open spec fn fermat_search_succeeds(seed: nat, size: nat) -> bool {
    exists|n: nat| #[trigger] fermat_result(candidate_at(seed, size, n), seed)
}

/// From any draw that passes Miller-Rabin, a least passing draw exists.
proof fn lemma_least_mr_hit(seed: nat, size: nat, n: nat)
    requires
        miller_rabin_result(candidate_at(seed, size, n), seed),
    ensures
        exists|k: nat|
            (#[trigger] miller_rabin_result(candidate_at(seed, size, k), seed)) && forall|m: nat|
                m < k ==> !miller_rabin_result(candidate_at(seed, size, m), seed),
    decreases n,
{
    if forall|m: nat|
        m < n ==> !(#[trigger] miller_rabin_result(candidate_at(seed, size, m), seed)) {
    } else {
        let m = choose|m: nat|
            m < n && #[trigger] miller_rabin_result(candidate_at(seed, size, m), seed);
        lemma_least_mr_hit(seed, size, m);
    }
}

/// From any draw that passes Fermat, a least passing draw exists.
proof fn lemma_least_fermat_hit(seed: nat, size: nat, n: nat)
    requires
        fermat_result(candidate_at(seed, size, n), seed),
    ensures
        exists|k: nat|
            (#[trigger] fermat_result(candidate_at(seed, size, k), seed)) && forall|m: nat|
                m < k ==> !fermat_result(candidate_at(seed, size, m), seed),
    decreases n,
{
    if forall|m: nat| m < n ==> !(#[trigger] fermat_result(candidate_at(seed, size, m), seed)) {
    } else {
        let m = choose|m: nat| m < n && #[trigger] fermat_result(candidate_at(seed, size, m), seed);
        lemma_least_fermat_hit(seed, size, m);
    }
}

/// Search for a probable prime of exactly `size` significant bits with the
/// Miller-Rabin test: return the first candidate draw that the driver
/// accepts, seeding both the candidate generator and the witness generator
/// from `seed`.
pub fn find_miller_rabin(size: u64, seed: &BigUint) -> (r: BigUint)
    requires
        size >= 2,
        warms_up(big_value(*seed), 16807, witness_modulus()),
        mr_search_succeeds(big_value(*seed), size as nat),
    ensures
        pow2((size - 1) as nat) <= big_value(r) < pow2(size as nat),
        miller_rabin_result(big_value(r), big_value(*seed)),
        exists|n: nat|
            big_value(r) == #[trigger] candidate_at(big_value(*seed), size as nat, n) && forall|
                m: nat,
            |
                m < n ==> !miller_rabin_result(
                    candidate_at(big_value(*seed), size as nat, m),
                    big_value(*seed),
                ),
{
    let ghost sv = big_value(*seed);
    let ghost szn = size as nat;
    let ghost w0 = warmed(sv, 16807, witness_modulus());
    proof {
        let n_any: nat = choose|n: nat|
            #[trigger] miller_rabin_result(candidate_at(sv, szn, n), sv);
        lemma_least_mr_hit(sv, szn, n_any);
    }
    let ghost n_hit: nat = choose|k: nat|
        (#[trigger] miller_rabin_result(candidate_at(sv, szn, k), sv)) && forall|m: nat|
            m < k ==> !miller_rabin_result(candidate_at(sv, szn, m), sv);
    let mut gen = Mlcg::new_std(size, seed);
    let ghost mut i: nat = 0;
    loop
        invariant
            size >= 2,
            big_value(*seed) == sv,
            szn == size as nat,
            warms_up(sv, 16807, witness_modulus()),
            w0 == warmed(sv, 16807, witness_modulus()),
            gen.wf(),
            gen.spec_mult() == 16807,
            gen.spec_mod() == witness_modulus(),
            gen.spec_size() == size,
            gen.spec_state() == mlcg_iter(w0, 16807, witness_modulus(), i),
            i <= n_hit,
            miller_rabin_result(candidate_at(sv, szn, n_hit), sv),
            forall|m: nat|
                m < n_hit ==> !miller_rabin_result(#[trigger] candidate_at(sv, szn, m), sv),
        decreases n_hit - i,
    {
        let num = gen.rand();
        proof {
            assert(mlcg_iter(w0, 16807, witness_modulus(), i + 1) == (mlcg_iter(
                w0,
                16807,
                witness_modulus(),
                i,
            ) * 16807) % witness_modulus());
            assert(big_value(num) == candidate_at(sv, szn, i));
            lemma2_to64();
            if size > 2 {
                lemma_pow2_strictly_increases(1, (size - 1) as nat);
            }
            assert(big_value(num) >= 2);
        }
        if miller_rabin_tester(&num, seed) {
            proof {
                assert(i == n_hit);
            }
            return num;
        }
        proof {
            assert(i < n_hit);
            i = i + 1;
        }
    }
}

/// Search for a probable prime of exactly `size` significant bits with the
/// Fermat test: return the first candidate draw that the driver accepts,
/// seeding both the candidate generator and the witness generator from
/// `seed`.
pub fn find_fermat(size: u64, seed: &BigUint) -> (r: BigUint)
    requires
        size >= 2,
        warms_up(big_value(*seed), 16807, witness_modulus()),
        fermat_search_succeeds(big_value(*seed), size as nat),
    ensures
        pow2((size - 1) as nat) <= big_value(r) < pow2(size as nat),
        fermat_result(big_value(r), big_value(*seed)),
        exists|n: nat|
            big_value(r) == #[trigger] candidate_at(big_value(*seed), size as nat, n) && forall|
                m: nat,
            |
                m < n ==> !fermat_result(
                    candidate_at(big_value(*seed), size as nat, m),
                    big_value(*seed),
                ),
{
    let ghost sv = big_value(*seed);
    let ghost szn = size as nat;
    let ghost w0 = warmed(sv, 16807, witness_modulus());
    proof {
        let n_any: nat = choose|n: nat| #[trigger] fermat_result(candidate_at(sv, szn, n), sv);
        lemma_least_fermat_hit(sv, szn, n_any);
    }
    let ghost n_hit: nat = choose|k: nat|
        (#[trigger] fermat_result(candidate_at(sv, szn, k), sv)) && forall|m: nat|
            m < k ==> !fermat_result(candidate_at(sv, szn, m), sv);
    let mut gen = Mlcg::new_std(size, seed);
    let ghost mut i: nat = 0;
    loop
        invariant
            size >= 2,
            big_value(*seed) == sv,
            szn == size as nat,
            warms_up(sv, 16807, witness_modulus()),
            w0 == warmed(sv, 16807, witness_modulus()),
            gen.wf(),
            gen.spec_mult() == 16807,
            gen.spec_mod() == witness_modulus(),
            gen.spec_size() == size,
            gen.spec_state() == mlcg_iter(w0, 16807, witness_modulus(), i),
            i <= n_hit,
            fermat_result(candidate_at(sv, szn, n_hit), sv),
            forall|m: nat| m < n_hit ==> !fermat_result(#[trigger] candidate_at(sv, szn, m), sv),
        decreases n_hit - i,
    {
        let num = gen.rand();
        proof {
            assert(mlcg_iter(w0, 16807, witness_modulus(), i + 1) == (mlcg_iter(
                w0,
                16807,
                witness_modulus(),
                i,
            ) * 16807) % witness_modulus());
            assert(big_value(num) == candidate_at(sv, szn, i));
            lemma2_to64();
            if size > 2 {
                lemma_pow2_strictly_increases(1, (size - 1) as nat);
            }
            assert(big_value(num) >= 2);
        }
        if fermat_tester(&num, seed) {
            proof {
                assert(i == n_hit);
            }
            return num;
        }
        proof {
            assert(i < n_hit);
            i = i + 1;
        }
    }
}

} // verus!
