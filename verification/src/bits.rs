//! Bit-level model of the generators' post-processing: bitwise operations on
//! natural numbers, and the width projection (mask the low bits, force the
//! top bit) expressed arithmetically and related to those operations.

use vstd::prelude::*;
use vstd::arithmetic::div_mod::{
    lemma_fundamental_div_mod, lemma_mod_bound, lemma_mod_breakdown, lemma_mod_mod,
};
use vstd::arithmetic::power2::{lemma_pow2_pos, lemma_pow2_unfold, pow2};

verus! {

/// Bitwise AND of two natural numbers, defined low bit first.
pub open spec fn nat_and(a: nat, b: nat) -> nat
    decreases a,
{
    if a == 0 || b == 0 {
        0
    } else {
        2 * nat_and(a / 2, b / 2) + if a % 2 == 1 && b % 2 == 1 {
            1nat
        } else {
            0nat
        }
    }
}

/// Bitwise OR of two natural numbers, defined low bit first.
pub open spec fn nat_or(a: nat, b: nat) -> nat
    decreases a,
{
    if a == 0 {
        b
    } else if b == 0 {
        a
    } else {
        2 * nat_or(a / 2, b / 2) + if a % 2 == 1 || b % 2 == 1 {
            1nat
        } else {
            0nat
        }
    }
}

/// Bitwise XOR of two natural numbers, defined low bit first.
pub open spec fn nat_xor(a: nat, b: nat) -> nat
    decreases a,
{
    if a == 0 {
        b
    } else if b == 0 {
        a
    } else {
        2 * nat_xor(a / 2, b / 2) + if a % 2 != b % 2 {
            1nat
        } else {
            0nat
        }
    }
}

/// ANDing with the all-ones mask of `k` bits keeps exactly the low `k` bits.
pub proof fn lemma_nat_and_mask(x: nat, k: nat)
    ensures
        nat_and(x, (pow2(k) - 1) as nat) == x % pow2(k),
    decreases k,
{
    lemma_pow2_pos(k);
    if k == 0 {
        assert(pow2(0) == 1) by {
            vstd::arithmetic::power2::lemma2_to64();
        }
    } else {
        let m = pow2((k - 1) as nat);
        lemma_pow2_pos((k - 1) as nat);
        lemma_pow2_unfold(k);
        let mask: nat = (pow2(k) - 1) as nat;
        assert(mask == 2 * m - 1);
        assert(mask / 2 == m - 1 && mask % 2 == 1) by {
            lemma_fundamental_div_mod(mask as int, 2);
        }
        if x == 0 {
            assert(nat_and(0, mask) == 0);
        } else {
            lemma_nat_and_mask(x / 2, (k - 1) as nat);
            lemma_mod_breakdown(x as int, 2, m as int);
        }
    }
}

/// ORing a value below `pow2(w)` with the single bit `pow2(w - 1)` forces
/// that bit and keeps the bits below it.
pub proof fn lemma_nat_or_msb(y: nat, w: nat)
    requires
        w >= 1,
        y < pow2(w),
    ensures
        nat_or(y, pow2((w - 1) as nat)) == y % pow2((w - 1) as nat) + pow2((w - 1) as nat),
    decreases w,
{
    lemma_pow2_pos((w - 1) as nat);
    lemma_pow2_unfold(w);
    if w == 1 {
        assert(pow2(0) == 1 && pow2(1) == 2) by {
            vstd::arithmetic::power2::lemma2_to64();
        }
        if y == 0 {
            assert(nat_or(0, 1) == 1);
        } else {
            assert(y == 1);
            assert(nat_or(1, 1) == 2 * nat_or(0, 0) + 1);
        }
    } else {
        let b = pow2((w - 1) as nat);
        let q = pow2((w - 2) as nat);
        lemma_pow2_pos((w - 2) as nat);
        lemma_pow2_unfold((w - 1) as nat);
        assert(b == 2 * q);
        assert(b / 2 == q && b % 2 == 0) by {
            lemma_fundamental_div_mod(b as int, 2);
        }
        if y == 0 {
            assert(nat_or(0, b) == b);
            assert(0nat % b == 0) by {
                lemma_mod_bound(0, b as int);
            }
        } else {
            assert(y / 2 < b) by {
                lemma_fundamental_div_mod(y as int, 2);
            }
            lemma_nat_or_msb(y / 2, (w - 1) as nat);
            lemma_mod_breakdown(y as int, 2, q as int);
        }
    }
}

/// ORing with one sets the low bit and changes nothing else.
pub proof fn lemma_nat_or_one(v: nat)
    ensures
        v % 2 == 1 ==> nat_or(v, 1) == v,
        v % 2 == 0 ==> nat_or(v, 1) == v + 1,
        nat_or(v, 1) % 2 == 1,
{
    if v == 0 {
        assert(nat_or(0, 1) == 1);
    } else {
        assert(nat_or(v, 1) == 2 * nat_or(v / 2, 0) + 1);
        lemma_fundamental_div_mod(v as int, 2);
    }
}

/// The bit-width projection shared by both generators: the result is the low
/// `w - 1` bits of the raw value with the bit `w - 1` forced to one, so it
/// has exactly `w` significant bits.
pub open spec fn project(v: nat, w: nat) -> nat
    recommends
        w >= 1,
{
    v % pow2((w - 1) as nat) + pow2((w - 1) as nat)
}

/// The projected value has exactly `w` significant bits: its top set bit is
/// bit `w - 1`.
pub proof fn lemma_project_bounds(v: nat, w: nat)
    requires
        w >= 1,
    ensures
        pow2((w - 1) as nat) <= project(v, w) < pow2(w),
{
    lemma_pow2_pos((w - 1) as nat);
    lemma_pow2_unfold(w);
    lemma_mod_bound(v as int, pow2((w - 1) as nat) as int);
}

/// Masking to `w` bits and then forcing bit `w - 1` — the operation the
/// generators perform — computes exactly the arithmetic projection.
pub proof fn lemma_project_from_bits(v: nat, w: nat)
    requires
        w >= 1,
    ensures
        nat_or(nat_and(v, (pow2(w) - 1) as nat), pow2((w - 1) as nat)) == project(v, w),
{
    lemma_nat_and_mask(v, w);
    lemma_pow2_pos(w);
    lemma_pow2_pos((w - 1) as nat);
    lemma_mod_bound(v as int, pow2(w) as int);
    let y = v % pow2(w);
    lemma_nat_or_msb(y, w);
    lemma_pow2_unfold(w);
    assert(pow2(w) == pow2((w - 1) as nat) * 2);
    lemma_mod_mod(v as int, pow2((w - 1) as nat) as int, 2);
}

} // verus!
