//! Trusted boundary around `num_bigint`: the arbitrary-precision integer
//! type is declared opaque, its mathematical value is given the name
//! [`big_value`], and each arithmetic operation the crate relies on is
//! wrapped in one function whose contract states that operation's documented
//! effect on the values.

use vstd::prelude::*;
use vstd::arithmetic::power::pow;
use vstd::arithmetic::power2::pow2;
use num_bigint::BigUint;
use crate::bits::{nat_and, nat_or, nat_xor};

verus! {

#[verifier::external_type_specification]
#[verifier::external_body]
pub struct ExBigUint(BigUint);

/// The natural number a `BigUint` holds.
pub uninterp spec fn big_value(b: BigUint) -> nat;

/// Relies on `BigUint: From<u64>`: the conversion is value-preserving.
#[verifier::external_body]
pub(crate) fn big_from_u64(x: u64) -> (r: BigUint)
    ensures
        big_value(r) == x as nat,
{
    BigUint::from(x)
}

/// Relies on `<BigUint as Clone>::clone`: the copy holds the same value.
#[verifier::external_body]
pub(crate) fn big_clone(a: &BigUint) -> (r: BigUint)
    ensures
        big_value(r) == big_value(*a),
{
    a.clone()
}

/// Relies on `<BigUint as PartialEq>::eq`: equality of the held values.
#[verifier::external_body]
pub(crate) fn big_eq(a: &BigUint, b: &BigUint) -> (r: bool)
    ensures
        r == (big_value(*a) == big_value(*b)),
{
    a == b
}

/// Relies on `<BigUint as Ord>::cmp`: the order of the held values.
#[verifier::external_body]
pub(crate) fn big_lt(a: &BigUint, b: &BigUint) -> (r: bool)
    ensures
        r == (big_value(*a) < big_value(*b)),
{
    a < b
}

/// Relies on `Add for &BigUint`: exact unbounded addition.
#[verifier::external_body]
pub(crate) fn big_add(a: &BigUint, b: &BigUint) -> (r: BigUint)
    ensures
        big_value(r) == big_value(*a) + big_value(*b),
{
    a + b
}

/// Relies on `Sub for &BigUint`: exact subtraction. It panics when the
/// subtrahend is the larger value, which the precondition rules out.
#[verifier::external_body]
pub(crate) fn big_sub(a: &BigUint, b: &BigUint) -> (r: BigUint)
    requires
        big_value(*b) <= big_value(*a),
    ensures
        big_value(r) == big_value(*a) - big_value(*b),
{
    a - b
}

/// Relies on `Mul for &BigUint`: exact unbounded multiplication.
#[verifier::external_body]
pub(crate) fn big_mul(a: &BigUint, b: &BigUint) -> (r: BigUint)
    ensures
        big_value(r) == big_value(*a) * big_value(*b),
{
    a * b
}

/// Relies on `Rem for &BigUint`: the remainder of the values' division. It
/// panics on a zero divisor, which the precondition rules out.
#[verifier::external_body]
pub(crate) fn big_rem(a: &BigUint, m: &BigUint) -> (r: BigUint)
    requires
        big_value(*m) > 0,
    ensures
        big_value(r) == big_value(*a) % big_value(*m),
{
    a % m
}

/// Relies on `Shl<u64> for &BigUint`: a left shift by `n` multiplies the
/// value by two to the `n`.
#[verifier::external_body]
pub(crate) fn big_shl(a: &BigUint, n: u64) -> (r: BigUint)
    ensures
        big_value(r) == big_value(*a) * pow2(n as nat),
{
    a << n
}

/// Relies on `Shr<u64> for &BigUint`: a right shift by `n` divides the value
/// by two to the `n`, rounding down.
#[verifier::external_body]
pub(crate) fn big_shr(a: &BigUint, n: u64) -> (r: BigUint)
    ensures
        big_value(r) == big_value(*a) / pow2(n as nat),
{
    a >> n
}

/// Relies on `BitAnd for &BigUint`: the bitwise conjunction of the values.
#[verifier::external_body]
pub(crate) fn big_and(a: &BigUint, b: &BigUint) -> (r: BigUint)
    ensures
        big_value(r) == nat_and(big_value(*a), big_value(*b)),
{
    a & b
}

/// Relies on `BitOr for &BigUint`: the bitwise disjunction of the values.
#[verifier::external_body]
pub(crate) fn big_or(a: &BigUint, b: &BigUint) -> (r: BigUint)
    ensures
        big_value(r) == nat_or(big_value(*a), big_value(*b)),
{
    a | b
}

/// Relies on `BitXor for &BigUint`: the bitwise exclusive or of the values.
#[verifier::external_body]
pub(crate) fn big_xor(a: &BigUint, b: &BigUint) -> (r: BigUint)
    ensures
        big_value(r) == nat_xor(big_value(*a), big_value(*b)),
{
    a ^ b
}

/// Relies on `BigUint::modpow`: it returns `(self ^ exponent) % modulus` and
/// panics on a zero modulus, which the precondition rules out.
#[verifier::external_body]
pub(crate) fn big_modpow(b: &BigUint, e: &BigUint, m: &BigUint) -> (r: BigUint)
    requires
        big_value(*m) > 0,
    ensures
        big_value(r) == pow(big_value(*b) as int, big_value(*e)) % (big_value(*m) as int),
{
    b.modpow(e, m)
}

} // verus!
