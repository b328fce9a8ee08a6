//! Seedable generation of large pseudorandom integers and probabilistic
//! certification of probable primes.
//!
//! The crate offers two deterministic sequence generators over unbounded
//! integers — a multiplicative linear congruential generator ([`rand_gen::Mlcg`])
//! and a lagged Fibonacci generator ([`rand_gen::LaggedFibonacci`]) — two
//! primality tests (Miller-Rabin and Fermat, in [`prime_test`]), and a search
//! loop that draws candidates until one passes ([`functions`]).
//!
//! The arbitrary-precision arithmetic itself comes from `num_bigint` through
//! the trusted boundary in [`big`]; everything built on top of it is verified
//! against exact contracts over the mathematical values of the operands.

pub mod big;
pub mod bits;
pub mod rand_gen;
pub mod functions;
