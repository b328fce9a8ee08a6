//! The two seedable generators of large pseudorandom integers: the
//! multiplicative linear congruential generator ([`Mlcg`]) and the lagged
//! Fibonacci generator ([`LaggedFibonacci`]). Both draw unbounded values and
//! project every draw to a configured bit width.

use vstd::prelude::*;
use vstd::arithmetic::power2::{lemma2_to64, lemma_pow2_pos, lemma_pow2_strictly_increases, pow2};
use num_bigint::BigUint;
use crate::big::{
    big_add, big_and, big_clone, big_from_u64, big_lt, big_mul, big_or, big_rem, big_shl, big_sub,
    big_value, big_xor,
};
use crate::bits::{lemma_project_bounds, lemma_project_from_bits, nat_or, nat_xor, project};

verus! {

/// Mask the raw value `v` to `size` low bits and force bit `size - 1`: the
/// shared post-processing that gives every draw exactly `size` significant
/// bits.
pub(crate) fn project_width(v: &BigUint, size: u64) -> (r: BigUint)
    requires
        size >= 1,
    ensures
        big_value(r) == project(big_value(*v), size as nat),
        pow2((size - 1) as nat) <= big_value(r) < pow2(size as nat),
{
    proof {
        lemma_pow2_pos(size as nat);
        lemma_pow2_pos((size - 1) as nat);
    }
    let one = big_from_u64(1);
    let msb = big_shl(&one, size - 1);
    let top = big_shl(&one, size);
    let ones = big_sub(&top, &one);
    let masked = big_and(v, &ones);
    let r = big_or(&masked, &msb);
    proof {
        lemma_project_from_bits(big_value(*v), size as nat);
        lemma_project_bounds(big_value(*v), size as nat);
    }
    r
}

/// The state an MLCG with multiplier `mu` and modulus `mo` holds after `n`
/// steps from the start value `s`.
pub open spec fn mlcg_iter(s: nat, mu: nat, mo: nat, n: nat) -> nat
    decreases n,
{
    if n == 0 {
        s
    } else {
        (mlcg_iter(s, mu, mo, (n - 1) as nat) * mu) % mo
    }
}

/// Step `n` is where warm-up stops: the first step whose state has reached
/// half the modulus.
pub open spec fn warm_point(s: nat, mu: nat, mo: nat, n: nat) -> bool {
    2 * mlcg_iter(s, mu, mo, n) >= mo && forall|m: nat|
        m < n ==> 2 * mlcg_iter(s, mu, mo, m) < mo
}

/// Warm-up from seed `s` terminates: some step reaches half the modulus.
/// This fails only for pathological parameters (for instance a seed
/// congruent to zero), on which the warm-up loop would run forever.
pub open spec fn warms_up(s: nat, mu: nat, mo: nat) -> bool {
    exists|n: nat| warm_point(s, mu, mo, n)
}

/// The number of steps warm-up takes (meaningful when `warms_up` holds;
/// warm points are unique).
pub open spec fn warm_steps(s: nat, mu: nat, mo: nat) -> nat {
    choose|n: nat| warm_point(s, mu, mo, n)
}

/// The state warm-up from seed `s` stops at.
pub open spec fn warmed(s: nat, mu: nat, mo: nat) -> nat {
    mlcg_iter(s, mu, mo, warm_steps(s, mu, mo))
}

/// A warmed-up generator really crossed the threshold: twice its state is
/// at least the modulus, so early outputs expose neither the seed nor the
/// multiplier.
pub proof fn lemma_warmed_threshold(s: nat, mu: nat, mo: nat)
    requires
        warms_up(s, mu, mo),
    ensures
        2 * warmed(s, mu, mo) >= mo,
{
    assert(warm_point(s, mu, mo, warm_steps(s, mu, mo)));
}

/// At most one step can be the first to reach half the modulus.
pub proof fn lemma_warm_point_unique(s: nat, mu: nat, mo: nat, n1: nat, n2: nat)
    requires
        warm_point(s, mu, mo, n1),
        warm_point(s, mu, mo, n2),
    ensures
        n1 == n2,
{
    if n1 < n2 {
        assert(2 * mlcg_iter(s, mu, mo, n1) < mo);
    } else if n2 < n1 {
        assert(2 * mlcg_iter(s, mu, mo, n2) < mo);
    }
}

/// Draw `n` (counting from zero) of an MLCG constructed from seed `s`:
/// warm-up runs first, each draw advances the state once and projects it to
/// `size` bits.
pub open spec fn mlcg_draw(s: nat, mu: nat, mo: nat, size: nat, n: nat) -> nat {
    project(mlcg_iter(warmed(s, mu, mo), mu, mo, n + 1), size)
}

/// Multiplicative linear congruential generator (the Park-Miller family):
/// each step takes the state to `state * mult_factor % mod_factor`, and each
/// draw projects the new state to `size` significant bits.
pub struct Mlcg {
    /// The last raw value the generator computed.
    state: BigUint,
    /// The seed the generator was constructed from.
    seed: BigUint,
    /// The factor the state is multiplied by at every step.
    mult_factor: BigUint,
    /// The modulus the product is reduced by at every step.
    mod_factor: BigUint,
    /// The bit width of the drawn values.
    size: u64,
}

impl Mlcg {
    /// The value of the current raw state.
    pub closed spec fn spec_state(self) -> nat {
        big_value(self.state)
    }

    /// The value of the seed.
    pub closed spec fn spec_seed(self) -> nat {
        big_value(self.seed)
    }

    /// The value of the multiplier.
    pub closed spec fn spec_mult(self) -> nat {
        big_value(self.mult_factor)
    }

    /// The value of the modulus.
    pub closed spec fn spec_mod(self) -> nat {
        big_value(self.mod_factor)
    }

    /// The configured output width.
    pub closed spec fn spec_size(self) -> u64 {
        self.size
    }

    /// A usable generator: a positive modulus and a positive output width.
    pub open spec fn wf(self) -> bool {
        self.spec_mod() > 0 && self.spec_size() >= 1
    }

    /// Advance from the seed until the state reaches half the modulus, so
    /// that early outputs expose neither the seed nor the multiplier.
    fn warm_up(s: &BigUint, mu: &BigUint, mo: &BigUint) -> (r: BigUint)
        requires
            big_value(*mo) > 0,
            warms_up(big_value(*s), big_value(*mu), big_value(*mo)),
        ensures
            big_value(r) == warmed(big_value(*s), big_value(*mu), big_value(*mo)),
    {
        let ghost s0 = big_value(*s);
        let ghost muv = big_value(*mu);
        let ghost mov = big_value(*mo);
        let ghost n_warm: nat = choose|n: nat| warm_point(s0, muv, mov, n);
        let mut cur = big_clone(s);
        let ghost mut i: nat = 0;
        loop
            invariant
                big_value(*mu) == muv,
                big_value(*mo) == mov,
                mov > 0,
                warm_point(s0, muv, mov, n_warm),
                big_value(cur) == mlcg_iter(s0, muv, mov, i),
                forall|m: nat| m < i ==> 2 * mlcg_iter(s0, muv, mov, m) < mov,
                i <= n_warm,
            ensures
                big_value(cur) == warmed(s0, muv, mov),
            decreases n_warm - i,
        {
            let doubled = big_shl(&cur, 1);
            proof {
                lemma2_to64();
                assert(big_value(doubled) == 2 * big_value(cur));
            }
            if !big_lt(&doubled, mo) {
                proof {
                    assert(warm_point(s0, muv, mov, i));
                    assert(warm_point(s0, muv, mov, warm_steps(s0, muv, mov)));
                    lemma_warm_point_unique(s0, muv, mov, i, warm_steps(s0, muv, mov));
                }
                break;
            }
            cur = big_rem(&big_mul(&cur, mu), mo);
            proof {
                if i == n_warm {
                    assert(2 * mlcg_iter(s0, muv, mov, n_warm) >= mov);
                }
                i = i + 1;
            }
        }
        cur
    }

    /// Construct from an explicit seed, multiplier `mu` and modulus `mo`,
    /// drawing values of `size` bits; warm-up runs before the first draw.
    pub fn new_from_seed(mu: BigUint, mo: BigUint, size: u64, s: &BigUint) -> (r: Self)
        requires
            big_value(mo) > 0,
            size >= 1,
            warms_up(big_value(*s), big_value(mu), big_value(mo)),
        ensures
            r.wf(),
            r.spec_mult() == big_value(mu),
            r.spec_mod() == big_value(mo),
            r.spec_seed() == big_value(*s),
            r.spec_size() == size,
            r.spec_state() == warmed(big_value(*s), big_value(mu), big_value(mo)),
    {
        let state = Self::warm_up(s, &mu, &mo);
        Mlcg { state, seed: big_clone(s), mult_factor: mu, mod_factor: mo, size }
    }

    /// Construct from an explicit seed with a Mersenne modulus `2^mer - 1`.
    pub fn new_mersene_from_seed(mu: BigUint, mer: u32, size: u64, s: &BigUint) -> (r: Self)
        requires
            mer >= 1,
            size >= 1,
            warms_up(big_value(*s), big_value(mu), (pow2(mer as nat) - 1) as nat),
        ensures
            r.wf(),
            r.spec_mult() == big_value(mu),
            r.spec_mod() == pow2(mer as nat) - 1,
            r.spec_seed() == big_value(*s),
            r.spec_size() == size,
            r.spec_state() == warmed(big_value(*s), big_value(mu), (pow2(mer as nat) - 1) as nat),
    {
        proof {
            lemma2_to64();
            lemma_pow2_strictly_increases(0, mer as nat);
        }
        let one = big_from_u64(1);
        let mo = big_sub(&big_shl(&one, mer as u64), &one);
        Self::new_from_seed(mu, mo, size, s)
    }

    /// Construct with the crate's default parameters: multiplier 16807 and
    /// Mersenne modulus `2^31 - 1`.
    pub fn new_std(size: u64, s: &BigUint) -> (r: Self)
        requires
            size >= 1,
            warms_up(big_value(*s), 16807, (pow2(31) - 1) as nat),
        ensures
            r.wf(),
            r.spec_mult() == 16807,
            r.spec_mod() == pow2(31) - 1,
            r.spec_seed() == big_value(*s),
            r.spec_size() == size,
            r.spec_state() == warmed(big_value(*s), 16807, (pow2(31) - 1) as nat),
    {
        Self::new_mersene_from_seed(big_from_u64(16807), 31, size, s)
    }

    /// The last raw value the generator computed.
    pub fn value(&self) -> (r: BigUint)
        ensures
            big_value(r) == self.spec_state(),
    {
        big_clone(&self.state)
    }

    /// The seed the generator was constructed from.
    pub fn seed(&self) -> (r: BigUint)
        ensures
            big_value(r) == self.spec_seed(),
    {
        big_clone(&self.seed)
    }

    /// Advance the state one step and return the new raw state.
    fn calculate_next(&mut self) -> (r: BigUint)
        requires
            old(self).wf(),
        ensures
            final(self).wf(),
            final(self).spec_state() == (old(self).spec_state() * old(self).spec_mult()) % old(
                self,
            ).spec_mod(),
            final(self).spec_seed() == old(self).spec_seed(),
            final(self).spec_mult() == old(self).spec_mult(),
            final(self).spec_mod() == old(self).spec_mod(),
            final(self).spec_size() == old(self).spec_size(),
            big_value(r) == final(self).spec_state(),
    {
        let next = big_rem(&big_mul(&self.state, &self.mult_factor), &self.mod_factor);
        self.state = next;
        self.value()
    }

    /// Draw the next pseudorandom value: advance the state one step, then
    /// project it to exactly `size` significant bits.
    pub fn rand(&mut self) -> (r: BigUint)
        requires
            old(self).wf(),
        ensures
            final(self).wf(),
            final(self).spec_state() == (old(self).spec_state() * old(self).spec_mult()) % old(
                self,
            ).spec_mod(),
            final(self).spec_seed() == old(self).spec_seed(),
            final(self).spec_mult() == old(self).spec_mult(),
            final(self).spec_mod() == old(self).spec_mod(),
            final(self).spec_size() == old(self).spec_size(),
            big_value(r) == project(final(self).spec_state(), final(self).spec_size() as nat),
            pow2((final(self).spec_size() - 1) as nat) <= big_value(r) < pow2(
                final(self).spec_size() as nat,
            ),
    {
        let temp = self.calculate_next();
        project_width(&temp, self.size)
    }
}

/// Determinism of the MLCG: the whole draw sequence is a function of the
/// construction parameters alone, so two identically-constructed generators
/// produce identical values on every draw.
pub proof fn lemma_mlcg_determinism(a: Mlcg, b: Mlcg)
    requires
        a.wf(),
        b.wf(),
        a.spec_seed() == b.spec_seed(),
        a.spec_mult() == b.spec_mult(),
        a.spec_mod() == b.spec_mod(),
        a.spec_size() == b.spec_size(),
        a.spec_state() == warmed(a.spec_seed(), a.spec_mult(), a.spec_mod()),
        b.spec_state() == warmed(b.spec_seed(), b.spec_mult(), b.spec_mod()),
    ensures
        a.spec_state() == b.spec_state(),
        forall|n: nat|
            mlcg_draw(a.spec_seed(), a.spec_mult(), a.spec_mod(), a.spec_size() as nat, n)
                == mlcg_draw(b.spec_seed(), b.spec_mult(), b.spec_mod(), b.spec_size() as nat, n),
{
}

/// The binary combining operation of a lagged Fibonacci generator: a closed
/// set of strategies the caller picks from.
#[derive(Clone, Copy)]
pub enum LfOp {
    /// Multiply the two lagged entries.
    Mul,
    /// Add the two lagged entries.
    Add,
    /// Bitwise-xor the two lagged entries.
    Xor,
}

/// What the chosen operation computes on the values of two entries.
pub open spec fn lf_op_apply(op: LfOp, a: nat, b: nat) -> nat {
    match op {
        LfOp::Mul => a * b,
        LfOp::Add => a + b,
        LfOp::Xor => nat_xor(a, b),
    }
}

/// Apply the chosen operation to two stored entries.
fn apply_lf_op(op: LfOp, a: &BigUint, b: &BigUint) -> (r: BigUint)
    ensures
        big_value(r) == lf_op_apply(op, big_value(*a), big_value(*b)),
{
    match op {
        LfOp::Mul => big_mul(a, b),
        LfOp::Add => big_add(a, b),
        LfOp::Xor => big_xor(a, b),
    }
}

/// The values a sequence of stored entries holds.
pub open spec fn big_values(s: Seq<BigUint>) -> Seq<nat> {
    s.map_values(|b: BigUint| big_value(b))
}

/// The near lag after normalization: the two lags are swapped into order,
/// and on a tie the near lag is decremented.
pub open spec fn norm_j(j: nat, k: nat) -> nat {
    if j > k {
        k
    } else if j == k {
        (j - 1) as nat
    } else {
        j
    }
}

/// The far lag after normalization: the larger of the two.
pub open spec fn norm_k(j: nat, k: nat) -> nat {
    if j > k {
        j
    } else {
        k
    }
}

/// Lag normalization: whatever order the caller supplies positive lags in,
/// the normalized near and far lags satisfy `0 < j < k`. (Both lags equal to
/// one is the lone degenerate input and is ruled out.)
pub proof fn lemma_lf_lag_normalization(j: nat, k: nat)
    requires
        1 <= j,
        1 <= k,
        !(j == 1 && k == 1),
    ensures
        0 < norm_j(j, k) < norm_k(j, k),
{
}

/// Padding entry number `m` (in draw order), used when the caller's history
/// is shorter than the far lag: a draw of the internal MLCG (multiplier
/// 16087, Mersenne modulus `2^31 - 1`) with the low bit forced to one.
pub open spec fn lf_pad_value(seed: nat, size: nat, m: nat) -> nat {
    nat_or(mlcg_draw(seed, 16087, (pow2(31) - 1) as nat, size, m), 1)
}

/// The history right after construction: the most recent `kk` caller
/// entries when more were given; otherwise the caller's entries, left-padded
/// with forced-odd internal draws (the later the draw, the further left it
/// stands).
pub open spec fn lf_initial_history(orig: Seq<nat>, kk: nat, seed: nat, size: nat) -> Seq<nat> {
    if orig.len() >= kk {
        orig.subrange(orig.len() - kk, orig.len() as int)
    } else {
        Seq::new(
            kk,
            |i: int|
                if i < kk - orig.len() {
                    lf_pad_value(seed, size, (kk - orig.len() - 1 - i) as nat)
                } else {
                    orig[i - (kk - orig.len())]
                },
        )
    }
}

/// Lagged Fibonacci generator: a sliding window of the `ele_k` most recent
/// values; each draw combines the entries at the two lag distances, reduces
/// the result by the modulus, evicts the oldest entry and appends the new
/// one.
pub struct LaggedFibonacci {
    /// The operation combining the two lagged entries.
    operation: LfOp,
    /// The seed of the generator; it also seeds the internal padding MLCG.
    seed: BigUint,
    /// The history window, oldest entry first.
    states: Vec<BigUint>,
    /// The near lag: a draw reads the entry `ele_j` places from the end.
    ele_j: usize,
    /// The far lag, equal to the history length.
    ele_k: usize,
    /// The modulus reducing every new entry.
    mod_factor: BigUint,
    /// The bit width of the drawn values.
    size: u64,
}

impl LaggedFibonacci {
    /// The chosen combining operation.
    pub closed spec fn spec_op(self) -> LfOp {
        self.operation
    }

    /// The value of the seed.
    pub closed spec fn spec_seed(self) -> nat {
        big_value(self.seed)
    }

    /// The values in the history window, oldest first.
    pub closed spec fn spec_history(self) -> Seq<nat> {
        big_values(self.states@)
    }

    /// The near lag.
    pub closed spec fn spec_j(self) -> nat {
        self.ele_j as nat
    }

    /// The far lag.
    pub closed spec fn spec_k(self) -> nat {
        self.ele_k as nat
    }

    /// The value of the modulus.
    pub closed spec fn spec_mod(self) -> nat {
        big_value(self.mod_factor)
    }

    /// The configured output width.
    pub closed spec fn spec_size(self) -> u64 {
        self.size
    }

    /// A usable generator: normalized lags, a history window of exactly the
    /// far lag's length, a positive modulus and a positive output width.
    pub open spec fn wf(self) -> bool {
        0 < self.spec_j() < self.spec_k() && self.spec_history().len() == self.spec_k()
            && self.spec_mod() > 0 && self.spec_size() >= 1
    }

    /// Repair the caller-supplied lags and history: order the lags, break a
    /// tie, keep only the most recent `ele_k` entries of an overlong
    /// history, and left-pad a short one with forced-odd draws of an
    /// internal MLCG seeded from this generator's own seed.
    fn check_initialization(&mut self)
        requires
            1 <= old(self).spec_j(),
            1 <= old(self).spec_k(),
            !(old(self).spec_j() == 1 && old(self).spec_k() == 1),
            old(self).spec_mod() > 0,
            old(self).spec_size() >= 1,
            old(self).spec_history().len() < norm_k(old(self).spec_j(), old(self).spec_k())
                ==> warms_up(old(self).spec_seed(), 16087, (pow2(31) - 1) as nat),
        ensures
            final(self).wf(),
            final(self).spec_op() == old(self).spec_op(),
            final(self).spec_seed() == old(self).spec_seed(),
            final(self).spec_mod() == old(self).spec_mod(),
            final(self).spec_size() == old(self).spec_size(),
            final(self).spec_j() == norm_j(old(self).spec_j(), old(self).spec_k()),
            final(self).spec_k() == norm_k(old(self).spec_j(), old(self).spec_k()),
            final(self).spec_history() == lf_initial_history(
                old(self).spec_history(),
                norm_k(old(self).spec_j(), old(self).spec_k()),
                old(self).spec_seed(),
                old(self).spec_size() as nat,
            ),
    {
        let ghost orig = big_values(old(self).states@);
        if self.ele_j > self.ele_k {
            let t = self.ele_j;
            self.ele_j = self.ele_k;
            self.ele_k = t;
        } else if self.ele_j == self.ele_k {
            self.ele_j = self.ele_j - 1;
        }
        let ghost jj = self.ele_j;
        let ghost kk = self.ele_k;
        let ghost op0 = self.operation;
        let ghost s0 = big_value(self.seed);
        let ghost mo0 = big_value(self.mod_factor);
        let ghost sz0 = self.size;
        while self.states.len() > self.ele_k
            invariant
                self.ele_j == jj,
                self.ele_k == kk,
                self.operation == op0,
                big_value(self.seed) == s0,
                big_value(self.mod_factor) == mo0,
                self.size == sz0,
                self.states@.len() <= orig.len(),
                self.states@.len() >= self.ele_k || self.states@.len() == orig.len(),
                forall|x: int|
                    0 <= x < self.states@.len() ==> big_values(self.states@)[x] == orig[orig.len()
                        - self.states@.len() + x],
            decreases self.states@.len(),
        {
            let ghost prev = self.states@;
            let _dropped = self.states.remove(0);
            proof {
                assert forall|x: int|
                    0 <= x < self.states@.len() implies big_values(self.states@)[x] == orig[orig.len()
                    - self.states@.len() + x] by {
                    assert(self.states@[x] == prev[x + 1]);
                    assert(big_values(prev)[x + 1] == orig[orig.len() - prev.len() + (x + 1)]);
                }
            }
        }
        if self.states.len() < self.ele_k {
            let one = big_from_u64(1);
            let sixteen_zero_eight_seven = big_from_u64(16087);
            let seed_copy = big_clone(&self.seed);
            let mut temp = Mlcg::new_mersene_from_seed(
                sixteen_zero_eight_seven,
                31,
                self.size,
                &seed_copy,
            );
            let ghost base = big_values(self.states@);
            let ghost w0 = warmed(s0, 16087, (pow2(31) - 1) as nat);
            while self.states.len() < self.ele_k
                invariant
                    self.ele_j == jj,
                    self.ele_k == kk,
                    self.operation == op0,
                    big_value(self.seed) == s0,
                    big_value(self.mod_factor) == mo0,
                    self.size == sz0,
                    sz0 >= 1,
                    big_value(one) == 1,
                    temp.wf(),
                    temp.spec_mult() == 16087,
                    temp.spec_mod() == (pow2(31) - 1) as nat,
                    temp.spec_size() == sz0,
                    w0 == warmed(s0, 16087, (pow2(31) - 1) as nat),
                    base.len() <= self.states@.len() <= self.ele_k,
                    temp.spec_state() == mlcg_iter(
                        w0,
                        16087,
                        (pow2(31) - 1) as nat,
                        (self.states@.len() - base.len()) as nat,
                    ),
                    forall|x: int|
                        0 <= x < self.states@.len() - base.len() ==> big_values(self.states@)[x]
                            == lf_pad_value(
                            s0,
                            sz0 as nat,
                            (self.states@.len() - base.len() - 1 - x) as nat,
                        ),
                    forall|x: int|
                        self.states@.len() - base.len() <= x < self.states@.len() ==> big_values(
                            self.states@,
                        )[x] == base[x - (self.states@.len() - base.len())],
                decreases self.ele_k - self.states@.len(),
            {
                let ghost pads = (self.states@.len() - base.len()) as nat;
                let ghost prev = self.states@;
                let v = temp.rand();
                let padded = big_or(&v, &one);
                self.states.insert(0, padded);
                proof {
                    assert(mlcg_iter(w0, 16087, (pow2(31) - 1) as nat, pads + 1) == (mlcg_iter(
                        w0,
                        16087,
                        (pow2(31) - 1) as nat,
                        pads,
                    ) * 16087) % ((pow2(31) - 1) as nat));
                    assert(big_value(v) == project(
                        mlcg_iter(w0, 16087, (pow2(31) - 1) as nat, pads + 1),
                        sz0 as nat,
                    ));
                    assert(warmed(s0, 16087, (pow2(31) - 1) as nat) == w0);
                    assert(big_value(v) == mlcg_draw(s0, 16087, (pow2(31) - 1) as nat, sz0 as nat, pads));
                    assert(self.states@ == prev.insert(0, padded));
                    assert(big_values(self.states@)[0] == lf_pad_value(s0, sz0 as nat, pads));
                    assert forall|x: int|
                        1 <= x < self.states@.len() implies big_values(self.states@)[x]
                        == big_values(prev)[x - 1] by {
                        assert(self.states@[x] == prev[x - 1]);
                    }
                }
            }
        }
        proof {
            let kn = norm_k(old(self).spec_j(), old(self).spec_k());
            assert(self.states@.len() == kn);
            assert(big_values(self.states@) =~= lf_initial_history(
                orig,
                kn,
                s0,
                sz0 as nat,
            ));
        }
    }

    /// Construct from an explicit seed: the lags are normalized and the
    /// initial history is truncated or padded to exactly the far lag's
    /// length before the first draw.
    pub fn new_from_seed(
        elements: Vec<BigUint>,
        j: u16,
        k: u16,
        mo: BigUint,
        op: LfOp,
        size: u64,
        s: &BigUint,
    ) -> (r: Self)
        requires
            big_value(mo) > 0,
            size >= 1,
            j >= 1,
            k >= 1,
            !(j == 1 && k == 1),
            elements@.len() < norm_k(j as nat, k as nat) ==> warms_up(
                big_value(*s),
                16087,
                (pow2(31) - 1) as nat,
            ),
        ensures
            r.wf(),
            r.spec_op() == op,
            r.spec_seed() == big_value(*s),
            r.spec_mod() == big_value(mo),
            r.spec_size() == size,
            r.spec_j() == norm_j(j as nat, k as nat),
            r.spec_k() == norm_k(j as nat, k as nat),
            r.spec_history() == lf_initial_history(
                big_values(elements@),
                norm_k(j as nat, k as nat),
                big_value(*s),
                size as nat,
            ),
    {
        let mut temp = LaggedFibonacci {
            operation: op,
            seed: big_clone(s),
            states: elements,
            ele_j: j as usize,
            ele_k: k as usize,
            mod_factor: mo,
            size,
        };
        temp.check_initialization();
        temp
    }

    /// The most recently stored entry.
    pub fn value(&self) -> (r: BigUint)
        requires
            self.wf(),
        ensures
            big_value(r) == self.spec_history().last(),
    {
        big_clone(&self.states[self.states.len() - 1])
    }

    /// The seed the generator was constructed from.
    pub fn seed(&self) -> (r: &BigUint)
        ensures
            big_value(*r) == self.spec_seed(),
    {
        &self.seed
    }

    /// What the next draw appends to the history: the entries at the two
    /// lag distances combined and reduced by the modulus.
    pub open spec fn spec_next(self) -> nat
        recommends
            self.wf(),
    {
        lf_op_apply(
            self.spec_op(),
            self.spec_history()[self.spec_history().len() - self.spec_j()],
            self.spec_history()[0],
        ) % self.spec_mod()
    }

    /// Draw the next pseudorandom value: combine the two lagged entries,
    /// slide the window, and project the new entry to exactly `size`
    /// significant bits.
    pub fn rand(&mut self) -> (r: BigUint)
        requires
            old(self).wf(),
        ensures
            final(self).wf(),
            final(self).spec_op() == old(self).spec_op(),
            final(self).spec_seed() == old(self).spec_seed(),
            final(self).spec_mod() == old(self).spec_mod(),
            final(self).spec_size() == old(self).spec_size(),
            final(self).spec_j() == old(self).spec_j(),
            final(self).spec_k() == old(self).spec_k(),
            final(self).spec_history() == old(self).spec_history().skip(1).push(
                old(self).spec_next(),
            ),
            big_value(r) == project(old(self).spec_next(), old(self).spec_size() as nat),
            pow2((old(self).spec_size() - 1) as nat) <= big_value(r) < pow2(
                old(self).spec_size() as nat,
            ),
    {
        let idx = self.states.len() - self.ele_j;
        let lag_near = big_clone(&self.states[idx]);
        let lag_far = self.states.remove(0);
        let combined = apply_lf_op(self.operation, &lag_near, &lag_far);
        let next = big_rem(&combined, &self.mod_factor);
        let out = project_width(&next, self.size);
        self.states.push(next);
        proof {
            assert(big_values(self.states@) =~= old(self).spec_history().skip(1).push(
                old(self).spec_next(),
            ));
        }
        out
    }
}


/// Determinism of the lagged Fibonacci generator: identical operation,
/// history, lags, modulus and width give an identical next entry and an
/// identical successor window, hence identical draw sequences.
pub proof fn lemma_lf_determinism(a: LaggedFibonacci, b: LaggedFibonacci)
    requires
        a.wf(),
        b.wf(),
        a.spec_op() == b.spec_op(),
        a.spec_history() == b.spec_history(),
        a.spec_j() == b.spec_j(),
        a.spec_k() == b.spec_k(),
        a.spec_mod() == b.spec_mod(),
        a.spec_size() == b.spec_size(),
    ensures
        a.spec_next() == b.spec_next(),
        a.spec_history().skip(1).push(a.spec_next()) == b.spec_history().skip(1).push(
            b.spec_next(),
        ),
{
}


} // verus!
