//! The droplet stream: SplitMix64.
use crate::noise::{finalize, finalized, multiply, wrapped_add, wrapped_mul, PRIME_X};
use vstd::arithmetic::div_mod::{lemma_add_mod_noop, lemma_small_mod};
use vstd::prelude::*;

verus! {

/// A stream of numbers that its seed fixes.
#[derive(Clone, Copy, Debug, PartialEq, Eq, Structural)]
pub struct SplitMix64 {
    pub state: u64,
}

/// The state after `n` draws from `seed`.
pub open spec fn state_after(seed: u64, n: int) -> u64 {
    ((seed + n * PRIME_X) % 0x1_0000_0000_0000_0000) as u64
}

/// Draw `n` from `seed`, counting from 0.
pub open spec fn drawn(seed: u64, n: int) -> u64 {
    finalized(state_after(seed, n + 1))
}

/// Draw `n` from `seed` as a fraction: its top 24 bits, in units of 2^-24.
pub open spec fn drawn_unit(seed: u64, n: int) -> u32 {
    (drawn(seed, n) >> 40u64) as u32
}

impl SplitMix64 {
    /// The stream of a seed.
    pub fn new(seed: u64) -> (r: Self)
        ensures
            r.state == seed,
            r.state == state_after(seed, 0),
    {
        SplitMix64 { state: seed }
    }

    /// The next number.
    pub fn next_u64(&mut self) -> (r: u64)
        ensures
            final(self).state == wrapped_add(old(self).state, PRIME_X),
            r == finalized(final(self).state),
            r == drawn(old(self).state, 0),
    {
        self.state = self.state.wrapping_add(PRIME_X);
        finalize(self.state)
    }

    /// The next fraction, in units of 2^-24.
    pub fn next_unit(&mut self) -> (r: u32)
        ensures
            final(self).state == wrapped_add(old(self).state, PRIME_X),
            r == drawn_unit(old(self).state, 0),
            r < 0x100_0000,
    {
        let z: u64 = self.next_u64();
        assert(z >> 40u64 < 0x100_0000u64) by (bit_vector);
        (z >> 40u64) as u32
    }
}

/// The seed of droplet `i`: its own, whatever the other droplets do.
pub open spec fn droplet_seed_of(base: u64, i: u64) -> u64 {
    wrapped_add(base, wrapped_mul(i, PRIME_X))
}

/// The seed of droplet `i`.
pub fn droplet_seed(base: u64, i: u64) -> (r: u64)
    ensures
        r == droplet_seed_of(base, i),
{
    base.wrapping_add(multiply(i, PRIME_X))
}

/// Drawing goes on where it stopped: draw `n` after `k` draws is draw `k + n` of the seed.
pub proof fn law_draws_continue(seed: u64, k: int, n: int)
    requires
        0 <= k,
        0 <= n,
    ensures
        state_after(state_after(seed, k), n) == state_after(seed, k + n),
        drawn(state_after(seed, k), n) == drawn(seed, k + n),
{
    lemma_state(seed, k, n);
    lemma_state(seed, k, n + 1);
}

proof fn lemma_state(seed: u64, k: int, n: int)
    ensures
        state_after(state_after(seed, k), n) == state_after(seed, k + n),
{
    let m = 0x1_0000_0000_0000_0000int;
    let a = seed + k * PRIME_X;
    let b = n * PRIME_X;
    assert(seed + (k + n) * PRIME_X == a + b) by (nonlinear_arith)
        requires
            a == seed + k * PRIME_X,
            b == n * PRIME_X,
    ;
    lemma_add_mod_noop(a, b, m);
    lemma_add_mod_noop(a % m, b, m);
    lemma_small_mod((a % m) as nat, m as nat);
}

/// Droplet `i` starts where `i` draws of one stream would: the droplets share one sequence, each
/// from its own place.
pub proof fn law_droplets_share_a_stream(base: u64, i: u64)
    ensures
        droplet_seed_of(base, i) == state_after(base, i as int),
{
    let m = 0x1_0000_0000_0000_0000int;
    let p = i as int * PRIME_X as int;
    lemma_add_mod_noop(base as int, p, m);
    lemma_add_mod_noop(base as int, p % m, m);
    lemma_small_mod((p % m) as nat, m as nat);
}

} // verus!
