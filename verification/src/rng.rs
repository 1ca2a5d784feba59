//! Deterministic pseudo-random stream.
//!
//! A 64-bit mixing generator with an exactly specified transition, so a
//! render seeded from pixel coordinates is bit-reproducible; an
//! entropy-seeded stream gives the varying mode.

use vstd::prelude::*;
use crate::fx::FX_ONE;

verus! {

/// Multiply modulo 2^64.
pub open spec fn wmul(a: u64, b: u64) -> u64 {
    ((a as int * b as int) % 0x1_0000_0000_0000_0000) as u64
}

/// Add modulo 2^64.
pub open spec fn wadd(a: u64, b: u64) -> u64 {
    ((a as int + b as int) % 0x1_0000_0000_0000_0000) as u64
}

/// The next stream state.
pub open spec fn rng_next_state(s: u64) -> u64 {
    wadd(s, 0x9E3779B97F4A7C15)
}

/// The value mixed out of a state.
pub open spec fn rng_output(s: u64) -> u64 {
    let z0 = rng_next_state(s);
    let z1 = wmul(z0 ^ (z0 >> 30), 0xBF58476D1CE4E5B9);
    let z2 = wmul(z1 ^ (z1 >> 27), 0x94D049BB133111EB);
    z2 ^ (z2 >> 31)
}

pub struct Rng {
    pub state: u64,
}

/// Multiply modulo 2^64 on the machine.
fn wmul_exec(a: u64, b: u64) -> (r: u64)
    ensures
        r == wmul(a, b),
{
    proof {
        crate::fx::lemma_mul_bounds(a as int, b as int, 0xFFFF_FFFF_FFFF_FFFF, 0xFFFF_FFFF_FFFF_FFFF);
    }
    let p: u128 = (a as u128) * (b as u128);
    (p % 0x1_0000_0000_0000_0000u128) as u64
}

/// Add modulo 2^64 on the machine.
fn wadd_exec(a: u64, b: u64) -> (r: u64)
    ensures
        r == wadd(a, b),
{
    let p: u128 = (a as u128) + (b as u128);
    (p % 0x1_0000_0000_0000_0000u128) as u64
}

impl Rng {
    pub fn new(seed: u64) -> (r: Rng)
        ensures
            r.state == seed,
    {
        Rng { state: seed }
    }

    /// Advance the stream and mix the next 64-bit value out of it.
    pub fn next_u64(&mut self) -> (r: u64)
        ensures
            final(self).state == rng_next_state(old(self).state),
            r == rng_output(old(self).state),
    {
        let z0 = wadd_exec(self.state, 0x9E3779B97F4A7C15);
        self.state = z0;
        let z1 = wmul_exec(z0 ^ (z0 >> 30u64), 0xBF58476D1CE4E5B9);
        let z2 = wmul_exec(z1 ^ (z1 >> 27u64), 0x94D049BB133111EB);
        z2 ^ (z2 >> 31u64)
    }

    /// A fixed-point sample in `[0, FX_ONE)`: the top 16 bits of the next
    /// stream value.
    pub fn next_unit(&mut self) -> (r: i64)
        ensures
            final(self).state == rng_next_state(old(self).state),
            r == (rng_output(old(self).state) >> 48) as i64,
            0 <= r < FX_ONE,
    {
        let v = self.next_u64();
        proof {
            assert(v >> 48 < 65536u64) by (bit_vector);
        }
        (v >> 48u64) as i64
    }
}

} // verus!
