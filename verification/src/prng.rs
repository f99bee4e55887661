//! A deterministic xorshift pseudo-random source.
//!
//! The same seed always yields the same sequence, which makes generation
//! reproducible. A seed of zero asks for a machine-entropy seed instead.

use vstd::prelude::*;
use crate::fixed::SCALE;

verus! {

/// One xorshift step: the whole behaviour of the generator is this pure
/// function of its current state.
pub open spec fn xorshift_step(n: u64) -> u64 {
    let a = n ^ (n << 13);
    let b = a ^ (a >> 7);
    b ^ (b << 17)
}

/// The fixed-point draw taken from a raw xorshift value: the high bits,
/// reduced into `[0, SCALE)`.
pub open spec fn draw_of(n: u64) -> u64 {
    (n >> 11) % SCALE
}

pub struct PRNG {
    seed: u64,
    number: u64,
}

/// Relies on rand::random::<u64>: one machine-entropy draw. Nothing is
/// promised of the value; callers state what holds of every outcome.
#[verifier::external_body]
fn entropy_u64() -> u64 {
    rand::random::<u64>()
}

impl PRNG {
    /// A generator seeded with `seed`, or with machine entropy when `seed`
    /// is zero.
    pub fn new(seed: u64) -> (r: PRNG)
        ensures
            seed != 0 ==> r.state() == seed,
    {
        let mut prng = PRNG { seed: 0, number: 0 };
        if seed == 0 {
            prng.generate_seed();
        } else {
            prng.set_seed(seed);
        }
        prng
    }

    /// The current internal state; every future draw is a function of it.
    pub closed spec fn state(self) -> u64 {
        self.number
    }

    pub fn set_seed(&mut self, seed: u64)
        ensures
            final(self).state() == seed,
    {
        self.number = seed;
        self.seed = seed;
    }

    /// Reseeds from machine entropy; the resulting state is arbitrary.
    pub fn generate_seed(&mut self) {
        let var: u64 = entropy_u64();
        self.number = var;
        self.seed = var;
    }

    /// Advances the state by one xorshift step and returns it.
    pub fn next_prn(&mut self) -> (r: u64)
        ensures
            final(self).state() == xorshift_step(old(self).state()),
            r == final(self).state(),
    {
        self.number = self.number ^ (self.number << 13u64);
        self.number = self.number ^ (self.number >> 7u64);
        self.number = self.number ^ (self.number << 17u64);
        self.number
    }

    /// A uniform fixed-point draw in `[0, SCALE)`.
    pub fn random(&mut self) -> (r: u64)
        ensures
            final(self).state() == xorshift_step(old(self).state()),
            r == draw_of(final(self).state()),
            r < SCALE,
    {
        let var = self.next_prn();
        (var >> 11u64) % SCALE
    }

    /// A bounded integer draw: `min` when `max < min`, else
    /// `min + floor(max * u)` for a uniform fixed-point `u` in `[0, 1)`.
    pub fn random_int(&mut self, min: i32, max: i32) -> (r: i32)
        requires
            min <= max ==> 0 <= max && min as int + max as int <= i32::MAX as int,
        ensures
            max < min ==> r == min && final(self).state() == old(self).state(),
            min <= max ==> {
                let d = draw_of(xorshift_step(old(self).state()));
                &&& final(self).state() == xorshift_step(old(self).state())
                &&& r == min + (max as int * d as int) / (SCALE as int)
            },
    {
        if max < min {
            return min;
        }
        let d = self.random();
        proof {
            assert(-1000000000000000000int <= max as int * d as int
                <= 1000000000000000000int) by (nonlinear_arith)
                requires
                    -0x80000000 <= max as int,
                    max as int <= 0x7fffffff,
                    0 <= d,
                    d < 1000000,
            ;
            assert(0 <= (max as int * d as int) / (SCALE as int) <= max as int)
                by (nonlinear_arith)
                requires
                    0 <= max as int,
                    0 <= d,
                    d < SCALE as int,
            ;
        }
        let delta: i64 = (max as i64) * (d as i64) / (SCALE as i64);
        min + (delta as i32)
    }
}

} // verus!
