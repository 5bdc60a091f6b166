//! A small deterministic random number generator (PCG-XSH-RR).
//!
//! Sound selection needs shuffling, not cryptography, and it has to be reproducible in
//! tests.

use vstd::prelude::*;

use crate::clock::epoch_nanos;

verus! {

/// The multiplier of the underlying linear congruential generator.
pub const PCG_MULTIPLIER: u64 = 6_364_136_223_846_793_005;

/// The seed used when the clock cannot be read.
pub const FALLBACK_SEED: u64 = 0x853c_49e6_748f_ea9b;

/// How many candidates one bounded draw may reject before it takes the last one. The
/// generator's period is 2^64, so a uniform draw never comes near it.
pub const MAX_REJECTIONS: u64 = 0xffff_ffff_ffff_ffff;

pub struct Rng {
    state: u64,
    increment: u64,
}

/// The state after one step.
#[verifier::opaque]
pub open spec fn advance(state: u64, increment: u64) -> u64 {
    state.wrapping_mul(PCG_MULTIPLIER).wrapping_add(increment)
}

/// `x` rotated right by `r` bits, for `r < 32`.
pub open spec fn rotate_right(x: u32, r: u32) -> u32 {
    if r == 0 {
        x
    } else {
        (x >> r) | (x << ((32 - r) as u32))
    }
}

/// The output drawn from a state: the xorshifted high bits, rotated by the top five.
#[verifier::opaque]
pub open spec fn output(state: u64) -> u32 {
    rotate_right((((state >> 18u64) ^ state) >> 27u64) as u32, (state >> 59u64) as u32)
}

/// The (state, increment) a seed produces.
pub open spec fn seeded(seed: u64) -> (u64, u64) {
    let increment = (seed << 1u64) | 1u64;
    let first = advance(0, increment);
    (advance(first.wrapping_add(seed), increment), increment)
}

/// The smallest candidate a draw below `bound` accepts: rejecting everything under it
/// leaves a whole number of copies of `0..bound`.
pub open spec fn rejection_floor(bound: u32) -> u32 {
    ((0x1_0000_0000 - bound) % (bound as int)) as u32
}

/// A draw below `bound` from `state`: the value and the state after it. At most `tries`
/// further candidates are rejected.
pub open spec fn draw_below(state: u64, increment: u64, bound: u32, tries: nat) -> (u32, u64)
    decreases tries,
{
    let candidate = output(state);
    let next = advance(state, increment);
    if candidate >= rejection_floor(bound) || tries == 0 {
        ((candidate % bound) as u32, next)
    } else {
        draw_below(next, increment, bound, (tries - 1) as nat)
    }
}

impl Rng {
    pub closed spec fn state(&self) -> u64 {
        self.state
    }

    pub closed spec fn increment(&self) -> u64 {
        self.increment
    }

    pub fn from_seed(seed: u64) -> (rng: Self)
        ensures
            (rng.state(), rng.increment()) == seeded(seed),
    {
        let mut rng = Rng { state: 0, increment: (seed << 1u64) | 1u64 };
        rng.next_u32();
        rng.state = rng.state.wrapping_add(seed);
        rng.next_u32();
        rng
    }

    /// Seeded from the system clock. Used in the running application, never in tests.
    /// Which seed the clock gives is not known in advance; that it is a seeded generator
    /// is.
    pub fn from_entropy() -> (rng: Self)
        ensures
            exists|seed: u64| (rng.state(), rng.increment()) == #[trigger] seeded(seed),
    {
        let seed = match epoch_nanos() {
            Some(nanos) => nanos,
            None => FALLBACK_SEED,
        };
        Self::from_seed(seed)
    }

    pub fn next_u32(&mut self) -> (value: u32)
        ensures
            value == output(old(self).state()),
            final(self).state() == advance(old(self).state(), old(self).increment()),
            final(self).increment() == old(self).increment(),
    {
        proof {
            reveal(advance);
            reveal(output);
        }
        let old = self.state;
        self.state = old.wrapping_mul(PCG_MULTIPLIER).wrapping_add(self.increment);
        let xorshifted = (((old >> 18u64) ^ old) >> 27u64) as u32;
        let rot = (old >> 59u64) as u32;
        assert(rot < 32) by (bit_vector)
            requires
                rot == (old >> 59u64) as u32,
        ;
        if rot == 0 {
            xorshifted
        } else {
            (xorshifted >> rot) | (xorshifted << (32 - rot))
        }
    }

    /// Uniform in `0..bound`; 0 when `bound` is 0 or 1.
    ///
    /// Rejection sampling keeps the distribution uniform instead of biased towards low
    /// values by a plain modulo. The bound is taken modulo 2^32.
    pub fn below(&mut self, bound: usize) -> (value: usize)
        requires
            bound <= 1 || (bound as u32) != 0,
        ensures
            final(self).increment() == old(self).increment(),
            bound <= 1 ==> value == 0 && final(self).state() == old(self).state(),
            bound > 1 ==> {
                let (drawn, next) = draw_below(
                    old(self).state(),
                    old(self).increment(),
                    bound as u32,
                    MAX_REJECTIONS as nat,
                );
                &&& value == drawn
                &&& final(self).state() == next
                &&& value < bound
            },
    {
        if bound <= 1 {
            return 0;
        }
        let bound32 = bound as u32;
        assert(bound32 as usize <= bound) by (bit_vector)
            requires
                bound32 == bound as u32,
        ;
        let threshold = ((0x1_0000_0000u64 - bound32 as u64) % bound32 as u64) as u32;
        assert(threshold == rejection_floor(bound32));
        let ghost start = self.state;
        let ghost increment = self.increment;
        let mut tries: u64 = MAX_REJECTIONS;
        loop
            invariant
                bound > 1,
                bound32 == bound as u32,
                bound32 > 0,
                bound32 as usize <= bound,
                threshold == rejection_floor(bound32),
                self.increment() == increment,
                increment == old(self).increment(),
                draw_below(start, increment, bound32, MAX_REJECTIONS as nat) == draw_below(
                    self.state(),
                    increment,
                    bound32,
                    tries as nat,
                ),
                start == old(self).state(),
            decreases tries,
        {
            let ghost before = self.state();
            let candidate = self.next_u32();
            assert(draw_below(before, increment, bound32, tries as nat) == if candidate >= threshold
                || tries == 0 {
                ((candidate % bound32) as u32, self.state())
            } else {
                draw_below(self.state(), increment, bound32, (tries - 1) as nat)
            });
            if candidate >= threshold || tries == 0 {
                return (candidate % bound32) as usize;
            }
            tries = tries - 1;
        }
    }
}


/// Adding `2^63` to a state always changes the next one: the multiplier is odd.
proof fn lemma_half_turn_changes_the_step(x: u64, y: u64, increment: u64)
    requires
        x as int == y + 0x8000_0000_0000_0000,
    ensures
        advance(x, increment) != advance(y, increment),
{
    reveal(advance);
    let m = PCG_MULTIPLIER as int;
    let r = 0x1_0000_0000_0000_0000int;
    let k = (m - 1) / 2;
    assert(m == 2 * k + 1);
    assert(x * m == y * m + r * k + 0x8000_0000_0000_0000);
    assert((x as nat * PCG_MULTIPLIER as nat) % (r as nat) != (y as nat * PCG_MULTIPLIER as nat) % (
        r as nat)) by (nonlinear_arith)
        requires
            x * m == y * m + r * k + 0x8000_0000_0000_0000,
            m == PCG_MULTIPLIER,
            r == 0x1_0000_0000_0000_0000int,
            0 <= y,
    {
        let q = (y * m) / r;
        let t = (y * m) % r;
        assert(y * m == q * r + t && 0 <= t < r);
        assert(x * m == (q + k) * r + t + 0x8000_0000_0000_0000);
    }
}

/// Different seeds give different generators: seeding loses no information.
pub proof fn lemma_distinct_seeds_distinct_generators(a: u64, b: u64)
    requires
        a != b,
    ensures
        seeded(a) != seeded(b),
{
    let ia = (a << 1u64) | 1u64;
    let ib = (b << 1u64) | 1u64;
    if ia == ib {
        assert(a as int == b + 0x8000_0000_0000_0000 || b as int == a + 0x8000_0000_0000_0000)
            by (bit_vector)
            requires
                (a << 1u64) | 1u64 == (b << 1u64) | 1u64,
                a != b,
        ;
        let first = advance(0, ia);
        let xa = first.wrapping_add(a);
        let xb = first.wrapping_add(b);
        if a as int == b + 0x8000_0000_0000_0000 {
            if xa as int == xb + 0x8000_0000_0000_0000 {
                lemma_half_turn_changes_the_step(xa, xb, ia);
            } else {
                assert(xb as int == xa + 0x8000_0000_0000_0000);
                lemma_half_turn_changes_the_step(xb, xa, ia);
            }
        } else {
            if xb as int == xa + 0x8000_0000_0000_0000 {
                lemma_half_turn_changes_the_step(xb, xa, ia);
            } else {
                assert(xa as int == xb + 0x8000_0000_0000_0000);
                lemma_half_turn_changes_the_step(xa, xb, ia);
            }
        }
    }
}

} // verus!
