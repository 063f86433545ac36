//! A 48-bit linear-congruential generator with the constants of
//! `java.util.Random`, and an unbiased bounded draw.
use vstd::prelude::*;
use vstd::arithmetic::div_mod::{lemma_mod_mod, lemma_add_mod_noop, lemma_mod_twice};

verus! {

pub const MULTIPLIER: u64 = 0x5DEECE66D;

pub const ADDEND: u64 = 0xB;

pub const MASK: u64 = 0xFFFF_FFFF_FFFF;

/// The number of states of the generator, `2^48`.
pub open spec fn modulus() -> nat {
    0x1_0000_0000_0000
}

/// The state that follows `s`.
pub open spec fn next_seed(s: nat) -> nat {
    ((s * MULTIPLIER as nat + ADDEND as nat) % modulus()) as nat
}

/// The `bits` high bits of a 48-bit state.
pub open spec fn high_bits(s: nat, bits: nat) -> nat {
    s / pow2((48 - bits) as nat)
}

pub open spec fn pow2(n: nat) -> nat
    decreases n,
{
    if n == 0 {
        1
    } else {
        2 * pow2((n - 1) as nat)
    }
}

/// The largest multiple of `bound` that a 32-bit draw must stay under to be
/// accepted, so that the remainder is uniform.
pub open spec fn accept_below(bound: nat) -> nat {
    (u32::MAX as nat - u32::MAX as nat % bound) as nat
}

/// The bounded draw from state `s`: draws are repeated until one falls under
/// `accept_below(bound)`, at most `fuel` times. Gives the result and the final state.
pub open spec fn bounded_draw(s: nat, bound: nat, fuel: nat) -> (nat, nat)
    decreases fuel,
{
    let s2 = next_seed(s);
    let v = s2 / 0x10000;
    if v < accept_below(bound) || fuel <= 1 {
        (v % bound, s2)
    } else {
        bounded_draw(s2, bound, (fuel - 1) as nat)
    }
}

/// How many draws a bounded draw makes at most: the generator's period, within
/// which every state, and so an accepted draw, comes round.
pub const DRAW_LIMIT: u64 = 0x1_0000_0000_0000;

pub struct Random {
    seed: u64,
}

proof fn lemma_step(seed: u64, s1: u64, s2: u64, s3: u64)
    requires
        s1 == (seed as nat * MULTIPLIER as nat) % 0x1_0000_0000_0000_0000,
        s2 == (s1 + ADDEND) % 0x1_0000_0000_0000_0000,
        s3 == s2 % 0x1_0000_0000_0000,
    ensures
        s3 == next_seed(seed as nat),
{
    let m: int = 0x1_0000_0000_0000;
    let big: int = 0x1_0000_0000_0000_0000;
    let a: int = seed as int * MULTIPLIER as int;
    assert(big == 0x10000 * m);
    lemma_mod_mod(a + ADDEND, m, 0x10000);
    lemma_mod_mod(s1 + ADDEND, m, 0x10000);
    lemma_add_mod_noop(a, ADDEND as int, big);
    lemma_mod_twice(ADDEND as int, big);
    assert((a % big + ADDEND as int) % big == (a + ADDEND) % big) by {
        vstd::arithmetic::div_mod::lemma_small_mod(ADDEND as nat, big as nat);
    }
}

impl Random {
    /// The current state, below `2^48`.
    pub closed spec fn state(&self) -> nat {
        self.seed as nat
    }

    pub closed spec fn wf(&self) -> bool {
        self.seed <= MASK
    }

    pub fn new(seed: u64) -> (r: Self)
        ensures
            r.wf(),
            r.state() == ((seed ^ MULTIPLIER) & MASK) as nat,
    {
        let s = (seed ^ MULTIPLIER) & MASK;
        assert(s <= MASK) by (bit_vector)
            requires
                s == (seed ^ MULTIPLIER) & MASK,
        ;
        Self { seed: s }
    }

    /// Advances the state and returns its `bits` high bits.
    pub fn next(&mut self, bits: u32) -> (r: u32)
        requires
            old(self).wf(),
            bits <= 32,
        ensures
            final(self).wf(),
            final(self).state() == next_seed(old(self).state()),
            r as nat == high_bits(final(self).state(), bits as nat),
    {
        let s1 = self.seed.wrapping_mul(MULTIPLIER);
        let s2 = s1.wrapping_add(ADDEND);
        let s3 = s2 & MASK;
        assert(s3 == s2 % 0x1_0000_0000_0000 && s3 <= MASK) by (bit_vector)
            requires
                s3 == s2 & MASK,
        ;
        proof {
            lemma_step(self.seed, s1, s2, s3);
        }
        self.seed = s3;
        let shift: u64 = (48 - bits) as u64;
        let v = s3 >> shift;
        proof {
            lemma_shift_is_div(s3, shift);
            lemma_pow2_bound(shift as nat, bits as nat);
            let p = pow2(shift as nat);
            assert(v as nat <= 0xFFFF_FFFF) by {
                vstd::arithmetic::div_mod::lemma_div_is_ordered(s3 as int, MASK as int, p as int);
                vstd::arithmetic::div_mod::lemma_div_is_ordered_by_denominator(MASK as int, 0x10000, p as int);
            }
        }
        v as u32
    }

    pub fn next_u32(&mut self) -> (r: u32)
        requires
            old(self).wf(),
        ensures
            final(self).wf(),
            final(self).state() == next_seed(old(self).state()),
            r as nat == final(self).state() / 0x10000,
    {
        let r = self.next(32);
        proof {
            reveal_with_fuel(pow2, 17);
        }
        r
    }

    /// Two 32-bit draws, the first in the high half.
    pub fn next_u64(&mut self) -> (r: u64)
        requires
            old(self).wf(),
        ensures
            final(self).wf(),
            final(self).state() == next_seed(next_seed(old(self).state())),
            r as nat == (next_seed(old(self).state()) / 0x10000) * 0x1_0000_0000
                + next_seed(next_seed(old(self).state())) / 0x10000,
    {
        let hi = self.next_u32() as u64;
        let lo = self.next_u32() as u64;
        let r = (hi << 32u64) | lo;
        assert(r == hi * 0x1_0000_0000 + lo) by (bit_vector)
            requires
                r == (hi << 32u64) | lo,
                hi <= 0xFFFF_FFFF,
                lo <= 0xFFFF_FFFF,
        ;
        r
    }

    /// A draw in `[0, bound)`, free of modulo bias: 32-bit draws falling at or
    /// above `accept_below(bound)` are rejected.
    pub fn next_u32_bounded(&mut self, bound: u32) -> (r: u32)
        requires
            old(self).wf(),
            bound > 0,
        ensures
            final(self).wf(),
            r < bound,
            (r as nat, final(self).state()) == bounded_draw(
                old(self).state(),
                bound as nat,
                DRAW_LIMIT as nat,
            ),
    {
        let limit = u32::MAX - u32::MAX % bound;
        let mut fuel: u64 = DRAW_LIMIT;
        loop
            invariant
                self.wf(),
                1 <= fuel <= DRAW_LIMIT,
                limit == accept_below(bound as nat),
                bound > 0,
                bounded_draw(self.state(), bound as nat, fuel as nat) == bounded_draw(
                    old(self).state(),
                    bound as nat,
                    DRAW_LIMIT as nat,
                ),
            decreases fuel,
        {
            let ghost s0 = self.state();
            let value = self.next_u32();
            if value < limit || fuel == 1 {
                return value % bound;
            }
            fuel = fuel - 1;
        }
    }
}

proof fn lemma_shift_is_div(x: u64, shift: u64)
    requires
        shift <= 48,
    ensures
        (x >> shift) as nat == x as nat / pow2(shift as nat),
    decreases shift,
{
    if shift == 0 {
        assert(x >> 0u64 == x) by (bit_vector);
        assert(pow2(0) == 1);
    } else {
        lemma_shift_is_div(x, (shift - 1) as u64);
        let y = x >> ((shift - 1) as u64);
        assert(x >> shift == y / 2) by (bit_vector)
            requires
                y == x >> ((shift - 1) as u64),
                1 <= shift <= 48,
        ;
        lemma_pow2_pos((shift - 1) as nat);
        vstd::arithmetic::div_mod::lemma_div_denominator(
            x as int,
            pow2((shift - 1) as nat) as int,
            2,
        );
        assert(pow2(shift as nat) == pow2((shift - 1) as nat) * 2);
    }
}

proof fn lemma_pow2_pos(n: nat)
    ensures
        pow2(n) > 0,
    decreases n,
{
    if n > 0 {
        lemma_pow2_pos((n - 1) as nat);
    }
}

/// A 48-bit value shifted right by `48 - bits` fits in 32 bits.
proof fn lemma_pow2_bound(shift: nat, bits: nat)
    requires
        shift + bits == 48,
        bits <= 32,
    ensures
        pow2(shift) >= 0x10000,
    decreases shift,
{
    reveal_with_fuel(pow2, 17);
    if shift > 16 {
        lemma_pow2_mono(16, shift);
    }
}

proof fn lemma_pow2_mono(a: nat, b: nat)
    requires
        a <= b,
    ensures
        pow2(a) <= pow2(b),
    decreases b,
{
    if a < b {
        lemma_pow2_mono(a, (b - 1) as nat);
        lemma_pow2_pos((b - 1) as nat);
    }
}

} // verus!
