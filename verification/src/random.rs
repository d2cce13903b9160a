//! Minimal PCG32 (XSH RR) pseudo-random generator.
use vstd::prelude::*;

verus! {

/// Multiplier of the 64-bit linear congruential step.
pub const PCG_MULTIPLIER: u64 = 6364136223846793005;

/// Seed state used by `Random::new`.
pub const SEED_STATE: u64 = 42;

/// Stream increment used by `Random::new`.
pub const SEED_INCREMENT: u64 = 54;

/// The LCG step: `state * multiplier + (increment | 1)` modulo 2^64.
pub open spec fn pcg_step(state: u64, increment: u64) -> u64 {
    ((state as int * PCG_MULTIPLIER as int + (increment | 1u64) as int) % 0x1_0000_0000_0000_0000int) as u64
}

/// Right rotation of a 32-bit word by `r` places, `r < 32`.
pub open spec fn rotr32(x: u32, r: u32) -> u32 {
    if r == 0 {
        x
    } else {
        (x >> r) | (x << ((32 - r) as u32))
    }
}

/// The XSH RR output function applied to a state.
pub open spec fn pcg_output(state: u64) -> u32 {
    rotr32((((state >> 18u64) ^ state) >> 27u64) as u32, (state >> 59u64) as u32)
}

/// The word that the output function rotates: bits 27..58 of the state
/// xor-shifted right by 18.
pub open spec fn xorshifted(state: u64) -> u32 {
    (((state >> 18u64) ^ state) >> 27u64) as u32
}

/// The rotation count: the top five bits of the state.
pub open spec fn rotation(state: u64) -> u32 {
    (state >> 59u64) as u32
}

/// Rotates `o` left by the rotation count of `state`.
pub open spec fn rotate_left_back(o: u32, state: u64) -> u32 {
    if rotation(state) == 0 {
        o
    } else {
        (o << rotation(state)) | (o >> ((32 - rotation(state)) as u32))
    }
}

/// The output is the right rotation of the xor-shifted word by the rotation
/// count: it is that word when the count is zero, and rotating it back left
/// by the count gives the word otherwise.
pub proof fn lemma_output_is_rotation(state: u64)
    ensures
        rotation(state) < 32,
        rotation(state) == 0 ==> pcg_output(state) == xorshifted(state),
        rotation(state) != 0 ==> (pcg_output(state) << rotation(state)) | (pcg_output(state) >> ((32
            - rotation(state)) as u32)) == xorshifted(state),
{
    let xs = xorshifted(state);
    let r = rotation(state);
    let out = pcg_output(state);
    assert(r < 32) by (bit_vector)
        requires
            r == (state >> 59u64) as u32,
    ;
    if r != 0 {
        assert(out == (xs >> r) | (xs << ((32 - r) as u32)));
        assert((out << r) | (out >> ((32 - r) as u32)) == xs) by (bit_vector)
            requires
                0 < r < 32,
                out == (xs >> r) | (xs << ((32 - r) as u32)),
        ;
    }
}

/// State of a PCG32 generator.
pub struct Random {
    state: u64,
    increment: u64,
}

impl Random {
    /// The current 64-bit state.
    pub closed spec fn state_spec(&self) -> u64 {
        self.state
    }

    /// The stream increment.
    pub closed spec fn increment_spec(&self) -> u64 {
        self.increment
    }

    /// A generator seeded with the fixed state 42 and increment 54.
    pub fn new() -> (r: Random)
        ensures
            r.state_spec() == SEED_STATE,
            r.increment_spec() == SEED_INCREMENT,
    {
        Random { state: SEED_STATE, increment: SEED_INCREMENT }
    }

    /// Advances the generator one step and returns the output for the state
    /// it held before the step.
    pub fn rand(&mut self) -> (r: u32)
        ensures
            r == pcg_output(old(self).state_spec()),
            final(self).state_spec() == pcg_step(old(self).state_spec(), old(self).increment_spec()),
            final(self).increment_spec() == old(self).increment_spec(),
            final(self).state_spec() as int == (old(self).state_spec() as int * 6364136223846793005int + (
            old(self).increment_spec() | 1u64) as int) % 0x1_0000_0000_0000_0000int,
            rotation(old(self).state_spec()) == 0 ==> r == xorshifted(old(self).state_spec()),
            rotation(old(self).state_spec()) != 0 ==> (r << rotation(old(self).state_spec())) | (r >> ((32
                - rotation(old(self).state_spec())) as u32)) == xorshifted(old(self).state_spec()),
    {
        proof {
            lemma_output_is_rotation(self.state);
        }
        let old_state = self.state;
        let product = old_state.wrapping_mul(PCG_MULTIPLIER);
        self.state = product.wrapping_add(self.increment | 1);
        proof {
            let m: int = 0x1_0000_0000_0000_0000int;
            let c: int = (self.increment | 1u64) as int;
            let p: int = old_state as int * PCG_MULTIPLIER as int;
            assert(product as int == p % m);
            vstd::arithmetic::div_mod::lemma_add_mod_noop(p, c, m);
            vstd::arithmetic::div_mod::lemma_mod_twice(c, m);
            assert(c % m == c);
            assert(self.state as int == (product as int + c) % m);
        }
        let xorshifted: u32 = (((old_state >> 18u64) ^ old_state) >> 27u64) as u32;
        let rot: i64 = (old_state >> 59u64) as i64;
        assert(0 <= rot < 32) by (bit_vector)
            requires
                rot == (old_state >> 59u64) as i64,
        ;
        let neg_rot: i64 = -rot;
        let left: u32 = (neg_rot & 31i64) as u32;
        let right: u32 = rot as u32;
        proof {
            let r32: u32 = (old_state >> 59u64) as u32;
            assert(right == r32 && right < 32) by (bit_vector)
                requires
                    rot == (old_state >> 59u64) as i64,
                    right == rot as u32,
                    r32 == (old_state >> 59u64) as u32,
            ;
            assert(right == 0 ==> left == 0) by (bit_vector)
                requires
                    0 <= rot < 32,
                    right == rot as u32,
                    neg_rot == -rot,
                    left == (neg_rot & 31i64) as u32,
            ;
            assert(right != 0 ==> left == 32 - right) by (bit_vector)
                requires
                    0 <= rot < 32,
                    right == rot as u32,
                    neg_rot == -rot,
                    left == (neg_rot & 31i64) as u32,
            ;
        }
        let out: u32 = (xorshifted >> right) | (xorshifted << left);
        assert(right == 0 ==> out == xorshifted) by (bit_vector)
            requires
                right == 0 ==> left == 0,
                out == (xorshifted >> right) | (xorshifted << left),
        ;
        out
    }

    /// A value in `0..255`: the next output reduced modulo 255.
    pub fn range(&mut self) -> (r: u8)
        ensures
            r as int == pcg_output(old(self).state_spec()) as int % 255,
            r < 255,
            final(self).state_spec() == pcg_step(old(self).state_spec(), old(self).increment_spec()),
            final(self).increment_spec() == old(self).increment_spec(),
            final(self).state_spec() as int == (old(self).state_spec() as int * 6364136223846793005int + (
            old(self).increment_spec() | 1u64) as int) % 0x1_0000_0000_0000_0000int,
            exists|o: u32|
                #![trigger rotate_left_back(o, old(self).state_spec())]
                r as int == o as int % 255 && rotate_left_back(o, old(self).state_spec()) == xorshifted(
                    old(self).state_spec(),
                ),
    {
        let o = self.rand();
        assert(rotate_left_back(o, old(self).state_spec()) == xorshifted(old(self).state_spec()));
        (o % 255u32) as u8
    }
}

} // verus!
