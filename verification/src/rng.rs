//! A small deterministic linear congruential generator, so that a match unfolds the
//! same way from the same seed.
use vstd::prelude::*;

verus! {

/// The multiplier of the generator.
pub const LCG_MULTIPLIER: u64 = 6364136223846793005;

/// The increment of the generator.
pub const LCG_INCREMENT: u64 = 1442695040888963407;

/// The state that follows `s`: `s * multiplier + increment`, modulo 2^64.
pub open spec fn lcg_successor(s: u64) -> u64 {
    ((s * LCG_MULTIPLIER + LCG_INCREMENT) % 0x1_0000_0000_0000_0000) as u64
}

/// The 31 random bits drawn from a state: its top bits, from bit 33 on.
pub open spec fn lcg_output(s: u64) -> u32 {
    (s / 0x2_0000_0000) as u32
}

/// The generator; its whole state is one 64-bit word.
pub struct Lcg {
    pub state: u64,
}

impl Lcg {
    /// A generator started from `seed`.
    pub fn new(seed: u64) -> (g: Lcg)
        ensures
            g.state == seed,
    {
        Lcg { state: seed }
    }

    /// Advances the generator one step and returns the top 31 bits of the new state.
    /// Divided by `u32::MAX`, they give a number in `[0, 0.5]`.
    pub fn next_bits(&mut self) -> (bits: u32)
        ensures
            final(self).state == lcg_successor(old(self).state),
            bits == lcg_output(final(self).state),
            bits < 0x8000_0000,
    {
        let s = self.state;
        let m = s.wrapping_mul(LCG_MULTIPLIER);
        let next = m.wrapping_add(LCG_INCREMENT);
        proof {
            let w: int = 0x1_0000_0000_0000_0000;
            let prod: int = s * LCG_MULTIPLIER;
            vstd::arithmetic::div_mod::lemma_add_mod_noop(prod, LCG_INCREMENT as int, w);
            vstd::arithmetic::div_mod::lemma_small_mod(LCG_INCREMENT as nat, w as nat);
            assert(m == prod % w);
            if m + LCG_INCREMENT >= w {
                vstd::arithmetic::div_mod::lemma_mod_sub_multiples_vanish(
                    m + LCG_INCREMENT,
                    w,
                );
                vstd::arithmetic::div_mod::lemma_small_mod(
                    (m + LCG_INCREMENT - w) as nat,
                    w as nat,
                );
            } else {
                vstd::arithmetic::div_mod::lemma_small_mod((m + LCG_INCREMENT) as nat, w as nat);
            }
            assert(next == lcg_successor(s));
        }
        self.state = next;
        let bits = (next >> 33u64) as u32;
        assert(next >> 33u64 == next / 0x2_0000_0000u64 && next >> 33u64 < 0x8000_0000u64)
            by (bit_vector);
        bits
    }
}

/// The generator's arithmetic: the next state differs from `s * multiplier + increment`
/// by a multiple of 2^64, and the drawn bits are the state's bits from bit 33 up (the
/// state lies between `bits * 2^33` and `(bits + 1) * 2^33`).
pub proof fn lemma_generator_arithmetic(s: u64)
    ensures
        (s * LCG_MULTIPLIER + LCG_INCREMENT - lcg_successor(s)) % 0x1_0000_0000_0000_0000 == 0,
        lcg_output(s) * 0x2_0000_0000 <= s < (lcg_output(s) + 1) * 0x2_0000_0000,
        lcg_output(s) < 0x8000_0000,
{
    let w: int = 0x1_0000_0000_0000_0000;
    let x: int = s * LCG_MULTIPLIER + LCG_INCREMENT;
    vstd::arithmetic::div_mod::lemma_fundamental_div_mod(x, w);
    vstd::arithmetic::div_mod::lemma_mod_multiples_basic(x / w, w);
    assert(x - x % w == w * (x / w));
    vstd::arithmetic::div_mod::lemma_fundamental_div_mod(s as int, 0x2_0000_0000);
}

} // verus!
