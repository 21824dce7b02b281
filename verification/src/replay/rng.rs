//! SplitMix64: a small deterministic generator for fault decisions. Not meant
//! for anything cryptographic.
use vstd::prelude::*;

verus! {

/// The amount by which the state moves on every draw.
pub const GAMMA: u64 = 0x9E3779B97F4A7C15;

pub const MIX_A: u64 = 0xBF58476D1CE4E5B9;

pub const MIX_B: u64 = 0x94D049BB133111EB;

/// The product of two words, cut to a word.
pub open spec fn word_product(a: u64, b: u64) -> u64 {
    ((a * b) % 0x1_0000_0000_0000_0000) as u64
}

/// The state behind this one.
pub open spec fn next_state(state: u64) -> u64 {
    ((state + GAMMA) % 0x1_0000_0000_0000_0000) as u64
}

/// The output that belongs to a state.
pub open spec fn mixed(state: u64) -> u64 {
    let a = word_product(state ^ (state >> 30), MIX_A);
    let b = word_product(a ^ (a >> 27), MIX_B);
    b ^ (b >> 31)
}

/// The state after `n` draws.
pub open spec fn state_after(seed: u64, n: nat) -> u64
    decreases n,
{
    if n == 0 {
        seed
    } else {
        next_state(state_after(seed, (n - 1) as nat))
    }
}

/// The outputs of the first `n` draws from a seed.
pub open spec fn draws(seed: u64, n: nat) -> Seq<u64> {
    Seq::new(n, |i: int| mixed(state_after(seed, (i + 1) as nat)))
}

/// The number from `low` up to `high`, without `high`, that belongs to an
/// output.
pub open spec fn ranged(out: u64, low: u64, high: u64) -> int {
    low + out as int % (high - low)
}

/// The top 53 bits of an output.
pub open spec fn unit_bits(out: u64) -> int {
    out as int / 0x800
}

/// A seeded generator.
pub struct DeterministicRng {
    state: u64,
}

impl View for DeterministicRng {
    type V = u64;

    /// The state: all that later draws depend on.
    closed spec fn view(&self) -> u64 {
        self.state
    }
}

impl DeterministicRng {
    pub fn from_seed(seed: u64) -> (r: Self)
        ensures
            r@ == seed,
    {
        DeterministicRng { state: seed }
    }

    pub fn next_u64(&mut self) -> (r: u64)
        ensures
            final(self)@ == next_state(old(self)@),
            r == mixed(final(self)@),
            final(self)@ == state_after(old(self)@, 1),
            r == draws(old(self)@, 1)[0],
    {
        proof {
            reveal_with_fuel(state_after, 2);
        }
        self.state = self.state.wrapping_add(GAMMA);
        let s: u64 = self.state;
        let a: u64 = (s ^ (s >> 30)).wrapping_mul(MIX_A);
        let b: u64 = (a ^ (a >> 27)).wrapping_mul(MIX_B);
        b ^ (b >> 31)
    }

    /// The top 53 bits of a draw: as a multiple of 2 to the power of -53 it is
    /// uniform over the unit interval.
    pub fn next_unit_bits(&mut self) -> (r: u64)
        ensures
            final(self)@ == next_state(old(self)@),
            r == mixed(final(self)@) / 0x800,
            r < 0x20_0000_0000_0000,
            r == unit_bits(mixed(final(self)@)),
    {
        let v: u64 = self.next_u64();
        assert(v >> 11 == v / 0x800) by (bit_vector);
        v >> 11
    }

    /// A draw from `low` up to `high`, without `high`.
    pub fn gen_range_u64(&mut self, low: u64, high: u64) -> (r: u64)
        requires
            low < high,
        ensures
            final(self)@ == next_state(old(self)@),
            r == low + mixed(final(self)@) as int % (high - low),
            low <= r < high,
            r == ranged(mixed(final(self)@), low, high),
    {
        let v: u64 = self.next_u64();
        let span: u64 = high - low;
        let offset: u64 = v % span;
        low + offset
    }
}

} // verus!
