//! What holds of the generator over many draws and many seeds.
use vstd::prelude::*;

use crate::replay::rng;

verus! {

/// The draws from a seed are a function of the seed: each draw continues the
/// same sequence, whoever makes it and however many are wanted.
pub proof fn law_draws_follow_the_seed(seed: u64, n: nat, more: nat)
    ensures
        rng::draws(seed, n + 1)[n as int] == rng::mixed(
            rng::next_state(rng::state_after(seed, n)),
        ),
        rng::draws(seed, n + more).take(n as int) == rng::draws(seed, n),
{
    assert(rng::state_after(seed, (n + 1) as nat) == rng::next_state(rng::state_after(seed, n)));
    assert(rng::draws(seed, n + more).take(n as int) =~= rng::draws(seed, n));
}

proof fn lemma_product_cancels(a: u64, b: u64, factor: u64, inverse: int, quotient: int)
    requires
        factor * inverse == 1 + quotient * 0x1_0000_0000_0000_0000,
        rng::word_product(a, factor) == rng::word_product(b, factor),
    ensures
        a == b,
{
    let m = 0x1_0000_0000_0000_0000int;
    let p = a * factor;
    let q = b * factor;
    assert(p % m == q % m);
    vstd::arithmetic::div_mod::lemma_mul_mod_noop_left(p, inverse, m);
    vstd::arithmetic::div_mod::lemma_mul_mod_noop_left(q, inverse, m);
    assert((p * inverse) % m == (q * inverse) % m);
    assert(p * inverse == a + m * (a * quotient)) by (nonlinear_arith)
        requires
            p == a * factor,
            factor * inverse == 1 + quotient * m,
            m == 0x1_0000_0000_0000_0000int,
    ;
    assert(q * inverse == b + m * (b * quotient)) by (nonlinear_arith)
        requires
            q == b * factor,
            factor * inverse == 1 + quotient * m,
            m == 0x1_0000_0000_0000_0000int,
    ;
    vstd::arithmetic::div_mod::lemma_mod_multiples_vanish(a * quotient, a as int, m);
    vstd::arithmetic::div_mod::lemma_mod_multiples_vanish(b * quotient, b as int, m);
    vstd::arithmetic::div_mod::lemma_small_mod(a as nat, m as nat);
    vstd::arithmetic::div_mod::lemma_small_mod(b as nat, m as nat);
}

/// Different states give different outputs.
pub proof fn law_outputs_tell_states_apart(s: u64, t: u64)
    requires
        s != t,
    ensures
        rng::mixed(s) != rng::mixed(t),
{
    if rng::mixed(s) == rng::mixed(t) {
        let s0 = s ^ (s >> 30);
        let t0 = t ^ (t >> 30);
        let s1 = rng::word_product(s0, rng::MIX_A);
        let t1 = rng::word_product(t0, rng::MIX_A);
        let s2 = s1 ^ (s1 >> 27);
        let t2 = t1 ^ (t1 >> 27);
        let s3 = rng::word_product(s2, rng::MIX_B);
        let t3 = rng::word_product(t2, rng::MIX_B);
        assert(s3 ^ (s3 >> 31) == t3 ^ (t3 >> 31));
        assert(s3 ^ (s3 >> 31) == t3 ^ (t3 >> 31) ==> s3 == t3) by (bit_vector);
        lemma_product_cancels(
            s2,
            t2,
            rng::MIX_B,
            0x319642B2D24D8EC3,
            0x1CD336EDA85F1453,
        );
        assert(s1 ^ (s1 >> 27) == t1 ^ (t1 >> 27) ==> s1 == t1) by (bit_vector);
        lemma_product_cancels(
            s0,
            t0,
            rng::MIX_A,
            0x96DE1B173F119089,
            0x70C3BCA78F27F46C,
        );
        assert(s ^ (s >> 30) == t ^ (t >> 30) ==> s == t) by (bit_vector);
    }
}

/// Runs from different seeds diverge: at every draw their states differ, and
/// so do their outputs.
pub proof fn law_different_seeds_diverge(s: u64, t: u64, n: nat)
    requires
        s != t,
    ensures
        rng::state_after(s, n) != rng::state_after(t, n),
        forall|i: int| 0 <= i < n ==> rng::draws(s, n)[i] != rng::draws(t, n)[i],
    decreases n,
{
    if n > 0 {
        let before = (n - 1) as nat;
        law_different_seeds_diverge(s, t, before);
        assert forall|i: int| 0 <= i < n implies rng::draws(s, n)[i] != rng::draws(t, n)[i] by {
            if i < before {
                assert(rng::draws(s, n)[i] == rng::draws(s, before)[i]);
                assert(rng::draws(t, n)[i] == rng::draws(t, before)[i]);
            } else {
                law_outputs_tell_states_apart(rng::state_after(s, n), rng::state_after(t, n));
            }
        }
    }
}

proof fn lemma_product_undone(a: u64, factor: u64, inverse: u64, quotient: int)
    requires
        factor * inverse == 1 + quotient * 0x1_0000_0000_0000_0000,
    ensures
        (rng::word_product(a, factor) * inverse) % 0x1_0000_0000_0000_0000 == a,
{
    let m = 0x1_0000_0000_0000_0000int;
    let p = a * factor;
    vstd::arithmetic::div_mod::lemma_mul_mod_noop_left(p, inverse as int, m);
    assert(p * inverse == a + m * (a * quotient)) by (nonlinear_arith)
        requires
            p == a * factor,
            factor * inverse == 1 + quotient * m,
            m == 0x1_0000_0000_0000_0000int,
    ;
    vstd::arithmetic::div_mod::lemma_mod_multiples_vanish(a * quotient, a as int, m);
    vstd::arithmetic::div_mod::lemma_small_mod(a as nat, m as nat);
}

/// An output gives its state away: each shift of the mixing is undone by the
/// same shift, once and twice over, and each product by that with the inverse
/// of its factor.
pub proof fn law_mixing_can_be_undone(state: u64)
    ensures
        ({
            let out = rng::mixed(state);
            let b = out ^ (out >> 31) ^ (out >> 62);
            let c = ((b * 0x319642B2D24D8EC3) % 0x1_0000_0000_0000_0000) as u64;
            let a = c ^ (c >> 27) ^ (c >> 54);
            let d = ((a * 0x96DE1B173F119089) % 0x1_0000_0000_0000_0000) as u64;
            (d ^ (d >> 30) ^ (d >> 60)) == state
        }),
{
    let s = state;
    let d = s ^ (s >> 30);
    let a = rng::word_product(d, rng::MIX_A);
    let c = a ^ (a >> 27);
    let b = rng::word_product(c, rng::MIX_B);
    let out = b ^ (b >> 31);
    assert(out == b ^ (b >> 31) ==> (out ^ (out >> 31) ^ (out >> 62)) == b) by (bit_vector);
    lemma_product_undone(c, rng::MIX_B, 0x319642B2D24D8EC3, 0x1CD336EDA85F1453);
    assert(c == a ^ (a >> 27) ==> (c ^ (c >> 27) ^ (c >> 54)) == a) by (bit_vector);
    lemma_product_undone(d, rng::MIX_A, 0x96DE1B173F119089, 0x70C3BCA78F27F46C);
    assert(d == s ^ (s >> 30) ==> (d ^ (d >> 30) ^ (d >> 60)) == s) by (bit_vector);
}

/// The states lie at even distances from the seed on, around the whole circle
/// of words.
pub proof fn law_states_lie_at_even_distances(seed: u64, n: nat)
    ensures
        rng::state_after(seed, n) == (seed + n * 0x9E3779B97F4A7C15) % 0x1_0000_0000_0000_0000,
        rng::next_state(seed) == (seed + 0x9E3779B97F4A7C15) % 0x1_0000_0000_0000_0000,
    decreases n,
{
    let m = 0x1_0000_0000_0000_0000int;
    if n == 0 {
        vstd::arithmetic::div_mod::lemma_small_mod(seed as nat, m as nat);
    } else {
        let before = (n - 1) as nat;
        law_states_lie_at_even_distances(seed, before);
        let sum = seed + before * 0x9E3779B97F4A7C15;
        vstd::arithmetic::div_mod::lemma_add_mod_noop(sum, 0x9E3779B97F4A7C15, m);
        vstd::arithmetic::div_mod::lemma_small_mod(0x9E3779B97F4A7C15, m as nat);
        assert(sum + 0x9E3779B97F4A7C15 == seed + n * 0x9E3779B97F4A7C15) by (nonlinear_arith)
            requires
                sum == seed + before * 0x9E3779B97F4A7C15,
                n == before + 1,
        ;
    }
}

/// A number from a range lies in it, and is as far from its start as the output
/// is from a multiple of its width. Every number of the range can be drawn.
pub proof fn law_range_is_drawn_from_evenly(out: u64, low: u64, high: u64, wanted: u64)
    requires
        low < high,
        low <= wanted < high,
    ensures
        low <= rng::ranged(out, low, high) < high,
        out as int % (high - low) == rng::ranged(out, low, high) - low,
        out < high - low ==> rng::ranged(out, low, high) == low + out,
        out >= high - low ==> rng::ranged(out, low, high) == rng::ranged(
            (out - (high - low)) as u64,
            low,
            high,
        ),
        rng::ranged((wanted - low) as u64, low, high) == wanted,
{
    vstd::arithmetic::div_mod::lemma_mod_bound(out as int, high - low);
    vstd::arithmetic::div_mod::lemma_small_mod((wanted - low) as nat, (high - low) as nat);
    if out < high - low {
        vstd::arithmetic::div_mod::lemma_small_mod(out as nat, (high - low) as nat);
    }
    vstd::arithmetic::div_mod::lemma_mod_sub_multiples_vanish(out as int, high - low);
}

/// The bits of a draw from the unit interval are those of the output without
/// the last eleven.
pub proof fn law_unit_bits_are_the_top_bits(out: u64)
    ensures
        0 <= out - rng::unit_bits(out) * 2048 < 2048,
        0 <= rng::unit_bits(out) < 9007199254740992,
{
}

} // verus!
