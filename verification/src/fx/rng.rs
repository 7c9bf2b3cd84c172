//! Deterministic linear-congruential PRNG.
//!
//! Not cryptographically interesting -- perfect for sprinkling
//! variability across particle velocity / enemy-shot cadence /
//! any "looks random but must replay identically" effect. The
//! constants match the venerable `glibc` LCG, which has
//! good-enough statistical properties for game use and produces
//! the same output on every machine.

use vstd::arithmetic::div_mod::{
    lemma_add_mod_noop, lemma_fundamental_div_mod, lemma_fundamental_div_mod_converse,
    lemma_mod_mod, lemma_mod_multiples_vanish, lemma_mul_mod_noop_left, lemma_mul_mod_noop_right,
};
use vstd::arithmetic::power2::{
    lemma2_to64, lemma_pow2_adds, lemma_pow2_pos, lemma_pow2_unfold, pow2,
};
use vstd::prelude::*;

verus! {

/// The state after `state`.
pub open spec fn lcg_step(state: u32) -> u32 {
    ((state * 1_103_515_245 + 12345) % 0x1_0000_0000) as u32
}

/// A state with its strong high half folded over its weak low half.
pub open spec fn folded(state: u32) -> u32 {
    state ^ (state >> 16)
}

/// The five bits behind a signed draw, centred on zero: -16 to 15.
pub open spec fn centred_bits(state: u32) -> int {
    (state / 0x1_0000) % 0x20 - 16
}

/// Division that drops the fraction, toward zero.
pub open spec fn truncated(x: int, by: int) -> int {
    if x >= 0 {
        x / by
    } else {
        -((-x) / by)
    }
}

/// 32-bit integer LCG. Step once per `next()` / `signed()` call.
#[derive(Copy, Clone, Debug)]
pub struct LcgRng(u32);

impl LcgRng {
    pub closed spec fn spec_state(self) -> u32 {
        self.0
    }

    /// Build with an explicit seed. Same seed, same sequence.
    pub fn new(seed: u32) -> (rng: Self)
        ensures
            rng.spec_state() == seed,
    {
        LcgRng(seed)
    }

    /// One LCG step. Multiplier + increment are `glibc`'s constants.
    /// Returns the fresh internal state.
    ///
    /// # Take the high bits, not the low ones
    ///
    /// The low bits of any power-of-two LCG are very weak, and bit 0 of this
    /// one is not random at all. The multiplier and the increment are both
    /// odd, so bit 0 strictly alternates, period two. Bit `k` has period at
    /// most `2^(k+1)`.
    ///
    /// Use [`LcgRng::next_mixed`] for anything that masks or takes a
    /// remainder, or shift the high half down yourself as [`LcgRng::signed`]
    /// does.
    pub fn next(&mut self) -> (x: u32)
        ensures
            x == lcg_step(old(self).spec_state()),
            final(self).spec_state() == x,
    {
        let wide: u64 = self.0 as u64 * 1_103_515_245 + 12345;
        self.0 = (wide % 0x1_0000_0000) as u32;
        self.0
    }

    /// One step with the strong high half folded down over the weak low half,
    /// for callers that mask or take a remainder.
    pub fn next_mixed(&mut self) -> (x: u32)
        ensures
            final(self).spec_state() == lcg_step(old(self).spec_state()),
            x == folded(final(self).spec_state()),
    {
        let x = self.next();
        x ^ (x >> 16)
    }

    /// Uniform-ish value in `[0, max)`, or 0 when `max` is 0.
    ///
    /// Sourced from [`LcgRng::next_mixed`], so it is safe against the low-bit
    /// weakness a bare `next() % max` walks into.
    pub fn below(&mut self, max: u32) -> (x: u32)
        ensures
            max == 0 ==> x == 0 && final(self).spec_state() == old(self).spec_state(),
            max != 0 ==> {
                &&& x < max
                &&& x == folded(final(self).spec_state()) % max
                &&& final(self).spec_state() == lcg_step(old(self).spec_state())
            },
    {
        if max == 0 {
            return 0;
        }
        self.next_mixed() % max
    }

    /// Signed integer in roughly `[-range, +range]`, sourced from
    /// five bits of the LCG. Bias is at most 1 unit at the extremes,
    /// good enough for cosmetic particle spread.
    ///
    /// The product of the drawn bits and `range` must fit 16 bits, which it
    /// does for every draw when `range` is from -2047 to 2048.
    pub fn signed(&mut self, range: i16) -> (x: i16)
        requires
            i16::MIN <= centred_bits(lcg_step(old(self).spec_state())) * range <= i16::MAX,
        ensures
            final(self).spec_state() == lcg_step(old(self).spec_state()),
            x == truncated(centred_bits(final(self).spec_state()) * range, 16),
    {
        let r = self.next();
        let bits = (r / 0x1_0000) % 0x20;
        let raw: i32 = bits as i32 - 16;
        assert(raw * range == centred_bits(r) * range);
        assert(-16 * 0x8000 <= raw * range <= 16 * 0x8000) by (nonlinear_arith)
            requires
                -16 <= raw <= 15,
                -0x8000 <= range <= 0x7FFF,
        ;
        let product: i32 = raw * (range as i32);
        if product >= 0 {
            (product as u32 / 16) as i16
        } else {
            let magnitude = ((-product) as u32 / 16) as i32;
            (-magnitude) as i16
        }
    }

    /// Current internal state -- useful if a caller wants to save /
    /// restore the RNG across reset boundaries.
    pub fn state(self) -> (state: u32)
        ensures
            state == self.spec_state(),
    {
        self.0
    }
}

/// The state after `n` steps.
pub open spec fn lcg_after(seed: u32, n: nat) -> u32
    decreases n,
{
    if n == 0 {
        seed
    } else {
        lcg_step(lcg_after(seed, (n - 1) as nat))
    }
}

/// Bit 0 strictly alternates.
#[verifier::spinoff_prover]
pub proof fn lowest_bit_alternates(state: u32)
    ensures
        lcg_step(state) % 2 == 1 - state % 2,
{
    step_respects_modulus(state as int, 2);
    odd_numbers_flip(state as int);
}

/// An odd factor and an odd summand turn even into odd and odd into even.
proof fn odd_numbers_flip(x: int)
    ensures
        (x * 1_103_515_245 + 12345) % 2 == 1 - x % 2,
{
    let v = x * 1_103_515_245 + 12345;
    let q = x / 2;
    lemma_fundamental_div_mod(x, 2);
    if x % 2 == 0 {
        lemma_fundamental_div_mod_converse(v, 2, q * 1_103_515_245 + 6172, 1);
    } else {
        lemma_fundamental_div_mod_converse(v, 2, q * 1_103_515_245 + 551_763_795, 0);
    }
}

/// The low bits never see the high ones: states that agree modulo a power of two
/// agree modulo it forever.
pub proof fn low_bits_keep_to_themselves(a: u32, b: u32, modulus: int, n: nat)
    requires
        0 < modulus,
        0x1_0000_0000int % modulus == 0,
        a as int % modulus == b as int % modulus,
    ensures
        lcg_after(a, n) as int % modulus == lcg_after(b, n) as int % modulus,
    decreases n,
{
    if n > 0 {
        low_bits_keep_to_themselves(a, b, modulus, (n - 1) as nat);
        let x = lcg_after(a, (n - 1) as nat) as int;
        let y = lcg_after(b, (n - 1) as nat) as int;
        step_respects_modulus(x, modulus);
        step_respects_modulus(y, modulus);
        let m = 1_103_515_245int;
        lemma_mul_mod_noop_left(x, m, modulus);
        lemma_mul_mod_noop_left(y, m, modulus);
        lemma_add_mod_noop(x * m, 12345, modulus);
        lemma_add_mod_noop(y * m, 12345, modulus);
    }
}

proof fn step_respects_modulus(x: int, modulus: int)
    requires
        0 <= x <= u32::MAX,
        0 < modulus,
        0x1_0000_0000int % modulus == 0,
    ensures
        lcg_step(x as u32) as int % modulus == (x * 1_103_515_245 + 12345) % modulus,
{
    let v = x * 1_103_515_245 + 12345;
    let whole = 0x1_0000_0000int;
    let k = whole / modulus;
    lemma_fundamental_div_mod(whole, modulus);
    lemma_fundamental_div_mod(v, whole);
    let q = v / whole;
    assert(whole * q == modulus * (k * q)) by (nonlinear_arith)
        requires
            whole == modulus * k,
    ;
    lemma_mod_multiples_vanish(k * q, v % whole, modulus);
    assert(v == modulus * (k * q) + v % whole);
}

/// The factor of `2^j` steps taken at once.
spec fn leap_factor(j: nat) -> int
    decreases j,
{
    if j == 0 {
        1_103_515_245
    } else {
        leap_factor((j - 1) as nat) * leap_factor((j - 1) as nat)
    }
}

/// The increment of `2^j` steps taken at once.
spec fn leap_increment(j: nat) -> int
    decreases j,
{
    if j == 0 {
        12345
    } else {
        leap_factor((j - 1) as nat) * leap_increment((j - 1) as nat) + leap_increment(
            (j - 1) as nat,
        )
    }
}

/// Steps add up.
proof fn steps_add_up(seed: u32, a: nat, b: nat)
    ensures
        lcg_after(seed, a + b) == lcg_after(lcg_after(seed, a), b),
    decreases b,
{
    if b > 0 {
        steps_add_up(seed, a, (b - 1) as nat);
        assert((a + b - 1) as nat == a + (b - 1) as nat);
    }
}

/// `2^j` steps are one affine step.
proof fn leap_is_affine(seed: u32, j: nat)
    ensures
        lcg_after(seed, pow2(j)) == (leap_factor(j) * seed + leap_increment(j)) % 0x1_0000_0000,
    decreases j,
{
    if j == 0 {
        lemma2_to64();
        assert(lcg_after(seed, 1) == lcg_step(lcg_after(seed, 0)));
    } else {
        let i = (j - 1) as nat;
        let (f, c) = (leap_factor(i), leap_increment(i));
        let whole = 0x1_0000_0000int;
        let half = lcg_after(seed, pow2(i));
        let s = seed as int;
        lemma_pow2_unfold(j);
        steps_add_up(seed, pow2(i), pow2(i));
        leap_is_affine(seed, i);
        leap_is_affine(half, i);
        lemma_mul_mod_noop_right(f, f * s + c, whole);
        lemma_add_mod_noop(f * half, c, whole);
        lemma_add_mod_noop(f * (f * s + c), c, whole);
        assert(f * (f * s + c) + c == (f * f) * s + (f * c + c)) by (nonlinear_arith);
    }
}

/// The factor of `2^j` steps is one and the increment zero, up to multiples of
/// `2^j`.
proof fn leap_moves_by_multiples(j: nat) -> (quotients: (int, int))
    ensures
        leap_factor(j) == 1 + pow2(j) * quotients.0,
        leap_increment(j) == pow2(j) * quotients.1,
        leap_factor(j) % 2 == 1,
    decreases j,
{
    if j == 0 {
        lemma2_to64();
        (1_103_515_244, 12345)
    } else {
        let i = (j - 1) as nat;
        let (f, c) = (leap_factor(i), leap_increment(i));
        let p = pow2(i) as int;
        let (a, b) = leap_moves_by_multiples(i);
        lemma_pow2_unfold(j);
        let h = (f + 1) / 2;
        assert(f + 1 == 2 * h);
        assert(f * f == 1 + (2 * p) * (a * h)) by (nonlinear_arith)
            requires
                f == 1 + p * a,
                f + 1 == 2 * h,
        ;
        assert(f * c + c == (2 * p) * (b * h)) by (nonlinear_arith)
            requires
                c == p * b,
                f + 1 == 2 * h,
        ;
        assert((1 + (2 * p) * (a * h)) % 2 == 1) by {
            assert((2 * p) * (a * h) == 2 * (p * (a * h))) by (nonlinear_arith);
        }
        (a * h, b * h)
    }
}

/// Bit `k` has a period of at most `2^(k+1)`: after that many steps it and all
/// bits below it are what they were.
pub proof fn low_bits_repeat(seed: u32, k: nat, n: nat)
    requires
        k < 32,
    ensures
        lcg_after(seed, n + pow2(k + 1)) as int % pow2(k + 1) as int == lcg_after(seed, n) as int
            % pow2(k + 1) as int,
{
    let j = k + 1;
    let p = pow2(j) as int;
    let start = lcg_after(seed, n);
    let x = start as int;
    steps_add_up(seed, n, pow2(j));
    leap_is_affine(start, j);
    let (a, b) = leap_moves_by_multiples(j);
    let landed = leap_factor(j) * x + leap_increment(j);
    assert(landed == p * (a * x + b) + x) by (nonlinear_arith)
        requires
            landed == (1 + p * a) * x + p * b,
    ;
    lemma_pow2_pos(j);
    lemma_pow2_pos((32 - j) as nat);
    lemma_pow2_adds(j, (32 - j) as nat);
    lemma2_to64();
    lemma_mod_mod(landed, p, pow2((32 - j) as nat) as int);
    lemma_mod_multiples_vanish(a * x + b, x, p);
}

/// A draw within `range` cannot leave it, and every range from -2047 to 2048 is
/// fit for every draw.
pub proof fn signed_draw_stays_in_range(state: u32, range: i16)
    requires
        -2047 <= range <= 2048,
    ensures
        i16::MIN <= centred_bits(state) * range <= i16::MAX,
        range >= 0 ==> -range <= truncated(centred_bits(state) * range, 16) <= range,
        range < 0 ==> range <= truncated(centred_bits(state) * range, 16) <= -range,
        range == 0 ==> truncated(centred_bits(state) * range, 16) == 0,
{
    let bits = centred_bits(state);
    assert(i16::MIN <= bits * range <= i16::MAX) by (nonlinear_arith)
        requires
            -16 <= bits <= 15,
            -2047 <= range <= 2048,
    ;
    assert(range >= 0 ==> -16 * range <= bits * range <= 16 * range) by (nonlinear_arith)
        requires
            -16 <= bits <= 15,
    ;
    assert(range < 0 ==> 16 * range <= bits * range <= -16 * range) by (nonlinear_arith)
        requires
            -16 <= bits <= 15,
    ;
}

/// The steps are those of the `glibc` generator: from zero comes the increment, and
/// a state one higher goes a multiplier further, modulo 2^32.
pub proof fn steps_are_linear(state: u32)
    requires
        state < u32::MAX,
    ensures
        lcg_step(0) == 12345,
        (lcg_step((state + 1) as u32) - lcg_step(state)) % 0x1_0000_0000 == 1_103_515_245,
{
    let x = state * 1_103_515_245 + 12345;
    let m = 0x1_0000_0000;
    let y = (state + 1) * 1_103_515_245 + 12345;
    assert(y == x + 1_103_515_245);
    lemma_fundamental_div_mod(x, m);
    lemma_fundamental_div_mod(y, m);
    let k = y / m - x / m;
    assert(y % m - x % m == 1_103_515_245 - m * k);
    assert((1_103_515_245 - m * k) % m == 1_103_515_245) by {
        lemma_fundamental_div_mod_converse(1_103_515_245 - m * k, m, -k, 1_103_515_245);
    }
}

/// Folding keeps the high half, and a second folding gives the state back.
pub proof fn folding_keeps_the_high_half(state: u32)
    ensures
        folded(state) / 0x1_0000 == state / 0x1_0000,
        folded(folded(state)) == state,
        state < 0x1_0000 ==> folded(state) == state,
        state % 0x1_0000 == 0 ==> folded(state) % 0x1_0000 == state / 0x1_0000,
{
    assert((state ^ (state >> 16)) / 0x1_0000 == state / 0x1_0000) by (bit_vector);
    assert((state ^ (state >> 16)) ^ ((state ^ (state >> 16)) >> 16) == state) by (bit_vector);
    assert(state < 0x1_0000 ==> state ^ (state >> 16) == state) by (bit_vector);
    assert(state % 0x1_0000 == 0 ==> (state ^ (state >> 16)) % 0x1_0000 == state / 0x1_0000)
        by (bit_vector);
}

/// Signed draws are made of the five lowest bits of the high half, and drop
/// fractions toward zero.
pub proof fn draws_come_from_the_high_half(state: u32, x: int)
    ensures
        -16 <= centred_bits(state) < 16,
        (centred_bits(state) + 16 - state as int / 0x1_0000) % 32 == 0,
        x >= 0 ==> 0 <= x - 16 * truncated(x, 16) < 16,
        x <= 0 ==> 0 <= 16 * truncated(x, 16) - x < 16,
{
}

} // verus!
