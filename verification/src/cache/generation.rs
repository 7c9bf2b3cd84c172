use vstd::arithmetic::div_mod::{
    lemma_fundamental_div_mod, lemma_fundamental_div_mod_converse, lemma_small_mod,
};
use vstd::prelude::*;

verus! {

/// The incarnation counter after `generation`: one more, wrapping around zero,
/// which stays reserved for storage that was never handed out.
pub open spec fn generation_after(generation: u32) -> u32 {
    if generation == u32::MAX {
        1
    } else {
        (generation + 1) as u32
    }
}

pub(crate) fn next_generation(generation: u32) -> (next: u32)
    ensures
        next == generation_after(generation),
{
    let next = generation.wrapping_add(1);
    if next == 0 {
        1
    } else {
        next
    }
}

/// An incarnation counter never stands still, never comes straight back after
/// two steps, and never lands on the reserved zero.
pub proof fn generation_advances(generation: u32)
    ensures
        generation_after(generation) != 0,
        generation_after(generation) != generation,
        generation_after(generation_after(generation)) != generation,
{
}

/// The incarnation counter `n` steps after `generation`.
pub open spec fn generation_in(generation: u32, n: nat) -> u32
    decreases n,
{
    if n == 0 {
        generation
    } else {
        generation_after(generation_in(generation, (n - 1) as nat))
    }
}

/// One step and then `n` are one more.
pub proof fn generation_steps_follow(generation: u32, n: nat)
    ensures
        generation_in(generation_after(generation), n) == generation_in(generation, n + 1),
    decreases n,
{
    if n > 0 {
        generation_steps_follow(generation, (n - 1) as nat);
    } else {
        reveal_with_fuel(generation_in, 2);
    }
}

/// A counter that has been handed out runs through all numbers but zero.
proof fn counter_goes_round(generation: u32, n: nat)
    requires
        generation != 0,
    ensures
        generation_in(generation, n) == (generation - 1 + n) % 0xFFFF_FFFF + 1,
    decreases n,
{
    let whole = 0xFFFF_FFFFint;
    let at = generation - 1 + n;
    if n == 0 {
        lemma_small_mod(at as nat, whole as nat);
    } else {
        counter_goes_round(generation, (n - 1) as nat);
        let y = (at - 1) % whole;
        let q = (at - 1) / whole;
        lemma_fundamental_div_mod(at - 1, whole);
        if y == whole - 1 {
            lemma_fundamental_div_mod_converse(at, whole, q + 1, 0);
        } else {
            lemma_fundamental_div_mod_converse(at, whole, q, y + 1);
        }
    }
}

/// A counter that has been handed out does not come back to where it was before
/// it has run through all numbers but zero.
pub proof fn generation_comes_back_late(generation: u32, n: nat)
    requires
        generation != 0,
        0 < n < 0xFFFF_FFFF,
    ensures
        generation_in(generation, n) != generation,
        generation_in(generation, n) != 0,
{
    let whole = 0xFFFF_FFFFint;
    let at = generation - 1 + n;
    counter_goes_round(generation, n);
    if at < whole {
        lemma_small_mod(at as nat, whole as nat);
    } else {
        lemma_fundamental_div_mod_converse(at, whole, 1, at - whole);
    }
}

} // verus!
