//! Integer arithmetic that fixed-point code leans on.

use vstd::arithmetic::div_mod::{
    lemma_fundamental_div_mod, lemma_fundamental_div_mod_converse,
};
use vstd::prelude::*;

verus! {

/// `x`, held to the range of 32-bit numbers.
pub open spec fn saturated32(x: int) -> i32 {
    if x > i32::MAX {
        i32::MAX
    } else if x < i32::MIN {
        i32::MIN
    } else {
        x as i32
    }
}

/// `x`, held to the range of 16-bit numbers.
pub open spec fn saturated16(x: int) -> i16 {
    if x > i16::MAX {
        i16::MAX
    } else if x < i16::MIN {
        i16::MIN
    } else {
        x as i16
    }
}

/// The 32-bit number with the low 32 bits of `x`.
pub open spec fn wrapped32(x: int) -> i32 {
    if x % 0x1_0000_0000 < 0x8000_0000 {
        (x % 0x1_0000_0000) as i32
    } else {
        (x % 0x1_0000_0000 - 0x1_0000_0000) as i32
    }
}

/// The smaller of two numbers.
pub open spec fn least(a: int, b: int) -> int {
    if a <= b {
        a
    } else {
        b
    }
}

/// The larger of two numbers.
pub open spec fn greatest(a: int, b: int) -> int {
    if a <= b {
        b
    } else {
        a
    }
}

pub(crate) fn saturate32(x: i64) -> (s: i32)
    ensures
        s == saturated32(x as int),
{
    if x > i32::MAX as i64 {
        i32::MAX
    } else if x < i32::MIN as i64 {
        i32::MIN
    } else {
        x as i32
    }
}

pub(crate) fn saturate16(x: i64) -> (s: i16)
    ensures
        s == saturated16(x as int),
{
    if x > i16::MAX as i64 {
        i16::MAX
    } else if x < i16::MIN as i64 {
        i16::MIN
    } else {
        x as i16
    }
}

/// Division that rounds down.
pub(crate) fn floor_div(x: i64, d: i64) -> (q: i64)
    requires
        0 < d,
    ensures
        q == x as int / d as int,
{
    if x >= 0 {
        (x as u64 / d as u64) as i64
    } else {
        let n: u64 = (-(x + 1)) as u64 / d as u64;
        proof {
            let m = -(x + 1);
            lemma_fundamental_div_mod(m as int, d as int);
            let r = m % (d as int);
            assert(x == (-n - 1) * d + (d - 1 - r)) by (nonlinear_arith)
                requires
                    m == d * n + r,
                    m == -(x + 1),
            ;
            lemma_fundamental_div_mod_converse(x as int, d as int, -n - 1, d - 1 - r);
            assert(n <= m) by (nonlinear_arith)
                requires
                    m == d * n + r,
                    r >= 0,
                    d > 0,
                    n >= 0,
            ;
        }
        -(n as i64) - 1
    }
}

pub(crate) fn wrap32(x: i64) -> (w: i32)
    ensures
        w == wrapped32(x as int),
{
    let q: i64 = floor_div(x, 0x1_0000_0000);
    let low: i64 = x - q * 0x1_0000_0000;
    if low < 0x8000_0000 {
        low as i32
    } else {
        (low - 0x1_0000_0000) as i32
    }
}

/// The product of two 32-bit numbers.
pub(crate) fn product(a: i32, b: i32) -> (p: i128)
    ensures
        p == a * b,
        -0x4000_0000_0000_0000 <= p <= 0x4000_0000_0000_0000,
{
    assert(-0x4000_0000_0000_0000 <= a * b <= 0x4000_0000_0000_0000) by (nonlinear_arith)
        requires
            -0x8000_0000 <= a <= 0x7FFF_FFFF,
            -0x8000_0000 <= b <= 0x7FFF_FFFF,
    ;
    a as i128 * b as i128
}

/// The low 32 bits of a sum of products.
pub(crate) fn wrap32_wide(x: i128) -> (w: i32)
    requires
        -0x1000_0000_0000_0000_0000 <= x <= 0x1000_0000_0000_0000_0000,
    ensures
        w == wrapped32(x as int),
{
    let shifted: u128 = (x + 0x1_0000_0000_0000_0000_0000) as u128;
    let low: u128 = shifted % 0x1_0000_0000;
    assert(low == x as int % 0x1_0000_0000);
    if low < 0x8000_0000 {
        low as i32
    } else {
        (low as i64 - 0x1_0000_0000) as i32
    }
}

/// Flooring division of a 32-bit number.
pub(crate) fn floor_div32(x: i32, d: i32) -> (q: i32)
    requires
        0 < d,
    ensures
        q == x as int / d as int,
{
    let q: i64 = floor_div(x as i64, d as i64);
    proof {
        lemma_fundamental_div_mod(x as int, d as int);
        assert(-0x8000_0000 <= q <= 0x7FFF_FFFF) by (nonlinear_arith)
            requires
                -0x8000_0000 <= x <= 0x7FFF_FFFF,
                x == d * q + x as int % d as int,
                0 <= x as int % d as int,
                (x as int % d as int) < d,
                0 < d,
        ;
    }
    q as i32
}

} // verus!
