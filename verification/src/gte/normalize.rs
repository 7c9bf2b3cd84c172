//! Vector normalisation with a table of reciprocal square roots.

use vstd::prelude::*;

use crate::fixed::{floor_div32, product, wrap32_wide, wrapped32};
use crate::gpu::words::{to_wrapped16, wrapped16};
use crate::gte::math::{Vec3I16, Vec3I32};
use crate::gte::scene::ClassicNormalizedVector;

verus! {

/// Q12 factors `8 / sqrt(n)` for `n` from 64 to 255.
pub const CLASSIC_NORMALIZE_TABLE: [i16; 192] = [
    0x1000, 0x0fe0, 0x0fc1, 0x0fa3, 0x0f85, 0x0f68, 0x0f4c, 0x0f30, 0x0f15, 0x0efb, 0x0ee1, 0x0ec7,
    0x0eae, 0x0e96, 0x0e7e, 0x0e66, 0x0e4f, 0x0e38, 0x0e22, 0x0e0c, 0x0df7, 0x0de2, 0x0dcd, 0x0db9,
    0x0da5, 0x0d91, 0x0d7e, 0x0d6b, 0x0d58, 0x0d45, 0x0d33, 0x0d21, 0x0d10, 0x0cff, 0x0cee, 0x0cdd,
    0x0ccc, 0x0cbc, 0x0cac, 0x0c9c, 0x0c8d, 0x0c7d, 0x0c6e, 0x0c5f, 0x0c51, 0x0c42, 0x0c34, 0x0c26,
    0x0c18, 0x0c0a, 0x0bfd, 0x0bef, 0x0be2, 0x0bd5, 0x0bc8, 0x0bbb, 0x0baf, 0x0ba2, 0x0b96, 0x0b8a,
    0x0b7e, 0x0b72, 0x0b67, 0x0b5b, 0x0b50, 0x0b45, 0x0b39, 0x0b2e, 0x0b24, 0x0b19, 0x0b0e, 0x0b04,
    0x0af9, 0x0aef, 0x0ae5, 0x0adb, 0x0ad1, 0x0ac7, 0x0abd, 0x0ab4, 0x0aaa, 0x0aa1, 0x0a97, 0x0a8e,
    0x0a85, 0x0a7c, 0x0a73, 0x0a6a, 0x0a61, 0x0a59, 0x0a50, 0x0a47, 0x0a3f, 0x0a37, 0x0a2e, 0x0a26,
    0x0a1e, 0x0a16, 0x0a0e, 0x0a06, 0x09fe, 0x09f6, 0x09ef, 0x09e7, 0x09e0, 0x09d8, 0x09d1, 0x09c9,
    0x09c2, 0x09bb, 0x09b4, 0x09ad, 0x09a5, 0x099e, 0x0998, 0x0991, 0x098a, 0x0983, 0x097c, 0x0976,
    0x096f, 0x0969, 0x0962, 0x095c, 0x0955, 0x094f, 0x0949, 0x0943, 0x093c, 0x0936, 0x0930, 0x092a,
    0x0924, 0x091e, 0x0918, 0x0912, 0x090d, 0x0907, 0x0901, 0x08fb, 0x08f6, 0x08f0, 0x08eb, 0x08e5,
    0x08e0, 0x08da, 0x08d5, 0x08cf, 0x08ca, 0x08c5, 0x08bf, 0x08ba, 0x08b5, 0x08b0, 0x08ab, 0x08a6,
    0x08a1, 0x089c, 0x0897, 0x0892, 0x088d, 0x0888, 0x0883, 0x087e, 0x087a, 0x0875, 0x0870, 0x086b,
    0x0867, 0x0862, 0x085e, 0x0859, 0x0855, 0x0850, 0x084c, 0x0847, 0x0843, 0x083e, 0x083a, 0x0836,
    0x0831, 0x082d, 0x0829, 0x0824, 0x0820, 0x081c, 0x0818, 0x0814, 0x0810, 0x080c, 0x0808, 0x0804,
];

/// A positive number divided by four until it is below 256.
pub open spec fn lowered(n: int) -> int
    decreases n,
{
    if n < 256 {
        n
    } else {
        lowered(n / 4)
    }
}

/// How often that takes.
pub open spec fn lowerings(n: int) -> int
    decreases n,
{
    if n < 256 {
        0
    } else {
        1 + lowerings(n / 4)
    }
}

/// A positive number multiplied by four until it is at least 64.
pub open spec fn raised(n: int) -> int
    decreases 256 - n,
{
    if n <= 0 || n >= 64 {
        n
    } else {
        raised(4 * n)
    }
}

/// How often that takes.
pub open spec fn raisings(n: int) -> int
    decreases 256 - n,
{
    if n <= 0 || n >= 64 {
        0
    } else {
        1 + raisings(4 * n)
    }
}

/// A squared length, brought into the range of the table.
pub open spec fn mantissa(squared: int) -> int {
    raised(lowered(squared))
}

/// Half the binary logarithm of what the squared length was divided by.
pub open spec fn exponent(squared: int) -> int {
    lowerings(squared) - raisings(lowered(squared))
}

/// Two to the `n`.
pub open spec fn power_of_two(n: int) -> int
    decreases n,
{
    if n <= 0 {
        1
    } else {
        2 * power_of_two(n - 1)
    }
}

/// A component of the unit vector along a vector of some squared length.
pub open spec fn unit_component(x: i16, squared: int) -> i16 {
    wrapped16(
        CLASSIC_NORMALIZE_TABLE[mantissa(squared) - 64] * x / power_of_two(exponent(squared) + 3),
    )
}

/// The whole part of a Q12 number, in 16 bits.
pub open spec fn whole(x: i32) -> i16 {
    wrapped16(x as int / 4096)
}

/// A vector normalised. Squared lengths are those of the whole parts, in 32
/// bits; a vector whose squared length is not positive has no direction.
pub open spec fn normalized(v: Vec3I32) -> ClassicNormalizedVector {
    let (x, y, z) = (whole(v.x), whole(v.y), whole(v.z));
    let xy_squared = wrapped32(x * x + y * y);
    let squared = wrapped32(x * x + y * y + z * z);
    ClassicNormalizedVector {
        vector: if squared <= 0 {
            Vec3I16 { x: 0, y: 0, z: 0 }
        } else {
            Vec3I16 {
                x: unit_component(x, squared as int),
                y: unit_component(y, squared as int),
                z: unit_component(z, squared as int),
            }
        },
        xy_squared,
        squared,
    }
}

proof fn table_is_positive(i: int)
    requires
        0 <= i < 192,
    ensures
        0x0804 <= CLASSIC_NORMALIZE_TABLE[i] <= 0x1000,
{
}

/// A positive number comes into the range of the table, in a number of steps
/// that its size bounds.
proof fn lowered_fits(n: int, bound: int)
    requires
        0 < n,
        0 <= bound,
        n < 256 * power_of_two(2 * bound),
    ensures
        0 < lowered(n) < 256,
        n >= 64 ==> lowered(n) >= 64,
        0 <= lowerings(n) <= bound,
    decreases n,
{
    if n >= 256 {
        if bound == 0 {
            assert(power_of_two(0) == 1);
        } else {
            assert(power_of_two(2 * bound) == 2 * power_of_two(2 * bound - 1));
            assert(power_of_two(2 * bound - 1) == 2 * power_of_two(2 * bound - 2));
            lowered_fits(n / 4, bound - 1);
        }
    }
}

proof fn raised_fits(n: int)
    requires
        0 < n < 256,
    ensures
        64 <= raised(n) < 256,
        0 <= raisings(n) <= 3,
        n >= 64 ==> raised(n) == n && raisings(n) == 0,
{
    reveal_with_fuel(raised, 4);
    reveal_with_fuel(raisings, 4);
}

/// The mantissa and exponent of a squared length.
fn split(squared: i32) -> (r: (usize, u32))
    requires
        squared > 0,
    ensures
        r.0 == mantissa(squared as int) - 64,
        r.0 < 192,
        r.1 == exponent(squared as int) + 3,
        r.1 <= 15,
{
    proof {
        assert(power_of_two(24) == 0x100_0000) by {
            reveal_with_fuel(power_of_two, 25);
        }
        lowered_fits(squared as int, 12);
        raised_fits(lowered(squared as int));
    }
    let mut n: i32 = squared;
    let mut shift: i32 = 3;
    while n >= 256
        invariant
            0 < n,
            3 <= shift <= 15,
            lowered(n as int) == lowered(squared as int),
            shift - 3 + lowerings(n as int) == lowerings(squared as int),
            lowerings(squared as int) <= 12,
        decreases n,
    {
        proof {
            lowerings_are_counted(n / 4);
        }
        n = (n as u32 / 4) as i32;
        shift = shift + 1;
    }
    proof {
        raised_fits(n as int);
    }
    while n < 64
        invariant
            0 < n < 256,
            0 <= raisings(n as int) <= 3,
            raised(n as int) == mantissa(squared as int),
            shift - 3 - raisings(n as int) == exponent(squared as int),
            shift - raisings(n as int) >= 0,
            shift <= 15,
            64 <= raised(n as int) < 256,
        decreases 256 - n,
    {
        proof {
            raised_fits(4 * n);
        }
        n = 4 * n;
        shift = shift - 1;
    }
    ((n - 64) as usize, shift as u32)
}

proof fn lowerings_are_counted(n: int)
    ensures
        lowerings(n) >= 0,
    decreases n,
{
    if n >= 256 {
        lowerings_are_counted(n / 4);
    }
}

fn scale_of(shift: u32) -> (scale: i32)
    requires
        shift <= 15,
    ensures
        scale == power_of_two(shift as int),
        0 < scale <= 0x8000,
{
    let mut scale: i32 = 1;
    let mut n: u32 = 0;
    assert(power_of_two(15) == 0x8000) by {
        reveal_with_fuel(power_of_two, 16);
    }
    while n < shift
        invariant
            n <= shift <= 15,
            scale == power_of_two(n as int),
            1 <= scale,
            scale * power_of_two(15 - n) == 0x8000,
            scale <= 0x8000,
            n == 0 ==> scale == 1,
        decreases shift - n,
    {
        proof {
            power_is_positive(14 - n);
            let rest = power_of_two(14 - n);
            assert(power_of_two(15 - n) == 2 * rest);
            assert(scale * (2 * rest) == (2 * scale) * rest) by (nonlinear_arith);
            assert(2 * scale <= 0x8000) by (nonlinear_arith)
                requires
                    (2 * scale) * rest == 0x8000,
                    rest >= 1,
            ;
        }
        scale = 2 * scale;
        n += 1;
    }
    scale
}

proof fn power_is_positive(n: int)
    ensures
        power_of_two(n) >= 1,
    decreases n,
{
    if n > 0 {
        power_is_positive(n - 1);
    }
}

fn scale_component(x: i16, factor: i16, scale: i32) -> (r: i16)
    requires
        0 <= factor <= 0x1000,
        0 < scale,
    ensures
        r == wrapped16(factor * x / scale as int),
{
    assert(-0x800_0000 <= factor * x <= 0x800_0000) by (nonlinear_arith)
        requires
            0 <= factor <= 0x1000,
            -0x8000 <= x <= 0x7FFF,
    ;
    to_wrapped16(floor_div32(factor as i32 * x as i32, scale))
}

/// Normalise a Q12 vector.
pub fn normalize_classic_q12_scheduled(input: Vec3I32) -> (r: ClassicNormalizedVector)
    ensures
        r == normalized(input),
{
    let x: i16 = to_wrapped16(floor_div32(input.x, 4096));
    let y: i16 = to_wrapped16(floor_div32(input.y, 4096));
    let z: i16 = to_wrapped16(floor_div32(input.z, 4096));
    let xy: i128 = product(x as i32, x as i32) + product(y as i32, y as i32);
    let xy_squared: i32 = wrap32_wide(xy);
    let squared: i32 = wrap32_wide(xy + product(z as i32, z as i32));
    if squared <= 0 {
        return ClassicNormalizedVector { vector: Vec3I16::zero(), xy_squared, squared };
    }
    let (index, shift) = split(squared);
    proof {
        table_is_positive(index as int);
    }
    let factor: i16 = CLASSIC_NORMALIZE_TABLE[index];
    let scale: i32 = scale_of(shift);
    ClassicNormalizedVector {
        vector: Vec3I16::new(
            scale_component(x, factor, scale),
            scale_component(y, factor, scale),
            scale_component(z, factor, scale),
        ),
        xy_squared,
        squared,
    }
}

/// The table is looked up inside its bounds for every positive squared length.
pub proof fn mantissa_is_in_the_table(squared: i32)
    requires
        squared > 0,
    ensures
        64 <= mantissa(squared as int) < 256,
        -3 <= exponent(squared as int) <= 12,
{
    assert(power_of_two(24) == 0x100_0000) by {
        reveal_with_fuel(power_of_two, 25);
    }
    lowered_fits(squared as int, 12);
    raised_fits(lowered(squared as int));
}

} // verus!
