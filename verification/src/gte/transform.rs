//! Rotations, scalings and products of Q12 matrices.
//!
//! Angles are in units of which 256 make a full turn.

use vstd::arithmetic::div_mod::{
    lemma_fundamental_div_mod, lemma_fundamental_div_mod_converse,
};
use vstd::prelude::*;

use crate::fixed::{floor_div, floor_div32, saturate16, saturate32, saturated16, saturated32};
use crate::gte::math::{Mat3I16, Vec3I16};

verus! {

/// Q12 sines of the angles in the first quarter turn, rounded to the nearest.
/// Another table of sines in Q12 may differ from this one in the last place.
pub const QUARTER_SINES: [i16; 65] = [
    0, 101, 201, 301, 401, 501, 601, 700,
    799, 897, 995, 1092, 1189, 1285, 1380, 1474,
    1567, 1660, 1751, 1842, 1931, 2019, 2106, 2191,
    2276, 2359, 2440, 2520, 2598, 2675, 2751, 2824,
    2896, 2967, 3035, 3102, 3166, 3229, 3290, 3349,
    3406, 3461, 3513, 3564, 3612, 3659, 3703, 3745,
    3784, 3822, 3857, 3889, 3920, 3948, 3973, 3996,
    4017, 4036, 4052, 4065, 4076, 4085, 4091, 4095,
    4096,
];

/// The Q12 sine of an angle below a full turn. The second quarter mirrors the
/// first, the second half negates the first half.
pub open spec fn sine(angle: int) -> i16 {
    if angle <= 64 {
        QUARTER_SINES[angle]
    } else if angle <= 128 {
        QUARTER_SINES[128 - angle]
    } else if angle <= 192 {
        (-QUARTER_SINES[angle - 128]) as i16
    } else {
        (-QUARTER_SINES[256 - angle]) as i16
    }
}

/// The Q12 sine of an angle of any size.
pub open spec fn sine_of(angle: int) -> i16 {
    sine(angle % 256)
}

/// The Q12 cosine of an angle: the sine of the angle a quarter turn ahead.
pub open spec fn cosine_of(angle: int) -> i16 {
    sine_of(angle + 64)
}

/// The Q12 product of two vectors. Sums are held to 32 bits.
pub open spec fn dot(a: [i16; 3], b: [i16; 3]) -> int {
    saturated32(saturated32(a[0] * b[0] + a[1] * b[1]) + a[2] * b[2]) as int / 4096
}

/// A column of a matrix.
pub open spec fn column(m: Mat3I16, j: int) -> [i16; 3] {
    [m.m[0][j], m.m[1][j], m.m[2][j]]
}

/// A cell of the product of two matrices.
pub open spec fn product_cell(a: Mat3I16, b: Mat3I16, i: int, j: int) -> i16 {
    saturated16(dot(a.m[i], column(b, j)))
}

/// The product of two matrices.
pub open spec fn product(a: Mat3I16, b: Mat3I16) -> Mat3I16 {
    Mat3I16 {
        m: [
            [product_cell(a, b, 0, 0), product_cell(a, b, 0, 1), product_cell(a, b, 0, 2)],
            [product_cell(a, b, 1, 0), product_cell(a, b, 1, 1), product_cell(a, b, 1, 2)],
            [product_cell(a, b, 2, 0), product_cell(a, b, 2, 1), product_cell(a, b, 2, 2)],
        ],
    }
}

/// The identity.
pub open spec fn identity_matrix() -> Mat3I16 {
    Mat3I16 { m: [[4096i16, 0i16, 0i16], [0i16, 4096i16, 0i16], [0i16, 0i16, 4096i16]] }
}

/// The rotation about the first axis.
pub open spec fn x_rotation(angle: u16) -> Mat3I16 {
    let (c, s) = (cosine_of(angle as int), sine_of(angle as int));
    Mat3I16 { m: [[4096i16, 0i16, 0i16], [0i16, c, (-s) as i16], [0i16, s, c]] }
}

/// The rotation about the second axis.
pub open spec fn y_rotation(angle: u16) -> Mat3I16 {
    let (c, s) = (cosine_of(angle as int), sine_of(angle as int));
    Mat3I16 { m: [[c, 0i16, s], [0i16, 4096i16, 0i16], [(-s) as i16, 0i16, c]] }
}

/// The rotation about the third axis.
pub open spec fn z_rotation(angle: u16) -> Mat3I16 {
    let (c, s) = (cosine_of(angle as int), sine_of(angle as int));
    Mat3I16 { m: [[c, (-s) as i16, 0i16], [s, c, 0i16], [0i16, 0i16, 4096i16]] }
}

/// A cell scaled by a Q12 factor.
pub open spec fn scaled(cell: i16, factor: i32) -> i16 {
    saturated16(cell * factor / 4096)
}

/// A row of cells, each scaled by its own factor.
pub open spec fn scaled_row(row: [i16; 3], a: i32, b: i32, c: i32) -> [i16; 3] {
    [scaled(row[0], a), scaled(row[1], b), scaled(row[2], c)]
}

/// The rotation about the first, then the second, then the third axis.
pub open spec fn xyz_rotation(x: u16, y: u16, z: u16) -> Mat3I16 {
    product(product(x_rotation(x), y_rotation(y)), z_rotation(z))
}

/// A matrix with each row scaled by its own factor.
pub open spec fn scaled_rows(m: Mat3I16, scale: [i32; 3]) -> Mat3I16 {
    Mat3I16 {
        m: [
            scaled_row(m.m[0], scale[0], scale[0], scale[0]),
            scaled_row(m.m[1], scale[1], scale[1], scale[1]),
            scaled_row(m.m[2], scale[2], scale[2], scale[2]),
        ],
    }
}

/// A matrix with each column scaled by its own factor.
pub open spec fn scaled_columns(m: Mat3I16, scale: [i32; 3]) -> Mat3I16 {
    Mat3I16 {
        m: [
            scaled_row(m.m[0], scale[0], scale[1], scale[2]),
            scaled_row(m.m[1], scale[0], scale[1], scale[2]),
            scaled_row(m.m[2], scale[0], scale[1], scale[2]),
        ],
    }
}

/// The quarter table holds sines: from zero to one.
proof fn sines_are_small(k: int)
    requires
        0 <= k <= 64,
    ensures
        0 <= QUARTER_SINES[k] <= 4096,
{
}

/// Sine of an angle, in Q12.
pub fn sin_1_3_12(angle: u16) -> (s: i16)
    ensures
        s == sine_of(angle as int),
        -4096 <= s <= 4096,
{
    let a: usize = (angle % 256) as usize;
    if a <= 64 {
        proof {
            sines_are_small(a as int);
        }
        QUARTER_SINES[a]
    } else if a <= 128 {
        proof {
            sines_are_small(128 - a);
        }
        QUARTER_SINES[128 - a]
    } else if a <= 192 {
        proof {
            sines_are_small(a - 128);
        }
        -QUARTER_SINES[a - 128]
    } else {
        proof {
            sines_are_small(256 - a);
        }
        -QUARTER_SINES[256 - a]
    }
}

/// Cosine of an angle, in Q12.
pub fn cos_1_3_12(angle: u16) -> (c: i16)
    ensures
        c == cosine_of(angle as int),
        -4096 <= c <= 4096,
{
    proof {
        let (q, a) = (angle as int / 256, angle as int % 256);
        lemma_fundamental_div_mod(angle as int, 256);
        if a < 192 {
            remainder_of_a_turn(angle + 64, q, a + 64);
            remainder_of_a_turn(a + 64, 0, a + 64);
        } else {
            remainder_of_a_turn(angle + 64, q + 1, a - 192);
            remainder_of_a_turn(a + 64, 1, a - 192);
        }
    }
    sin_1_3_12(angle % 256 + 64)
}

fn row_of(a: i16, b: i16, c: i16) -> (row: [i16; 3])
    ensures
        row == [a, b, c],
{
    let row: [i16; 3] = [a, b, c];
    assert(row =~= [a, b, c]);
    row
}

fn matrix_of(a: [i16; 3], b: [i16; 3], c: [i16; 3]) -> (m: Mat3I16)
    ensures
        m == (Mat3I16 { m: [a, b, c] }),
{
    let m: [[i16; 3]; 3] = [a, b, c];
    assert(m =~= [a, b, c]);
    Mat3I16 { m }
}

fn cell_product(a: i16, b: i16) -> (p: i64)
    ensures
        p == a * b,
        -0x4000_0000 <= p <= 0x4000_0000,
{
    assert(-0x4000_0000 <= a * b <= 0x4000_0000) by (nonlinear_arith)
        requires
            -0x8000 <= a <= 0x7FFF,
            -0x8000 <= b <= 0x7FFF,
    ;
    a as i64 * b as i64
}

/// The Q12 product of two vectors.
pub fn dot_q12_i16(a: [i16; 3], b: [i16; 3]) -> (d: i32)
    ensures
        d == dot(a, b),
{
    let first: i32 = saturate32(cell_product(a[0], b[0]) + cell_product(a[1], b[1]));
    let sum: i32 = saturate32(first as i64 + cell_product(a[2], b[2]));
    floor_div32(sum, 4096)
}

fn scale_cell(cell: i16, factor: i32) -> (s: i16)
    ensures
        s == scaled(cell, factor),
{
    assert(-0x4000_0000_0000 <= cell * factor <= 0x4000_0000_0000) by (nonlinear_arith)
        requires
            -0x8000 <= cell <= 0x7FFF,
            -0x8000_0000 <= factor <= 0x7FFF_FFFF,
    ;
    saturate16(floor_div(cell as i64 * factor as i64, 4096))
}

impl Mat3I16 {
    /// The identity.
    pub fn identity() -> (m: Mat3I16)
        ensures
            m == identity_matrix(),
    {
        matrix_of(row_of(4096, 0, 0), row_of(0, 4096, 0), row_of(0, 0, 4096))
    }

    fn column_of(&self, j: usize) -> (c: [i16; 3])
        requires
            j < 3,
        ensures
            c == column(*self, j as int),
    {
        row_of(self.m[0][j], self.m[1][j], self.m[2][j])
    }

    fn product_row(&self, i: usize, other: &Self) -> (row: [i16; 3])
        requires
            i < 3,
        ensures
            row == [
                product_cell(*self, *other, i as int, 0),
                product_cell(*self, *other, i as int, 1),
                product_cell(*self, *other, i as int, 2),
            ],
    {
        row_of(
            saturate16(dot_q12_i16(self.m[i], other.column_of(0)) as i64),
            saturate16(dot_q12_i16(self.m[i], other.column_of(1)) as i64),
            saturate16(dot_q12_i16(self.m[i], other.column_of(2)) as i64),
        )
    }

    /// The product of two matrices.
    pub fn mul(&self, other: &Self) -> (m: Self)
        ensures
            m == product(*self, *other),
    {
        matrix_of(
            self.product_row(0, other),
            self.product_row(1, other),
            self.product_row(2, other),
        )
    }

    /// The rotation about the first, then the second, then the third axis.
    pub fn rotate_xyz(x: u16, y: u16, z: u16) -> (m: Self)
        ensures
            m == xyz_rotation(x, y, z),
    {
        let xy = Mat3I16::rotate_x(x).mul(&Mat3I16::rotate_y(y));
        xy.mul(&Mat3I16::rotate_z(z))
    }

    /// Scale each row by its own Q12 factor.
    pub fn scale_rows_q12(&self, scale: [i32; 3]) -> (m: Self)
        ensures
            m == scaled_rows(*self, scale),
    {
        let (a, b, c) = (scale[0], scale[1], scale[2]);
        matrix_of(
            scale_row(self.m[0], a, a, a),
            scale_row(self.m[1], b, b, b),
            scale_row(self.m[2], c, c, c),
        )
    }

    /// Scale each column by its own Q12 factor.
    pub fn scale_columns_q12(&self, scale: [i32; 3]) -> (m: Self)
        ensures
            m == scaled_columns(*self, scale),
    {
        let (a, b, c) = (scale[0], scale[1], scale[2]);
        matrix_of(
            scale_row(self.m[0], a, b, c),
            scale_row(self.m[1], a, b, c),
            scale_row(self.m[2], a, b, c),
        )
    }

    /// The product of the matrix and a vector.
    pub fn transform(&self, v: Vec3I16) -> (r: [i32; 3])
        ensures
            r@ == seq![
                dot(self.m[0], [v.x, v.y, v.z]) as i32,
                dot(self.m[1], [v.x, v.y, v.z]) as i32,
                dot(self.m[2], [v.x, v.y, v.z]) as i32,
            ],
    {
        let w = row_of(v.x, v.y, v.z);
        let r: [i32; 3] = [
            dot_q12_i16(self.m[0], w),
            dot_q12_i16(self.m[1], w),
            dot_q12_i16(self.m[2], w),
        ];
        assert(r@ =~= seq![
            dot(self.m[0], [v.x, v.y, v.z]) as i32,
            dot(self.m[1], [v.x, v.y, v.z]) as i32,
            dot(self.m[2], [v.x, v.y, v.z]) as i32,
        ]);
        r
    }

    /// The rotation about the first axis.
    pub fn rotate_x(angle: u16) -> (m: Self)
        ensures
            m == x_rotation(angle),
    {
        let (c, s) = (cos_1_3_12(angle), sin_1_3_12(angle));
        matrix_of(row_of(4096, 0, 0), row_of(0, c, -s), row_of(0, s, c))
    }

    /// The rotation about the second axis.
    pub fn rotate_y(angle: u16) -> (m: Self)
        ensures
            m == y_rotation(angle),
    {
        let (c, s) = (cos_1_3_12(angle), sin_1_3_12(angle));
        matrix_of(row_of(c, 0, s), row_of(0, 4096, 0), row_of(-s, 0, c))
    }

    /// The rotation about the third axis.
    pub fn rotate_z(angle: u16) -> (m: Self)
        ensures
            m == z_rotation(angle),
    {
        let (c, s) = (cos_1_3_12(angle), sin_1_3_12(angle));
        matrix_of(row_of(c, -s, 0), row_of(s, c, 0), row_of(0, 0, 4096))
    }
}

fn scale_row(row: [i16; 3], a: i32, b: i32, c: i32) -> (r: [i16; 3])
    ensures
        r == scaled_row(row, a, b, c),
{
    row_of(scale_cell(row[0], a), scale_cell(row[1], b), scale_cell(row[2], c))
}

/// Turning back: the sine is odd, and repeats after a full turn.
pub proof fn sine_is_odd_and_periodic(angle: int)
    ensures
        sine_of(-angle) == -sine_of(angle),
        sine_of(angle + 256) == sine_of(angle),
        cosine_of(-angle) == cosine_of(angle),
        sine_of(angle + 128) == -sine_of(angle),
{
    let (q, a) = (angle / 256, angle % 256);
    lemma_fundamental_div_mod(angle, 256);
    if a == 0 {
        remainder_of_a_turn(-angle, -q, 0);
    } else {
        remainder_of_a_turn(-angle, -q - 1, 256 - a);
    }
    remainder_of_a_turn(angle + 256, q + 1, a);
    if a < 192 {
        remainder_of_a_turn(angle + 64, q, a + 64);
    } else {
        remainder_of_a_turn(angle + 64, q + 1, a - 192);
    }
    if a <= 64 {
        remainder_of_a_turn(-angle + 64, -q, 64 - a);
    } else {
        remainder_of_a_turn(-angle + 64, -q - 1, 320 - a);
    }
    if a < 128 {
        remainder_of_a_turn(angle + 128, q, a + 128);
    } else {
        remainder_of_a_turn(angle + 128, q + 1, a - 128);
    }
}

/// What is left of an angle after its full turns.
proof fn remainder_of_a_turn(angle: int, turns: int, rest: int)
    requires
        angle == 256 * turns + rest,
        0 <= rest < 256,
    ensures
        angle % 256 == rest,
{
    lemma_fundamental_div_mod_converse(angle, 256, turns, rest);
}

/// The sines of the four quarters of a turn.
pub proof fn sines_of_the_quarters()
    ensures
        sine_of(0) == 0,
        sine_of(64) == 4096,
        sine_of(128) == 0,
        sine_of(192) == -4096,
        cosine_of(0) == 4096,
        cosine_of(64) == 0,
        cosine_of(128) == -4096,
        cosine_of(192) == 0,
{
}

proof fn whole_cell(x: i16)
    ensures
        saturated32(4096 * x) as int / 4096 == x,
        saturated32(x * 4096) as int / 4096 == x,
        saturated16(x as int) == x,
{
}

/// The product with a unit vector is a component.
proof fn unit_picks_a_component(unit: [i16; 3], b: [i16; 3], k: int)
    requires
        0 <= k < 3,
        unit[0] == if k == 0 {
            4096
        } else {
            0int
        },
        unit[1] == if k == 1 {
            4096
        } else {
            0int
        },
        unit[2] == if k == 2 {
            4096
        } else {
            0int
        },
    ensures
        dot(unit, b) == b[k],
        dot(b, unit) == b[k],
{
    zero_or_one_times(unit[0], b[0]);
    zero_or_one_times(unit[1], b[1]);
    zero_or_one_times(unit[2], b[2]);
    whole_cell(b[k]);
}

proof fn zero_or_one_times(u: i16, x: i16)
    requires
        u == 0 || u == 4096,
    ensures
        u * x == if u == 0 {
            0int
        } else {
            4096 * x
        },
        x * u == u * x,
{
    assert(u * x == if u == 0 {
        0int
    } else {
        4096 * x
    }) by (nonlinear_arith)
        requires
            u == 0 || u == 4096,
    ;
    assert(x * u == u * x) by (nonlinear_arith);
}

/// Multiplying by the identity, on either side, changes no matrix.
pub proof fn identity_is_neutral(m: Mat3I16)
    ensures
        product(identity_matrix(), m) == m,
        product(m, identity_matrix()) == m,
{
    let id = identity_matrix();
    assert(id.m[0][0] == 4096 && id.m[0][1] == 0 && id.m[0][2] == 0);
    assert(id.m[1][0] == 0 && id.m[1][1] == 4096 && id.m[1][2] == 0);
    assert(id.m[2][0] == 0 && id.m[2][1] == 0 && id.m[2][2] == 4096);
    assert forall|i: int, j: int| 0 <= i < 3 && 0 <= j < 3 implies #[trigger] product_cell(
        id,
        m,
        i,
        j,
    ) == m.m[i][j] by {
        unit_picks_a_component(id.m[i], column(m, j), i);
    }
    assert forall|i: int, j: int| 0 <= i < 3 && 0 <= j < 3 implies #[trigger] product_cell(
        m,
        id,
        i,
        j,
    ) == m.m[i][j] by {
        unit_picks_a_component(column(id, j), m.m[i], j);
    }
    let left = product(id, m).m;
    let right = product(m, id).m;
    assert(left[0] =~= m.m[0] && left[1] =~= m.m[1] && left[2] =~= m.m[2]);
    assert(right[0] =~= m.m[0] && right[1] =~= m.m[1] && right[2] =~= m.m[2]);
    assert(left =~= m.m);
    assert(right =~= m.m);
}

/// The identity leaves a vector as it is.
pub proof fn identity_keeps_vectors(v: Vec3I16)
    ensures
        dot(identity_matrix().m[0], [v.x, v.y, v.z]) == v.x,
        dot(identity_matrix().m[1], [v.x, v.y, v.z]) == v.y,
        dot(identity_matrix().m[2], [v.x, v.y, v.z]) == v.z,
{
    let w: [i16; 3] = [v.x, v.y, v.z];
    unit_picks_a_component(identity_matrix().m[0], w, 0);
    unit_picks_a_component(identity_matrix().m[1], w, 1);
    unit_picks_a_component(identity_matrix().m[2], w, 2);
}

/// Scaling by one changes no cell.
pub proof fn scaling_by_one_is_neutral(row: [i16; 3])
    ensures
        scaled_row(row, 4096, 4096, 4096) == row,
{
    whole_cell(row[0]);
    whole_cell(row[1]);
    whole_cell(row[2]);
    assert(scaled_row(row, 4096, 4096, 4096) =~= row);
}

} // verus!
