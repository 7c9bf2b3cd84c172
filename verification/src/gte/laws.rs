//! What products, rotations, depth keys and clipping mean.

use vstd::prelude::*;

use crate::gpu::words_laws::{high_in, low_in};
use crate::gte::math::{Mat3I16, Vec3I16, Vec3I32};
use crate::gte::normalize::{
    exponent, lowered, lowerings, mantissa, normalized, power_of_two, raised, raisings,
    unit_component, whole, CLASSIC_NORMALIZE_TABLE,
};
use crate::gte::registers::{
    background_writes, depth_cue_writes, far_colour_writes, light_colour_writes, light_writes,
    matrix_registers, number32, offset_writes, plane_write, rotation_writes, translation_writes,
    vector_registers, vertex_registers, weight_writes, Projected,
};
use crate::gte::scene::{
    area, bit, classic_key, classified, cleared_flag, dots_fit, is_inside, is_outside, outside_any,
    point_dot, support, transformed, transformed_vertex, weighted3, weighted4, AabbClipPlane,
};
use crate::gte::transform::{
    column, cosine_of, dot, product, product_cell, scaled, scaled_columns, scaled_rows, sine,
    sine_of, x_rotation, xyz_rotation, y_rotation, z_rotation, QUARTER_SINES,
};

verus! {

/// Whether a Q12 number is a Q24 number, rounded down.
pub open spec fn is_floor(r: int, exact: int) -> bool {
    0 <= exact - 4096 * r < 4096
}

/// The product of two vectors is the sum of the products of their components,
/// as long as that fits.
pub proof fn dot_sums_products(a: [i16; 3], b: [i16; 3])
    requires
        -0x8000_0000 <= a[0] * b[0] + a[1] * b[1] <= 0x7FFF_FFFF,
        -0x8000_0000 <= a[0] * b[0] + a[1] * b[1] + a[2] * b[2] <= 0x7FFF_FFFF,
    ensures
        is_floor(dot(a, b), a[0] * b[0] + a[1] * b[1] + a[2] * b[2]),
{
}

/// A cell of a product is a row of the first matrix times a column of the second,
/// as long as that fits into 16 bits.
pub proof fn products_multiply_rows_by_columns(a: Mat3I16, b: Mat3I16, i: int, j: int)
    requires
        0 <= i < 3,
        0 <= j < 3,
        -0x800_0000 <= a.m[i][0] * b.m[0][j] + a.m[i][1] * b.m[1][j] <= 0x7FF_0000,
        -0x800_0000 <= a.m[i][0] * b.m[0][j] + a.m[i][1] * b.m[1][j] + a.m[i][2] * b.m[2][j]
            <= 0x7FF_0000,
    ensures
        is_floor(
            product(a, b).m[i][j] as int,
            a.m[i][0] * b.m[0][j] + a.m[i][1] * b.m[1][j] + a.m[i][2] * b.m[2][j],
        ),
{
    let c = column(b, j);
    assert(c[0] == b.m[0][j] && c[1] == b.m[1][j] && c[2] == b.m[2][j]);
    dot_sums_products(a.m[i], c);
    assert(product(a, b).m[i][j] == product_cell(a, b, i, j));
}

/// Scaling rows scales cell `(i, j)` by factor `i`, scaling columns by factor
/// `j`.
pub proof fn scaling_goes_by_row_or_column(m: Mat3I16, scale: [i32; 3], i: int, j: int)
    requires
        0 <= i < 3,
        0 <= j < 3,
    ensures
        -0x800_0000 <= m.m[i][j] * scale[i] <= 0x7FF_FFFF ==> is_floor(
            scaled_rows(m, scale).m[i][j] as int,
            m.m[i][j] * scale[i],
        ),
        -0x800_0000 <= m.m[i][j] * scale[j] <= 0x7FF_FFFF ==> is_floor(
            scaled_columns(m, scale).m[i][j] as int,
            m.m[i][j] * scale[j],
        ),
{
    assert(scaled_rows(m, scale).m[i][j] == scaled(m.m[i][j], scale[i]));
    assert(scaled_columns(m, scale).m[i][j] == scaled(m.m[i][j], scale[j]));
}

/// A vertex is moved by the translation and its product with a row, rounded down.
pub proof fn transformation_moves(row: [i16; 3], t: i32, v: Vec3I16)
    requires
        -0x7000_0000 <= t <= 0x7000_0000,
    ensures
        is_floor(transformed(row, t, v) - t, row[0] * v.x + row[1] * v.y + row[2] * v.z),
{
    let (a, b, c) = (row[0] as int, row[1] as int, row[2] as int);
    assert(-0x4000_0000 <= a * v.x <= 0x4000_0000 && -0x4000_0000 <= b * v.y <= 0x4000_0000
        && -0x4000_0000 <= c * v.z <= 0x4000_0000) by (nonlinear_arith)
        requires
            -0x8000 <= a <= 0x7FFF,
            -0x8000 <= b <= 0x7FFF,
            -0x8000 <= c <= 0x7FFF,
            -0x8000 <= v.x <= 0x7FFF,
            -0x8000 <= v.y <= 0x7FFF,
            -0x8000 <= v.z <= 0x7FFF,
    ;
}

/// Sines rise over the first quarter turn from zero to one, ever less steeply.
#[verifier::rlimit(40)]
pub proof fn sines_rise(k: int)
    requires
        0 < k < 64,
    ensures
        sine_of(0) == 0,
        sine_of(64) == 4096,
        sine_of(k - 1) < sine_of(k) <= sine_of(k + 1),
        sine_of(k + 1) - sine_of(k) <= sine_of(k) - sine_of(k - 1) + 1,
        -2 <= 10000 * (sine_of(k + 1) - 2 * sine_of(k) + sine_of(k - 1)) / 10000 + 6 * sine_of(k)
            / 10000 <= 2,
{
}

/// A rotation about the first axis leaves it alone, and turns the second axis
/// towards the third: its columns are where the axes go.
pub proof fn rotations_turn_their_planes(angle: u16)
    ensures
        ({
            let (c, s) = (cosine_of(angle as int), sine_of(angle as int));
            let (x, y, z) = (x_rotation(angle), y_rotation(angle), z_rotation(angle));
            &&& column(x, 0)@ == seq![4096i16, 0, 0]
            &&& column(x, 1)@ == seq![0i16, c, s]
            &&& column(y, 1)@ == seq![0i16, 4096, 0]
            &&& column(y, 2)@ == seq![s, 0, c]
            &&& column(z, 2)@ == seq![0i16, 0, 4096]
            &&& column(z, 0)@ == seq![c, s, 0]
            &&& forall|i: int| 0 <= i < 3 ==> x.m[i]@ =~= column(turned_back(x), i)@
            &&& x.m[1][2] == -x.m[2][1]
            &&& y.m[0][2] == -y.m[2][0]
            &&& z.m[0][1] == -z.m[1][0]
            &&& x.m[1][1] == x.m[2][2]
            &&& y.m[0][0] == y.m[2][2]
            &&& z.m[0][0] == z.m[1][1]
        }),
{
    let (c, s) = (cosine_of(angle as int), sine_of(angle as int));
    sines_stay_small(angle as int);
    let (x, y, z) = (x_rotation(angle), y_rotation(angle), z_rotation(angle));
    assert(column(x, 0)@ =~= seq![4096i16, 0, 0]);
    assert(column(x, 1)@ =~= seq![0i16, c, s]);
    assert(column(y, 1)@ =~= seq![0i16, 4096, 0]);
    assert(column(y, 2)@ =~= seq![s, 0, c]);
    assert(column(z, 2)@ =~= seq![0i16, 0, 4096]);
    assert(column(z, 0)@ =~= seq![c, s, 0]);
}

/// A matrix with rows and columns exchanged.
pub open spec fn turned_back(m: Mat3I16) -> Mat3I16 {
    Mat3I16 {
        m: [
            [m.m[0][0], m.m[1][0], m.m[2][0]],
            [m.m[0][1], m.m[1][1], m.m[2][1]],
            [m.m[0][2], m.m[1][2], m.m[2][2]],
        ],
    }
}

proof fn sines_stay_small(angle: int)
    ensures
        -4096 <= sine_of(angle) <= 4096,
        -4096 <= cosine_of(angle) <= 4096,
{
    quarter_is_small(angle % 256);
    quarter_is_small((angle + 64) % 256);
}

proof fn quarter_is_small(a: int)
    requires
        0 <= a < 256,
    ensures
        -4096 <= sine(a) <= 4096,
{
    let k = if a <= 64 {
        a
    } else if a <= 128 {
        128 - a
    } else if a <= 192 {
        a - 128
    } else {
        256 - a
    };
    quarter_table_is_small(k);
}

proof fn quarter_table_is_small(k: int)
    requires
        0 <= k <= 64,
    ensures
        0 <= QUARTER_SINES[k] <= 4096,
{
}

/// Rotations about all three axes are applied in order: the first one does not
/// touch the first row of what the other two make, and the last one does not
/// touch the last column of what the first two make.
pub proof fn rotations_go_in_order(x: u16, y: u16, z: u16, k: int)
    requires
        0 <= k < 3,
    ensures
        xyz_rotation(x, y, z).m[0][k] == product(y_rotation(y), z_rotation(z)).m[0][k],
        xyz_rotation(x, y, z).m[k][2] == product(x_rotation(x), y_rotation(y)).m[k][2],
{
    let (a, b, c) = (x_rotation(x), y_rotation(y), z_rotation(z));
    let ab = product(a, b);
    first_row_passes(a, b, 0);
    first_row_passes(a, b, 1);
    first_row_passes(a, b, 2);
    assert(ab.m[0] =~= b.m[0]);
    assert(product(ab, c).m[0][k] == product_cell(ab, c, 0, k));
    assert(product(b, c).m[0][k] == product_cell(b, c, 0, k));
    last_column_passes(ab, c, k);
}

proof fn first_row_passes(a: Mat3I16, b: Mat3I16, j: int)
    requires
        0 <= j < 3,
        a.m[0][0] == 4096,
        a.m[0][1] == 0,
        a.m[0][2] == 0,
    ensures
        product(a, b).m[0][j] == b.m[0][j],
{
    let c = column(b, j);
    assert(c[0] == b.m[0][j] && c[1] == b.m[1][j] && c[2] == b.m[2][j]);
    assert(product(a, b).m[0][j] == product_cell(a, b, 0, j));
    assert(0 * c[1] == 0 && 0 * c[2] == 0);
}

proof fn last_column_passes(a: Mat3I16, b: Mat3I16, i: int)
    requires
        0 <= i < 3,
        b.m[0][2] == 0,
        b.m[1][2] == 0,
        b.m[2][2] == 4096,
    ensures
        product(a, b).m[i][2] == a.m[i][2],
{
    let c = column(b, 2);
    assert(c[0] == 0 && c[1] == 0 && c[2] == 4096);
    assert(product(a, b).m[i][2] == product_cell(a, b, i, 2));
    assert(a.m[i][0] * 0 == 0 && a.m[i][1] * 0 == 0);
}

/// A depth key is the weighted sum of its depths, rounded down and held to 16
/// bits.
pub proof fn depth_keys_weigh_sums(d: [u16; 4], weight: i16)
    ensures
        ({
            let three = (d[0] + d[1] + d[2]) * weight;
            let four = (d[0] + d[1] + d[2] + d[3]) * weight;
            let k3 = weighted3([d[0], d[1], d[2]], weight);
            let k4 = weighted4(d, weight);
            &&& 0 <= three < 0x1000_0000 ==> is_floor(k3, three)
            &&& 0 <= four < 0x1000_0000 ==> is_floor(k4, four)
            &&& three < 0 ==> k3 == 0
            &&& four < 0 ==> k4 == 0
            &&& three >= 0x1000_0000 ==> k3 == 0xFFFF
            &&& four >= 0x1000_0000 ==> k4 == 0xFFFF
        }),
{
    let t: [u16; 3] = [d[0], d[1], d[2]];
    assert(t[0] == d[0] && t[1] == d[1] && t[2] == d[2]);
}

/// The key of three depths in a table of 2048 slots is a quarter of their mean,
/// and no more than that, for depths of 16 bits.
pub proof fn classic_keys_quarter_the_mean(a: u16, b: u16, c: u16)
    ensures
        ({
            let sum = a + b + c;
            let key = classic_key(sum);
            &&& 12 * key <= sum
            &&& sum <= 12 * key + 13 + sum / 1000
            &&& key < 0x4000
        }),
{
    let sum = a + b + c;
    assert(0 <= sum * 0x155 / 4096 < 0x1_0000);
}

/// The area of a right triangle along the axes is its width times its height,
/// wherever it lies; moving any triangle keeps its area.
pub proof fn areas_are_areas(v: [(i16, i16); 3], x: i16, y: i16, w: i16, h: i16, dx: i16, dy: i16)
    requires
        x + w == (x + w) as i16,
        y + h == (y + h) as i16,
        forall|i: int|
            0 <= i < 3 ==> (#[trigger] v[i]).0 + dx == (v[i].0 + dx) as i16 && v[i].1 + dy == (v[i].1
                + dy) as i16,
    ensures
        area([(x, y), ((x + w) as i16, y), (x, (y + h) as i16)]) == w * h,
        area(
            [
                ((v[0].0 + dx) as i16, (v[0].1 + dy) as i16),
                ((v[1].0 + dx) as i16, (v[1].1 + dy) as i16),
                ((v[2].0 + dx) as i16, (v[2].1 + dy) as i16),
            ],
        ) == area(v),
{
    let t: [(i16, i16); 3] = [(x, y), ((x + w) as i16, y), (x, (y + h) as i16)];
    assert(t[0] == (x, y) && t[1] == ((x + w) as i16, y) && t[2] == (x, (y + h) as i16));
    assert(x * (y - (y + h)) + (x + w) * ((y + h) - y) + x * (y - y) == w * h) by (nonlinear_arith);
    let m: [(i16, i16); 3] = [
        ((v[0].0 + dx) as i16, (v[0].1 + dy) as i16),
        ((v[1].0 + dx) as i16, (v[1].1 + dy) as i16),
        ((v[2].0 + dx) as i16, (v[2].1 + dy) as i16),
    ];
    assert(v[0].0 + dx == (v[0].0 + dx) as i16 && v[1].0 + dx == (v[1].0 + dx) as i16 && v[2].0 + dx
        == (v[2].0 + dx) as i16);
    assert(m[0].0 == v[0].0 + dx && m[1].0 == v[1].0 + dx && m[2].0 == v[2].0 + dx);
    assert(m[0].1 == v[0].1 + dy && m[1].1 == v[1].1 + dy && m[2].1 == v[2].1 + dy);
    moved_area(
        v[0].0 as int,
        v[0].1 as int,
        v[1].0 as int,
        v[1].1 as int,
        v[2].0 as int,
        v[2].1 as int,
        dx as int,
        dy as int,
    );
}

proof fn moved_area(
    x0: int,
    y0: int,
    x1: int,
    y1: int,
    x2: int,
    y2: int,
    dx: int,
    dy: int,
)
    ensures
        (x0 + dx) * ((y1 + dy) - (y2 + dy)) + (x1 + dx) * ((y2 + dy) - (y0 + dy)) + (x2 + dx) * ((y0
            + dy) - (y1 + dy)) == x0 * (y1 - y2) + x1 * (y2 - y0) + x2 * (y0 - y1),
{
    assert((x0 + dx) * (y1 - y2) + (x1 + dx) * (y2 - y0) + (x2 + dx) * (y0 - y1) == x0 * (y1 - y2)
        + x1 * (y2 - y0) + x2 * (y0 - y1)) by (nonlinear_arith);
}

/// A box that is not outside a plane has a corner before it, and a box that is
/// not inside has a corner behind it.
pub proof fn clipping_tells_apart(plane: AabbClipPlane, mins: [i16; 3], maxs: [i16; 3])
    requires
        dots_fit(plane, mins, maxs),
    ensures
        !is_outside(mins, maxs, plane) ==> exists|x: i16, y: i16, z: i16|
            (x == mins[0] || x == maxs[0]) && (y == mins[1] || y == maxs[1]) && (z == mins[2] || z
                == maxs[2]) && #[trigger] point_dot(plane, x as int, y as int, z as int)
                >= plane.distance,
        !is_inside(mins, maxs, plane) ==> exists|x: i16, y: i16, z: i16|
            (x == mins[0] || x == maxs[0]) && (y == mins[1] || y == maxs[1]) && (z == mins[2] || z
                == maxs[2]) && #[trigger] point_dot(plane, x as int, y as int, z as int)
                < plane.distance,
{
    let s = plane.signbits;
    let (a, b, c) = (
        support(mins, maxs, s, 0),
        support(mins, maxs, s, 1),
        support(mins, maxs, s, 2),
    );
    let (d, e, f) = (
        support(maxs, mins, s, 0),
        support(maxs, mins, s, 1),
        support(maxs, mins, s, 2),
    );
    if !is_outside(mins, maxs, plane) {
        assert(point_dot(plane, a as int, b as int, c as int) >= plane.distance);
    }
    if !is_inside(mins, maxs, plane) {
        assert(point_dot(plane, d as int, e as int, f as int) < plane.distance);
    }
}

/// The registers of a matrix hold its cells row by row, two to a register, the
/// earlier one in the lower half.
pub proof fn matrix_registers_read_back(m: Mat3I16)
    ensures
        ({
            let r = matrix_registers(m);
            &&& r.len() == 5
            &&& low_in(r[0]) == m.m[0][0]
            &&& high_in(r[0]) == m.m[0][1]
            &&& low_in(r[1]) == m.m[0][2]
            &&& high_in(r[1]) == m.m[1][0]
            &&& low_in(r[2]) == m.m[1][1]
            &&& high_in(r[2]) == m.m[1][2]
            &&& low_in(r[3]) == m.m[2][0]
            &&& high_in(r[3]) == m.m[2][1]
            &&& low_in(r[4]) == m.m[2][2]
        }),
{
    crate::gpu::words_laws::vertex_reads_back(m.m[0][0], m.m[0][1]);
    crate::gpu::words_laws::vertex_reads_back(m.m[0][2], m.m[1][0]);
    crate::gpu::words_laws::vertex_reads_back(m.m[1][1], m.m[1][2]);
    crate::gpu::words_laws::vertex_reads_back(m.m[2][0], m.m[2][1]);
}

/// The registers of vectors hold their coordinates in order.
pub proof fn vector_registers_read_back(v: Vec3I32, w: Vec3I16)
    ensures
        vector_registers(v).len() == 3,
        number32(vector_registers(v)[0]) == v.x,
        number32(vector_registers(v)[1]) == v.y,
        number32(vector_registers(v)[2]) == v.z,
        vertex_registers(w).len() == 2,
        low_in(vertex_registers(w)[0]) == w.x,
        high_in(vertex_registers(w)[0]) == w.y,
        low_in(vertex_registers(w)[1]) == w.z,
        number32(vertex_registers(w)[1]) == w.z,
{
    crate::gpu::words_laws::vertex_reads_back(w.x, w.y);
}

/// Four to the `n`.
pub open spec fn four_to(n: int) -> int
    decreases n,
{
    if n <= 0 {
        1
    } else {
        4 * four_to(n - 1)
    }
}

proof fn lowering_divides(n: int)
    requires
        0 < n,
    ensures
        0 < lowered(n) < 256,
        lowered(n) * four_to(lowerings(n)) <= n < (lowered(n) + 1) * four_to(lowerings(n)),
        0 <= lowerings(n),
        n >= 64 ==> lowered(n) >= 64,
        n < 64 ==> lowerings(n) == 0,
    decreases n,
{
    if n >= 256 {
        let q = n / 4;
        lowering_divides(q);
        let (m, e) = (lowered(q), lowerings(q));
        let p = four_to(e);
        assert(four_to(1 + e) == 4 * p);
        assert(m * (4 * p) == 4 * (m * p) && (m + 1) * (4 * p) == 4 * ((m + 1) * p))
            by (nonlinear_arith);
    } else {
        assert(n * 1 == n && (n + 1) * 1 == n + 1);
    }
}

proof fn raising_multiplies(n: int)
    requires
        0 < n < 256,
    ensures
        raised(n) == n * four_to(raisings(n)),
        64 <= raised(n) < 256,
        0 <= raisings(n) <= 3,
        n >= 64 ==> raisings(n) == 0,
{
    reveal_with_fuel(raised, 4);
    reveal_with_fuel(raisings, 4);
    reveal_with_fuel(four_to, 4);
    assert(four_to(0) == 1 && four_to(1) == 4 && four_to(2) == 16 && four_to(3) == 64);
    if n >= 64 {
        assert(raisings(n) == 0);
    } else if n >= 16 {
        assert(raisings(n) == 1);
    } else if n >= 4 {
        assert(raisings(n) == 2);
    } else {
        assert(raisings(n) == 3);
    }
}

/// A squared length is its mantissa times a power of four, rounded down, with a
/// mantissa from 64 to 255.
pub proof fn lengths_split(squared: int)
    requires
        0 < squared,
    ensures
        64 <= mantissa(squared) < 256,
        exponent(squared) >= 0 ==> mantissa(squared) * four_to(exponent(squared)) <= squared
            < (mantissa(squared) + 1) * four_to(exponent(squared)),
        exponent(squared) < 0 ==> mantissa(squared) == squared * four_to(-exponent(squared)),
{
    lowering_divides(squared);
    raising_multiplies(lowered(squared));
    if squared < 64 {
        assert(lowered(squared) == squared);
    } else {
        assert(four_to(0) == 1);
    }
}

/// The table of reciprocal roots falls from one at 64 to about a half at 255, ever
/// less steeply.
#[verifier::rlimit(40)]
pub proof fn reciprocal_roots_fall(i: int)
    requires
        0 <= i < 190,
    ensures
        ({
            let (a, b, c) = (
                CLASSIC_NORMALIZE_TABLE[i] as int,
                CLASSIC_NORMALIZE_TABLE[i + 1] as int,
                CLASSIC_NORMALIZE_TABLE[i + 2] as int,
            );
            &&& a > b > c
            &&& b - c - 1 <= a - b <= b - c + 2
        }),
        CLASSIC_NORMALIZE_TABLE[0] == 4096,
        CLASSIC_NORMALIZE_TABLE[191] == 2052,
{
}

/// A component of a unit vector keeps the sign of what it was made from, and is
/// the table's factor times it, shifted by half the exponent of the squared
/// length.
pub proof fn unit_components_scale(x: i16, squared: i32)
    requires
        0 < squared,
        -0x7000 <= CLASSIC_NORMALIZE_TABLE[mantissa(squared as int) - 64] * x / power_of_two(
            exponent(squared as int) + 3,
        ) <= 0x7000,
    ensures
        ({
            let f = CLASSIC_NORMALIZE_TABLE[mantissa(squared as int) - 64] as int;
            let p = power_of_two(exponent(squared as int) + 3);
            let r = unit_component(x, squared as int) as int;
            0 < p ==> r * p <= f * x < r * p + p
        }),
{
    let f = CLASSIC_NORMALIZE_TABLE[mantissa(squared as int) - 64] as int;
    let p = power_of_two(exponent(squared as int) + 3);
    if 0 < p {
        let q = f * x / p;
        vstd::arithmetic::div_mod::lemma_fundamental_div_mod(f * x, p);
        vstd::arithmetic::div_mod::lemma_mod_bound(f * x, p);
        assert(p * q == q * p) by (nonlinear_arith);
    }
}

/// A scene's set-up fills the control registers from the first to the last but
/// one, in order, without a gap and without writing one twice: rotation,
/// translation, light directions, background, light colours, far colour, screen
/// offset, projection plane, depth cue, weights.
pub proof fn setup_fills_the_control_registers(
    rotation: Mat3I16,
    translation: Vec3I32,
    lights: Mat3I16,
    background: Vec3I32,
    colours: Mat3I16,
    far: Vec3I32,
    offset: (i32, i32),
    plane: u16,
    cue: (i16, i32),
    weights: (i16, i16),
    k: int,
)
    requires
        0 <= k < 31,
    ensures
        ({
            let all = rotation_writes(rotation) + translation_writes(translation) + light_writes(
                lights,
            ) + background_writes(background) + light_colour_writes(colours) + far_colour_writes(
                far,
            ) + offset_writes(offset.0, offset.1) + seq![plane_write(plane)] + depth_cue_writes(
                cue.0,
                cue.1,
            ) + weight_writes(weights.0, weights.1);
            &&& all.len() == 31
            &&& all[k].register == k
            &&& number32(all[24].value) == offset.0
            &&& number32(all[25].value) == offset.1
            &&& all[26].value == plane
            &&& number32(all[27].value) == cue.0
            &&& number32(all[28].value) == cue.1
            &&& number32(all[29].value) == weights.0
            &&& number32(all[30].value) == weights.1
        }),
{
}

/// A transformed vertex has in each coordinate what its row and its translation
/// make of it.
pub proof fn vertices_transform_row_by_row(rotation: Mat3I16, t: Vec3I32, v: Vec3I16)
    requires
        -0x7000_0000 <= t.x <= 0x7000_0000,
        -0x7000_0000 <= t.y <= 0x7000_0000,
        -0x7000_0000 <= t.z <= 0x7000_0000,
    ensures
        ({
            let r = transformed_vertex(rotation, t, v);
            let m = rotation.m;
            &&& is_floor(r.x - t.x, m[0][0] * v.x + m[0][1] * v.y + m[0][2] * v.z)
            &&& is_floor(r.y - t.y, m[1][0] * v.x + m[1][1] * v.y + m[1][2] * v.z)
            &&& is_floor(r.z - t.z, m[2][0] * v.x + m[2][1] * v.y + m[2][2] * v.z)
        }),
{
    transformation_moves(rotation.m[0], t.x, v);
    transformation_moves(rotation.m[1], t.y, v);
    transformation_moves(rotation.m[2], t.z, v);
}

/// The screen and depth registers hold a projected vertex: its horizontal
/// coordinate in the lower half, its vertical one in the upper half.
pub proof fn projected_vertices_read_back(sxy: u32, sz: u32)
    ensures
        Projected::held(sxy, sz).sx == low_in(sxy),
        Projected::held(sxy, sz).sy == high_in(sxy),
        sz < 0x1_0000 ==> Projected::held(sxy, sz).sz == sz,
{
}

/// A box is given up as soon as one selected plane has it outside. Else a plane
/// stays selected exactly if it was and does not have the whole box inside, and
/// the flags of no other planes change.
pub proof fn classification_keeps_the_open_planes(
    mins: [i16; 3],
    maxs: [i16; 3],
    planes: [AabbClipPlane; 4],
    flags: u8,
    i: int,
)
    requires
        0 <= i < 4,
    ensures
        ({
            let r = classified(mins, maxs, planes, flags);
            &&& bit(flags, i) && is_outside(mins, maxs, planes[i]) ==> r == -1
            &&& r == -1 ==> (bit(flags, 0) && is_outside(mins, maxs, planes[0])) || (bit(flags, 1)
                && is_outside(mins, maxs, planes[1])) || (bit(flags, 2) && is_outside(
                mins,
                maxs,
                planes[2],
            )) || (bit(flags, 3) && is_outside(mins, maxs, planes[3]))
            &&& r != -1 ==> 0 <= r < 256
            &&& r != -1 ==> (bit(r as u8, i) <==> bit(flags, i) && !is_inside(
                mins,
                maxs,
                planes[i],
            ))
            &&& r != -1 ==> r / 16 == flags / 16
        }),
{
    if outside_any(mins, maxs, planes, flags) {
        let k = choose|k: int|
            0 <= k < 4 && bit(flags, k) && is_outside(mins, maxs, #[trigger] planes[k]);
        assert(k == 0 || k == 1 || k == 2 || k == 3);
    }
    let f = flags as int;
    let (b0, b1, b2, b3) = (f % 2, f / 2 % 2, f / 4 % 2, f / 8 % 2);
    assert(f == b0 + 2 * b1 + 4 * b2 + 8 * b3 + 16 * (f / 16)) by {
        assert(f / 4 == f / 2 / 2 && f / 8 == f / 4 / 2 && f / 16 == f / 8 / 2);
    }
    let c0 = cleared_flag(mins, maxs, planes, flags, 0);
    let c1 = cleared_flag(mins, maxs, planes, flags, 1) / 2;
    let c2 = cleared_flag(mins, maxs, planes, flags, 2) / 4;
    let c3 = cleared_flag(mins, maxs, planes, flags, 3) / 8;
    bits_come_apart(b0 - c0, b1 - c1, b2 - c2, b3 - c3, f / 16);
}

proof fn bits_come_apart(b0: int, b1: int, b2: int, b3: int, high: int)
    requires
        0 <= b0 <= 1,
        0 <= b1 <= 1,
        0 <= b2 <= 1,
        0 <= b3 <= 1,
        0 <= high < 16,
    ensures
        ({
            let x = b0 + 2 * b1 + 4 * b2 + 8 * b3 + 16 * high;
            &&& 0 <= x < 256
            &&& x % 2 == b0
            &&& x / 2 % 2 == b1
            &&& x / 4 % 2 == b2
            &&& x / 8 % 2 == b3
            &&& x / 16 == high
        }),
{
    let x = b0 + 2 * b1 + 4 * b2 + 8 * b3 + 16 * high;
    assert(x / 2 == b1 + 2 * b2 + 4 * b3 + 8 * high);
    assert(x / 4 == b2 + 2 * b3 + 4 * high);
    assert(x / 8 == b3 + 2 * high);
}

/// Normalising measures a vector by the whole parts of its Q12 coordinates, and
/// scales each by the length of all three. A vector without a whole part has no
/// direction. Exchanged coordinates give exchanged components.
pub proof fn normalizing_goes_by_whole_parts(v: Vec3I32, x: int, y: int, z: int)
    requires
        -0x4000 <= x <= 0x4000,
        -0x4000 <= y <= 0x4000,
        -0x4000 <= z <= 0x4000,
        0 <= v.x - 4096 * x < 4096,
        0 <= v.y - 4096 * y < 4096,
        0 <= v.z - 4096 * z < 4096,
    ensures
        ({
            let n = normalized(v);
            let turned = normalized(Vec3I32 { x: v.y, y: v.z, z: v.x });
            &&& n.squared == x * x + y * y + z * z
            &&& n.xy_squared == x * x + y * y
            &&& x == 0 && y == 0 && z == 0 ==> n.vector == (Vec3I16 { x: 0, y: 0, z: 0 })
            &&& n.squared > 0 ==> n.vector.x == unit_component(x as i16, n.squared as int)
            &&& turned.squared == n.squared
            &&& turned.vector.x == n.vector.y
            &&& turned.vector.y == n.vector.z
            &&& turned.vector.z == n.vector.x
        }),
{
    assert(0 <= x * x <= 0x1000_0000) by (nonlinear_arith)
        requires
            -0x4000 <= x <= 0x4000,
    ;
    assert(0 <= y * y <= 0x1000_0000) by (nonlinear_arith)
        requires
            -0x4000 <= y <= 0x4000,
    ;
    assert(0 <= z * z <= 0x1000_0000) by (nonlinear_arith)
        requires
            -0x4000 <= z <= 0x4000,
    ;
    assert(v.x as int / 4096 == x && v.y as int / 4096 == y && v.z as int / 4096 == z);
    assert(whole(v.x) == x && whole(v.y) == y && whole(v.z) == z);
    if x == 0 && y == 0 && z == 0 {
        assert(x * x + y * y + z * z == 0);
    }
}

} // verus!
