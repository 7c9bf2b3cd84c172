//! Transformation, depth keys, facing, and clipping of boxes.

use vstd::prelude::*;

use crate::fixed::{
    floor_div, product, saturate16, saturated16, wrap32, wrap32_wide, wrapped32,
};
use crate::gte::math::{Mat3I16, Vec3I16, Vec3I32};
use crate::gte::transform::{column, identity_matrix, product_cell};
use crate::gte::transform::product as matrix_product;

verus! {

/// A component of a transformed vertex: that of the translation, and the Q12
/// product of a row of the rotation and the vertex.
pub open spec fn transformed(row: [i16; 3], t: i32, v: Vec3I16) -> i32 {
    wrapped32(t + (row[0] * v.x + row[1] * v.y + row[2] * v.z) / 4096)
}

fn transform_component(row: &[i16; 3], t: i32, v: Vec3I16) -> (c: i32)
    ensures
        c == transformed(*row, t, v),
{
    proof {
        small_product(row[0], v.x);
        small_product(row[1], v.y);
        small_product(row[2], v.z);
    }
    let sum: i64 = row[0] as i64 * v.x as i64 + row[1] as i64 * v.y as i64 + row[2] as i64
        * v.z as i64;
    wrap32(t as i64 + floor_div(sum, 4096))
}

proof fn small_product(a: i16, b: i16)
    ensures
        -0x4000_0000 <= a * b <= 0x4000_0000,
{
    assert(-0x4000_0000 <= a * b <= 0x4000_0000) by (nonlinear_arith)
        requires
            -0x8000 <= a <= 0x7FFF,
            -0x8000 <= b <= 0x7FFF,
    ;
}

/// A vertex, rotated and translated.
pub open spec fn transformed_vertex(
    rotation: Mat3I16,
    translation: Vec3I32,
    v: Vec3I16,
) -> Vec3I32 {
    Vec3I32 {
        x: transformed(rotation.m[0], translation.x, v),
        y: transformed(rotation.m[1], translation.y, v),
        z: transformed(rotation.m[2], translation.z, v),
    }
}

/// Rotate and translate a vertex, without projection.
pub fn transform_vertex(rotation: &Mat3I16, translation: Vec3I32, v: Vec3I16) -> (r: Vec3I32)
    ensures
        r == transformed_vertex(*rotation, translation, v),
{
    Vec3I32::new(
        transform_component(&rotation.m[0], translation.x, v),
        transform_component(&rotation.m[1], translation.y, v),
        transform_component(&rotation.m[2], translation.z, v),
    )
}

/// As [`transform_vertex`], for loops that keep the matrix in registers.
pub fn transform_vertex_scheduled(
    rotation: &Mat3I16,
    translation: Vec3I32,
    v: Vec3I16,
) -> (r: Vec3I32)
    ensures
        r == transformed_vertex(*rotation, translation, v),
{
    transform_vertex(rotation, translation, v)
}

/// The vector of a column of a matrix.
pub open spec fn column_vector(m: Mat3I16, j: int) -> Vec3I16 {
    Vec3I16 { x: m.m[0][j], y: m.m[1][j], z: m.m[2][j] }
}

fn row_of(a: i32, b: i32, c: i32) -> (row: [i16; 3])
    ensures
        row == [saturated16(a as int), saturated16(b as int), saturated16(c as int)],
{
    let row: [i16; 3] = [saturate16(a as i64), saturate16(b as i64), saturate16(c as i64)];
    assert(row =~= [saturated16(a as int), saturated16(b as int), saturated16(c as int)]);
    row
}

/// Compose two matrices: transform the columns of `right` by `left`, and hold
/// the results to 16 bits. That is the product of the matrices.
pub fn compose_rotation_scheduled(left: &Mat3I16, right: &Mat3I16) -> (m: Mat3I16)
    ensures
        m == matrix_product(*left, *right),
{
    let still = Vec3I32::zero();
    let c0 = transform_vertex_scheduled(
        left,
        still,
        Vec3I16::new(right.m[0][0], right.m[1][0], right.m[2][0]),
    );
    let c1 = transform_vertex_scheduled(
        left,
        still,
        Vec3I16::new(right.m[0][1], right.m[1][1], right.m[2][1]),
    );
    let c2 = transform_vertex_scheduled(
        left,
        still,
        Vec3I16::new(right.m[0][2], right.m[1][2], right.m[2][2]),
    );
    let rows: [[i16; 3]; 3] = [
        row_of(c0.x, c1.x, c2.x),
        row_of(c0.y, c1.y, c2.y),
        row_of(c0.z, c1.z, c2.z),
    ];
    proof {
        assert forall|i: int, j: int| 0 <= i < 3 && 0 <= j < 3 implies saturated16(
            transformed(left.m[i], 0, #[trigger] column_vector(*right, j)) as int,
        ) == #[trigger] product_cell(*left, *right, i, j) by {
            composing_is_multiplying(*left, *right, i, j);
        }
        let (v0, v1, v2) = (
            column_vector(*right, 0),
            column_vector(*right, 1),
            column_vector(*right, 2),
        );
        let wanted = matrix_product(*left, *right).m;
        assert(rows[0] =~= wanted[0]);
        assert(rows[1] =~= wanted[1]);
        assert(rows[2] =~= wanted[2]);
        assert(rows =~= wanted);
    }
    Mat3I16 { m: rows }
}

/// A column of a product is the transformed column: where sums exceed 32 bits,
/// both hold the cell to 16.
pub proof fn composing_is_multiplying(left: Mat3I16, right: Mat3I16, i: int, j: int)
    requires
        0 <= i < 3,
        0 <= j < 3,
    ensures
        saturated16(transformed(left.m[i], 0, column_vector(right, j)) as int) == product_cell(
            left,
            right,
            i,
            j,
        ),
{
    let c = column(right, j);
    assert(c[0] == right.m[0][j] && c[1] == right.m[1][j] && c[2] == right.m[2][j]);
    small_product(left.m[i][0], right.m[0][j]);
    small_product(left.m[i][1], right.m[1][j]);
    small_product(left.m[i][2], right.m[2][j]);
}

/// The identity and no translation leave a vertex where it is, and a
/// translation moves it by itself.
pub proof fn identity_only_translates(t: i32, v: Vec3I16)
    ensures
        transformed(identity_matrix().m[0], t, v) == wrapped32(t + v.x),
        transformed(identity_matrix().m[1], t, v) == wrapped32(t + v.y),
        transformed(identity_matrix().m[2], t, v) == wrapped32(t + v.z),
{
    let m = identity_matrix().m;
    assert(m[0] =~= [4096i16, 0i16, 0i16] && m[1] =~= [0i16, 4096i16, 0i16] && m[2]
        =~= [0i16, 0i16, 4096i16]);
}

/// A Q12 number held to the range of depth keys.
pub open spec fn depth_key(x: int) -> int {
    if x < 0 {
        0
    } else if x > 0xFFFF {
        0xFFFF
    } else {
        x
    }
}

fn to_depth_key(x: i64) -> (key: u16)
    ensures
        key == depth_key(x as int),
{
    if x < 0 {
        0
    } else if x > 0xFFFF {
        0xFFFF
    } else {
        x as u16
    }
}

/// The weighted sum of three depths.
pub open spec fn weighted3(depths: [u16; 3], weight: i16) -> int {
    depth_key((depths[0] + depths[1] + depths[2]) * weight / 4096)
}

/// The weighted sum of four depths.
pub open spec fn weighted4(depths: [u16; 4], weight: i16) -> int {
    depth_key((depths[0] + depths[1] + depths[2] + depths[3]) * weight / 4096)
}

fn weighted_key(sum: i64, weight: i16) -> (key: u16)
    requires
        0 <= sum <= 0x4_0000,
    ensures
        key == depth_key(sum * weight / 4096),
{
    assert(-0x2_0000_0000 <= sum * weight <= 0x2_0000_0000) by (nonlinear_arith)
        requires
            0 <= sum <= 0x4_0000,
            -0x8000 <= weight <= 0x7FFF,
    ;
    to_depth_key(floor_div(sum * weight as i64, 4096))
}

/// The depth key of a triangle, with the Q12 weight `zsf3` of each depth.
pub fn average_z3_otz(depths: [u16; 3], zsf3: i16) -> (key: u16)
    ensures
        key == weighted3(depths, zsf3),
{
    weighted_key(depths[0] as i64 + depths[1] as i64 + depths[2] as i64, zsf3)
}

/// The depth key of a quad, with the Q12 weight `zsf4` of each depth.
pub fn average_z4_otz(depths: [u16; 4], zsf4: i16) -> (key: u16)
    ensures
        key == weighted4(depths, zsf4),
{
    weighted_key(
        depths[0] as i64 + depths[1] as i64 + depths[2] as i64 + depths[3] as i64,
        zsf4,
    )
}

/// The depth key of three cached depths, `zsf3` being the weight in effect.
pub fn average_cached_z3(depths: [u16; 3], zsf3: i16) -> (key: u16)
    ensures
        key == weighted3(depths, zsf3),
{
    average_z3_otz(depths, zsf3)
}

/// The depth key of four cached depths, `zsf4` being the weight in effect.
pub fn average_cached_z4(depths: [u16; 4], zsf4: i16) -> (key: u16)
    ensures
        key == weighted4(depths, zsf4),
{
    average_z4_otz(depths, zsf4)
}

/// The depth key of a sum of three depths in a table of 2048 slots.
pub open spec fn classic_key(sum: int) -> int {
    (sum * 0x155 / 4096) % 0x1_0000
}

/// Scale a sum of three depths to a table of 2048 slots.
pub fn classic_otz3_from_sum(sum: u32) -> (key: u16)
    requires
        sum * 0x155 <= u32::MAX,
    ensures
        key == classic_key(sum as int),
{
    ((sum * 0x155 / 4096) % 0x1_0000) as u16
}

/// Twice the signed area of a triangle on the screen.
pub open spec fn area(v: [(i16, i16); 3]) -> int {
    v[0].0 * (v[1].1 - v[2].1) + v[1].0 * (v[2].1 - v[0].1) + v[2].0 * (v[0].1 - v[1].1)
}

/// Twice the signed area of a triangle on the screen, in 32 bits. Positive for
/// a front face.
pub fn screen_area_mac0(vertices: [(i16, i16); 3]) -> (mac0: i32)
    ensures
        mac0 == wrapped32(area(vertices)),
{
    let (sx0, sy0) = (vertices[0].0 as i32, vertices[0].1 as i32);
    let (sx1, sy1) = (vertices[1].0 as i32, vertices[1].1 as i32);
    let (sx2, sy2) = (vertices[2].0 as i32, vertices[2].1 as i32);
    proof {
        cross_is_area(sx0 as int, sy0 as int, sx1 as int, sy1 as int, sx2 as int, sy2 as int);
    }
    wrap32_wide(product(sx1 - sx0, sy2 - sy0) - product(sy1 - sy0, sx2 - sx0))
}

proof fn cross_is_area(x0: int, y0: int, x1: int, y1: int, x2: int, y2: int)
    ensures
        (x1 - x0) * (y2 - y0) - (y1 - y0) * (x2 - x0) == x0 * (y1 - y2) + x1 * (y2 - y0) + x2 * (y0
            - y1),
{
    assert((x1 - x0) * (y2 - y0) - (y1 - y0) * (x2 - x0) == x0 * (y1 - y2) + x1 * (y2 - y0) + x2
        * (y0 - y1)) by (nonlinear_arith);
}

/// As [`screen_area_mac0`], for loops that keep the triangle in registers.
pub fn screen_area_mac0_scheduled(vertices: [(i16, i16); 3]) -> (mac0: i32)
    ensures
        mac0 == wrapped32(area(vertices)),
{
    screen_area_mac0(vertices)
}

/// The area of a triangle, and what its three corner words hold besides vertex
/// indices: texture coordinates in the upper halves, and a palette number in
/// bits 14 and 15 of the first.
pub fn screen_area_and_unpack_model_face_scheduled(
    vertices: [(i16, i16); 3],
    corner_words: [u32; 3],
) -> (r: (i32, [u16; 3], u8))
    ensures
        r.0 == wrapped32(area(vertices)),
        r.1@ == seq![
            (corner_words[0] / 0x1_0000) as u16,
            (corner_words[1] / 0x1_0000) as u16,
            (corner_words[2] / 0x1_0000) as u16,
        ],
        r.2 == (corner_words[0] as int / 0x4000) % 4,
{
    let uvs: [u16; 3] = [
        (corner_words[0] / 0x1_0000) as u16,
        (corner_words[1] / 0x1_0000) as u16,
        (corner_words[2] / 0x1_0000) as u16,
    ];
    assert(uvs@ =~= seq![
        (corner_words[0] / 0x1_0000) as u16,
        (corner_words[1] / 0x1_0000) as u16,
        (corner_words[2] / 0x1_0000) as u16,
    ]);
    (screen_area_mac0(vertices), uvs, ((corner_words[0] / 0x4000) % 4) as u8)
}

/// The area of a triangle and its depth key, `zsf3` being the weight in effect.
pub fn screen_area_and_average_cached_z3_scheduled(
    vertices: [(i16, i16); 3],
    depths: [u16; 3],
    zsf3: i16,
) -> (r: (i32, u16))
    ensures
        r.0 == wrapped32(area(vertices)),
        r.1 == weighted3(depths, zsf3),
{
    (screen_area_mac0(vertices), average_cached_z3(depths, zsf3))
}

/// The area of a triangle and its depth key in a table of 2048 slots.
pub fn screen_area_and_classic_otz3_scheduled(
    vertices: [(i16, i16); 3],
    depths: [u16; 3],
) -> (r: (i32, u16))
    ensures
        r.0 == wrapped32(area(vertices)),
        r.1 == classic_key(depths[0] + depths[1] + depths[2]),
{
    let sum: u32 = depths[0] as u32 + depths[1] as u32 + depths[2] as u32;
    (screen_area_mac0(vertices), classic_otz3_from_sum(sum))
}

/// Whether a triangle shows its back, or nothing.
pub fn screen_triangle_back_facing(vertices: [(i16, i16); 3]) -> (back: bool)
    ensures
        back == (wrapped32(area(vertices)) <= 0),
{
    screen_area_mac0(vertices) <= 0
}

/// Whether screen coordinates are in the range that projection yields.
pub open spec fn on_screen(v: [(i16, i16); 3]) -> bool {
    forall|i: int|
        0 <= i < 3 ==> -0x400 <= (#[trigger] v[i]).0 <= 0x400 && -0x400 <= v[i].1 <= 0x400
}

/// On the screen the area is exact, turning the triangle over negates it, and
/// going round it by one corner keeps it.
pub proof fn area_follows_the_winding(a: (i16, i16), b: (i16, i16), c: (i16, i16))
    requires
        on_screen([a, b, c]),
    ensures
        wrapped32(area([a, b, c])) == area([a, b, c]),
        area([a, c, b]) == -area([a, b, c]),
        area([b, c, a]) == area([a, b, c]),
{
    let v: [(i16, i16); 3] = [a, b, c];
    assert(v[0] == a && v[1] == b && v[2] == c);
    assert(-0x80_0000 <= a.0 * (b.1 - c.1) <= 0x80_0000 && -0x80_0000 <= b.0 * (c.1 - a.1)
        <= 0x80_0000 && -0x80_0000 <= c.0 * (a.1 - b.1) <= 0x80_0000) by (nonlinear_arith)
        requires
            -0x400 <= a.0 <= 0x400,
            -0x400 <= b.0 <= 0x400,
            -0x400 <= c.0 <= 0x400,
            -0x400 <= a.1 <= 0x400,
            -0x400 <= b.1 <= 0x400,
            -0x400 <= c.1 <= 0x400,
    ;
    assert(a.0 * (c.1 - b.1) == -(a.0 * (b.1 - c.1)) && c.0 * (b.1 - a.1) == -(c.0 * (a.1 - b.1))
        && b.0 * (a.1 - c.1) == -(b.0 * (c.1 - a.1))) by (nonlinear_arith);
    let w: [(i16, i16); 3] = [a, c, b];
    assert(w[0] == a && w[1] == c && w[2] == b);
    let r: [(i16, i16); 3] = [b, c, a];
    assert(r[0] == b && r[1] == c && r[2] == a);
}

/// A plane that boxes are clipped against.
#[derive(Clone, Copy, Debug, PartialEq, Eq)]
pub struct AabbClipPlane {
    /// Q12 normal.
    pub normal: [i16; 3],
    /// For the caller's use.
    pub kind: u8,
    /// Which components of the normal are negative: bits 0, 1 and 2.
    pub signbits: u8,
    /// Q12 distance.
    pub distance: i32,
}

/// Bit `i` of a byte.
pub open spec fn bit(byte: u8, i: int) -> bool {
    if i == 0 {
        byte as int % 2 == 1
    } else if i == 1 {
        (byte as int / 2) % 2 == 1
    } else if i == 2 {
        (byte as int / 4) % 2 == 1
    } else {
        (byte as int / 8) % 2 == 1
    }
}

/// The corner of a box: of each pair of coordinates the first where the
/// plane's sign bit is set, else the second.
pub open spec fn support(low: [i16; 3], high: [i16; 3], signbits: u8, k: int) -> i16 {
    if bit(signbits, k) {
        low[k]
    } else {
        high[k]
    }
}

/// The Q12 product of a plane's normal and a corner.
pub open spec fn corner_dot(plane: AabbClipPlane, low: [i16; 3], high: [i16; 3]) -> i32 {
    wrapped32(
        plane.normal[0] * support(low, high, plane.signbits, 0) + plane.normal[1] * support(
            low,
            high,
            plane.signbits,
            1,
        ) + plane.normal[2] * support(low, high, plane.signbits, 2),
    )
}

/// Whether even the corner farthest along the normal lies behind a plane.
pub open spec fn is_outside(mins: [i16; 3], maxs: [i16; 3], plane: AabbClipPlane) -> bool {
    corner_dot(plane, mins, maxs) < plane.distance
}

/// Whether even the corner farthest against the normal lies before a plane.
pub open spec fn is_inside(mins: [i16; 3], maxs: [i16; 3], plane: AabbClipPlane) -> bool {
    corner_dot(plane, maxs, mins) >= plane.distance
}

/// Whether a box lies outside one of the selected planes.
pub open spec fn outside_any(
    mins: [i16; 3],
    maxs: [i16; 3],
    planes: [AabbClipPlane; 4],
    flags: u8,
) -> bool {
    exists|i: int| 0 <= i < 4 && bit(flags, i) && is_outside(mins, maxs, #[trigger] planes[i])
}

/// The weight of a plane's flag, if the plane is selected and has the box
/// inside.
pub open spec fn cleared_flag(
    mins: [i16; 3],
    maxs: [i16; 3],
    planes: [AabbClipPlane; 4],
    flags: u8,
    i: int,
) -> int {
    if bit(flags, i) && is_inside(mins, maxs, planes[i]) {
        if i == 0 {
            1
        } else if i == 1 {
            2
        } else if i == 2 {
            4
        } else {
            8
        }
    } else {
        0
    }
}

/// What holding a box against the selected planes comes to.
pub open spec fn classified(
    mins: [i16; 3],
    maxs: [i16; 3],
    planes: [AabbClipPlane; 4],
    flags: u8,
) -> int {
    if outside_any(mins, maxs, planes, flags) {
        -1
    } else {
        flags - cleared_flag(mins, maxs, planes, flags, 0) - cleared_flag(
            mins,
            maxs,
            planes,
            flags,
            1,
        ) - cleared_flag(mins, maxs, planes, flags, 2) - cleared_flag(mins, maxs, planes, flags, 3)
    }
}

fn bit_of(byte: u8, i: usize) -> (set: bool)
    requires
        i < 4,
    ensures
        set == bit(byte, i as int),
{
    if i == 0 {
        byte % 2 == 1
    } else if i == 1 {
        (byte / 2) % 2 == 1
    } else if i == 2 {
        (byte / 4) % 2 == 1
    } else {
        (byte / 8) % 2 == 1
    }
}

fn support_of(low: &[i16; 3], high: &[i16; 3], signbits: u8, k: usize) -> (c: i16)
    requires
        k < 3,
    ensures
        c == support(*low, *high, signbits, k as int),
{
    if bit_of(signbits, k) {
        low[k]
    } else {
        high[k]
    }
}

fn dot_of_corner(plane: &AabbClipPlane, low: &[i16; 3], high: &[i16; 3]) -> (d: i32)
    ensures
        d == corner_dot(*plane, *low, *high),
{
    let s: u8 = plane.signbits;
    wrap32_wide(
        product(plane.normal[0] as i32, support_of(low, high, s, 0) as i32) + product(
            plane.normal[1] as i32,
            support_of(low, high, s, 1) as i32,
        ) + product(plane.normal[2] as i32, support_of(low, high, s, 2) as i32),
    )
}

/// Hold a box against the planes that `clip_flags` selects.
///
/// Minus one if the box lies outside any of them; else the flags, without those
/// of the planes that have the whole box inside.
pub fn classify_aabb_clip4(
    mins: [i16; 3],
    maxs: [i16; 3],
    planes: &[AabbClipPlane; 4],
    clip_flags: u8,
) -> (r: i32)
    ensures
        r == classified(mins, maxs, *planes, clip_flags),
{
    let mut left: i32 = clip_flags as i32;
    let mut weight: i32 = 1;
    let mut index: usize = 0;
    while index < 4
        invariant
            index <= 4,
            weight == if index == 0 {
                1int
            } else if index == 1 {
                2
            } else if index == 2 {
                4
            } else if index == 3 {
                8
            } else {
                16
            },
            forall|i: int|
                0 <= i < index && bit(clip_flags, i) ==> !is_outside(
                    mins,
                    maxs,
                    #[trigger] planes[i],
                ),
            left == clip_flags - (if index > 0 {
                cleared_flag(mins, maxs, *planes, clip_flags, 0)
            } else {
                0
            }) - (if index > 1 {
                cleared_flag(mins, maxs, *planes, clip_flags, 1)
            } else {
                0
            }) - (if index > 2 {
                cleared_flag(mins, maxs, *planes, clip_flags, 2)
            } else {
                0
            }) - (if index > 3 {
                cleared_flag(mins, maxs, *planes, clip_flags, 3)
            } else {
                0
            }),
        decreases 4 - index,
    {
        if bit_of(clip_flags, index) {
            let plane: &AabbClipPlane = &planes[index];
            if dot_of_corner(plane, &mins, &maxs) < plane.distance {
                assert(is_outside(mins, maxs, planes[index as int]));
                return -1;
            }
            if dot_of_corner(plane, &maxs, &mins) >= plane.distance {
                left = left - weight;
            }
        }
        weight = weight * 2;
        index += 1;
    }
    left
}

/// Whether a box lies outside one of the planes that `clip_flags` selects.
pub fn aabb_outside_clip4(
    mins: [i16; 3],
    maxs: [i16; 3],
    planes: &[AabbClipPlane; 4],
    clip_flags: u8,
) -> (outside: bool)
    ensures
        outside == outside_any(mins, maxs, *planes, clip_flags),
{
    let mut index: usize = 0;
    while index < 4
        invariant
            index <= 4,
            forall|i: int|
                0 <= i < index && bit(clip_flags, i) ==> !is_outside(
                    mins,
                    maxs,
                    #[trigger] planes[i],
                ),
        decreases 4 - index,
    {
        if bit_of(clip_flags, index) {
            let plane: &AabbClipPlane = &planes[index];
            if dot_of_corner(plane, &mins, &maxs) < plane.distance {
                assert(is_outside(mins, maxs, planes[index as int]));
                return true;
            }
        }
        index += 1;
    }
    false
}

/// The Q12 product of a plane's normal and a point.
pub open spec fn point_dot(plane: AabbClipPlane, x: int, y: int, z: int) -> int {
    plane.normal[0] * x + plane.normal[1] * y + plane.normal[2] * z
}

/// Whether the sign bits of a plane are those of its normal.
pub open spec fn signs_match(plane: AabbClipPlane) -> bool {
    forall|k: int|
        0 <= k < 3 ==> bit(plane.signbits, k) == ((#[trigger] plane.normal[k]) < 0)
}

/// Whether products with points of a box need no more than 32 bits.
pub open spec fn dots_fit(plane: AabbClipPlane, mins: [i16; 3], maxs: [i16; 3]) -> bool {
    &&& corner_dot(plane, mins, maxs) == point_dot(
        plane,
        support(mins, maxs, plane.signbits, 0) as int,
        support(mins, maxs, plane.signbits, 1) as int,
        support(mins, maxs, plane.signbits, 2) as int,
    )
    &&& corner_dot(plane, maxs, mins) == point_dot(
        plane,
        support(maxs, mins, plane.signbits, 0) as int,
        support(maxs, mins, plane.signbits, 1) as int,
        support(maxs, mins, plane.signbits, 2) as int,
    )
}

/// A component of a point of a box contributes at most what the outer corner
/// does, and at least what the inner one does.
proof fn support_is_extreme(n: int, low: int, high: int, x: int)
    requires
        low <= x <= high,
    ensures
        n < 0 ==> n * high <= n * x <= n * low,
        n >= 0 ==> n * low <= n * x <= n * high,
{
    assert(n < 0 ==> n * high <= n * x <= n * low) by (nonlinear_arith)
        requires
            low <= x <= high,
    ;
    assert(n >= 0 ==> n * low <= n * x <= n * high) by (nonlinear_arith)
        requires
            low <= x <= high,
    ;
}

/// A box outside a plane has all of its points behind the plane, and a box
/// inside has none there.
pub proof fn clipping_speaks_of_every_point(
    plane: AabbClipPlane,
    mins: [i16; 3],
    maxs: [i16; 3],
    x: int,
    y: int,
    z: int,
)
    requires
        signs_match(plane),
        dots_fit(plane, mins, maxs),
        mins[0] <= x <= maxs[0],
        mins[1] <= y <= maxs[1],
        mins[2] <= z <= maxs[2],
    ensures
        is_outside(mins, maxs, plane) ==> point_dot(plane, x, y, z) < plane.distance,
        is_inside(mins, maxs, plane) ==> point_dot(plane, x, y, z) >= plane.distance,
{
    support_is_extreme(plane.normal[0] as int, mins[0] as int, maxs[0] as int, x);
    support_is_extreme(plane.normal[1] as int, mins[1] as int, maxs[1] as int, y);
    support_is_extreme(plane.normal[2] as int, mins[2] as int, maxs[2] as int, z);
}

/// A normalised vector, and squared lengths of what was normalised.
#[derive(Clone, Copy, Debug, PartialEq, Eq, Structural)]
pub struct ClassicNormalizedVector {
    /// Q12 unit vector.
    pub vector: Vec3I16,
    /// Squared length in the first two axes.
    pub xy_squared: i32,
    /// Squared length.
    pub squared: i32,
}

} // verus!
