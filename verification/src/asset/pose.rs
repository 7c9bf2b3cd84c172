//! Joint poses: how they are stored, and how one blends into another.

use vstd::prelude::*;

use crate::asset::mesh::vector_at;
use crate::bytes::{le_i16, le_i32, read_i16, read_i32};
use crate::fixed::{floor_div, greatest, least, saturate32, saturated32};
use crate::gte::math::{Vec3I16, Vec3I32};

verus! {

/// The transform of a joint.
#[derive(Clone, Copy, Debug, PartialEq, Eq)]
pub struct JointPose {
    /// Q3.12 matrix.
    pub matrix: [[i16; 3]; 3],
    /// Translation in model units.
    pub translation: Vec3I32,
}

/// The transform of a joint, with a translation that fits into 16 bits.
#[derive(Clone, Copy, Debug, PartialEq, Eq)]
pub struct GteJointPose {
    /// Q3.12 matrix.
    pub matrix: [[i16; 3]; 3],
    /// Translation before the shift.
    pub translation: Vec3I16,
    /// Left shift that turns the translation into model units.
    pub translation_shift: u8,
}

/// How the poses of an animation are stored.
#[derive(Clone, Copy, Debug, PartialEq, Eq, Structural)]
pub enum PoseLayout {
    /// Nine 16-bit elements and three 32-bit translations.
    Wide,
    /// Nine 16-bit elements and three shifted 16-bit translations.
    Shifted,
    /// Nine 12-bit Q11 elements and three shifted 16-bit translations.
    Packed,
    /// Six 12-bit Q11 elements, a byte that corrects the third basis vector,
    /// and three shifted 16-bit translations.
    Crossed,
}

/// Bytes that a pose takes.
pub open spec fn record_size(layout: PoseLayout) -> int {
    match layout {
        PoseLayout::Wide => 30,
        PoseLayout::Shifted => 24,
        PoseLayout::Packed => 20,
        PoseLayout::Crossed => 16,
    }
}

/// Two to the `n`.
pub open spec fn two_to(n: nat) -> int
    decreases n,
{
    if n == 0 {
        1
    } else {
        2 * two_to((n - 1) as nat)
    }
}

/// The way from `a` to `b` that the Q12 weight `alpha` gives, rounded down.
pub open spec fn lerped16(a: i16, b: i16, alpha: u16) -> i16 {
    (a + (b - a) * alpha / 4096) as i16
}

/// The way from `a` to `b`, whose distance is held to 32 bits.
pub open spec fn lerped32(a: i32, b: i32, alpha: u16) -> i32 {
    saturated32(a + saturated32(b - a) * alpha / 4096)
}

/// The number that a 12-bit Q11 code stands for, in Q12: twice the code, but
/// one for the highest.
pub open spec fn q11_value(code: int) -> i16 {
    if code == 0x7FF {
        4096
    } else if code < 0x800 {
        (2 * code) as i16
    } else {
        (2 * (code - 0x1000)) as i16
    }
}

/// The `k`th of the 12-bit codes packed from `at` on.
pub open spec fn packed_code(bytes: Seq<u8>, at: int, k: int) -> int {
    let o = at + 3 * (k / 2);
    if k % 2 == 0 {
        bytes[o] + 256 * (bytes[o + 1] % 16)
    } else {
        bytes[o + 1] / 16 + 16 * bytes[o + 2]
    }
}

/// The element that the `k`th code stands for.
pub open spec fn packed_element(bytes: Seq<u8>, at: int, k: int) -> i16 {
    q11_value(packed_code(bytes, at, k))
}

/// A Q24 number rounded to Q12, halves away from zero.
pub open spec fn rounded_q12(value: int) -> int {
    if value >= 0 {
        (value + 2048) / 4096
    } else {
        -((2048 - value) / 4096)
    }
}

/// The six-bit two's complement number in the upper bits of a correction byte.
pub open spec fn correction_amount(byte: u8) -> int {
    if byte / 4 < 32 {
        (byte / 4) as int
    } else {
        byte / 4 - 64
    }
}

/// Held to the range from minus one to one, in Q12.
pub open spec fn unit_clamped(x: int) -> int {
    if x < -4096 {
        -4096
    } else if x > 4096 {
        4096
    } else {
        x
    }
}

/// A component of a rounded cross product, corrected if the correction byte
/// names its axis, and held to the unit range.
pub open spec fn third_component(cross: int, axis: int, byte: u8) -> int {
    unit_clamped(
        rounded_q12(cross) + if byte % 4 == axis {
            correction_amount(byte)
        } else {
            0
        },
    )
}

/// The third basis vector: the corrected cross product of the other two.
pub open spec fn third_basis(f: Seq<int>, s: Seq<int>, byte: u8) -> Seq<int> {
    seq![
        third_component(f[1] * s[2] - f[2] * s[1], 0, byte),
        third_component(f[2] * s[0] - f[0] * s[2], 1, byte),
        third_component(f[0] * s[1] - f[1] * s[0], 2, byte),
    ]
}

/// The matrix of the pose at `at`.
pub open spec fn matrix_at(bytes: Seq<u8>, at: int, layout: PoseLayout) -> [[i16; 3]; 3] {
    match layout {
        PoseLayout::Wide | PoseLayout::Shifted => [
            [le_i16(bytes, at), le_i16(bytes, at + 2), le_i16(bytes, at + 4)],
            [le_i16(bytes, at + 6), le_i16(bytes, at + 8), le_i16(bytes, at + 10)],
            [le_i16(bytes, at + 12), le_i16(bytes, at + 14), le_i16(bytes, at + 16)],
        ],
        PoseLayout::Packed => [
            [
                packed_element(bytes, at, 0),
                packed_element(bytes, at, 1),
                packed_element(bytes, at, 2),
            ],
            [
                packed_element(bytes, at, 3),
                packed_element(bytes, at, 4),
                packed_element(bytes, at, 5),
            ],
            [
                packed_element(bytes, at, 6),
                packed_element(bytes, at, 7),
                packed_element(bytes, at, 8),
            ],
        ],
        PoseLayout::Crossed => {
            let e = Seq::new(6, |k: int| packed_element(bytes, at, k));
            let third = third_basis(
                seq![e[0] as int, e[1] as int, e[2] as int],
                seq![e[3] as int, e[4] as int, e[5] as int],
                bytes[at + 9],
            );
            [
                [e[0], e[1], e[2]],
                [e[3], e[4], e[5]],
                [third[0] as i16, third[1] as i16, third[2] as i16],
            ]
        },
    }
}

/// Where the translation of a pose starts.
pub open spec fn translation_offset(layout: PoseLayout) -> int {
    match layout {
        PoseLayout::Wide | PoseLayout::Shifted => 18,
        PoseLayout::Packed => 14,
        PoseLayout::Crossed => 10,
    }
}

/// A shifted translation, in model units.
pub open spec fn unshifted(v: Vec3I16, shift: u8) -> Vec3I32 {
    Vec3I32 {
        x: (v.x * two_to(shift as nat)) as i32,
        y: (v.y * two_to(shift as nat)) as i32,
        z: (v.z * two_to(shift as nat)) as i32,
    }
}

/// The pose at `at`.
pub open spec fn pose_at(bytes: Seq<u8>, at: int, layout: PoseLayout, shift: u8) -> JointPose {
    let t = at + translation_offset(layout);
    JointPose {
        matrix: matrix_at(bytes, at, layout),
        translation: if layout == PoseLayout::Wide {
            Vec3I32 { x: le_i32(bytes, t), y: le_i32(bytes, t + 4), z: le_i32(bytes, t + 8) }
        } else {
            unshifted(vector_at(bytes, t), shift)
        },
    }
}

/// The pose at `at`, with its translation as stored.
pub open spec fn gte_pose_at(
    bytes: Seq<u8>,
    at: int,
    layout: PoseLayout,
    shift: u8,
) -> GteJointPose {
    GteJointPose {
        matrix: matrix_at(bytes, at, layout),
        translation: vector_at(bytes, at + translation_offset(layout)),
        translation_shift: shift,
    }
}

/// Every element on the way from one matrix to another.
pub open spec fn lerped_matrix(a: [[i16; 3]; 3], b: [[i16; 3]; 3], alpha: u16) -> [[i16; 3]; 3] {
    [
        [
            lerped16(a[0][0], b[0][0], alpha),
            lerped16(a[0][1], b[0][1], alpha),
            lerped16(a[0][2], b[0][2], alpha),
        ],
        [
            lerped16(a[1][0], b[1][0], alpha),
            lerped16(a[1][1], b[1][1], alpha),
            lerped16(a[1][2], b[1][2], alpha),
        ],
        [
            lerped16(a[2][0], b[2][0], alpha),
            lerped16(a[2][1], b[2][1], alpha),
            lerped16(a[2][2], b[2][2], alpha),
        ],
    ]
}

/// A pose on the way from `a` to `b`.
pub open spec fn lerped_pose(a: JointPose, b: JointPose, alpha: u16) -> JointPose {
    JointPose {
        matrix: lerped_matrix(a.matrix, b.matrix, alpha),
        translation: Vec3I32 {
            x: lerped32(a.translation.x, b.translation.x, alpha),
            y: lerped32(a.translation.y, b.translation.y, alpha),
            z: lerped32(a.translation.z, b.translation.z, alpha),
        },
    }
}

/// A compact pose on the way from `a` to `b`.
pub open spec fn lerped_gte_pose(a: GteJointPose, b: GteJointPose, alpha: u16) -> GteJointPose {
    GteJointPose {
        matrix: lerped_matrix(a.matrix, b.matrix, alpha),
        translation: Vec3I16 {
            x: lerped16(a.translation.x, b.translation.x, alpha),
            y: lerped16(a.translation.y, b.translation.y, alpha),
            z: lerped16(a.translation.z, b.translation.z, alpha),
        },
        translation_shift: a.translation_shift,
    }
}

/// A weighted distance lies between nothing and the whole.
proof fn weighted_is_between(d: int, alpha: int)
    requires
        0 <= alpha < 4096,
    ensures
        d >= 0 ==> 0 <= d * alpha / 4096 <= d,
        d <= 0 ==> d <= d * alpha / 4096 <= 0,
        d >= 0 ==> 0 <= d * alpha <= d * 4096,
        d <= 0 ==> d * 4096 <= d * alpha <= 0,
{
    assert(d >= 0 ==> 0 <= d * alpha <= d * 4096) by (nonlinear_arith)
        requires
            0 <= alpha < 4096,
    ;
    assert(d <= 0 ==> d * 4096 <= d * alpha <= 0) by (nonlinear_arith)
        requires
            0 <= alpha < 4096,
    ;
}

/// Blend two 16-bit elements. The result never leaves the span between them.
pub fn lerp_i16_q12(a: i16, b: i16, alpha_q12: u16) -> (r: i16)
    requires
        alpha_q12 < 4096,
    ensures
        r == lerped16(a, b, alpha_q12),
        r == a + (b - a) * alpha_q12 / 4096,
        least(a as int, b as int) <= r <= greatest(a as int, b as int),
{
    proof {
        weighted_is_between(b - a, alpha_q12 as int);
    }
    let delta: i64 = b as i64 - a as i64;
    (a as i64 + floor_div(delta * alpha_q12 as i64, 4096)) as i16
}

/// Blend two 32-bit translations.
pub fn lerp_i32_q12(a: i32, b: i32, alpha_q12: u16) -> (r: i32)
    requires
        alpha_q12 < 4096,
    ensures
        r == lerped32(a, b, alpha_q12),
        least(a as int, b as int) <= r <= greatest(a as int, b as int),
{
    let delta: i64 = saturate32(b as i64 - a as i64) as i64;
    proof {
        weighted_is_between(delta as int, alpha_q12 as int);
    }
    saturate32(a as i64 + floor_div(delta * alpha_q12 as i64, 4096))
}

/// Turn a stored translation into model units.
pub fn decode_packed_translation(value: i16, shift: u8) -> (r: i32)
    requires
        shift <= 15,
    ensures
        r == value * two_to(shift as nat),
{
    let mut scale: i32 = 1;
    let mut n: u8 = 0;
    while n < shift
        invariant
            n <= shift <= 15,
            scale == two_to(n as nat),
            n == 0 ==> scale == 1,
            scale <= 0x8000,
            n < 15 ==> scale <= 0x4000,
            n < 14 ==> scale <= 0x2000,
            n < 13 ==> scale <= 0x1000,
            n < 12 ==> scale <= 0x800,
            n < 11 ==> scale <= 0x400,
            n < 10 ==> scale <= 0x200,
            n < 9 ==> scale <= 0x100,
            n < 8 ==> scale <= 0x80,
            n < 7 ==> scale <= 0x40,
            n < 6 ==> scale <= 0x20,
            n < 5 ==> scale <= 0x10,
            n < 4 ==> scale <= 8,
            n < 3 ==> scale <= 4,
            n < 2 ==> scale <= 2,
            1 <= scale,
        decreases shift - n,
    {
        scale = scale * 2;
        n += 1;
    }
    assert(-0x4000_0000 <= value * scale <= 0x4000_0000) by (nonlinear_arith)
        requires
            -0x8000 <= value <= 0x7FFF,
            1 <= scale <= 0x8000,
    ;
    value as i32 * scale
}

/// Blend two stored translations, in model units.
pub fn lerp_packed_translation_q12(a: i16, b: i16, shift: u8, alpha_q12: u16) -> (r: i32)
    requires
        shift <= 15,
        alpha_q12 < 4096,
    ensures
        r == lerped32(
            (a * two_to(shift as nat)) as i32,
            (b * two_to(shift as nat)) as i32,
            alpha_q12,
        ),
{
    lerp_i32_q12(
        decode_packed_translation(a, shift),
        decode_packed_translation(b, shift),
        alpha_q12,
    )
}

/// Decode a Q11 code; bits above the twelfth are ignored.
pub fn decode_q11_element(raw: u16) -> (r: i16)
    ensures
        r == q11_value(raw as int % 0x1000),
        -4096 <= r <= 4096,
{
    let code: i16 = (raw % 0x1000) as i16;
    if code == 0x7FF {
        4096
    } else if code < 0x800 {
        2 * code
    } else {
        2 * (code - 0x1000)
    }
}

/// Decode a Q11 code into a wider number.
pub fn decode_q11_element_wide(raw: u16) -> (r: i32)
    ensures
        r == q11_value(raw as int % 0x1000),
        -4096 <= r <= 4096,
{
    decode_q11_element(raw) as i32
}

/// Largest magnitude of `a*b - c*d` over decoded Q11 elements.
pub const V4_CROSS_LIMIT: i32 = 0x200_0000;

/// Round a cross product component to Q12.
pub fn cross_round_q12(value: i32) -> (r: i32)
    requires
        -V4_CROSS_LIMIT <= value <= V4_CROSS_LIMIT,
    ensures
        r == rounded_q12(value as int),
        -8192 <= r <= 8192,
{
    if value >= 0 {
        ((value + 2048) as u32 / 4096) as i32
    } else {
        -(((2048 - value) as u32 / 4096) as i32)
    }
}

/// Whether all three numbers lie between minus one and one, in Q12.
pub open spec fn unit_range(v: [i32; 3]) -> bool {
    forall|i: int| 0 <= i < 3 ==> -4096 <= #[trigger] v[i] <= 4096
}

/// The three numbers.
pub open spec fn ints(v: [i32; 3]) -> Seq<int> {
    seq![v[0] as int, v[1] as int, v[2] as int]
}

fn cross_component(a: i32, b: i32, c: i32, d: i32, axis: u8, correction_byte: u8) -> (r: i32)
    requires
        -4096 <= a <= 4096,
        -4096 <= b <= 4096,
        -4096 <= c <= 4096,
        -4096 <= d <= 4096,
    ensures
        r == third_component(a * b - c * d, axis as int, correction_byte),
        -4096 <= r <= 4096,
{
    assert(-0x100_0000 <= a * b <= 0x100_0000 && -0x100_0000 <= c * d <= 0x100_0000)
        by (nonlinear_arith)
        requires
            -4096 <= a <= 4096,
            -4096 <= b <= 4096,
            -4096 <= c <= 4096,
            -4096 <= d <= 4096,
    ;
    let mut value: i32 = cross_round_q12(a * b - c * d);
    if correction_byte % 4 == axis {
        let amount: i32 = (correction_byte / 4) as i32;
        value = value + if amount < 32 {
            amount
        } else {
            amount - 64
        };
    }
    if value < -4096 {
        -4096
    } else if value > 4096 {
        4096
    } else {
        value
    }
}

/// The third basis vector of a pose that stores two.
pub fn v4_third_basis_q12(first: [i32; 3], second: [i32; 3], correction_byte: u8) -> (r: [i32; 3])
    requires
        unit_range(first),
        unit_range(second),
    ensures
        ints(r) == third_basis(ints(first), ints(second), correction_byte),
        unit_range(r),
{
    let (fx, fy, fz) = (first[0], first[1], first[2]);
    let (sx, sy, sz) = (second[0], second[1], second[2]);
    let r: [i32; 3] = [
        cross_component(fy, sz, fz, sy, 0, correction_byte),
        cross_component(fz, sx, fx, sz, 1, correction_byte),
        cross_component(fx, sy, fy, sx, 2, correction_byte),
    ];
    assert(ints(r) =~= third_basis(ints(first), ints(second), correction_byte));
    r
}

/// Blend two decoded elements.
pub fn lerp_q12_wide_to_i16(a: i32, b: i32, alpha_q12: u16) -> (r: i16)
    requires
        -4096 <= a <= 4096,
        -4096 <= b <= 4096,
        alpha_q12 < 4096,
    ensures
        r == lerped16(a as i16, b as i16, alpha_q12),
{
    lerp_i16_q12(a as i16, b as i16, alpha_q12)
}

fn read_packed_pair(bytes: &[u8], o: usize) -> (pair: (i16, i16))
    requires
        o + 3 <= bytes@.len(),
    ensures
        pair.0 == q11_value(bytes@[o as int] + 256 * (bytes@[o + 1] % 16)),
        pair.1 == q11_value(bytes@[o + 1] / 16 + 16 * bytes@[o + 2]),
        -4096 <= pair.0 <= 4096,
        -4096 <= pair.1 <= 4096,
{
    assert(bytes@.len() == bytes.len());
    let low: u16 = bytes[o] as u16 + 256 * ((bytes[o + 1] % 16) as u16);
    let high: u16 = (bytes[o + 1] / 16) as u16 + 16 * (bytes[o + 2] as u16);
    (decode_q11_element(low), decode_q11_element(high))
}

fn read_packed_last(bytes: &[u8], o: usize) -> (element: i16)
    requires
        o + 2 <= bytes@.len(),
    ensures
        element == q11_value(bytes@[o as int] + 256 * (bytes@[o + 1] % 16)),
{
    assert(bytes@.len() == bytes.len());
    decode_q11_element(bytes[o] as u16 + 256 * ((bytes[o + 1] % 16) as u16))
}

fn read_row(bytes: &[u8], at: usize) -> (row: [i16; 3])
    requires
        at + 6 <= bytes@.len(),
    ensures
        row == [le_i16(bytes@, at as int), le_i16(bytes@, at + 2), le_i16(bytes@, at + 4)],
{
    assert(bytes@.len() == bytes.len());
    let row: [i16; 3] = [read_i16(bytes, at), read_i16(bytes, at + 2), read_i16(bytes, at + 4)];
    assert(row =~= [le_i16(bytes@, at as int), le_i16(bytes@, at + 2), le_i16(bytes@, at + 4)]);
    row
}

fn rows(a: [i16; 3], b: [i16; 3], c: [i16; 3]) -> (m: [[i16; 3]; 3])
    ensures
        m == [a, b, c],
{
    let m: [[i16; 3]; 3] = [a, b, c];
    assert(m =~= [a, b, c]);
    m
}

fn row(a: i16, b: i16, c: i16) -> (r: [i16; 3])
    ensures
        r == [a, b, c],
{
    let r: [i16; 3] = [a, b, c];
    assert(r =~= [a, b, c]);
    r
}

fn read_crossed_matrix(bytes: &[u8], at: usize) -> (matrix: [[i16; 3]; 3])
    requires
        at + 10 <= bytes@.len(),
    ensures
        matrix == matrix_at(bytes@, at as int, PoseLayout::Crossed),
{
    assert(bytes@.len() == bytes.len());
    let (e0, e1) = read_packed_pair(bytes, at);
    let (e2, e3) = read_packed_pair(bytes, at + 3);
    let (e4, e5) = read_packed_pair(bytes, at + 6);
    let first: [i32; 3] = [e0 as i32, e1 as i32, e2 as i32];
    let second: [i32; 3] = [e3 as i32, e4 as i32, e5 as i32];
    let third = v4_third_basis_q12(first, second, bytes[at + 9]);
    proof {
        let e = Seq::new(6, |k: int| packed_element(bytes@, at as int, k));
        assert(e[0] == e0 && e[1] == e1 && e[2] == e2 && e[3] == e3 && e[4] == e4 && e[5] == e5);
        let f = seq![e[0] as int, e[1] as int, e[2] as int];
        let s = seq![e[3] as int, e[4] as int, e[5] as int];
        assert(ints(first) =~= f);
        assert(ints(second) =~= s);
        let t = third_basis(f, s, bytes@[at + 9]);
        assert(ints(third)[0] == t[0] && ints(third)[1] == t[1] && ints(third)[2] == t[2]);
        assert(-4096 <= third[0] <= 4096 && -4096 <= third[1] <= 4096 && -4096 <= third[2] <= 4096);
    }
    rows(row(e0, e1, e2), row(e3, e4, e5), row(third[0] as i16, third[1] as i16, third[2] as i16))
}

fn read_matrix(bytes: &[u8], at: usize, layout: PoseLayout) -> (matrix: [[i16; 3]; 3])
    requires
        at + record_size(layout) <= bytes@.len(),
    ensures
        matrix == matrix_at(bytes@, at as int, layout),
{
    assert(bytes@.len() == bytes.len());
    match layout {
        PoseLayout::Wide | PoseLayout::Shifted => rows(
            read_row(bytes, at),
            read_row(bytes, at + 6),
            read_row(bytes, at + 12),
        ),
        PoseLayout::Packed => {
            let (e0, e1) = read_packed_pair(bytes, at);
            let (e2, e3) = read_packed_pair(bytes, at + 3);
            let (e4, e5) = read_packed_pair(bytes, at + 6);
            let (e6, e7) = read_packed_pair(bytes, at + 9);
            let e8 = read_packed_last(bytes, at + 12);
            rows(row(e0, e1, e2), row(e3, e4, e5), row(e6, e7, e8))
        },
        PoseLayout::Crossed => read_crossed_matrix(bytes, at),
    }
}

fn read_packed_vector(bytes: &[u8], at: usize) -> (v: Vec3I16)
    requires
        at + 6 <= bytes@.len(),
    ensures
        v == vector_at(bytes@, at as int),
{
    assert(bytes@.len() == bytes.len());
    Vec3I16::new(read_i16(bytes, at), read_i16(bytes, at + 2), read_i16(bytes, at + 4))
}

fn unshift(v: Vec3I16, shift: u8) -> (r: Vec3I32)
    requires
        shift <= 15,
    ensures
        r == unshifted(v, shift),
{
    Vec3I32::new(
        decode_packed_translation(v.x, shift),
        decode_packed_translation(v.y, shift),
        decode_packed_translation(v.z, shift),
    )
}

/// Read the pose at `at`.
pub(crate) fn read_pose(bytes: &[u8], at: usize, layout: PoseLayout, shift: u8) -> (pose: JointPose)
    requires
        at + record_size(layout) <= bytes@.len(),
        shift <= 15,
    ensures
        pose == pose_at(bytes@, at as int, layout, shift),
{
    assert(bytes@.len() == bytes.len());
    let matrix = read_matrix(bytes, at, layout);
    let translation: Vec3I32 = match layout {
        PoseLayout::Wide => Vec3I32::new(
            read_i32(bytes, at + 18),
            read_i32(bytes, at + 22),
            read_i32(bytes, at + 26),
        ),
        PoseLayout::Shifted => unshift(read_packed_vector(bytes, at + 18), shift),
        PoseLayout::Packed => unshift(read_packed_vector(bytes, at + 14), shift),
        PoseLayout::Crossed => unshift(read_packed_vector(bytes, at + 10), shift),
    };
    JointPose { matrix, translation }
}

/// Read the compact pose at `at`.
pub(crate) fn read_gte_pose(bytes: &[u8], at: usize, layout: PoseLayout, shift: u8) -> (pose:
    GteJointPose)
    requires
        at + record_size(layout) <= bytes@.len(),
        layout != PoseLayout::Wide,
    ensures
        pose == gte_pose_at(bytes@, at as int, layout, shift),
{
    assert(bytes@.len() == bytes.len());
    let matrix = read_matrix(bytes, at, layout);
    let translation: Vec3I16 = match layout {
        PoseLayout::Wide | PoseLayout::Shifted => read_packed_vector(bytes, at + 18),
        PoseLayout::Packed => read_packed_vector(bytes, at + 14),
        PoseLayout::Crossed => read_packed_vector(bytes, at + 10),
    };
    GteJointPose { matrix, translation, translation_shift: shift }
}

fn lerp_row(a: [i16; 3], b: [i16; 3], alpha_q12: u16) -> (r: [i16; 3])
    requires
        alpha_q12 < 4096,
    ensures
        r == [
            lerped16(a[0], b[0], alpha_q12),
            lerped16(a[1], b[1], alpha_q12),
            lerped16(a[2], b[2], alpha_q12),
        ],
{
    row(
        lerp_i16_q12(a[0], b[0], alpha_q12),
        lerp_i16_q12(a[1], b[1], alpha_q12),
        lerp_i16_q12(a[2], b[2], alpha_q12),
    )
}

fn lerp_matrix(a: [[i16; 3]; 3], b: [[i16; 3]; 3], alpha_q12: u16) -> (r: [[i16; 3]; 3])
    requires
        alpha_q12 < 4096,
    ensures
        r == lerped_matrix(a, b, alpha_q12),
{
    rows(
        lerp_row(a[0], b[0], alpha_q12),
        lerp_row(a[1], b[1], alpha_q12),
        lerp_row(a[2], b[2], alpha_q12),
    )
}

/// Blend two poses.
pub fn lerp_pose_q12(a: JointPose, b: JointPose, alpha_q12: u16) -> (pose: JointPose)
    requires
        alpha_q12 < 4096,
    ensures
        pose == lerped_pose(a, b, alpha_q12),
{
    JointPose {
        matrix: lerp_matrix(a.matrix, b.matrix, alpha_q12),
        translation: Vec3I32::new(
            lerp_i32_q12(a.translation.x, b.translation.x, alpha_q12),
            lerp_i32_q12(a.translation.y, b.translation.y, alpha_q12),
            lerp_i32_q12(a.translation.z, b.translation.z, alpha_q12),
        ),
    }
}

/// Blend two compact poses; the shift is that of the first.
pub fn lerp_gte_pose_q12(a: GteJointPose, b: GteJointPose, alpha_q12: u16) -> (pose: GteJointPose)
    requires
        alpha_q12 < 4096,
    ensures
        pose == lerped_gte_pose(a, b, alpha_q12),
{
    GteJointPose {
        matrix: lerp_matrix(a.matrix, b.matrix, alpha_q12),
        translation: Vec3I16::new(
            lerp_i16_q12(a.translation.x, b.translation.x, alpha_q12),
            lerp_i16_q12(a.translation.y, b.translation.y, alpha_q12),
            lerp_i16_q12(a.translation.z, b.translation.z, alpha_q12),
        ),
        translation_shift: a.translation_shift,
    }
}

/// Blending with no weight shows the first pose, and blending a pose with
/// itself changes nothing.
pub proof fn blend_starts_at_the_first_pose(a: JointPose, b: JointPose, alpha: u16)
    ensures
        lerped_pose(a, b, 0) == a,
        lerped_pose(a, a, alpha) == a,
{
    assert forall|w: u16, c: JointPose|
        (w == 0 || c == a) implies #[trigger] lerped_pose(a, c, w) == a by {
        let m = a.matrix;
        let n = c.matrix;
        assert forall|i: int, j: int| 0 <= i < 3 && 0 <= j < 3 implies #[trigger] lerped16(
            m[i][j],
            n[i][j],
            w,
        ) == m[i][j] by {
            assert((n[i][j] - m[i][j]) * w == 0) by (nonlinear_arith)
                requires
                    w == 0 || n[i][j] == m[i][j],
            ;
        }
        let l = lerped_matrix(m, n, w);
        assert(l[0] =~= m[0]);
        assert(l[1] =~= m[1]);
        assert(l[2] =~= m[2]);
        assert(l =~= m);
        let s = a.translation;
        let t = c.translation;
        assert(saturated32(t.x - s.x) * w == 0 && saturated32(t.y - s.y) * w == 0 && saturated32(
            t.z - s.z,
        ) * w == 0) by (nonlinear_arith)
            requires
                w == 0 || (saturated32(t.x - s.x) == 0 && saturated32(t.y - s.y) == 0
                    && saturated32(t.z - s.z) == 0),
        ;
    }
}

} // verus!
