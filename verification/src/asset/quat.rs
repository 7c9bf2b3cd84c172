//! Q12 quaternions and affine transforms. Sums wrap at 32 bits, matrix
//! elements at 16.

use vstd::prelude::*;

use crate::fixed::{floor_div32, product, wrap32, wrap32_wide, wrapped32};
use crate::gpu::words::{to_wrapped16, wrapped16};

verus! {

/// A rotation and a translation.
#[derive(Clone, Copy, Debug, PartialEq, Eq)]
pub struct Aff {
    pub r: [[i16; 3]; 3],
    pub _pad: i16,
    pub t: [i32; 3],
}

impl Aff {
    /// All zeros.
    pub fn zero() -> (a: Aff)
        ensures
            forall|i: int, j: int| 0 <= i < 3 && 0 <= j < 3 ==> #[trigger] a.r[i][j] == 0,
            a._pad == 0,
            forall|i: int| 0 <= i < 3 ==> #[trigger] a.t[i] == 0,
    {
        Aff { r: [[0, 0, 0], [0, 0, 0], [0, 0, 0]], _pad: 0, t: [0, 0, 0] }
    }
}

/// A local rotation that a controller adds to one bone.
#[derive(Clone, Copy, Debug, PartialEq, Eq)]
pub struct Jaw {
    /// Bone index, `usize::MAX` for none.
    pub bone: usize,
    /// Whether the rotation stands to the right of the bone's own.
    pub post: bool,
    /// Q12 quaternion, not necessarily of unit length.
    pub q: [i32; 4],
}

/// The quaternion on the way from the identity to `full`.
pub open spec fn opened(full: [i16; 4], amount: u8) -> [i32; 4] {
    let a = if amount > 64 {
        64
    } else {
        amount as int
    };
    [
        (full[0] * a / 64) as i32,
        (full[1] * a / 64) as i32,
        (full[2] * a / 64) as i32,
        (4096 + (full[3] - 4096) * a / 64) as i32,
    ]
}

/// The controller that turns no bone.
pub open spec fn no_jaw() -> Jaw {
    Jaw { bone: usize::MAX, post: false, q: [0i32, 0i32, 0i32, 4096i32] }
}

impl Jaw {
    /// No controller.
    pub fn none() -> (jaw: Jaw)
        ensures
            jaw == no_jaw(),
    {
        let q: [i32; 4] = [0, 0, 0, 4096];
        assert(q =~= [0i32, 0i32, 0i32, 4096i32]);
        Jaw { bone: usize::MAX, post: false, q }
    }

    /// The controller opened by `amount` sixty-fourths.
    pub fn open(bone: usize, post: bool, full: [i16; 4], amount: u8) -> (jaw: Jaw)
        ensures
            jaw == if amount == 0 {
                no_jaw()
            } else {
                Jaw { bone, post, q: opened(full, amount) }
            },
    {
        if amount == 0 {
            return Jaw::none();
        }
        let a: i32 = if amount > 64 {
            64
        } else {
            amount as i32
        };
        assert(forall|x: int|
            -0x1_0000 <= x <= 0x1_0000 ==> -0x40_0000 <= #[trigger] (x * a) <= 0x40_0000)
            by (nonlinear_arith)
            requires
                0 <= a <= 64,
        ;
        let q: [i32; 4] = [
            floor_div32(full[0] as i32 * a, 64),
            floor_div32(full[1] as i32 * a, 64),
            floor_div32(full[2] as i32 * a, 64),
            4096 + floor_div32((full[3] as i32 - 4096) * a, 64),
        ];
        assert(q =~= opened(full, amount));
        Jaw { bone, post, q }
    }
}

/// A sum of Q24 products, rounded to Q12.
pub open spec fn rounded(sum: int) -> i32 {
    (wrapped32(sum + 2048) as int / 4096) as i32
}

/// The product of two quaternions.
pub open spec fn quat_product(a: [i32; 4], b: [i32; 4]) -> [i32; 4] {
    [
        rounded(a[3] * b[0] + a[0] * b[3] + a[1] * b[2] - a[2] * b[1]),
        rounded(a[3] * b[1] - a[0] * b[2] + a[1] * b[3] + a[2] * b[0]),
        rounded(a[3] * b[2] + a[0] * b[1] - a[1] * b[0] + a[2] * b[3]),
        rounded(a[3] * b[3] - a[0] * b[0] - a[1] * b[1] - a[2] * b[2]),
    ]
}

fn round_sum(sum: i128) -> (r: i32)
    requires
        -0x4_0000_0000_0000_0000 <= sum <= 0x4_0000_0000_0000_0000,
    ensures
        r == rounded(sum as int),
{
    floor_div32(wrap32_wide(sum + 2048), 4096)
}

/// Multiply two quaternions.
pub fn quat_mul(a: [i32; 4], b: [i32; 4]) -> (q: [i32; 4])
    ensures
        q == quat_product(a, b),
{
    let (ax, ay, az, aw) = (a[0], a[1], a[2], a[3]);
    let (bx, by_, bz, bw) = (b[0], b[1], b[2], b[3]);
    let q: [i32; 4] = [
        round_sum(product(aw, bx) + product(ax, bw) + product(ay, bz) - product(az, by_)),
        round_sum(product(aw, by_) - product(ax, bz) + product(ay, bw) + product(az, bx)),
        round_sum(product(aw, bz) + product(ax, by_) - product(ay, bx) + product(az, bw)),
        round_sum(product(aw, bw) - product(ax, bx) - product(ay, by_) - product(az, bz)),
    ];
    assert(q =~= quat_product(a, b));
    q
}

/// An estimate of one over the length of a quaternion whose Q12 squared length
/// is `n`: two terms of the series around one.
pub open spec fn inverse_length(n: int) -> int {
    let e = 4096 - n;
    4096 + e / 2 + wrapped32(3 * e * e) as int / 32768
}

/// The Q12 squared length of a quaternion.
pub open spec fn squared_length(q: [i32; 4]) -> int {
    wrapped32(q[0] * q[0] + q[1] * q[1] + q[2] * q[2] + q[3] * q[3] + 2048) as int / 4096
}

/// A component of a quaternion, scaled to unit length.
pub open spec fn normalized(q: [i32; 4], k: int) -> int {
    rounded(q[k] * inverse_length(squared_length(q))) as int
}

/// Twice the product of two components.
pub open spec fn twice(a: int, b: int) -> int {
    wrapped32(a * b + 1024) as int / 2048
}

/// The rotation matrix of a quaternion, which need not be of unit length.
pub open spec fn matrix_of(q: [i32; 4]) -> [[i16; 3]; 3] {
    let (x, y, z, w) = (normalized(q, 0), normalized(q, 1), normalized(q, 2), normalized(q, 3));
    [
        [
            wrapped16(4096 - (twice(y, y) + twice(z, z))),
            wrapped16(twice(x, y) - twice(w, z)),
            wrapped16(twice(x, z) + twice(w, y)),
        ],
        [
            wrapped16(twice(x, y) + twice(w, z)),
            wrapped16(4096 - (twice(x, x) + twice(z, z))),
            wrapped16(twice(y, z) - twice(w, x)),
        ],
        [
            wrapped16(twice(x, z) - twice(w, y)),
            wrapped16(twice(y, z) + twice(w, x)),
            wrapped16(4096 - (twice(x, x) + twice(y, y))),
        ],
    ]
}

fn double_product(a: i32, b: i32) -> (p: i32)
    ensures
        p == twice(a as int, b as int),
        -0x10_0000 <= p <= 0x10_0000,
{
    floor_div32(wrap32_wide(product(a, b) + 1024), 2048)
}

fn row3(a: i32, b: i32, c: i32) -> (row: [i16; 3])
    ensures
        row == [wrapped16(a as int), wrapped16(b as int), wrapped16(c as int)],
{
    let row: [i16; 3] = [to_wrapped16(a), to_wrapped16(b), to_wrapped16(c)];
    assert(row =~= [wrapped16(a as int), wrapped16(b as int), wrapped16(c as int)]);
    row
}

/// Turn a quaternion into a matrix.
pub fn quat_to_mat(q: [i32; 4]) -> (m: [[i16; 3]; 3])
    ensures
        m == matrix_of(q),
{
    let (x, y, z, w) = (q[0], q[1], q[2], q[3]);
    let sum: i128 = product(x, x) + product(y, y) + product(z, z) + product(w, w) + 2048;
    let n: i32 = floor_div32(wrap32_wide(sum), 4096);
    let e: i32 = 4096 - n;
    assert(n == squared_length(q));
    assert(3 * e * e == 3 * (e * e)) by (nonlinear_arith);
    let square: i128 = product(e, e);
    let r: i32 = 4096 + floor_div32(e, 2) + floor_div32(wrap32_wide(3 * square), 32768);
    assert(r == inverse_length(n as int));
    let x: i32 = round_sum(product(x, r));
    let y: i32 = round_sum(product(y, r));
    let z: i32 = round_sum(product(z, r));
    let w: i32 = round_sum(product(w, r));
    assert(x == normalized(q, 0) && y == normalized(q, 1) && z == normalized(q, 2) && w
        == normalized(q, 3));
    let (xx, yy, zz) = (double_product(x, x), double_product(y, y), double_product(z, z));
    let (xy, xz, yz) = (double_product(x, y), double_product(x, z), double_product(y, z));
    let (wx, wy, wz) = (double_product(w, x), double_product(w, y), double_product(w, z));
    let m: [[i16; 3]; 3] = [
        row3(4096 - (yy + zz), xy - wz, xz + wy),
        row3(xy + wz, 4096 - (xx + zz), yz - wx),
        row3(xz - wy, yz + wx, 4096 - (xx + yy)),
    ];
    assert(m =~= matrix_of(q));
    m
}

/// A row of a matrix times a vector of 16-bit numbers, in Q24.
pub open spec fn row_product(row: [i16; 3], x: i16, y: i16, z: i16) -> i32 {
    wrapped32(row[0] * x + row[1] * y + row[2] * z)
}

/// A row of a matrix times a vector, rounded to Q12.
pub open spec fn applied(row: [i16; 3], x: i16, y: i16, z: i16) -> int {
    wrapped32(row_product(row, x, y, z) + 2048) as int / 4096
}

/// Row `i` of the product of two matrices.
pub open spec fn product_row(p: [i16; 3], r: [[i16; 3]; 3]) -> [i16; 3] {
    [
        wrapped16(applied(p, r[0][0], r[1][0], r[2][0])),
        wrapped16(applied(p, r[0][1], r[1][1], r[2][1])),
        wrapped16(applied(p, r[0][2], r[1][2], r[2][2])),
    ]
}

/// A translation component, moved into the frame of the parent.
pub open spec fn moved(p: Aff, i: int, t: [i32; 3]) -> i32 {
    wrapped32(
        applied(p.r[i], wrapped16(t[0] as int), wrapped16(t[1] as int), wrapped16(t[2] as int))
            + p.t[i],
    )
}

/// A local transform in the frame of the parent's parent.
pub open spec fn composed(p: Aff, r: [[i16; 3]; 3], t: [i32; 3]) -> Aff {
    Aff {
        r: [product_row(p.r[0], r), product_row(p.r[1], r), product_row(p.r[2], r)],
        _pad: 0,
        t: [moved(p, 0, t), moved(p, 1, t), moved(p, 2, t)],
    }
}

fn apply_row(row: &[i16; 3], x: i16, y: i16, z: i16) -> (v: i32)
    ensures
        v == applied(*row, x, y, z),
{
    let sum: i128 = product(row[0] as i32, x as i32) + product(row[1] as i32, y as i32) + product(
        row[2] as i32,
        z as i32,
    );
    let raw: i32 = wrap32_wide(sum);
    floor_div32(wrap32(raw as i64 + 2048), 4096)
}

fn multiply_row(p: &[i16; 3], r: &[[i16; 3]; 3]) -> (row: [i16; 3])
    ensures
        row == product_row(*p, *r),
{
    let row: [i16; 3] = [
        to_wrapped16(apply_row(p, r[0][0], r[1][0], r[2][0])),
        to_wrapped16(apply_row(p, r[0][1], r[1][1], r[2][1])),
        to_wrapped16(apply_row(p, r[0][2], r[1][2], r[2][2])),
    ];
    assert(row =~= product_row(*p, *r));
    row
}

/// Compose a parent with a local rotation and translation.
pub fn compose(p: &Aff, r: &[[i16; 3]; 3], t: [i32; 3]) -> (out: Aff)
    ensures
        out == composed(*p, *r, t),
{
    let (x, y, z) = (to_wrapped16(t[0]), to_wrapped16(t[1]), to_wrapped16(t[2]));
    let rotation: [[i16; 3]; 3] = [
        multiply_row(&p.r[0], r),
        multiply_row(&p.r[1], r),
        multiply_row(&p.r[2], r),
    ];
    let translation: [i32; 3] = [
        wrap32(apply_row(&p.r[0], x, y, z) as i64 + p.t[0] as i64),
        wrap32(apply_row(&p.r[1], x, y, z) as i64 + p.t[1] as i64),
        wrap32(apply_row(&p.r[2], x, y, z) as i64 + p.t[2] as i64),
    ];
    assert(rotation =~= composed(*p, *r, t).r);
    assert(translation =~= composed(*p, *r, t).t);
    Aff { r: rotation, _pad: 0, t: translation }
}

/// Multiplying by the identity quaternion, on either side, changes nothing
/// that fits: components of at most 2^18 in magnitude come back as they were.
pub proof fn identity_is_neutral(q: [i32; 4])
    requires
        forall|k: int| 0 <= k < 4 ==> -0x4_0000 <= #[trigger] q[k] <= 0x4_0000,
    ensures
        quat_product(q, [0i32, 0i32, 0i32, 4096i32]) == q,
        quat_product([0i32, 0i32, 0i32, 4096i32], q) == q,
{
    let id: [i32; 4] = [0i32, 0i32, 0i32, 4096i32];
    assert(id[0] == 0 && id[1] == 0 && id[2] == 0 && id[3] == 4096);
    let (x, y, z, w) = (q[0], q[1], q[2], q[3]);
    whole_rounds_to_itself(x);
    whole_rounds_to_itself(y);
    whole_rounds_to_itself(z);
    whole_rounds_to_itself(w);
    let left = quat_product(q, id);
    let right = quat_product(id, q);
    assert(left =~= q);
    assert(right =~= q);
}

proof fn whole_rounds_to_itself(x: i32)
    requires
        -0x4_0000 <= x <= 0x4_0000,
    ensures
        rounded(4096 * x) == x,
        rounded(x * 4096) == x,
{
    assert((4096 * x + 2048) / 4096 == x);
}

} // verus!
