//! What quaternions, matrices and transforms mean to each other.

use vstd::prelude::*;

use crate::asset::hma1::{
    bone_count, bone_transform, bones_follow_their_parents, decoded, local_rotation,
    local_translation, mode_of, parents_first, rotation, rotation_component, rotation_size,
    track_start, translation_component,
};
use crate::asset::quat::{
    applied, composed, inverse_length, matrix_of, moved, normalized, opened, product_row,
    quat_product, rounded, row_product, squared_length, twice, Aff, Jaw,
};
use crate::fixed::wrapped32;
use crate::gpu::words::wrapped16;

verus! {

/// Whether a Q12 number is a Q24 number within half a unit.
pub open spec fn is_rounded(r: int, exact: int) -> bool {
    -2048 <= 4096 * r - exact <= 2048
}

proof fn rounding_is_close(sum: int)
    requires
        -0x7000_0000 <= sum <= 0x7000_0000,
    ensures
        is_rounded(rounded(sum) as int, sum),
{
    assert(wrapped32(sum + 2048) == sum + 2048);
}

/// Component `k` of the cross product of the first three components.
pub open spec fn vector_cross(a: [i32; 4], b: [i32; 4], k: int) -> int {
    let (i, j) = ((k + 1) % 3, (k + 2) % 3);
    a[i] * b[j] - a[j] * b[i]
}

proof fn small_product(a: int, b: int)
    requires
        -0x2000 <= a <= 0x2000,
        -0x2000 <= b <= 0x2000,
    ensures
        -0x400_0000 <= a * b <= 0x400_0000,
{
    assert(-0x400_0000 <= a * b <= 0x400_0000) by (nonlinear_arith)
        requires
            -0x2000 <= a <= 0x2000,
            -0x2000 <= b <= 0x2000,
    ;
}

/// The product of two quaternions, component by component and within half a unit:
/// the vector part is each vector times the other scalar plus their cross
/// product, the scalar part the product of the scalars less that of the vectors.
pub proof fn product_of_quaternions(a: [i32; 4], b: [i32; 4], k: int)
    requires
        forall|i: int| 0 <= i < 4 ==> -0x2000 <= #[trigger] a[i] <= 0x2000,
        forall|i: int| 0 <= i < 4 ==> -0x2000 <= #[trigger] b[i] <= 0x2000,
        0 <= k < 3,
    ensures
        is_rounded(
            quat_product(a, b)[k] as int,
            a[3] * b[k] + b[3] * a[k] + vector_cross(a, b, k),
        ),
        is_rounded(
            quat_product(a, b)[3] as int,
            a[3] * b[3] - (a[0] * b[0] + a[1] * b[1] + a[2] * b[2]),
        ),
{
    assert forall|i: int, j: int| 0 <= i < 4 && 0 <= j < 4 implies -0x400_0000 <= #[trigger] (a[i]
        * b[j]) <= 0x400_0000 by {
        small_product(a[i] as int, b[j] as int);
    }
    let (a0, a1, a2, a3) = (a[0] as int, a[1] as int, a[2] as int, a[3] as int);
    let (b0, b1, b2, b3) = (b[0] as int, b[1] as int, b[2] as int, b[3] as int);
    assert(-0x400_0000 <= a[3] * b[0] <= 0x400_0000 && -0x400_0000 <= a[0] * b[3] <= 0x400_0000
        && -0x400_0000 <= a[1] * b[2] <= 0x400_0000 && -0x400_0000 <= a[2] * b[1] <= 0x400_0000);
    assert(-0x400_0000 <= a[3] * b[1] <= 0x400_0000 && -0x400_0000 <= a[0] * b[2] <= 0x400_0000
        && -0x400_0000 <= a[1] * b[3] <= 0x400_0000 && -0x400_0000 <= a[2] * b[0] <= 0x400_0000);
    assert(-0x400_0000 <= a[3] * b[2] <= 0x400_0000 && -0x400_0000 <= a[0] * b[1] <= 0x400_0000
        && -0x400_0000 <= a[1] * b[0] <= 0x400_0000 && -0x400_0000 <= a[2] * b[3] <= 0x400_0000);
    assert(-0x400_0000 <= a[3] * b[3] <= 0x400_0000 && -0x400_0000 <= a[0] * b[0] <= 0x400_0000
        && -0x400_0000 <= a[1] * b[1] <= 0x400_0000 && -0x400_0000 <= a[2] * b[2] <= 0x400_0000);
    rounding_is_close(a[3] * b[0] + a[0] * b[3] + a[1] * b[2] - a[2] * b[1]);
    rounding_is_close(a[3] * b[1] - a[0] * b[2] + a[1] * b[3] + a[2] * b[0]);
    rounding_is_close(a[3] * b[2] + a[0] * b[1] - a[1] * b[0] + a[2] * b[3]);
    rounding_is_close(a[3] * b[3] - a[0] * b[0] - a[1] * b[1] - a[2] * b[2]);
    assert(b[3] * a[0] == a[0] * b[3] && b[3] * a[1] == a[1] * b[3] && b[3] * a[2] == a[2] * b[3])
        by (nonlinear_arith);
    if k == 0 {
        assert(vector_cross(a, b, 0) == a[1] * b[2] - a[2] * b[1]);
    } else if k == 1 {
        assert(vector_cross(a, b, 1) == a[2] * b[0] - a[0] * b[2]);
    } else {
        assert(vector_cross(a, b, 2) == a[0] * b[1] - a[1] * b[0]);
    }
}

/// Scaling to unit length leaves a quaternion of unit length alone, shortens a
/// longer one and lengthens a shorter one.
pub proof fn scaling_goes_to_unit_length(n: int)
    requires
        0 <= n <= 8192,
    ensures
        n == 4096 ==> inverse_length(n) == 4096,
        n > 4096 ==> inverse_length(n) < 4096,
        n < 4095 ==> inverse_length(n) > 4096,
{
    let e = 4096 - n;
    let square = 3 * e * e;
    assert(0 <= square <= 3 * 4096 * 4096) by (nonlinear_arith)
        requires
            -4096 <= e <= 4096,
            square == 3 * e * e,
    ;
    assert(wrapped32(square) == square);
    assert(e < 0 ==> square <= -12288 * e) by (nonlinear_arith)
        requires
            -4096 <= e <= 4096,
            square == 3 * e * e,
    ;
    assert(e == 0 ==> square == 0) by (nonlinear_arith)
        requires
            square == 3 * e * e,
    ;
}

/// Whether a quaternion is of unit length, as closely as Q12 tells.
pub open spec fn is_unit(q: [i32; 4]) -> bool {
    &&& forall|i: int| 0 <= i < 4 ==> -4200 <= #[trigger] q[i] <= 4200
    &&& is_rounded(4096, q[0] * q[0] + q[1] * q[1] + q[2] * q[2] + q[3] * q[3])
    &&& q[0] * q[0] + q[1] * q[1] + q[2] * q[2] + q[3] * q[3] < 4096 * 4096 + 2048
}

proof fn unit_stays(q: [i32; 4], k: int)
    requires
        is_unit(q),
        0 <= k < 4,
    ensures
        normalized(q, k) == q[k],
{
    let sum = q[0] * q[0] + q[1] * q[1] + q[2] * q[2] + q[3] * q[3];
    assert(wrapped32(sum + 2048) == sum + 2048);
    assert(squared_length(q) == 4096);
    scaling_goes_to_unit_length(4096);
    assert(-4200 <= q[k] <= 4200);
    assert(wrapped32(q[k] * 4096 + 2048) == q[k] * 4096 + 2048);
}

proof fn doubling_is_close(a: int, b: int)
    requires
        -4200 <= a <= 4200,
        -4200 <= b <= 4200,
    ensures
        -1024 <= 2048 * twice(a, b) - a * b <= 1024,
        -9000 <= twice(a, b) <= 9000,
{
    assert(-17640000 <= a * b <= 17640000) by (nonlinear_arith)
        requires
            -4200 <= a <= 4200,
            -4200 <= b <= 4200,
    ;
    assert(wrapped32(a * b + 1024) == a * b + 1024);
}

proof fn elements_are_close(x: int, y: int, z: int, w: int)
    requires
        -4200 <= x <= 4200,
        -4200 <= y <= 4200,
        -4200 <= z <= 4200,
        -4200 <= w <= 4200,
    ensures
        -2048 <= 2048 * wrapped16(twice(x, y) - twice(w, z)) - (x * y - w * z) <= 2048,
        -2048 <= 2048 * wrapped16(twice(x, z) + twice(w, y)) - (x * z + w * y) <= 2048,
        -2048 <= 2048 * (4096 - wrapped16(4096 - (twice(y, y) + twice(z, z)))) - (y * y + z * z)
            <= 2048,
        4096 - (twice(y, y) + twice(z, z)) == 4096 - (twice(z, z) + twice(y, y)),
{
    doubling_is_close(y, y);
    doubling_is_close(z, z);
    doubling_is_close(x, y);
    doubling_is_close(x, z);
    doubling_is_close(w, y);
    doubling_is_close(w, z);
    two_are_close(twice(x, y), twice(w, z), x * y, w * z);
    two_are_close(twice(x, z), twice(w, y), x * z, w * y);
    two_are_close(twice(y, y), twice(z, z), y * y, z * z);
}

proof fn two_are_close(a: int, b: int, p: int, q: int)
    requires
        -9000 <= a <= 9000,
        -9000 <= b <= 9000,
        -1024 <= 2048 * a - p <= 1024,
        -1024 <= 2048 * b - q <= 1024,
    ensures
        -2048 <= 2048 * wrapped16(a - b) - (p - q) <= 2048,
        -2048 <= 2048 * wrapped16(a + b) - (p + q) <= 2048,
        -2048 <= 2048 * (4096 - wrapped16(4096 - (a + b))) - (p + q) <= 2048,
{
}

/// The matrix of a unit quaternion is its rotation: off the diagonal twice the
/// product of two axes, less twice the scalar times the third axis in the
/// direction of the turn, and plus it against; on the diagonal one less twice
/// the squares of the other axes.
pub proof fn matrix_of_a_unit_quaternion(q: [i32; 4], i: int)
    requires
        is_unit(q),
        0 <= i < 3,
    ensures
        ({
            let m = matrix_of(q);
            let (j, k) = ((i + 1) % 3, (i + 2) % 3);
            let (x, y, z, w) = (q[i] as int, q[j] as int, q[k] as int, q[3] as int);
            &&& -2048 <= 2048 * m[i][j] - (x * y - w * z) <= 2048
            &&& -2048 <= 2048 * m[i][k] - (x * z + w * y) <= 2048
            &&& -2048 <= 2048 * (4096 - m[i][i]) - (y * y + z * z) <= 2048
        }),
{
    assert(-4200 <= q[0] <= 4200 && -4200 <= q[1] <= 4200 && -4200 <= q[2] <= 4200 && -4200 <= q[3]
        <= 4200);
    unit_stays(q, 0);
    unit_stays(q, 1);
    unit_stays(q, 2);
    unit_stays(q, 3);
    let (x, y, z, w) = (q[0] as int, q[1] as int, q[2] as int, q[3] as int);
    let m = matrix_of(q);
    assert(y * x == x * y && z * x == x * z && z * y == y * z) by (nonlinear_arith);
    if i == 0 {
        elements_are_close(x, y, z, w);
        assert(m[0][1] == wrapped16(twice(x, y) - twice(w, z)));
        assert(m[0][2] == wrapped16(twice(x, z) + twice(w, y)));
        assert(m[0][0] == wrapped16(4096 - (twice(y, y) + twice(z, z))));
    } else if i == 1 {
        elements_are_close(y, z, x, w);
        assert(m[1][2] == wrapped16(twice(y, z) - twice(w, x)));
        assert(m[1][0] == wrapped16(twice(x, y) + twice(w, z)));
        assert(m[1][1] == wrapped16(4096 - (twice(x, x) + twice(z, z))));
    } else {
        elements_are_close(z, x, y, w);
        assert(m[2][0] == wrapped16(twice(x, z) - twice(w, y)));
        assert(m[2][1] == wrapped16(twice(y, z) + twice(w, x)));
        assert(m[2][2] == wrapped16(4096 - (twice(x, x) + twice(y, y))));
    }
}

/// Row `i` of a matrix times column `j` of another.
pub open spec fn row_by_column(p: [[i16; 3]; 3], r: [[i16; 3]; 3], i: int, j: int) -> int {
    p[i][0] * r[0][j] + p[i][1] * r[1][j] + p[i][2] * r[2][j]
}

/// Whether a transform is a local one moved into the frame of its parent, within
/// half a unit: rows of the parent times columns of the local rotation, and the
/// parent's translation plus its rows times the local translation.
pub open spec fn hangs_on(parent: Aff, r: [[i16; 3]; 3], t: [i32; 3], child: Aff) -> bool {
    &&& forall|i: int, j: int|
        0 <= i < 3 && 0 <= j < 3 ==> is_rounded(
            #[trigger] child.r[i][j] as int,
            row_by_column(parent.r, r, i, j),
        )
    &&& forall|i: int|
        0 <= i < 3 ==> is_rounded(
            #[trigger] child.t[i] - parent.t[i],
            parent.r[i][0] * t[0] + parent.r[i][1] * t[1] + parent.r[i][2] * t[2],
        )
}

/// Whether the elements of a matrix are no more than two.
pub open spec fn small_matrix(m: [[i16; 3]; 3]) -> bool {
    forall|i: int, j: int| 0 <= i < 3 && 0 <= j < 3 ==> -8192 <= #[trigger] m[i][j] <= 8192
}

proof fn applying_is_close(row: [i16; 3], x: i16, y: i16, z: i16)
    requires
        forall|j: int| 0 <= j < 3 ==> -8192 <= #[trigger] row[j] <= 8192,
    ensures
        is_rounded(applied(row, x, y, z), row[0] * x + row[1] * y + row[2] * z),
        -8192 <= x <= 8192 && -8192 <= y <= 8192 && -8192 <= z <= 8192 ==> -0xC001 <= applied(
            row,
            x,
            y,
            z,
        ) <= 0xC001,
        -0x3_0001 <= applied(row, x, y, z) <= 0x3_0001,
{
    let (a, b, c) = (row[0] as int, row[1] as int, row[2] as int);
    assert(-0x1000_0000 <= a * x <= 0x1000_0000 && -0x1000_0000 <= b * y <= 0x1000_0000
        && -0x1000_0000 <= c * z <= 0x1000_0000) by (nonlinear_arith)
        requires
            -8192 <= a <= 8192,
            -8192 <= b <= 8192,
            -8192 <= c <= 8192,
            -0x8000 <= x <= 0x7FFF,
            -0x8000 <= y <= 0x7FFF,
            -0x8000 <= z <= 0x7FFF,
    ;
    if -8192 <= x <= 8192 && -8192 <= y <= 8192 && -8192 <= z <= 8192 {
        assert(-0x400_0000 <= a * x <= 0x400_0000 && -0x400_0000 <= b * y <= 0x400_0000
            && -0x400_0000 <= c * z <= 0x400_0000) by (nonlinear_arith)
            requires
                -8192 <= a <= 8192,
                -8192 <= b <= 8192,
                -8192 <= c <= 8192,
                -8192 <= x <= 8192,
                -8192 <= y <= 8192,
                -8192 <= z <= 8192,
        ;
    }
    let sum = a * x + b * y + c * z;
    assert(row_product(row, x, y, z) == sum);
    assert(wrapped32(sum + 2048) == sum + 2048);
}

proof fn row_is_small(m: [[i16; 3]; 3], i: int)
    requires
        small_matrix(m),
        0 <= i < 3,
    ensures
        forall|j: int| 0 <= j < 3 ==> -8192 <= #[trigger] m[i][j] <= 8192,
{
}

proof fn rotation_hangs_on(row: [i16; 3], r: [[i16; 3]; 3], j: int)
    requires
        forall|n: int| 0 <= n < 3 ==> -8192 <= #[trigger] row[n] <= 8192,
        0 <= j < 3,
        -0x7FF_0000 <= row[0] * r[0][j] + row[1] * r[1][j] + row[2] * r[2][j] <= 0x7FF_0000,
    ensures
        is_rounded(
            product_row(row, r)[j] as int,
            row[0] * r[0][j] + row[1] * r[1][j] + row[2] * r[2][j],
        ),
{
    applying_is_close(row, r[0][j], r[1][j], r[2][j]);
    let v = applied(row, r[0][j], r[1][j], r[2][j]);
    assert(wrapped16(v) == v);
    assert(product_row(row, r)[j] == wrapped16(v));
}

proof fn translation_hangs_on(parent: Aff, i: int, t: [i32; 3])
    requires
        0 <= i < 3,
        forall|n: int| 0 <= n < 3 ==> -8192 <= #[trigger] parent.r[i][n] <= 8192,
        -0x8000 <= t[0] <= 0x7FFF,
        -0x8000 <= t[1] <= 0x7FFF,
        -0x8000 <= t[2] <= 0x7FFF,
        -0x7FF0_0000 <= parent.t[i] <= 0x7FF0_0000,
    ensures
        is_rounded(
            moved(parent, i, t) - parent.t[i],
            parent.r[i][0] * t[0] + parent.r[i][1] * t[1] + parent.r[i][2] * t[2],
        ),
{
    assert(wrapped16(t[0] as int) == t[0] && wrapped16(t[1] as int) == t[1] && wrapped16(
        t[2] as int,
    ) == t[2]);
    applying_is_close(parent.r[i], t[0] as i16, t[1] as i16, t[2] as i16);
    let v = applied(parent.r[i], t[0] as i16, t[1] as i16, t[2] as i16);
    assert(wrapped32(v + parent.t[i]) == v + parent.t[i]);
}

/// Composing hangs the local transform on the parent. Products that do not fit
/// into 16 bits, and translations that do not, are left out.
pub proof fn composing_hangs_on(parent: Aff, r: [[i16; 3]; 3], t: [i32; 3])
    requires
        small_matrix(parent.r),
        small_matrix(r),
        forall|i: int, j: int|
            0 <= i < 3 && 0 <= j < 3 ==> -0x7FF_0000 <= #[trigger] row_by_column(parent.r, r, i, j)
                <= 0x7FF_0000,
        forall|i: int| 0 <= i < 3 ==> -0x8000 <= #[trigger] t[i] <= 0x7FFF,
        forall|i: int| 0 <= i < 3 ==> -0x7FF0_0000 <= #[trigger] parent.t[i] <= 0x7FF0_0000,
    ensures
        hangs_on(parent, r, t, composed(parent, r, t)),
{
    let child = composed(parent, r, t);
    assert forall|i: int, j: int| 0 <= i < 3 && 0 <= j < 3 implies is_rounded(
        #[trigger] child.r[i][j] as int,
        row_by_column(parent.r, r, i, j),
    ) by {
        let sum = row_by_column(parent.r, r, i, j);
        row_is_small(parent.r, i);
        rotation_hangs_on(parent.r[i], r, j);
        assert(child.r[i] == product_row(parent.r[i], r));
    }
    assert forall|i: int| 0 <= i < 3 implies is_rounded(
        #[trigger] child.t[i] - parent.t[i],
        parent.r[i][0] * t[0] + parent.r[i][1] * t[1] + parent.r[i][2] * t[2],
    ) by {
        row_is_small(parent.r, i);
        assert(-0x8000 <= t[0] <= 0x7FFF && -0x8000 <= t[1] <= 0x7FFF && -0x8000 <= t[2] <= 0x7FFF);
        assert(-0x7FF0_0000 <= parent.t[i] <= 0x7FF0_0000);
        translation_hangs_on(parent, i, t);
        assert(child.t[i] == moved(parent, i, t));
    }
}

/// A controller opens from nothing to its full rotation: each component is on the
/// way from the identity, in 64 parts, and stays at the end.
pub proof fn controllers_open_evenly(full: [i16; 4], amount: u8, k: int)
    requires
        0 <= k < 4,
    ensures
        ({
            let from = if k == 3 {
                4096int
            } else {
                0
            };
            let r = opened(full, amount)[k];
            &&& amount == 0 ==> r == from
            &&& amount >= 64 ==> r == full[k]
            &&& amount <= 64 ==> 0 <= (full[k] - from) * amount - 64 * (r - from) < 64
        }),
{
    let a = if amount > 64 {
        64
    } else {
        amount as int
    };
    let from = if k == 3 {
        4096int
    } else {
        0
    };
    assert(-0x40_0000 <= (full[k] - from) * a <= 0x40_0000) by (nonlinear_arith)
        requires
            0 <= a <= 64,
            -0x9000 <= full[k] - from <= 0x9000,
    ;
    assert(a == 0 ==> (full[k] - from) * a == 0) by (nonlinear_arith);
    assert(a == 64 ==> (full[k] - from) * a == 64 * (full[k] - from)) by (nonlinear_arith);
}

/// A decoded bone: a root has the matrix of its own rotation and its own
/// translation, any other bone hangs on the decoded transform of its parent.
pub proof fn bones_hang_on_their_parents(
    d: Seq<u8>,
    off: int,
    pos: int,
    jaw: Jaw,
    out: Seq<Aff>,
    b: int,
)
    requires
        parents_first(d),
        bone_count(d) <= out.len(),
        0 <= b < bone_count(d),
    ensures
        ({
            let done = decoded(d, off, pos, jaw, out, bone_count(d));
            let r = matrix_of(local_rotation(d, off, pos, jaw, b));
            let t = local_translation(d, off, pos, b);
            &&& d[4 + b] == 255 && 4 + b < d.len() ==> done[b].r == r && done[b].t == t
            &&& d[4 + b] != 255 && 4 + b < d.len() ==> done[b] == composed(
                done[d[4 + b] as int],
                r,
                t,
            )
            &&& done[b]._pad == 0
        }),
{
    bones_follow_their_parents(d, off, pos, jaw, out, b);
    reveal(bone_transform);
}

/// A bone's own rotation and translation come from its track, the rotation at the
/// start and the translation behind it. A controller turns its bone only, from
/// the right if it stands there and from the left if not.
pub proof fn bones_read_their_tracks(d: Seq<u8>, off: int, pos: int, jaw: Jaw, b: int, k: int)
    ensures
        ({
            let p = track_start(d, off, pos, b);
            let mode = mode_of(d, off, b);
            let q = rotation(d, off, pos, p, mode);
            &&& 0 <= k < 4 ==> q[k] == rotation_component(d, off, pos, p, mode, k)
            &&& b != jaw.bone ==> local_rotation(d, off, pos, jaw, b) == q
            &&& b == jaw.bone && jaw.post ==> local_rotation(d, off, pos, jaw, b) == quat_product(
                q,
                jaw.q,
            )
            &&& b == jaw.bone && !jaw.post ==> local_rotation(d, off, pos, jaw, b) == quat_product(
                jaw.q,
                q,
            )
            &&& 0 <= k < 3 ==> local_translation(d, off, pos, b)[k] == translation_component(
                d,
                off,
                pos,
                p + rotation_size(d, off, pos, p, mode),
                mode,
                b,
                k,
            ) as i32
        }),
{
}

/// The estimate of one over the length curves upwards: as much above and below
/// unit length it comes to more than twice the estimate at unit length, by three
/// eighths of the square of the difference for each side.
pub proof fn scaling_curves_upwards(d: int)
    requires
        0 <= d <= 4096,
    ensures
        ({
            let both = inverse_length(4096 - d) + inverse_length(4096 + d) - 8192;
            3 * (d * d) - 3 * 16384 <= 16384 * both <= 3 * (d * d)
        }),
{
    let square = d * d;
    assert(0 <= square <= 4096 * 4096) by (nonlinear_arith)
        requires
            0 <= d <= 4096,
            square == d * d,
    ;
    assert(3 * d * d == 3 * square && 3 * (-d) * (-d) == 3 * square) by (nonlinear_arith)
        requires
            square == d * d,
    ;
    assert(4096 - (4096 - d) == d && 4096 - (4096 + d) == -d);
    assert(wrapped32(3 * square) == 3 * square);
}

} // verus!
