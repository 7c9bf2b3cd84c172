//! What a written pose is read as, and how poses blend.

use vstd::prelude::*;

use crate::asset::animation::{
    blended_toward, cycle_frames, looped_sample, phase_at, phase_step, pose_offset,
    sampled_gte_pose, sampled_pose, scaled_phase_at, stored_gte_pose, stored_pose, table_size,
    AnimationView, SampleView,
};
use crate::asset::mesh::vector_at;
use crate::asset::pose::{
    blend_starts_at_the_first_pose, gte_pose_at, lerped16, lerped32, lerped_gte_pose, lerped_matrix,
    lerped_pose, matrix_at, packed_element, pose_at, record_size, third_basis, translation_offset,
    two_to, GteJointPose, JointPose, PoseLayout,
};
use crate::gte::math::Vec3I16;
use crate::written::{bytes16, bytes32, lies, long_reads_back, parts_lie, short_reads_back};

verus! {

/// Whether `r` has gone `alpha` of 4096 parts of the way from `a` to `b`, rounded
/// down: short of the exact place by less than one.
pub open spec fn on_the_way(a: int, b: int, alpha: int, r: int) -> bool {
    0 <= (b - a) * alpha - 4096 * (r - a) < 4096
}

proof fn lerp16_is_on_the_way(a: i16, b: i16, alpha: u16)
    requires
        alpha <= 4096,
    ensures
        on_the_way(a as int, b as int, alpha as int, lerped16(a, b, alpha) as int),
{
    let x = (b - a) * alpha;
    assert(-0x1_0000 * 4096 <= x <= 0x1_0000 * 4096) by (nonlinear_arith)
        requires
            -0x1_0000 < b - a < 0x1_0000,
            0 <= alpha <= 4096,
            x == (b - a) * alpha,
    ;
    assert(a <= b ==> 0 <= x <= (b - a) * 4096) by (nonlinear_arith)
        requires
            0 <= alpha <= 4096,
            x == (b - a) * alpha,
    ;
    assert(a >= b ==> (b - a) * 4096 <= x <= 0) by (nonlinear_arith)
        requires
            0 <= alpha <= 4096,
            x == (b - a) * alpha,
    ;
}

proof fn lerp32_is_on_the_way(a: i32, b: i32, alpha: u16)
    requires
        alpha <= 4096,
        -0x8000_0000 <= b - a <= 0x7FFF_FFFF,
    ensures
        on_the_way(a as int, b as int, alpha as int, lerped32(a, b, alpha) as int),
{
    let x = (b - a) * alpha;
    assert(a <= b ==> 0 <= x <= (b - a) * 4096) by (nonlinear_arith)
        requires
            0 <= alpha <= 4096,
            x == (b - a) * alpha,
    ;
    assert(a >= b ==> (b - a) * 4096 <= x <= 0) by (nonlinear_arith)
        requires
            0 <= alpha <= 4096,
            x == (b - a) * alpha,
    ;
}

/// Whether every element of a matrix is on the way from one matrix to another.
pub open spec fn matrix_on_the_way(
    a: [[i16; 3]; 3],
    b: [[i16; 3]; 3],
    alpha: int,
    r: [[i16; 3]; 3],
) -> bool {
    forall|i: int, j: int|
        0 <= i < 3 && 0 <= j < 3 ==> on_the_way(
            a[i][j] as int,
            b[i][j] as int,
            alpha,
            #[trigger] r[i][j] as int,
        )
}

proof fn matrices_are_on_the_way(a: [[i16; 3]; 3], b: [[i16; 3]; 3], alpha: u16)
    requires
        alpha <= 4096,
    ensures
        matrix_on_the_way(a, b, alpha as int, lerped_matrix(a, b, alpha)),
{
    let r = lerped_matrix(a, b, alpha);
    assert forall|i: int, j: int| 0 <= i < 3 && 0 <= j < 3 implies on_the_way(
        a[i][j] as int,
        b[i][j] as int,
        alpha as int,
        #[trigger] r[i][j] as int,
    ) by {
        assert(r[i][j] == lerped16(a[i][j], b[i][j], alpha));
        lerp16_is_on_the_way(a[i][j], b[i][j], alpha);
    }
}

/// Blending moves every element of the matrix and every coordinate of the
/// translation along its way, in compact poses as in full ones. Translations
/// whose distance does not fit into 32 bits are left out.
pub proof fn blending_moves_everything(a: JointPose, b: JointPose, alpha: u16)
    requires
        alpha <= 4096,
        -0x8000_0000 <= b.translation.x - a.translation.x <= 0x7FFF_FFFF,
        -0x8000_0000 <= b.translation.y - a.translation.y <= 0x7FFF_FFFF,
        -0x8000_0000 <= b.translation.z - a.translation.z <= 0x7FFF_FFFF,
    ensures
        ({
            let r = lerped_pose(a, b, alpha);
            let w = alpha as int;
            &&& matrix_on_the_way(a.matrix, b.matrix, w, r.matrix)
            &&& on_the_way(
                a.translation.x as int,
                b.translation.x as int,
                w,
                r.translation.x as int,
            )
            &&& on_the_way(
                a.translation.y as int,
                b.translation.y as int,
                w,
                r.translation.y as int,
            )
            &&& on_the_way(
                a.translation.z as int,
                b.translation.z as int,
                w,
                r.translation.z as int,
            )
        }),
{
    matrices_are_on_the_way(a.matrix, b.matrix, alpha);
    lerp32_is_on_the_way(a.translation.x, b.translation.x, alpha);
    lerp32_is_on_the_way(a.translation.y, b.translation.y, alpha);
    lerp32_is_on_the_way(a.translation.z, b.translation.z, alpha);
}

/// Compact poses blend like full ones.
pub proof fn compact_blending_moves_everything(a: GteJointPose, b: GteJointPose, alpha: u16)
    requires
        alpha <= 4096,
    ensures
        ({
            let r = lerped_gte_pose(a, b, alpha);
            let w = alpha as int;
            &&& matrix_on_the_way(a.matrix, b.matrix, w, r.matrix)
            &&& on_the_way(
                a.translation.x as int,
                b.translation.x as int,
                w,
                r.translation.x as int,
            )
            &&& on_the_way(
                a.translation.y as int,
                b.translation.y as int,
                w,
                r.translation.y as int,
            )
            &&& on_the_way(
                a.translation.z as int,
                b.translation.z as int,
                w,
                r.translation.z as int,
            )
            &&& r.translation_shift == a.translation_shift
        }),
{
    matrices_are_on_the_way(a.matrix, b.matrix, alpha);
    lerp16_is_on_the_way(a.translation.x, b.translation.x, alpha);
    lerp16_is_on_the_way(a.translation.y, b.translation.y, alpha);
    lerp16_is_on_the_way(a.translation.z, b.translation.z, alpha);
}

/// At every sample the compact pose of a joint has the matrix of its full pose.
pub proof fn compact_pose_agrees(sample: SampleView, joint: u16)
    requires
        joint < sample.animation.joint_count,
        sample.animation.layout != PoseLayout::Wide,
    ensures
        sampled_pose(sample, joint) is Some,
        sampled_gte_pose(sample, joint) is Some,
        (sampled_gte_pose(sample, joint)->0).matrix == (sampled_pose(sample, joint)->0).matrix,
        (sampled_gte_pose(sample, joint)->0).translation_shift
            == sample.animation.translation_shift,
{
}

/// A stored pose has the same matrix in both forms, and its translation is the
/// compact one, doubled as often as the shift says.
pub proof fn stored_poses_agree(animation: AnimationView, frame: int, joint: int)
    requires
        animation.layout != PoseLayout::Wide,
        animation.translation_shift <= 15,
    ensures
        ({
            let full = stored_pose(animation, frame, joint);
            let compact = stored_gte_pose(animation, frame, joint);
            let n = animation.translation_shift as nat;
            &&& full.matrix == compact.matrix
            &&& full.translation.x == doubled(compact.translation.x as int, n)
            &&& full.translation.y == doubled(compact.translation.y as int, n)
            &&& full.translation.z == doubled(compact.translation.z as int, n)
        }),
{
    let compact = stored_gte_pose(animation, frame, joint);
    let n = animation.translation_shift as nat;
    doubling_multiplies(compact.translation.x as int, n);
    doubling_multiplies(compact.translation.y as int, n);
    doubling_multiplies(compact.translation.z as int, n);
}

/// `x`, doubled `n` times.
pub open spec fn doubled(x: int, n: nat) -> int
    decreases n,
{
    if n == 0 {
        x
    } else {
        2 * doubled(x, (n - 1) as nat)
    }
}

proof fn doubling_multiplies(x: int, n: nat)
    ensures
        doubled(x, n) == x * two_to(n),
        n <= 15 && -0x8000 <= x <= 0x7FFF ==> -0x4000_0000 <= x * two_to(n) <= 0x4000_0000,
    decreases n,
{
    if n > 0 {
        doubling_multiplies(x, (n - 1) as nat);
        let p = two_to((n - 1) as nat);
        assert(x * (2 * p) == 2 * (x * p)) by (nonlinear_arith);
    }
    if n <= 15 && -0x8000 <= x <= 0x7FFF {
        doubling_is_bounded(x, n);
    }
}

proof fn doubling_is_bounded(x: int, n: nat)
    requires
        n <= 15,
        -0x8000 <= x <= 0x7FFF,
    ensures
        -0x4000_0000 <= x * two_to(n) <= 0x4000_0000,
{
    assert(1 <= two_to(n) <= 0x8000) by {
        reveal_with_fuel(two_to, 16);
    }
    assert(-0x4000_0000 <= x * two_to(n) <= 0x4000_0000) by (nonlinear_arith)
        requires
            -0x8000 <= x <= 0x7FFF,
            1 <= two_to(n) <= 0x8000,
    ;
}

/// A whole phase shows the stored frame in compact form too.
pub proof fn whole_phase_shows_its_compact_frame(animation: AnimationView, frame: int, joint: u16)
    requires
        0 <= frame < cycle_frames(animation),
        joint < animation.joint_count,
        animation.layout != PoseLayout::Wide,
    ensures
        sampled_gte_pose(looped_sample(animation, 4096 * frame), joint) == Some(
            stored_gte_pose(animation, frame, joint as int),
        ),
{
    assert(4096 * frame / 4096 == frame);
    vstd::arithmetic::div_mod::lemma_small_mod(frame as nat, cycle_frames(animation) as nat);
}

/// A phase is its frame, its weight and whole turns of the loop, and blends into
/// the frame behind. The last stored frame is not played.
pub proof fn phases_count_frames(animation: AnimationView, phase: int) -> (turns: int)
    requires
        0 <= phase,
        0 < animation.frame_count,
    ensures
        ({
            let sample = looped_sample(animation, phase);
            let cycle = if animation.frame_count > 2 {
                animation.frame_count - 1
            } else {
                1
            };
            &&& 0 <= turns
            &&& phase == 4096 * (turns * cycle + sample.base_frame) + sample.alpha
            &&& 0 <= sample.base_frame < cycle
            &&& sample.alpha < 4096
            &&& sample.base_frame + 1 < cycle ==> sample.next_frame == sample.base_frame + 1
            &&& sample.base_frame + 1 == cycle ==> sample.next_frame == 0
            &&& sample.animation == animation
        }),
{
    let cycle = cycle_frames(animation);
    let n = phase / 4096;
    vstd::arithmetic::div_mod::lemma_fundamental_div_mod(n, cycle);
    vstd::arithmetic::div_mod::lemma_mod_bound(n, cycle);
    vstd::arithmetic::div_mod::lemma_div_pos_is_pos(n, cycle);
    assert(cycle * (n / cycle) == (n / cycle) * cycle) by (nonlinear_arith);
    n / cycle
}

/// Between two frames the sampled pose, full or compact, is on the way from one
/// to the other.
pub proof fn samples_are_on_the_way(sample: SampleView, joint: u16)
    requires
        joint < sample.animation.joint_count,
        sample.alpha < 4096,
    ensures
        ({
            let a = stored_pose(sample.animation, sample.base_frame, joint as int);
            let b = stored_pose(sample.animation, sample.next_frame, joint as int);
            let r = sampled_pose(sample, joint)->0;
            &&& sampled_pose(sample, joint) is Some
            &&& matrix_on_the_way(a.matrix, b.matrix, sample.alpha as int, r.matrix)
            &&& -0x8000_0000 <= b.translation.x - a.translation.x <= 0x7FFF_FFFF ==> on_the_way(
                a.translation.x as int,
                b.translation.x as int,
                sample.alpha as int,
                r.translation.x as int,
            )
            &&& -0x8000_0000 <= b.translation.y - a.translation.y <= 0x7FFF_FFFF ==> on_the_way(
                a.translation.y as int,
                b.translation.y as int,
                sample.alpha as int,
                r.translation.y as int,
            )
            &&& -0x8000_0000 <= b.translation.z - a.translation.z <= 0x7FFF_FFFF ==> on_the_way(
                a.translation.z as int,
                b.translation.z as int,
                sample.alpha as int,
                r.translation.z as int,
            )
        }),
        sample.animation.layout != PoseLayout::Wide ==> ({
            let a = stored_gte_pose(sample.animation, sample.base_frame, joint as int);
            let b = stored_gte_pose(sample.animation, sample.next_frame, joint as int);
            let r = sampled_gte_pose(sample, joint)->0;
            &&& sampled_gte_pose(sample, joint) is Some
            &&& matrix_on_the_way(a.matrix, b.matrix, sample.alpha as int, r.matrix)
            &&& on_the_way(
                a.translation.x as int,
                b.translation.x as int,
                sample.alpha as int,
                r.translation.x as int,
            )
            &&& on_the_way(
                a.translation.y as int,
                b.translation.y as int,
                sample.alpha as int,
                r.translation.y as int,
            )
            &&& on_the_way(
                a.translation.z as int,
                b.translation.z as int,
                sample.alpha as int,
                r.translation.z as int,
            )
        }),
{
    let animation = sample.animation;
    let w = sample.alpha as int;
    let a = stored_pose(animation, sample.base_frame, joint as int);
    let b = stored_pose(animation, sample.next_frame, joint as int);
    let ca = stored_gte_pose(animation, sample.base_frame, joint as int);
    let cb = stored_gte_pose(animation, sample.next_frame, joint as int);
    if sample.alpha == 0 || sample.base_frame == sample.next_frame {
        assert forall|x: int, y: int| (w == 0 || x == y) implies #[trigger] on_the_way(
            x,
            y,
            w,
            x,
        ) by {
            assert((y - x) * w == 0) by (nonlinear_arith)
                requires
                    w == 0 || x == y,
            ;
        }
    } else {
        matrices_are_on_the_way(a.matrix, b.matrix, sample.alpha);
        if -0x8000_0000 <= b.translation.x - a.translation.x <= 0x7FFF_FFFF {
            lerp32_is_on_the_way(a.translation.x, b.translation.x, sample.alpha);
        }
        if -0x8000_0000 <= b.translation.y - a.translation.y <= 0x7FFF_FFFF {
            lerp32_is_on_the_way(a.translation.y, b.translation.y, sample.alpha);
        }
        if -0x8000_0000 <= b.translation.z - a.translation.z <= 0x7FFF_FFFF {
            lerp32_is_on_the_way(a.translation.z, b.translation.z, sample.alpha);
        }
        compact_blending_moves_everything(ca, cb, sample.alpha);
    }
}

/// Poses are stored joint behind joint and frame behind frame, from the front of
/// the table to its end.
pub proof fn poses_go_frame_by_frame(animation: AnimationView, frame: int, joint: int)
    requires
        0 <= frame < animation.frame_count,
        0 <= joint < animation.joint_count,
    ensures
        pose_offset(animation, 0, 0) == 0,
        pose_offset(animation, frame, joint + 1) == pose_offset(animation, frame, joint)
            + record_size(animation.layout),
        pose_offset(animation, frame, animation.joint_count as int) == pose_offset(
            animation,
            frame + 1,
            0,
        ),
        pose_offset(animation, animation.frame_count as int, 0) == table_size(
            animation.joint_count,
            animation.frame_count,
            animation.layout,
        ),
{
    let (n, size) = (animation.joint_count as int, record_size(animation.layout));
    assert((frame + 1) * n == frame * n + n && 0 * n == 0) by (nonlinear_arith);
    assert((frame * n + joint + 1) * size == (frame * n + joint) * size + size && 0 * size == 0)
        by (nonlinear_arith);
}

/// A phase step covers the frames of a tick, short by less than one in 4096
/// parts.
pub proof fn steps_keep_the_rate(animation: AnimationView, hz: u16)
    requires
        0 < hz,
    ensures
        phase_step(animation, hz) * hz <= 4096 * animation.sample_rate_hz,
        4096 * animation.sample_rate_hz < phase_step(animation, hz) * hz + hz,
{
    let x = animation.sample_rate_hz * 4096;
    vstd::arithmetic::div_mod::lemma_fundamental_div_mod(x, hz as int);
    vstd::arithmetic::div_mod::lemma_mod_bound(x, hz as int);
    assert((hz as int) * (x / (hz as int)) == (x / (hz as int)) * hz) by (nonlinear_arith);
}

/// The bytes of a row of three.
pub open spec fn row_bytes(row: [i16; 3]) -> Seq<u8> {
    bytes16(row[0] as int) + bytes16(row[1] as int) + bytes16(row[2] as int)
}

/// The bytes of three coordinates.
pub open spec fn vector_bytes(v: Vec3I16) -> Seq<u8> {
    bytes16(v.x as int) + bytes16(v.y as int) + bytes16(v.z as int)
}

/// The bytes of a pose with elements of 16 bits: the matrix row by row, and the
/// translation in 32 or in 16 bits.
pub open spec fn plain_pose_bytes(matrix: [[i16; 3]; 3], translation: Seq<u8>) -> Seq<u8> {
    row_bytes(matrix[0]) + row_bytes(matrix[1]) + row_bytes(matrix[2]) + translation
}

proof fn row_reads_back(bytes: Seq<u8>, at: int, row: [i16; 3])
    requires
        lies(bytes, at, row_bytes(row)),
    ensures
        [
            crate::bytes::le_i16(bytes, at),
            crate::bytes::le_i16(bytes, at + 2),
            crate::bytes::le_i16(bytes, at + 4),
        ] == row,
{
    let a = bytes16(row[0] as int);
    let b = a + bytes16(row[1] as int);
    parts_lie(bytes, at, b, bytes16(row[2] as int));
    parts_lie(bytes, at, a, bytes16(row[1] as int));
    short_reads_back(bytes, at, row[0] as int);
    short_reads_back(bytes, at + 2, row[1] as int);
    short_reads_back(bytes, at + 4, row[2] as int);
    assert([
        crate::bytes::le_i16(bytes, at),
        crate::bytes::le_i16(bytes, at + 2),
        crate::bytes::le_i16(bytes, at + 4),
    ] =~= row);
}

/// A written vector is read back.
pub proof fn vector_reads_back(bytes: Seq<u8>, at: int, v: Vec3I16)
    requires
        lies(bytes, at, vector_bytes(v)),
    ensures
        vector_at(bytes, at) == v,
{
    let a = bytes16(v.x as int);
    let b = a + bytes16(v.y as int);
    parts_lie(bytes, at, b, bytes16(v.z as int));
    parts_lie(bytes, at, a, bytes16(v.y as int));
    short_reads_back(bytes, at, v.x as int);
    short_reads_back(bytes, at + 2, v.y as int);
    short_reads_back(bytes, at + 4, v.z as int);
}

proof fn plain_matrix_reads_back(
    bytes: Seq<u8>,
    at: int,
    matrix: [[i16; 3]; 3],
    translation: Seq<u8>,
)
    requires
        lies(bytes, at, plain_pose_bytes(matrix, translation)),
    ensures
        matrix_at(bytes, at, PoseLayout::Wide) == matrix,
        matrix_at(bytes, at, PoseLayout::Shifted) == matrix,
        lies(bytes, at + 18, translation),
{
    let a = row_bytes(matrix[0]);
    let b = a + row_bytes(matrix[1]);
    let c = b + row_bytes(matrix[2]);
    parts_lie(bytes, at, c, translation);
    parts_lie(bytes, at, b, row_bytes(matrix[2]));
    parts_lie(bytes, at, a, row_bytes(matrix[1]));
    row_reads_back(bytes, at, matrix[0]);
    row_reads_back(bytes, at + 6, matrix[1]);
    row_reads_back(bytes, at + 12, matrix[2]);
    assert(matrix_at(bytes, at, PoseLayout::Wide) =~= matrix);
    assert(matrix_at(bytes, at, PoseLayout::Shifted) =~= matrix);
}

/// A written wide pose is read back, and takes as many bytes as its record.
pub proof fn wide_pose_reads_back(bytes: Seq<u8>, at: int, pose: JointPose, shift: u8)
    requires
        lies(
            bytes,
            at,
            plain_pose_bytes(
                pose.matrix,
                bytes32(pose.translation.x as int) + bytes32(pose.translation.y as int) + bytes32(
                    pose.translation.z as int,
                ),
            ),
        ),
    ensures
        pose_at(bytes, at, PoseLayout::Wide, shift) == pose,
        plain_pose_bytes(
            pose.matrix,
            bytes32(pose.translation.x as int) + bytes32(pose.translation.y as int) + bytes32(
                pose.translation.z as int,
            ),
        ).len() == record_size(PoseLayout::Wide),
{
    let t = pose.translation;
    let a = bytes32(t.x as int);
    let b = a + bytes32(t.y as int);
    plain_matrix_reads_back(bytes, at, pose.matrix, b + bytes32(t.z as int));
    parts_lie(bytes, at + 18, b, bytes32(t.z as int));
    parts_lie(bytes, at + 18, a, bytes32(t.y as int));
    long_reads_back(bytes, at + 18, t.x as int);
    long_reads_back(bytes, at + 22, t.y as int);
    long_reads_back(bytes, at + 26, t.z as int);
}

/// A written shifted pose is read back, and takes as many bytes as its record.
pub proof fn shifted_pose_reads_back(bytes: Seq<u8>, at: int, pose: GteJointPose)
    requires
        lies(bytes, at, plain_pose_bytes(pose.matrix, vector_bytes(pose.translation))),
    ensures
        gte_pose_at(bytes, at, PoseLayout::Shifted, pose.translation_shift) == pose,
        plain_pose_bytes(pose.matrix, vector_bytes(pose.translation)).len() == record_size(
            PoseLayout::Shifted,
        ),
{
    plain_matrix_reads_back(bytes, at, pose.matrix, vector_bytes(pose.translation));
    vector_reads_back(bytes, at + 18, pose.translation);
}

/// Two 12-bit codes in three bytes, the first in the lower bits.
pub open spec fn pair_bytes(a: int, b: int) -> Seq<u8> {
    let both = a + 4096 * b;
    seq![(both % 256) as u8, ((both / 256) % 256) as u8, (both / 0x1_0000) as u8]
}

/// Whether a 12-bit code stands for a Q12 element: half of it, as a signed
/// number. The highest code stands for one.
pub open spec fn code_for(element: i16, code: int) -> bool {
    &&& 0 <= code < 4096
    &&& code == 2047 ==> element == 4096
    &&& code != 2047 ==> element == 2 * code || element == 2 * code - 8192
    &&& code != 2047 ==> -4096 <= element < 4094
}

proof fn pair_comes_apart(a: int, b: int)
    requires
        0 <= a < 4096,
        0 <= b < 4096,
    ensures
        ({
            let both = a + 4096 * b;
            let (x, y, z) = (both % 256, (both / 256) % 256, both / 0x1_0000);
            &&& 0 <= z < 256
            &&& x + 256 * (y % 16) == a
            &&& y / 16 + 16 * z == b
        }),
{
    let both = a + 4096 * b;
    let (r, q) = (a % 256, a / 256);
    let (low, high) = (b % 16, b / 16);
    assert(a == 256 * q + r && 0 <= q < 16 && 0 <= r < 256);
    assert(b == 16 * high + low && 0 <= high < 256 && 0 <= low < 16);
    assert(both == 256 * (q + 16 * b) + r);
    assert(both % 256 == r && both / 256 == q + 16 * b);
    assert(q + 16 * b == 256 * high + (q + 16 * low));
    assert((q + 16 * b) % 256 == q + 16 * low && (q + 16 * b) / 256 == high);
    assert(both / 0x1_0000 == both / 256 / 256);
    assert((q + 16 * low) % 16 == q && (q + 16 * low) / 16 == low);
}

proof fn pair_reads_back(bytes: Seq<u8>, at: int, a: int, b: int)
    requires
        lies(bytes, at, pair_bytes(a, b)),
        0 <= a < 4096,
        0 <= b < 4096,
    ensures
        bytes[at] + 256 * (bytes[at + 1] % 16) == a,
        bytes[at + 1] / 16 + 16 * bytes[at + 2] == b,
{
    reveal(lies);
    let part = pair_bytes(a, b);
    assert(part[0] == bytes[at + 0] && part[1] == bytes[at + 1] && part[2] == bytes[at + 2]);
    pair_comes_apart(a, b);
}

proof fn elements_read_back(
    bytes: Seq<u8>,
    at: int,
    k: int,
    codes: (int, int),
    elements: (i16, i16),
)
    requires
        0 <= k,
        lies(bytes, at + 3 * k, pair_bytes(codes.0, codes.1)),
        code_for(elements.0, codes.0),
        code_for(elements.1, codes.1),
    ensures
        packed_element(bytes, at, 2 * k) == elements.0,
        packed_element(bytes, at, 2 * k + 1) == elements.1,
{
    pair_reads_back(bytes, at + 3 * k, codes.0, codes.1);
    assert((2 * k) / 2 == k && (2 * k + 1) / 2 == k);
}

proof fn last_element_reads_back(bytes: Seq<u8>, at: int, code: int, element: i16)
    requires
        lies(bytes, at + 12, bytes16(code)),
        code_for(element, code),
    ensures
        packed_element(bytes, at, 8) == element,
{
    reveal(lies);
    let part = bytes16(code);
    assert(part[0] == bytes[at + 12 + 0] && part[1] == bytes[at + 12 + 1]);
    assert(bytes[at + 12] + 256 * (bytes[at + 13] % 16) == code);
}

/// The bytes of a packed pose: nine codes, two in three bytes, and the
/// translation.
pub open spec fn packed_pose_bytes(codes: Seq<int>, translation: Vec3I16) -> Seq<u8> {
    pair_bytes(codes[0], codes[1]) + pair_bytes(codes[2], codes[3]) + pair_bytes(
        codes[4],
        codes[5],
    ) + pair_bytes(codes[6], codes[7]) + bytes16(codes[8]) + vector_bytes(translation)
}

/// A written packed pose is read back, and takes as many bytes as its record.
pub proof fn packed_pose_reads_back(
    bytes: Seq<u8>,
    at: int,
    pose: GteJointPose,
    codes: Seq<int>,
)
    requires
        lies(bytes, at, packed_pose_bytes(codes, pose.translation)),
        codes.len() == 9,
        forall|i: int, j: int|
            0 <= i < 3 && 0 <= j < 3 ==> code_for(#[trigger] pose.matrix[i][j], codes[3 * i + j]),
    ensures
        gte_pose_at(bytes, at, PoseLayout::Packed, pose.translation_shift) == pose,
        packed_pose_bytes(codes, pose.translation).len() == record_size(PoseLayout::Packed),
{
    let m = pose.matrix;
    assert(code_for(m[0][0], codes[0]) && code_for(m[0][1], codes[1]) && code_for(m[0][2], codes[2])
        && code_for(m[1][0], codes[3]) && code_for(m[1][1], codes[4]) && code_for(m[1][2], codes[5])
        && code_for(m[2][0], codes[6]) && code_for(m[2][1], codes[7]) && code_for(
        m[2][2],
        codes[8],
    ));
    let a = pair_bytes(codes[0], codes[1]);
    let b = a + pair_bytes(codes[2], codes[3]);
    let c = b + pair_bytes(codes[4], codes[5]);
    let d = c + pair_bytes(codes[6], codes[7]);
    let e = d + bytes16(codes[8]);
    parts_lie(bytes, at, e, vector_bytes(pose.translation));
    parts_lie(bytes, at, d, bytes16(codes[8]));
    parts_lie(bytes, at, c, pair_bytes(codes[6], codes[7]));
    parts_lie(bytes, at, b, pair_bytes(codes[4], codes[5]));
    parts_lie(bytes, at, a, pair_bytes(codes[2], codes[3]));
    elements_read_back(bytes, at, 0, (codes[0], codes[1]), (m[0][0], m[0][1]));
    elements_read_back(bytes, at, 1, (codes[2], codes[3]), (m[0][2], m[1][0]));
    elements_read_back(bytes, at, 2, (codes[4], codes[5]), (m[1][1], m[1][2]));
    elements_read_back(bytes, at, 3, (codes[6], codes[7]), (m[2][0], m[2][1]));
    last_element_reads_back(bytes, at, codes[8], m[2][2]);
    vector_reads_back(bytes, at + 14, pose.translation);
    let r = matrix_at(bytes, at, PoseLayout::Packed);
    assert(r[0] =~= m[0]);
    assert(r[1] =~= m[1]);
    assert(r[2] =~= m[2]);
    assert(r =~= m);
}

/// The bytes of a crossed pose: six codes, the correction, the translation.
pub open spec fn crossed_pose_bytes(codes: Seq<int>, correction: u8, translation: Vec3I16) -> Seq<
    u8,
> {
    pair_bytes(codes[0], codes[1]) + pair_bytes(codes[2], codes[3]) + pair_bytes(
        codes[4],
        codes[5],
    ) + seq![correction] + vector_bytes(translation)
}

/// Component `k` of a cross product.
pub open spec fn cross(f: Seq<int>, s: Seq<int>, k: int) -> int {
    let (i, j) = ((k + 1) % 3, (k + 2) % 3);
    f[i] * s[j] - f[j] * s[i]
}

/// The third basis vector is the cross product of the other two, within half a
/// unit, on every axis that the correction does not name and that stays in the
/// unit range. On the named axis the correction is added: a signed six-bit number
/// above the two bits that name the axis.
pub proof fn third_basis_stands_upright(f: Seq<int>, s: Seq<int>, axis: int, amount: int, k: int)
    requires
        f.len() == 3,
        s.len() == 3,
        0 <= axis < 4,
        -32 <= amount < 32,
        0 <= k < 3,
    ensures
        ({
            let byte = (axis + 4 * (amount % 64)) as u8;
            let added = if k == axis {
                amount
            } else {
                0
            };
            let r = third_basis(f, s, byte)[k];
            &&& -4096 <= r <= 4096
            &&& -4096 < r < 4096 ==> -2048 <= cross(f, s, k) - 4096 * (r - added) <= 2048
            &&& r == 4096 ==> cross(f, s, k) - 4096 * (r - added) >= -2048
            &&& r == -4096 ==> cross(f, s, k) - 4096 * (r - added) <= 2048
        }),
{
    let byte = (axis + 4 * (amount % 64)) as u8;
    assert(byte as int % 4 == axis && byte as int / 4 == amount % 64);
    if k == 0 {
        assert(cross(f, s, 0) == f[1] * s[2] - f[2] * s[1]);
    } else if k == 1 {
        assert(cross(f, s, 1) == f[2] * s[0] - f[0] * s[2]);
    } else {
        assert(cross(f, s, 2) == f[0] * s[1] - f[1] * s[0]);
    }
}

/// A written crossed pose is read back: two basis vectors as written, the third
/// one from them, and the translation.
#[verifier::rlimit(40)]
pub proof fn crossed_pose_reads_back(
    bytes: Seq<u8>,
    at: int,
    rows: [[i16; 3]; 2],
    codes: Seq<int>,
    correction: u8,
    translation: Vec3I16,
    shift: u8,
)
    requires
        lies(bytes, at, crossed_pose_bytes(codes, correction, translation)),
        codes.len() == 6,
        forall|i: int, j: int|
            0 <= i < 2 && 0 <= j < 3 ==> code_for(#[trigger] rows[i][j], codes[3 * i + j]),
    ensures
        ({
            let pose = gte_pose_at(bytes, at, PoseLayout::Crossed, shift);
            let f = Seq::new(3, |j: int| rows[0][j] as int);
            let s = Seq::new(3, |j: int| rows[1][j] as int);
            &&& pose.matrix[0] == rows[0]
            &&& pose.matrix[1] == rows[1]
            &&& forall|k: int|
                0 <= k < 3 ==> #[trigger] pose.matrix[2][k] == third_basis(f, s, correction)[k]
            &&& pose.translation == translation
            &&& pose.translation_shift == shift
        }),
        crossed_pose_bytes(codes, correction, translation).len() == record_size(
            PoseLayout::Crossed,
        ),
{
    assert(code_for(rows[0][0], codes[0]) && code_for(rows[0][1], codes[1]) && code_for(
        rows[0][2],
        codes[2],
    ) && code_for(rows[1][0], codes[3]) && code_for(rows[1][1], codes[4]) && code_for(
        rows[1][2],
        codes[5],
    ));
    let a = pair_bytes(codes[0], codes[1]);
    let b = a + pair_bytes(codes[2], codes[3]);
    let c = b + pair_bytes(codes[4], codes[5]);
    let d = c + seq![correction];
    parts_lie(bytes, at, d, vector_bytes(translation));
    parts_lie(bytes, at, c, seq![correction]);
    parts_lie(bytes, at, b, pair_bytes(codes[4], codes[5]));
    parts_lie(bytes, at, a, pair_bytes(codes[2], codes[3]));
    elements_read_back(bytes, at, 0, (codes[0], codes[1]), (rows[0][0], rows[0][1]));
    elements_read_back(bytes, at, 1, (codes[2], codes[3]), (rows[0][2], rows[1][0]));
    elements_read_back(bytes, at, 2, (codes[4], codes[5]), (rows[1][1], rows[1][2]));
    assert(bytes[at + 9] == correction) by {
        reveal(lies);
        assert(seq![correction][0] == bytes[at + 9 + 0]);
    }
    vector_reads_back(bytes, at + 10, translation);
    let pose = gte_pose_at(bytes, at, PoseLayout::Crossed, shift);
    let f = Seq::new(3, |j: int| rows[0][j] as int);
    let s = Seq::new(3, |j: int| rows[1][j] as int);
    assert(seq![rows[0][0] as int, rows[0][1] as int, rows[0][2] as int] =~= f);
    assert(seq![rows[1][0] as int, rows[1][1] as int, rows[1][2] as int] =~= s);
    assert(pose.matrix[0] =~= rows[0]);
    assert(pose.matrix[1] =~= rows[1]);
}

/// A pose of any layout holds its translation behind its matrix, up to the end
/// of the record.
pub proof fn translation_ends_the_record(layout: PoseLayout)
    ensures
        translation_offset(layout) + (if layout == PoseLayout::Wide {
            12int
        } else {
            6
        }) == record_size(layout),
{
}

/// A fade goes from the outgoing pose to the primary one: none of the weight shows
/// the outgoing pose, all of it the primary one, and in between every matrix
/// element is on the way.
pub proof fn fades_end_at_the_primary_pose(
    sample: SampleView,
    alpha: u16,
    primary: JointPose,
    joint: u16,
)
    requires
        joint < sample.animation.joint_count,
    ensures
        ({
            let from = sampled_pose(sample, joint)->0;
            &&& blended_toward(sample, 0, primary, joint) == from
            &&& alpha >= 4096 ==> blended_toward(sample, alpha, primary, joint) == primary
            &&& alpha < 4096 ==> matrix_on_the_way(
                from.matrix,
                primary.matrix,
                alpha as int,
                blended_toward(sample, alpha, primary, joint).matrix,
            )
        }),
{
    let from = sampled_pose(sample, joint)->0;
    blend_starts_at_the_first_pose(from, primary, 0);
    if alpha < 4096 {
        matrices_are_on_the_way(from.matrix, primary.matrix, alpha);
    }
}

/// The phase begins at zero and goes on by the step with every tick, modulo 2^32;
/// so does the scaled one, by the step times the speed, rounded down. A speed of
/// 256 changes nothing.
pub proof fn phases_go_on_by_the_step(animation: AnimationView, tick: int, hz: u16, speed: u16)
    requires
        0 <= tick,
    ensures
        phase_at(animation, 0, hz) == 0,
        phase_at(animation, tick + 1, hz) == (phase_at(animation, tick, hz) + phase_step(
            animation,
            hz,
        )) % 0x1_0000_0000,
        scaled_phase_at(animation, 0, hz, speed) == 0,
        ({
            let step = scaled_phase_at(animation, 1, hz, speed);
            &&& scaled_phase_at(animation, tick + 1, hz, speed) == (scaled_phase_at(
                animation,
                tick,
                hz,
                speed,
            ) + step) % 0x1_0000_0000
            &&& phase_step(animation, hz) * speed < 0x100_0000_0000 ==> 0 <= phase_step(
                animation,
                hz,
            ) * speed - 256 * step < 256
        }),
        scaled_phase_at(animation, tick, hz, 256) == phase_at(animation, tick, hz),
{
    let whole = phase_step(animation, hz);
    let part = (whole * speed / 256) % 0x1_0000_0000;
    let divisor: int = if hz == 0 {
        1
    } else {
        hz as int
    };
    assert(0 <= whole < 0x1_0000_0000) by {
        vstd::arithmetic::div_mod::lemma_div_pos_is_pos(
            animation.sample_rate_hz * 4096,
            divisor,
        );
        vstd::arithmetic::div_mod::lemma_div_nonincreasing(
            animation.sample_rate_hz * 4096,
            divisor,
        );
    }
    assert((tick + 1) * whole == tick * whole + whole && 0 * whole == 0) by (nonlinear_arith);
    assert((tick + 1) * part == tick * part + part && 0 * part == 0 && 1 * part == part)
        by (nonlinear_arith);
    assert(0 <= whole * speed) by (nonlinear_arith)
        requires
            0 <= whole,
    ;
}

} // verus!
