//! What is written to the Geometry Transformation Engine's registers to set up
//! a scene, and what is read back.

use vstd::prelude::*;

use crate::gpu::words::{pack_vertex, to_wrapped16, vertex_word, wrapped16};
use crate::gte::math::{Mat3I16, Vec3I16, Vec3I32};
use crate::gte::scene::AabbClipPlane;

verus! {

/// A value for a register.
#[derive(Clone, Copy, Debug, PartialEq, Eq, Structural)]
pub struct RegisterWrite {
    pub register: u8,
    pub value: u32,
}

/// The bit pattern of a 32-bit number.
pub open spec fn pattern32(x: i32) -> u32 {
    if x < 0 {
        (x + 0x1_0000_0000) as u32
    } else {
        x as u32
    }
}

fn to_pattern32(x: i32) -> (p: u32)
    ensures
        p == pattern32(x),
{
    if x < 0 {
        (x as i64 + 0x1_0000_0000) as u32
    } else {
        x as u32
    }
}

/// The 32-bit number with a bit pattern.
pub open spec fn number32(p: u32) -> i32 {
    if p < 0x8000_0000 {
        p as i32
    } else {
        (p - 0x1_0000_0000) as i32
    }
}

fn to_number32(p: u32) -> (x: i32)
    ensures
        x == number32(p),
{
    if p < 0x8000_0000 {
        p as i32
    } else {
        (p as i64 - 0x1_0000_0000) as i32
    }
}

/// A bit pattern is read back as the number it was made of.
pub proof fn patterns_read_back(x: i32)
    ensures
        number32(pattern32(x)) == x,
{
}

fn write(register: u8, value: u32) -> (w: RegisterWrite)
    ensures
        w == (RegisterWrite { register, value }),
{
    RegisterWrite { register, value }
}

/// Values for registers that follow one another.
pub open spec fn run(first: u8, values: Seq<u32>) -> Seq<RegisterWrite> {
    Seq::new(
        values.len(),
        |i: int| RegisterWrite { register: (first + i) as u8, value: values[i] },
    )
}

/// A matrix in five registers: two cells each, row by row, the last one alone.
pub open spec fn matrix_registers(m: Mat3I16) -> Seq<u32> {
    seq![
        vertex_word(m.m[0][0], m.m[0][1]),
        vertex_word(m.m[0][2], m.m[1][0]),
        vertex_word(m.m[1][1], m.m[1][2]),
        vertex_word(m.m[2][0], m.m[2][1]),
        pattern32(m.m[2][2] as i32),
    ]
}

/// A vector in three registers.
pub open spec fn vector_registers(v: Vec3I32) -> Seq<u32> {
    seq![pattern32(v.x), pattern32(v.y), pattern32(v.z)]
}

/// A vertex in two registers: the first two coordinates, then the third.
pub open spec fn vertex_registers(v: Vec3I16) -> Seq<u32> {
    seq![vertex_word(v.x, v.y), pattern32(v.z as i32)]
}

fn matrix_run(first: u8, m: &Mat3I16) -> (writes: [RegisterWrite; 5])
    requires
        first <= 31 - 5,
    ensures
        writes@ == run(first, matrix_registers(*m)),
{
    let writes: [RegisterWrite; 5] = [
        write(first, pack_vertex(m.m[0][0], m.m[0][1])),
        write(first + 1, pack_vertex(m.m[0][2], m.m[1][0])),
        write(first + 2, pack_vertex(m.m[1][1], m.m[1][2])),
        write(first + 3, pack_vertex(m.m[2][0], m.m[2][1])),
        write(first + 4, to_pattern32(m.m[2][2] as i32)),
    ];
    assert(writes@ =~= run(first, matrix_registers(*m)));
    writes
}

fn vector_run(first: u8, v: Vec3I32) -> (writes: [RegisterWrite; 3])
    requires
        first <= 31 - 3,
    ensures
        writes@ == run(first, vector_registers(v)),
{
    let writes: [RegisterWrite; 3] = [
        write(first, to_pattern32(v.x)),
        write(first + 1, to_pattern32(v.y)),
        write(first + 2, to_pattern32(v.z)),
    ];
    assert(writes@ =~= run(first, vector_registers(v)));
    writes
}

fn pair_run(first: u8, a: i32, b: i32) -> (writes: [RegisterWrite; 2])
    requires
        first <= 31 - 2,
    ensures
        writes@ == run(first, seq![pattern32(a), pattern32(b)]),
{
    let writes: [RegisterWrite; 2] = [
        write(first, to_pattern32(a)),
        write(first + 1, to_pattern32(b)),
    ];
    assert(writes@ =~= run(first, seq![pattern32(a), pattern32(b)]));
    writes
}

/// The control writes that load the rotation matrix.
pub open spec fn rotation_writes(m: Mat3I16) -> Seq<RegisterWrite> {
    run(0, matrix_registers(m))
}

/// The control writes that load the translation.
pub open spec fn translation_writes(t: Vec3I32) -> Seq<RegisterWrite> {
    run(5, vector_registers(t))
}

/// The control writes that load the directions of the lights.
pub open spec fn light_writes(m: Mat3I16) -> Seq<RegisterWrite> {
    run(8, matrix_registers(m))
}

/// The control writes that load the background colour.
pub open spec fn background_writes(c: Vec3I32) -> Seq<RegisterWrite> {
    run(13, vector_registers(c))
}

/// The control writes that load the colours of the lights.
pub open spec fn light_colour_writes(m: Mat3I16) -> Seq<RegisterWrite> {
    run(16, matrix_registers(m))
}

/// The control writes that load the colour that distance fades to.
pub open spec fn far_colour_writes(c: Vec3I32) -> Seq<RegisterWrite> {
    run(21, vector_registers(c))
}

/// The control writes that set where the centre of projection appears.
pub open spec fn offset_writes(x: i32, y: i32) -> Seq<RegisterWrite> {
    run(24, seq![pattern32(x), pattern32(y)])
}

/// The control write that sets the distance of the projection plane.
pub open spec fn plane_write(h: u16) -> RegisterWrite {
    RegisterWrite { register: 26, value: h as u32 }
}

/// The control writes that set depth cueing.
pub open spec fn depth_cue_writes(dqa: i16, dqb: i32) -> Seq<RegisterWrite> {
    run(27, seq![pattern32(dqa as i32), pattern32(dqb)])
}

/// The control writes that set the weights of depths.
pub open spec fn weight_writes(zsf3: i16, zsf4: i16) -> Seq<RegisterWrite> {
    run(29, seq![pattern32(zsf3 as i32), pattern32(zsf4 as i32)])
}

/// The control writes that load the rotation matrix.
pub fn load_rotation(m: &Mat3I16) -> (writes: [RegisterWrite; 5])
    ensures
        writes@ == rotation_writes(*m),
{
    matrix_run(0, m)
}

/// The control writes that load the translation.
pub fn load_translation(t: Vec3I32) -> (writes: [RegisterWrite; 3])
    ensures
        writes@ == translation_writes(t),
{
    vector_run(5, t)
}

/// The control writes that load the directions of the lights.
pub fn load_light_matrix(m: &Mat3I16) -> (writes: [RegisterWrite; 5])
    ensures
        writes@ == light_writes(*m),
{
    matrix_run(8, m)
}

/// The control writes that load the background colour.
pub fn load_background_colour(c: Vec3I32) -> (writes: [RegisterWrite; 3])
    ensures
        writes@ == background_writes(c),
{
    vector_run(13, c)
}

/// The control writes that load the colours of the lights.
pub fn load_light_colour_matrix(m: &Mat3I16) -> (writes: [RegisterWrite; 5])
    ensures
        writes@ == light_colour_writes(*m),
{
    matrix_run(16, m)
}

/// The control writes that load the colour that distance fades to.
pub fn load_far_colour(c: Vec3I32) -> (writes: [RegisterWrite; 3])
    ensures
        writes@ == far_colour_writes(c),
{
    vector_run(21, c)
}

/// The control writes that set where the centre of projection appears on the
/// screen, in Q16 pixels.
pub fn set_screen_offset(ofx_15_16: i32, ofy_15_16: i32) -> (writes: [RegisterWrite; 2])
    ensures
        writes@ == offset_writes(ofx_15_16, ofy_15_16),
{
    pair_run(24, ofx_15_16, ofy_15_16)
}

/// The control write that sets the distance of the projection plane.
pub fn set_projection_plane(h: u16) -> (w: RegisterWrite)
    ensures
        w == plane_write(h),
{
    write(26, h as u32)
}

/// The control writes that set how depth cueing depends on distance.
pub fn set_depth_cue(dqa: i16, dqb: i32) -> (writes: [RegisterWrite; 2])
    ensures
        writes@ == depth_cue_writes(dqa, dqb),
{
    pair_run(27, dqa as i32, dqb)
}

/// The control writes that set the Q12 weights of depths in the average of
/// three and of four.
pub fn set_avsz_weights(zsf3: i16, zsf4: i16) -> (writes: [RegisterWrite; 2])
    ensures
        writes@ == weight_writes(zsf3, zsf4),
{
    pair_run(29, zsf3 as i32, zsf4 as i32)
}

/// The rows of the first three planes' normals.
pub open spec fn first_normals(planes: [AabbClipPlane; 4]) -> Mat3I16 {
    Mat3I16 { m: [planes[0].normal, planes[1].normal, planes[2].normal] }
}

/// The last plane's normal above two rows of zero.
pub open spec fn last_normal(planes: [AabbClipPlane; 4]) -> Mat3I16 {
    Mat3I16 { m: [planes[3].normal, [0i16, 0i16, 0i16], [0i16, 0i16, 0i16]] }
}

/// The control writes that load the normals of four planes for clipping: three
/// in place of the rotation, the last one in place of the light directions.
pub fn load_aabb_clip4(
    planes: &[AabbClipPlane; 4],
) -> (writes: ([RegisterWrite; 5], [RegisterWrite; 5]))
    ensures
        writes.0@ == rotation_writes(first_normals(*planes)),
        writes.1@ == light_writes(last_normal(*planes)),
{
    let rows: [[i16; 3]; 3] = [planes[0].normal, planes[1].normal, planes[2].normal];
    let none: [i16; 3] = [0, 0, 0];
    let last: [[i16; 3]; 3] = [planes[3].normal, none, none];
    proof {
        assert(rows =~= first_normals(*planes).m);
        assert(none =~= [0i16, 0i16, 0i16]);
        assert(last =~= last_normal(*planes).m);
    }
    (load_rotation(&Mat3I16 { m: rows }), load_light_matrix(&Mat3I16 { m: last }))
}

/// The data writes that load a vertex for projection or transformation.
pub fn load_vertex(v: Vec3I16) -> (writes: [RegisterWrite; 2])
    ensures
        writes@ == run(0, vertex_registers(v)),
{
    let writes: [RegisterWrite; 2] = [
        write(0, pack_vertex(v.x, v.y)),
        write(1, to_pattern32(v.z as i32)),
    ];
    assert(writes@ =~= run(0, vertex_registers(v)));
    writes
}

/// The data writes that load three vertices for projection together.
pub fn load_triangle(v0: Vec3I16, v1: Vec3I16, v2: Vec3I16) -> (writes: [RegisterWrite; 6])
    ensures
        writes@ == run(
            0,
            vertex_registers(v0) + vertex_registers(v1) + vertex_registers(v2),
        ),
{
    let writes: [RegisterWrite; 6] = [
        write(0, pack_vertex(v0.x, v0.y)),
        write(1, to_pattern32(v0.z as i32)),
        write(2, pack_vertex(v1.x, v1.y)),
        write(3, to_pattern32(v1.z as i32)),
        write(4, pack_vertex(v2.x, v2.y)),
        write(5, to_pattern32(v2.z as i32)),
    ];
    assert(writes@ =~= run(
        0,
        vertex_registers(v0) + vertex_registers(v1) + vertex_registers(v2),
    ));
    writes
}

/// The data writes that load three depths to be averaged.
pub fn load_depths3(depths: [u16; 3]) -> (writes: [RegisterWrite; 3])
    ensures
        writes@ == run(17, seq![depths[0] as u32, depths[1] as u32, depths[2] as u32]),
{
    let writes: [RegisterWrite; 3] = [
        write(17, depths[0] as u32),
        write(18, depths[1] as u32),
        write(19, depths[2] as u32),
    ];
    assert(writes@ =~= run(17, seq![depths[0] as u32, depths[1] as u32, depths[2] as u32]));
    writes
}

/// The data writes that load four depths to be averaged.
pub fn load_depths4(depths: [u16; 4]) -> (writes: [RegisterWrite; 4])
    ensures
        writes@ == run(
            16,
            seq![depths[0] as u32, depths[1] as u32, depths[2] as u32, depths[3] as u32],
        ),
{
    let writes: [RegisterWrite; 4] = [
        write(16, depths[0] as u32),
        write(17, depths[1] as u32),
        write(18, depths[2] as u32),
        write(19, depths[3] as u32),
    ];
    assert(writes@ =~= run(
        16,
        seq![depths[0] as u32, depths[1] as u32, depths[2] as u32, depths[3] as u32],
    ));
    writes
}

/// A projected vertex.
#[derive(Clone, Copy, Debug, PartialEq, Eq, Structural)]
pub struct Projected {
    pub sx: i16,
    pub sy: i16,
    /// Depth.
    pub sz: u16,
}

impl Projected {
    /// What a screen register and a depth register hold.
    pub open spec fn held(sxy: u32, sz: u32) -> Projected {
        Projected {
            sx: wrapped16(sxy as int),
            sy: wrapped16(sxy as int / 0x1_0000),
            sz: (sz as int % 0x1_0000) as u16,
        }
    }

    /// The vertex in a screen register, its horizontal coordinate in the low
    /// half, and the depth in the low half of a depth register.
    pub fn from_registers(sxy: u32, sz: u32) -> (p: Projected)
        ensures
            p == Projected::held(sxy, sz),
    {
        Projected {
            sx: to_wrapped16((sxy % 0x1_0000) as i32),
            sy: to_wrapped16((sxy / 0x1_0000) as i32),
            sz: (sz % 0x1_0000) as u16,
        }
    }

    /// The three vertices in the screen registers and the last three depth
    /// registers.
    pub fn triangle_from_registers(sxy: [u32; 3], sz: [u32; 3]) -> (t: [Projected; 3])
        ensures
            t@ == seq![
                Projected::held(sxy[0], sz[0]),
                Projected::held(sxy[1], sz[1]),
                Projected::held(sxy[2], sz[2]),
            ],
    {
        let t: [Projected; 3] = [
            Projected::from_registers(sxy[0], sz[0]),
            Projected::from_registers(sxy[1], sz[1]),
            Projected::from_registers(sxy[2], sz[2]),
        ];
        assert(t@ =~= seq![
            Projected::held(sxy[0], sz[0]),
            Projected::held(sxy[1], sz[1]),
            Projected::held(sxy[2], sz[2]),
        ]);
        t
    }
}

/// The vector in three accumulators.
pub fn vector_from_registers(mac: [u32; 3]) -> (v: Vec3I32)
    ensures
        v == (Vec3I32 { x: number32(mac[0]), y: number32(mac[1]), z: number32(mac[2]) }),
{
    Vec3I32::new(to_number32(mac[0]), to_number32(mac[1]), to_number32(mac[2]))
}

/// A transformed vertex, with evidence of how the engine came by it.
#[derive(Clone, Copy, Debug, PartialEq, Eq)]
pub struct TransformProbe {
    /// The result as read at once.
    pub out: Vec3I32,
    /// The first component read again after a pause.
    pub x_settled: i32,
    /// The translation in effect.
    pub tr: [i32; 3],
}

impl TransformProbe {
    /// The probe of accumulators, of the first of them read again, and of the
    /// translation registers.
    pub fn from_registers(mac: [u32; 3], mac1_settled: u32, tr: [u32; 3]) -> (p: TransformProbe)
        ensures
            p.out == (Vec3I32 { x: number32(mac[0]), y: number32(mac[1]), z: number32(mac[2]) }),
            p.x_settled == number32(mac1_settled),
            p.tr@ == seq![number32(tr[0]), number32(tr[1]), number32(tr[2])],
    {
        let translation: [i32; 3] = [to_number32(tr[0]), to_number32(tr[1]), to_number32(tr[2])];
        assert(translation@ =~= seq![number32(tr[0]), number32(tr[1]), number32(tr[2])]);
        TransformProbe {
            out: vector_from_registers(mac),
            x_settled: to_number32(mac1_settled),
            tr: translation,
        }
    }
}

/// The control registers after writes, in order.
pub open spec fn written(registers: Seq<u32>, writes: Seq<RegisterWrite>) -> Seq<u32>
    decreases writes.len(),
{
    if writes.len() == 0 {
        registers
    } else {
        let last = writes.last();
        written(registers, writes.drop_last()).update(last.register as int, last.value)
    }
}

/// A run of writes fills its registers and leaves the others alone. So no part
/// of a scene's set-up disturbs another, as each has registers of its own.
pub proof fn runs_fill_their_registers(registers: Seq<u32>, first: u8, values: Seq<u32>)
    requires
        registers.len() == 32,
        first + values.len() <= 32,
    ensures
        written(registers, run(first, values)).len() == 32,
        forall|i: int|
            0 <= i < 32 ==> #[trigger] written(registers, run(first, values))[i] == if first <= i
                < first + values.len() {
                values[i - first]
            } else {
                registers[i]
            },
    decreases values.len(),
{
    if values.len() > 0 {
        runs_fill_their_registers(registers, first, values.drop_last());
        assert(run(first, values).drop_last() =~= run(first, values.drop_last()));
        assert(values.drop_last() =~= values.take(values.len() - 1));
    }
}

/// Loading planes for clipping replaces the rotation and the light directions,
/// and nothing else.
pub proof fn clipping_replaces_two_matrices(
    registers: Seq<u32>,
    planes: [AabbClipPlane; 4],
    i: int,
)
    requires
        registers.len() == 32,
        5 <= i < 8 || 13 <= i < 32,
    ensures
        written(
            written(registers, run(0, matrix_registers(first_normals(planes)))),
            run(8, matrix_registers(last_normal(planes))),
        )[i] == registers[i],
{
    let between = written(registers, run(0, matrix_registers(first_normals(planes))));
    runs_fill_their_registers(registers, 0, matrix_registers(first_normals(planes)));
    runs_fill_their_registers(between, 8, matrix_registers(last_normal(planes)));
}

} // verus!
