use psx_sdk::asset::animation::{
    Animation, AnimationFormat, ModelPoseBlend, ANIMATION_HEADER_SIZE,
};
use psx_sdk::asset::audio::{Audio, AudioFormat, AUDIO_HEADER_SIZE};
use psx_sdk::asset::header::HEADER_SIZE;
use psx_sdk::asset::hma1;
use psx_sdk::asset::mesh::{Mesh, MeshFormat, MESH_HEADER_SIZE};
use psx_sdk::asset::model::{
    BankPacking, Model, ModelFormat, ModelPart, ModelVertex, DEFAULT_LOCAL_TO_WORLD_Q12, FACE_SIZE, JOINT_SIZE,
    MATERIAL_SIZE, MODEL_HEADER_SIZE, PART_SIZE, VERTEX_SIZE,
};
use psx_sdk::asset::pose::{
    cross_round_q12, decode_packed_translation, decode_q11_element, decode_q11_element_wide,
    lerp_i16_q12, lerp_packed_translation_q12, lerp_q12_wide_to_i16, v4_third_basis_q12, JointPose,
    V4_CROSS_LIMIT,
};
use psx_sdk::asset::quat::{quat_mul, quat_to_mat, Aff, Jaw};
use psx_sdk::asset::sector::{WorldFormat, WorldQuadUvs, WorldSurfaceLight};
use psx_sdk::asset::texture::{Depth, Texture};
use psx_sdk::asset::world::{
    World, WORLD_HEADER_SIZE, WORLD_HORIZONTAL_OVERRIDE_RECORD_SIZE, WORLD_SECTOR_RECORD_SIZE,
    WORLD_SURFACE_LIGHT_RECORD_SIZE, WORLD_V1_SECTOR_RECORD_SIZE, WORLD_V3_HEADER_SIZE,
    WORLD_V4_HORIZONTAL_OVERRIDE_RECORD_SIZE, WORLD_WALL_RECORD_SIZE,
};
use psx_sdk::asset::ParseError;
use psx_sdk::gte::math::{Vec3I16, Vec3I32};

const MESH: MeshFormat = MeshFormat {
    magic: *b"PSXM",
    version: 2,
    has_face_colors: 1,
    has_normals: 2,
};

const MODEL: ModelFormat = ModelFormat {
    magic: *b"PMDL",
    version: 2,
    legacy_version: 1,
    no_joint: 0xFFFF,
    no_joint8: 0xFF,
    double_sided: 8,
    face_palette_banks: 4,
    bank_packing: BankPacking::BitPairs,
};
const HAS_UVS: u16 = 1;
const RIGID_SKINNED: u16 = 2;

const ANIMATION: AnimationFormat = AnimationFormat {
    magic: *b"PANM",
    version: 2,
    version_v1: 1,
    version_v3: 3,
    version_v4: 4,
};
const POSE_RECORD_SIZE: usize = 24;
const POSE_RECORD_SIZE_V3: usize = 20;
const POSE_ROTATION_BLOCK_SIZE_V3: usize = 14;
const POSE_RECORD_SIZE_V4: usize = 16;
const POSE_ROTATION_BLOCK_SIZE_V4: usize = 10;

const AUDIO: AudioFormat = AudioFormat {
    magic: *b"PSAU",
    version: 1,
    codec: 1,
    mono: 1,
    one_shot: 2,
    no_loop: u32::MAX,
};

const WORLD: WorldFormat = WorldFormat {
    magic: *b"PSXW",
    version: 5,
    version_v1: 1,
    version_v2: 2,
    version_v3: 3,
    version_v4: 4,
    fog_enabled: 1,
    static_vertex_lighting: 2,
    has_floor: 1,
    has_ceiling: 2,
    floor_walkable: 4,
    ceiling_walkable: 8,
    triangle_present: [1, 2],
    triangle_walkable: [4, 8],
    floor_surface: 0,
    ceiling_surface: 1,
    no_material: 0xFFFF,
    north_east_south_west: 1,
    north_east_south_west_triangles: [[0, 1, 3], [1, 2, 3]],
    north_west_south_east_triangles: [[0, 1, 2], [0, 2, 3]],
    floor_uvs: WorldQuadUvs { corners: [(0, 0), (63, 0), (63, 63), (0, 63)] },
    wall_uvs: WorldQuadUvs { corners: [(0, 63), (63, 63), (63, 0), (0, 0)] },
    wall_quad: 0,
    wall_solid: 1,
};
const SECTOR_SIZE: i32 = 1024;
const NORTH_WEST_SOUTH_EAST: u8 = 0;
const NORTH: u8 = 0;

/// Which triangle of a sector split from north-west to south-east lies under
/// a point.
fn triangle_at_local(split: u8, local_x: i32, local_z: i32, _sector_size: i32) -> usize {
    assert_eq!(split, NORTH_WEST_SOUTH_EAST);
    (local_z > local_x) as usize
}

/// Store two rows of a rotation and how the third differs from their cross
/// product; false if it differs too much.
fn encode_rotation_q11_cross(matrix: &[i16; 9], block: &mut [u8; 10]) -> bool {
    let code = |v: i16| if v == 4096 { 0x7FF } else { (v / 2) as u16 & 0xFFF };
    for pair in 0..3 {
        let packed = code(matrix[2 * pair]) as u32 | ((code(matrix[2 * pair + 1]) as u32) << 12);
        block[3 * pair..3 * pair + 3].copy_from_slice(&packed.to_le_bytes()[..3]);
    }
    let third = plain_reconstruct_third_basis_q12(
        [matrix[0], matrix[1], matrix[2]],
        [matrix[3], matrix[4], matrix[5]],
    );
    let mut byte = 3u8;
    for axis in 0..3 {
        let off = matrix[6 + axis] - third[axis];
        if off.abs() > 1 && off.abs() < 32 {
            byte = ((off as u8) << 2) | axis as u8;
        } else if off.abs() >= 32 {
            return false;
        }
    }
    block[9] = byte;
    true
}

fn plain_decode_q11_element(raw: u16) -> i16 {
    let signed = ((raw << 4) as i16) >> 4;
    signed
        .wrapping_shl(1)
        .wrapping_add((((raw & 0x0FFF) == 0x07FF) as i16) << 1)
}

fn plain_cross_component_q12(a: i16, b: i16, c: i16, d: i16) -> i16 {
    let value = a as i32 * b as i32 - c as i32 * d as i32;
    let rounded = if value >= 0 {
        value.saturating_add(1 << 11) >> 12
    } else {
        -((value.saturating_neg().saturating_add(1 << 11)) >> 12)
    };
    rounded.clamp(i16::MIN as i32, i16::MAX as i32) as i16
}

fn plain_reconstruct_third_basis_q12(first: [i16; 3], second: [i16; 3]) -> [i16; 3] {
    [
        plain_cross_component_q12(first[1], second[2], first[2], second[1]),
        plain_cross_component_q12(first[2], second[0], first[0], second[2]),
        plain_cross_component_q12(first[0], second[1], first[1], second[0]),
    ]
}

fn plain_apply_v4_basis_correction(mut third: [i16; 3], correction_byte: u8) -> [i16; 3] {
    let axis = usize::from(correction_byte & 0x03);
    if axis < 3 {
        let correction = (((correction_byte >> 2) << 2) as i8 >> 2) as i16;
        third[axis] = third[axis].saturating_add(correction);
    }
    for component in &mut third {
        *component = (*component).clamp(-4096, 4096);
    }
    third
}

/// The whole 16-byte v4 record, byte addressed so alignment cannot matter.
fn plain_read_v4_record(record: &[u8]) -> ([[i16; 3]; 3], Vec3I16) {
    let mut flat = [0i16; 6];
    for pair in 0..3 {
        let o = pair * 3;
        let packed = (record[o] as u32) | ((record[o + 1] as u32) << 8)
            | ((record[o + 2] as u32) << 16);
        flat[pair * 2] = plain_decode_q11_element((packed & 0x0fff) as u16);
        flat[pair * 2 + 1] = plain_decode_q11_element(((packed >> 12) & 0x0fff) as u16);
    }
    let first = [flat[0], flat[1], flat[2]];
    let second = [flat[3], flat[4], flat[5]];
    let third =
        plain_apply_v4_basis_correction(plain_reconstruct_third_basis_q12(first, second), record[9]);
    let translation = Vec3I16::new(
        i16::from_le_bytes([record[10], record[11]]),
        i16::from_le_bytes([record[12], record[13]]),
        i16::from_le_bytes([record[14], record[15]]),
    );
    ([first, second, third], translation)
}

fn plain_decode_packed_translation(value: i16, shift: u8) -> i32 {
    (value as i32) * (1i32 << shift)
}

fn plain_scale_i32_q12(value: i32, scale_q12: i32) -> i32 {
    let whole = value >> 12;
    let frac = value - (whole << 12);
    whole.saturating_mul(scale_q12) + ((frac * scale_q12) >> 12)
}

fn plain_lerp_i32_q12(a: i32, b: i32, alpha_q12: u16) -> i32 {
    let delta = b.saturating_sub(a);
    a.saturating_add(plain_scale_i32_q12(delta, alpha_q12 as i32))
}

fn plain_lerp_i16_q12(a: i16, b: i16, alpha_q12: u16) -> i16 {
    (a as i32 + (((b as i32 - a as i32) * alpha_q12 as i32) >> 12)) as i16
}

fn plain_joint_pose(record: &[u8], shift: u8) -> JointPose {
    let (matrix, packed) = plain_read_v4_record(record);
    JointPose {
        matrix,
        translation: Vec3I32::new(
            plain_decode_packed_translation(packed.x, shift),
            plain_decode_packed_translation(packed.y, shift),
            plain_decode_packed_translation(packed.z, shift),
        ),
    }
}

/// What `AnimationPoseSample::pose` has to give: decode both frames
/// independently, then lerp the two `JointPose` values.
fn plain_interpolated(a: &[u8], b: &[u8], shift: u8, alpha_q12: u16) -> JointPose {
    let a = plain_joint_pose(a, shift);
    let b = plain_joint_pose(b, shift);
    let mut matrix = [[0i16; 3]; 3];
    for col in 0..3 {
        for row in 0..3 {
            matrix[col][row] = plain_lerp_i16_q12(a.matrix[col][row], b.matrix[col][row], alpha_q12);
        }
    }
    JointPose {
        matrix,
        translation: Vec3I32::new(
            plain_lerp_i32_q12(a.translation.x, b.translation.x, alpha_q12),
            plain_lerp_i32_q12(a.translation.y, b.translation.y, alpha_q12),
            plain_lerp_i32_q12(a.translation.z, b.translation.z, alpha_q12),
        ),
    }
}

/// Deterministic xorshift, so a failure reproduces exactly.
struct Rng(u32);

impl Rng {
    fn next(&mut self) -> u32 {
        self.0 ^= self.0 << 13;
        self.0 ^= self.0 >> 17;
        self.0 ^= self.0 << 5;
        self.0
    }
}

#[test]
fn rejects_wrong_magic() {
    let bad = [b'N', b'O', b'P', b'E', 0, 0, 0, 0, 0, 0, 0, 0];
    assert!(matches!(
        Mesh::from_bytes(&bad, &MESH),
        Err(ParseError::WrongMagic)
    ));
}

#[test]
fn rejects_truncated() {
    let too_short = [0u8; 4];
    assert!(matches!(
        Mesh::from_bytes(&too_short, &MESH),
        Err(ParseError::Truncated)
    ));
}

#[test]
fn rejects_unsupported_version() {
    let mut bad = [0u8; 12];
    bad[0..4].copy_from_slice(&MESH.magic);
    bad[4..6].copy_from_slice(&999u16.to_le_bytes());
    assert!(matches!(
        Mesh::from_bytes(&bad, &MESH),
        Err(ParseError::UnsupportedVersion(999))
    ));
}

/// Pin the `.psxw` parser to the versions it intentionally
/// supports; any newer blob must be rejected.
#[test]
fn world_rejects_unknown_version() {
    let mut bad = [0u8; 12];
    bad[0..4].copy_from_slice(&WORLD.magic);
    let unknown = WORLD.version + 1;
    bad[4..6].copy_from_slice(&unknown.to_le_bytes());
    // Payload length 0 -- won't matter; version check fires first.
    bad[8..12].copy_from_slice(&0u32.to_le_bytes());
    assert!(matches!(
        World::from_bytes(&bad, &WORLD),
        Err(ParseError::UnsupportedVersion(version)) if version == unknown
    ));
}

/// Sizes the cooker / runtime have agreed on for world formats.
/// Drift would invalidate every committed `.psxw` blob.
#[test]
fn world_record_sizes_match_contract() {
    assert_eq!(WORLD_V3_HEADER_SIZE, 20);
    assert_eq!(WORLD_HEADER_SIZE, 24);
    assert_eq!(WORLD_V4_HORIZONTAL_OVERRIDE_RECORD_SIZE, 24);
    assert_eq!(WORLD_HORIZONTAL_OVERRIDE_RECORD_SIZE, 48);
    assert_eq!(WORLD_SURFACE_LIGHT_RECORD_SIZE, 12);
    assert_eq!(WORLD_SECTOR_RECORD_SIZE, 60);
    assert_eq!(WORLD_WALL_RECORD_SIZE, 32);
    assert_eq!(WORLD_SECTOR_RECORD_SIZE, 60);
    assert_eq!(WORLD_WALL_RECORD_SIZE, 32);
}

#[test]
fn world_v1_synthesizes_default_uvs() {
    const WORLD_V1_LEN: usize =
        HEADER_SIZE + WORLD_V3_HEADER_SIZE + WORLD_V1_SECTOR_RECORD_SIZE;
    let payload_len = (WORLD_V3_HEADER_SIZE + WORLD_V1_SECTOR_RECORD_SIZE) as u32;
    let mut buf = [0u8; WORLD_V1_LEN];
    buf[0..4].copy_from_slice(&WORLD.magic);
    buf[4..6].copy_from_slice(&WORLD.version_v1.to_le_bytes());
    buf[8..12].copy_from_slice(&payload_len.to_le_bytes());
    buf[12..14].copy_from_slice(&1u16.to_le_bytes());
    buf[14..16].copy_from_slice(&1u16.to_le_bytes());
    buf[16..20].copy_from_slice(&SECTOR_SIZE.to_le_bytes());
    buf[20..22].copy_from_slice(&1u16.to_le_bytes());

    let sector = HEADER_SIZE + WORLD_V3_HEADER_SIZE;
    buf[sector] = WORLD.has_floor;
    buf[sector + 4..sector + 6].copy_from_slice(&0u16.to_le_bytes());
    buf[sector + 6..sector + 8].copy_from_slice(&WORLD.no_material.to_le_bytes());

    let world = World::from_bytes(&buf, &WORLD).expect("legacy world parses");
    let sector = world.sector(0, 0).unwrap();
    assert_eq!(sector.floor_uvs().corners(), WORLD.floor_uvs.corners);
}

#[test]
fn texture_round_trip_4bpp() {
    // 12 AssetHeader + 16 TextureHeader + 8 pixels + 32 CLUT = 68 bytes.
    let pixel_bytes: u32 = 8;
    let clut_bytes: u32 = 32;
    let payload_len = 16 + pixel_bytes + clut_bytes;
    let mut buf = [0u8; 68];
    buf[0..4].copy_from_slice(b"PSXT");
    buf[4..6].copy_from_slice(&1u16.to_le_bytes());
    buf[6..8].copy_from_slice(&0u16.to_le_bytes());
    buf[8..12].copy_from_slice(&payload_len.to_le_bytes());
    // TextureHeader @ offset 12.
    buf[12] = 4; // depth
    buf[13] = 0;
    buf[14..16].copy_from_slice(&4u16.to_le_bytes()); // width
    buf[16..18].copy_from_slice(&4u16.to_le_bytes()); // height
    buf[18..20].copy_from_slice(&16u16.to_le_bytes()); // clut_entries
    buf[20..24].copy_from_slice(&pixel_bytes.to_le_bytes());
    buf[24..28].copy_from_slice(&clut_bytes.to_le_bytes());
    // 4 rows × 1 halfword = 4 halfwords = 8 bytes @ offset 28.
    for row in 0..4u16 {
        let off = 28 + (row as usize) * 2;
        buf[off..off + 2].copy_from_slice(&(row * 0x1111).to_le_bytes());
    }
    // 16 CLUT entries @ offset 36.
    for i in 0..16u16 {
        let off = 36 + (i as usize) * 2;
        buf[off..off + 2].copy_from_slice(&(i * 0x0123).to_le_bytes());
    }

    let t = Texture::from_bytes(&buf).expect("parse");
    assert_eq!(t.width(), 4);
    assert_eq!(t.height(), 4);
    assert_eq!(t.depth(), Depth::Bit4);
    assert_eq!(t.clut_entries(), 16);
    assert_eq!(t.halfwords_per_row(), 1);
    assert_eq!(t.pixel_bytes().len(), 8);
    assert_eq!(t.clut_bytes().len(), 32);
}

#[test]
fn texture_rejects_wrong_magic() {
    let bad = [b'N', b'O', b'P', b'E', 0, 0, 0, 0, 0, 0, 0, 0];
    assert!(matches!(
        Texture::from_bytes(&bad),
        Err(ParseError::WrongMagic)
    ));
}

#[test]
fn audio_round_trip_one_shot() {
    let adpcm = [0x08u8, 0x01, 0, 0, 0, 0, 0, 0, 0, 0, 0, 0, 0, 0, 0, 0];
    let payload_len = AUDIO_HEADER_SIZE + adpcm.len();
    let mut buf = Vec::new();
    buf.extend_from_slice(&AUDIO.magic);
    buf.extend_from_slice(&AUDIO.version.to_le_bytes());
    buf.extend_from_slice(&(AUDIO.mono | AUDIO.one_shot).to_le_bytes());
    buf.extend_from_slice(&(payload_len as u32).to_le_bytes());
    buf.push(AUDIO.codec);
    buf.push(1);
    buf.extend_from_slice(&0u16.to_le_bytes());
    buf.extend_from_slice(&44_100u32.to_le_bytes());
    buf.extend_from_slice(&28u32.to_le_bytes());
    buf.extend_from_slice(&1u32.to_le_bytes());
    buf.extend_from_slice(&AUDIO.no_loop.to_le_bytes());
    buf.extend_from_slice(&adpcm);

    let sample = Audio::from_bytes(&buf, &AUDIO).expect("parse audio");
    assert_eq!(sample.sample_rate_hz(), 44_100);
    assert_eq!(sample.sample_count(), 28);
    assert_eq!(sample.adpcm_block_count(), 1);
    assert_eq!(sample.loop_start_block(), None);
    assert_eq!(sample.adpcm_bytes(), adpcm);
    assert!(sample.is_one_shot());
}

#[test]
fn audio_rejects_bad_block_count() {
    let mut buf = [0u8; HEADER_SIZE + AUDIO_HEADER_SIZE];
    buf[0..4].copy_from_slice(&AUDIO.magic);
    buf[4..6].copy_from_slice(&AUDIO.version.to_le_bytes());
    buf[6..8].copy_from_slice(&(AUDIO.mono | AUDIO.one_shot).to_le_bytes());
    buf[8..12].copy_from_slice(&(AUDIO_HEADER_SIZE as u32).to_le_bytes());
    buf[12] = AUDIO.codec;
    buf[13] = 1;
    buf[16..20].copy_from_slice(&44_100u32.to_le_bytes());
    buf[20..24].copy_from_slice(&28u32.to_le_bytes());
    buf[24..28].copy_from_slice(&1u32.to_le_bytes());
    buf[28..32].copy_from_slice(&AUDIO.no_loop.to_le_bytes());

    assert!(matches!(
        Audio::from_bytes(&buf, &AUDIO),
        Err(ParseError::InvalidAudioLayout)
    ));
}

#[test]
fn model_round_trip_minimal_textured_part() {
    let payload_len = MODEL_HEADER_SIZE
        + JOINT_SIZE
        + MATERIAL_SIZE
        + PART_SIZE
        + 3 * VERTEX_SIZE
        + FACE_SIZE
        + 1;
    let mut buf = Vec::new();
    buf.extend_from_slice(&MODEL.magic);
    buf.extend_from_slice(&MODEL.version.to_le_bytes());
    buf.extend_from_slice(
        &(HAS_UVS | RIGID_SKINNED | MODEL.face_palette_banks)
            .to_le_bytes(),
    );
    buf.extend_from_slice(&(payload_len as u32).to_le_bytes());

    buf.extend_from_slice(&1u16.to_le_bytes()); // joints
    buf.extend_from_slice(&1u16.to_le_bytes()); // parts
    buf.extend_from_slice(&3u16.to_le_bytes()); // vertices
    buf.extend_from_slice(&1u16.to_le_bytes()); // faces
    buf.extend_from_slice(&1u16.to_le_bytes()); // materials
    buf.extend_from_slice(&128u16.to_le_bytes());
    buf.extend_from_slice(&128u16.to_le_bytes());
    buf.extend_from_slice(&0u16.to_le_bytes());

    buf.extend_from_slice(&MODEL.no_joint.to_le_bytes());
    buf.extend_from_slice(&0u16.to_le_bytes());
    buf.extend_from_slice(&0u16.to_le_bytes());
    buf.extend_from_slice(&0u16.to_le_bytes());
    buf.extend_from_slice(&[255, 255, 255, 255]);
    for value in [0u16, 0, 3, 0, 1, 0] {
        buf.extend_from_slice(&value.to_le_bytes());
    }
    buf.extend_from_slice(&0u32.to_le_bytes());

    for (x, y) in [(0i16, 0i16), (4096, 0), (0, 4096)] {
        buf.extend_from_slice(&x.to_le_bytes());
        buf.extend_from_slice(&y.to_le_bytes());
        buf.extend_from_slice(&0i16.to_le_bytes());
        // joint1 sentinel + blend=0 means single-bone vertex.
        buf.push(MODEL.no_joint8);
        buf.push(0);
    }
    for (index, u, v) in [(0u16, 0u8, 0u8), (1, 127, 0), (2, 0, 127)] {
        buf.extend_from_slice(&index.to_le_bytes());
        buf.push(u);
        buf.push(v);
    }
    buf.push(3);

    let model = Model::from_bytes(&buf, &MODEL).expect("parse model");
    assert_eq!(model.joint_count(), 1);
    assert_eq!(model.part_count(), 1);
    assert_eq!(model.vertex_count(), 3);
    assert_eq!(model.face_count(), 1);
    assert_eq!(model.texture_width(), 128);
    assert_eq!(
        model.local_to_world_q12(),
        DEFAULT_LOCAL_TO_WORLD_Q12
    );
    assert_eq!(model.joint(0).unwrap().parent(), None);
    assert_eq!(
        model.material(0).unwrap().base_color(),
        [255, 255, 255, 255]
    );
    assert_eq!(model.part(0).unwrap().face_count(), 1);
    assert_eq!(model.vertex(1).unwrap().position, Vec3I16::new(4096, 0, 0));
    let face = model.face(0).unwrap();
    assert_eq!(face.corners[0].vertex_index, 0);
    assert_eq!(face.corners[1].vertex_index, 1);
    assert_eq!(face.corners[1].uv, (127, 0));
    assert_eq!(face.corners[2].vertex_index, 2);
    assert_eq!(face.corners[2].uv, (0, 127));
    assert_eq!(model.face_palette_bank(0), Some(3));
    assert_eq!(model.palette_bank_count(), 4);

    let mut legacy = buf.clone();
    legacy.pop();
    legacy[4..6].copy_from_slice(&MODEL.legacy_version.to_le_bytes());
    let legacy_flags = HAS_UVS | RIGID_SKINNED;
    legacy[6..8].copy_from_slice(&legacy_flags.to_le_bytes());
    legacy[8..12].copy_from_slice(&((payload_len - 1) as u32).to_le_bytes());
    let legacy = Model::from_bytes(&legacy, &MODEL).expect("parse legacy model");
    assert_eq!(legacy.face_palette_bank(0), Some(0));
    assert_eq!(legacy.palette_bank_count(), 1);
}

#[test]
fn animation_round_trip_pose_table() {
    let payload_len = ANIMATION_HEADER_SIZE + 2 * POSE_RECORD_SIZE;
    let mut buf = Vec::new();
    buf.extend_from_slice(&ANIMATION.magic);
    buf.extend_from_slice(&ANIMATION.version.to_le_bytes());
    buf.extend_from_slice(&0u16.to_le_bytes());
    buf.extend_from_slice(&(payload_len as u32).to_le_bytes());
    buf.extend_from_slice(&1u16.to_le_bytes()); // joints
    buf.extend_from_slice(&2u16.to_le_bytes()); // frames
    buf.extend_from_slice(&15u16.to_le_bytes());
    buf.extend_from_slice(&0u16.to_le_bytes());

    for frame in 0..2i16 {
        for value in [4096i16, 0, 0, 0, 4096, 0, 0, 0, 4096] {
            buf.extend_from_slice(&value.to_le_bytes());
        }
        for value in [frame * 100, frame * 200, frame * 300] {
            buf.extend_from_slice(&value.to_le_bytes());
        }
    }

    let animation = Animation::from_bytes(&buf, &ANIMATION).expect("parse animation");
    assert_eq!(animation.joint_count(), 1);
    assert_eq!(animation.frame_count(), 2);
    assert_eq!(animation.sample_rate_hz(), 15);
    assert_eq!(animation.phase_step_q12(30), 0x0800);
    assert_eq!(animation.phase_at_tick_q12(2, 30), 0x1000);
    let pose = animation.pose(1, 0).unwrap();
    assert_eq!(pose.matrix[0][0], 4096);
    assert_eq!(pose.translation, Vec3I32::new(100, 200, 300));
    let sample = animation.looped_pose_sample_q12(0).unwrap();
    let gte_pose = sample.gte_pose(0).unwrap();
    assert_eq!(gte_pose.translation, Vec3I16::new(0, 0, 0));
    assert_eq!(gte_pose.translation_shift, 0);

    let mut unaligned = vec![0u8];
    unaligned.extend_from_slice(&buf);
    let unaligned_bytes = &unaligned[1..];
    assert_eq!(unaligned_bytes.as_ptr() as usize & 1, 1);
    let unaligned_animation = Animation::from_bytes(unaligned_bytes, &ANIMATION).expect("parse unaligned");
    assert_eq!(unaligned_animation.pose(1, 0), Some(pose));

    let mut halfword_aligned = vec![0u8; 2];
    halfword_aligned.extend_from_slice(&buf);
    let halfword_bytes = &halfword_aligned[2..];
    assert_eq!(halfword_bytes.as_ptr() as usize & 3, 2);
    let halfword_animation = Animation::from_bytes(halfword_bytes, &ANIMATION).expect("parse halfword-aligned");
    assert_eq!(halfword_animation.pose(1, 0), Some(pose));
}

fn pack_q11_codes(codes: [u16; 9]) -> [u8; 14] {
    let mut packed = [0u8; 14];
    let mut lane = 0usize;
    while lane < codes.len() {
        let code = codes[lane] & 0x0fff;
        let bit_offset = lane * 12;
        let mut bit = 0usize;
        while bit < 12 {
            if code & (1 << bit) != 0 {
                let output_bit = bit_offset + bit;
                packed[output_bit >> 3] |= 1 << (output_bit & 7);
            }
            bit += 1;
        }
        lane += 1;
    }
    packed
}

#[test]
fn animation_v3_word_decoder_matches_byte_decoder_for_every_q11_code_and_lane() {
    let translations = [-32768i16, 0x1234, 32767];
    let mut lane = 0usize;
    while lane < 9 {
        let mut code = 0u16;
        while code < 0x1000 {
            let mut codes = [0u16; 9];
            let mut other = 0usize;
            while other < codes.len() {
                codes[other] = ((other as u16 * 0x19d) ^ 0x5a5) & 0x0fff;
                other += 1;
            }
            codes[lane] = code;

            let mut blob = Vec::new();
            blob.extend_from_slice(&ANIMATION.magic);
            blob.extend_from_slice(&ANIMATION.version_v3.to_le_bytes());
            blob.extend_from_slice(&0u16.to_le_bytes());
            blob.extend_from_slice(
                &((ANIMATION_HEADER_SIZE + POSE_RECORD_SIZE_V3) as u32).to_le_bytes(),
            );
            for value in [1u16, 1, 15, 0] {
                blob.extend_from_slice(&value.to_le_bytes());
            }
            blob.extend_from_slice(&pack_q11_codes(codes));
            for translation in translations {
                blob.extend_from_slice(&translation.to_le_bytes());
            }

            let animation = Animation::from_bytes(&blob, &ANIMATION).expect("v3 animation");
            let d = |lane: usize| plain_decode_q11_element(codes[lane]);
            let expected_matrix = [[d(0), d(1), d(2)], [d(3), d(4), d(5)], [d(6), d(7), d(8)]];
            let sample = animation.looped_pose_sample_q12(0).unwrap();
            let pose = sample.gte_pose(0).unwrap();
            assert_eq!(pose.matrix, expected_matrix, "lane={lane} code=0x{code:03x}");
            assert_eq!(animation.pose(0, 0).unwrap().matrix, expected_matrix);
            assert_eq!(
                pose.translation,
                Vec3I16::new(translations[0], translations[1], translations[2]),
                "lane={lane} code=0x{code:03x}"
            );
            code += 1;
        }
        lane += 1;
    }
}

#[test]
fn animation_v3_aligned_and_unaligned_public_paths_are_identical() {
    const FRAMES: usize = 3;
    const BYTES: usize = HEADER_SIZE
        + ANIMATION_HEADER_SIZE
        + FRAMES * POSE_RECORD_SIZE_V3;
    let mut blob = [0u8; BYTES];
    blob[0..4].copy_from_slice(&ANIMATION.magic);
    blob[4..6].copy_from_slice(&ANIMATION.version_v3.to_le_bytes());
    let payload_len = BYTES - HEADER_SIZE;
    blob[8..12].copy_from_slice(&(payload_len as u32).to_le_bytes());
    blob[12..14].copy_from_slice(&1u16.to_le_bytes());
    blob[14..16].copy_from_slice(&(FRAMES as u16).to_le_bytes());
    blob[16..18].copy_from_slice(&15u16.to_le_bytes());
    blob[18..20].copy_from_slice(&2u16.to_le_bytes());

    for frame in 0..FRAMES {
        let codes = if frame == 1 {
            [
                0x200, 0x111, 0xeee, 0x7ff, 0x800, 0x001, 0xfff, 0x333, 0xabc,
            ]
        } else {
            [0x7ff, 0, 0, 0, 0x7ff, 0, 0, 0, 0x7ff]
        };
        let base = 20 + frame * POSE_RECORD_SIZE_V3;
        blob[base..base + POSE_ROTATION_BLOCK_SIZE_V3]
            .copy_from_slice(&pack_q11_codes(codes));
        for (axis, value) in [frame as i16 * 10, frame as i16 * -20, frame as i16 * 30]
            .into_iter()
            .enumerate()
        {
            let offset = base + POSE_ROTATION_BLOCK_SIZE_V3 + axis * 2;
            blob[offset..offset + 2].copy_from_slice(&value.to_le_bytes());
        }
    }

    let aligned = Animation::from_bytes(&blob, &ANIMATION).expect("aligned v3 animation parses");

    for desired_alignment in [1usize, 2, 3] {
        let mut storage = vec![0u8; BYTES + 3];
        let base_alignment = storage.as_ptr() as usize & 3;
        let prefix = (desired_alignment + 4 - base_alignment) & 3;
        storage[prefix..prefix + BYTES].copy_from_slice(&blob);
        let bytes = &storage[prefix..prefix + BYTES];
        assert_eq!(bytes.as_ptr() as usize & 3, desired_alignment);
        let unaligned = Animation::from_bytes(bytes, &ANIMATION).expect("unaligned v3 animation parses");
        for phase in [0, 0x400, 0x800, 0x1000, 0x1800] {
            let aligned_sample = aligned.looped_pose_sample_q12(phase).unwrap();
            let unaligned_sample = unaligned.looped_pose_sample_q12(phase).unwrap();
            assert_eq!(aligned_sample.pose(0), unaligned_sample.pose(0));
            assert_eq!(aligned_sample.gte_pose(0), unaligned_sample.gte_pose(0));
        }
    }
}

#[test]
fn animation_v4_aligned_and_unaligned_public_paths_are_identical() {
    const FRAMES: usize = 3;
    const BYTES: usize = HEADER_SIZE
        + ANIMATION_HEADER_SIZE
        + FRAMES * POSE_RECORD_SIZE_V4;
    let mut blob = [0u8; BYTES];
    blob[0..4].copy_from_slice(&ANIMATION.magic);
    blob[4..6].copy_from_slice(&ANIMATION.version_v4.to_le_bytes());
    let payload_len = BYTES - HEADER_SIZE;
    blob[8..12].copy_from_slice(&(payload_len as u32).to_le_bytes());
    blob[12..14].copy_from_slice(&1u16.to_le_bytes());
    blob[14..16].copy_from_slice(&(FRAMES as u16).to_le_bytes());
    blob[16..18].copy_from_slice(&15u16.to_le_bytes());
    blob[18..20].copy_from_slice(&2u16.to_le_bytes());

    let matrices = [
        [4096, 0, 0, 0, 4096, 0, 0, 0, 4096],
        [3850, 1212, 704, -1294, 3862, 432, -536, -628, 4012],
        [4096, 0, 0, 0, 4096, 0, 0, 0, 4096],
    ];
    for (frame, matrix) in matrices.into_iter().enumerate() {
        let base = 20 + frame * POSE_RECORD_SIZE_V4;
        let mut block = [0u8; POSE_ROTATION_BLOCK_SIZE_V4];
        assert!(encode_rotation_q11_cross(&matrix, &mut block));
        blob[base..base + POSE_ROTATION_BLOCK_SIZE_V4].copy_from_slice(&block);
        for (axis, value) in [frame as i16 * 10, frame as i16 * -20, frame as i16 * 30]
            .into_iter()
            .enumerate()
        {
            let offset = base + POSE_ROTATION_BLOCK_SIZE_V4 + axis * 2;
            blob[offset..offset + 2].copy_from_slice(&value.to_le_bytes());
        }
    }

    let aligned = Animation::from_bytes(&blob, &ANIMATION).expect("aligned v4 animation parses");

    for desired_alignment in [1usize, 2, 3] {
        let mut storage = vec![0u8; BYTES + 3];
        let base_alignment = storage.as_ptr() as usize & 3;
        let prefix = (desired_alignment + 4 - base_alignment) & 3;
        storage[prefix..prefix + BYTES].copy_from_slice(&blob);
        let bytes = &storage[prefix..prefix + BYTES];
        assert_eq!(bytes.as_ptr() as usize & 3, desired_alignment);
        let unaligned = Animation::from_bytes(bytes, &ANIMATION).expect("unaligned v4 animation parses");
        for phase in [0, 0x400, 0x800, 0x1000, 0x1800] {
            let aligned_sample = aligned.looped_pose_sample_q12(phase).unwrap();
            let unaligned_sample = unaligned.looped_pose_sample_q12(phase).unwrap();
            assert_eq!(aligned_sample.pose(0), unaligned_sample.pose(0));
            assert_eq!(aligned_sample.gte_pose(0), unaligned_sample.gte_pose(0));
        }
    }
}

#[test]
fn animation_looped_pose_interpolates_q12_phase() {
    let payload_len = ANIMATION_HEADER_SIZE + 3 * POSE_RECORD_SIZE;
    let mut buf = Vec::new();
    buf.extend_from_slice(&ANIMATION.magic);
    buf.extend_from_slice(&ANIMATION.version.to_le_bytes());
    buf.extend_from_slice(&0u16.to_le_bytes());
    buf.extend_from_slice(&(payload_len as u32).to_le_bytes());
    buf.extend_from_slice(&1u16.to_le_bytes()); // joints
    buf.extend_from_slice(&3u16.to_le_bytes()); // frames: first, middle, duplicate first
    buf.extend_from_slice(&15u16.to_le_bytes());
    buf.extend_from_slice(&0u16.to_le_bytes());

    for (m00, tx, ty, tz) in [
        (4096i16, 0i16, 0i16, 0i16),
        (2048i16, 100i16, -100i16, 50i16),
        (4096i16, 0i16, 0i16, 0i16),
    ] {
        for value in [m00, 0, 0, 0, 4096, 0, 0, 0, 4096] {
            buf.extend_from_slice(&value.to_le_bytes());
        }
        for value in [tx, ty, tz] {
            buf.extend_from_slice(&value.to_le_bytes());
        }
    }

    let animation = Animation::from_bytes(&buf, &ANIMATION).expect("parse animation");
    let halfway = animation.pose_looped_q12(0x0800, 0).unwrap();
    assert_eq!(halfway.matrix[0][0], 3072);
    assert_eq!(halfway.translation, Vec3I32::new(50, -50, 25));
    let sample = animation.looped_pose_sample_q12(0x0800).unwrap();
    assert_eq!(sample.pose(0), Some(halfway));
    assert_eq!(
        sample.gte_pose(0).unwrap().translation,
        Vec3I16::new(50, -50, 25)
    );

    let wrapped = animation.pose_looped_q12(0x1800, 0).unwrap();
    assert_eq!(wrapped.matrix[0][0], 3072);
    assert_eq!(wrapped.translation, Vec3I32::new(50, -50, 25));
}

#[test]
fn i16_animation_lerp_stays_between_extreme_endpoints() {
    let values = [i16::MIN, -30_000, -1, 0, 1, 30_000, i16::MAX];
    let alphas = [0, 1, 63, 1_024, 2_047, 2_048, 2_049, 4_094, 4_095];
    for &a in &values {
        for &b in &values {
            for &alpha in &alphas {
                let actual = lerp_i16_q12(a, b, alpha);
                assert!(actual >= a.min(b) && actual <= a.max(b));
                let expected = (a as i32 + (((b as i32 - a as i32) * alpha as i32) >> 12)) as i16;
                assert_eq!(actual, expected);
            }
        }
    }
}

#[test]
fn packed_animation_translation_decode_fits_i32_for_every_shift() {
    for shift in 0..=15 {
        let scale = 1i32 << shift;
        for value in [i16::MIN, -1, 0, 1, i16::MAX] {
            assert_eq!(
                decode_packed_translation(value, shift),
                i32::from(value) * scale
            );
        }
    }
}

#[test]
fn world_round_trip_1x1_with_wall() {
    const SURFACE_LIGHT_RECORD_COUNT: usize = 3;
    const WORLD_ROUND_TRIP_LEN: usize = HEADER_SIZE
        + WORLD_HEADER_SIZE
        + WORLD_SECTOR_RECORD_SIZE
        + WORLD_WALL_RECORD_SIZE
        + SURFACE_LIGHT_RECORD_COUNT * WORLD_SURFACE_LIGHT_RECORD_SIZE;
    let payload_len = (WORLD_HEADER_SIZE
        + WORLD_SECTOR_RECORD_SIZE
        + WORLD_WALL_RECORD_SIZE
        + SURFACE_LIGHT_RECORD_COUNT * WORLD_SURFACE_LIGHT_RECORD_SIZE)
        as u32;
    let mut buf = [0u8; WORLD_ROUND_TRIP_LEN];
    buf[0..4].copy_from_slice(&WORLD.magic);
    buf[4..6].copy_from_slice(&WORLD.version.to_le_bytes());
    buf[6..8].copy_from_slice(&0u16.to_le_bytes());
    buf[8..12].copy_from_slice(&payload_len.to_le_bytes());

    buf[12..14].copy_from_slice(&1u16.to_le_bytes()); // width
    buf[14..16].copy_from_slice(&1u16.to_le_bytes()); // depth
    buf[16..20].copy_from_slice(&SECTOR_SIZE.to_le_bytes());
    buf[20..22].copy_from_slice(&1u16.to_le_bytes()); // sectors
    buf[22..24].copy_from_slice(&2u16.to_le_bytes()); // materials
    buf[24..26].copy_from_slice(&1u16.to_le_bytes()); // walls
    buf[26..29].copy_from_slice(&[32, 32, 40]);
    buf[29] = WORLD.fog_enabled | WORLD.static_vertex_lighting;
    buf[30..32].copy_from_slice(&(SURFACE_LIGHT_RECORD_COUNT as u16).to_le_bytes());

    let sector = 12 + WORLD_HEADER_SIZE;
    buf[sector] = WORLD.has_floor | WORLD.floor_walkable;
    buf[sector + 1] = NORTH_WEST_SOUTH_EAST;
    buf[sector + 4..sector + 6].copy_from_slice(&0u16.to_le_bytes());
    buf[sector + 6..sector + 8].copy_from_slice(&WORLD.no_material.to_le_bytes());
    buf[sector + 8..sector + 10].copy_from_slice(&0u16.to_le_bytes());
    buf[sector + 10..sector + 12].copy_from_slice(&1u16.to_le_bytes());
    for (i, (u, v)) in WORLD.floor_uvs.corners.iter().copied().enumerate() {
        buf[sector + 44 + i * 2] = u;
        buf[sector + 45 + i * 2] = v;
    }
    let wall = sector + WORLD_SECTOR_RECORD_SIZE;
    buf[wall] = NORTH;
    buf[wall + 1] = WORLD.wall_solid;
    buf[wall + 4..wall + 6].copy_from_slice(&1u16.to_le_bytes());
    buf[wall + 8..wall + 12].copy_from_slice(&0i32.to_le_bytes());
    buf[wall + 12..wall + 16].copy_from_slice(&0i32.to_le_bytes());
    buf[wall + 16..wall + 20].copy_from_slice(&1024i32.to_le_bytes());
    buf[wall + 20..wall + 24].copy_from_slice(&1024i32.to_le_bytes());
    for (i, (u, v)) in WORLD.wall_uvs.corners.iter().copied().enumerate() {
        buf[wall + 24 + i * 2] = u;
        buf[wall + 25 + i * 2] = v;
    }
    let floor_light = [[10, 20, 30], [40, 50, 60], [70, 80, 90], [100, 110, 120]];
    let ceiling_light = [[1, 2, 3], [4, 5, 6], [7, 8, 9], [10, 11, 12]];
    let wall_light = [[12, 22, 32], [42, 52, 62], [72, 82, 92], [102, 112, 122]];
    let lights = wall + WORLD_WALL_RECORD_SIZE;
    for (record_index, light) in [floor_light, ceiling_light, wall_light].iter().enumerate() {
        for (corner_index, rgb) in light.iter().enumerate() {
            let off = lights + record_index * WORLD_SURFACE_LIGHT_RECORD_SIZE + corner_index * 3;
            buf[off..off + 3].copy_from_slice(rgb);
        }
    }

    let world = World::from_bytes(&buf, &WORLD).expect("parse world");
    assert_eq!(world.width(), 1);
    assert_eq!(world.depth(), 1);
    assert_eq!(world.sector_size(), SECTOR_SIZE);
    assert_eq!(world.material_count(), 2);
    assert_eq!(world.wall_count(), 1);
    assert_eq!(
        world.surface_light_count(),
        SURFACE_LIGHT_RECORD_COUNT as u16
    );
    assert_eq!(world.ambient_color(), [32, 32, 40]);
    assert!(world.fog_enabled());
    assert!(world.static_vertex_lighting());

    let sector = world.sector(0, 0).unwrap();
    assert!(sector.has_floor());
    assert!(sector.floor_walkable());
    assert_eq!(sector.floor_material(), Some(0));
    assert_eq!(sector.ceiling_material(), None);
    assert_eq!(sector.wall_count(), 1);
    assert_eq!(sector.floor_uvs().corners(), WORLD.floor_uvs.corners);
    assert_eq!(world.surface_light(0).unwrap().vertex_rgb(), floor_light);
    assert_eq!(world.surface_light(1).unwrap().vertex_rgb(), ceiling_light);

    let wall = world.sector_wall(sector, 0).unwrap();
    assert_eq!(wall.direction(), NORTH);
    assert!(wall.solid());
    assert_eq!(wall.material(), 1);
    assert_eq!(wall.heights(), [0, 0, 1024, 1024]);
    assert_eq!(wall.uvs().corners(), WORLD.wall_uvs.corners);
    assert_eq!(world.surface_light(2).unwrap().vertex_rgb(), wall_light);
}

#[test]
fn floor_collision_decode_matches_full_sector_with_override() {
    const LEN: usize = HEADER_SIZE
        + WORLD_HEADER_SIZE
        + WORLD_SECTOR_RECORD_SIZE
        + WORLD_HORIZONTAL_OVERRIDE_RECORD_SIZE;
    let mut buf = [0u8; LEN];
    buf[0..4].copy_from_slice(&WORLD.magic);
    buf[4..6].copy_from_slice(&WORLD.version.to_le_bytes());
    buf[8..12].copy_from_slice(&((LEN - HEADER_SIZE) as u32).to_le_bytes());
    buf[12..14].copy_from_slice(&1u16.to_le_bytes());
    buf[14..16].copy_from_slice(&1u16.to_le_bytes());
    buf[16..20].copy_from_slice(&SECTOR_SIZE.to_le_bytes());
    buf[20..22].copy_from_slice(&1u16.to_le_bytes());
    buf[32..34].copy_from_slice(&1u16.to_le_bytes());

    let sector_offset = HEADER_SIZE + WORLD_HEADER_SIZE;
    buf[sector_offset] = WORLD.has_floor | WORLD.floor_walkable;
    buf[sector_offset + 1] = NORTH_WEST_SOUTH_EAST;
    for (index, height) in [10i32, 20, 30, 40].into_iter().enumerate() {
        let offset = sector_offset + 12 + index * 4;
        buf[offset..offset + 4].copy_from_slice(&height.to_le_bytes());
    }

    let override_offset = sector_offset + WORLD_SECTOR_RECORD_SIZE;
    buf[override_offset + 2] = WORLD.floor_surface;
    buf[override_offset + 3] =
        WORLD.triangle_present[0] | WORLD.triangle_walkable[0];
    for (index, height) in [101i32, 102, 103, 201, 202, 203].into_iter().enumerate() {
        let offset = override_offset + 24 + index * 4;
        buf[offset..offset + 4].copy_from_slice(&height.to_le_bytes());
    }

    let world = World::from_bytes(&buf, &WORLD).expect("parse overridden world");
    let full = world.sector(0, 0).expect("sector");
    for (local_x, local_z) in [
        (0, 0),
        (SECTOR_SIZE, 0),
        (0, SECTOR_SIZE),
        (SECTOR_SIZE, SECTOR_SIZE),
    ] {
        let triangle = triangle_at_local(
            full.floor_split(),
            local_x,
            local_z,
            SECTOR_SIZE,
        );
        let reduced = world.sector_floor_collision(0, 0, triangle, SECTOR_SIZE);
        if full.floor_triangle_present(triangle) {
            let reduced = reduced.expect("present triangle");
            assert_eq!(reduced.split(), full.floor_split());
            assert_eq!(reduced.triangle(), triangle);
            assert_eq!(reduced.walkable(), full.floor_triangle_walkable(triangle));
            assert_eq!(reduced.floor_heights(), full.floor_heights());
            assert_eq!(
                reduced.triangle_heights(),
                full.floor_triangle_heights(triangle)
            );
        } else {
            assert!(reduced.is_none());
        }
    }
}

#[test]
fn world_rejects_bad_sector_count() {
    let mut buf = [0u8; 12 + WORLD_HEADER_SIZE];
    buf[0..4].copy_from_slice(&WORLD.magic);
    buf[4..6].copy_from_slice(&WORLD.version.to_le_bytes());
    buf[8..12].copy_from_slice(&(WORLD_HEADER_SIZE as u32).to_le_bytes());
    buf[12..14].copy_from_slice(&1u16.to_le_bytes());
    buf[14..16].copy_from_slice(&1u16.to_le_bytes());
    buf[16..20].copy_from_slice(&SECTOR_SIZE.to_le_bytes());
    buf[20..22].copy_from_slice(&2u16.to_le_bytes());

    assert!(matches!(
        World::from_bytes(&buf, &WORLD),
        Err(ParseError::InvalidWorldLayout)
    ));
}

#[test]
fn world_rejects_wall_range_outside_table() {
    let payload_len = (WORLD_HEADER_SIZE + WORLD_SECTOR_RECORD_SIZE) as u32;
    let mut buf = [0u8; HEADER_SIZE
        + WORLD_HEADER_SIZE
        + WORLD_SECTOR_RECORD_SIZE];
    buf[0..4].copy_from_slice(&WORLD.magic);
    buf[4..6].copy_from_slice(&WORLD.version.to_le_bytes());
    buf[8..12].copy_from_slice(&payload_len.to_le_bytes());
    buf[12..14].copy_from_slice(&1u16.to_le_bytes());
    buf[14..16].copy_from_slice(&1u16.to_le_bytes());
    buf[16..20].copy_from_slice(&SECTOR_SIZE.to_le_bytes());
    buf[20..22].copy_from_slice(&1u16.to_le_bytes());

    let sector = 12 + WORLD_HEADER_SIZE;
    buf[sector + 10..sector + 12].copy_from_slice(&1u16.to_le_bytes());

    assert!(matches!(
        World::from_bytes(&buf, &WORLD),
        Err(ParseError::InvalidWorldLayout)
    ));
}

#[test]
fn parses_legacy_v1_cooked_blob() {
    // Construct a proper v1 blob programmatically: 2 verts, 0 faces.
    // (0 faces is legal; we just want to check header parses.)
    let mut buf: [u8; 12 + 8 + 2 * 6] = [0; 32];
    buf[0..4].copy_from_slice(&MESH.magic);
    buf[4..6].copy_from_slice(&1u16.to_le_bytes());
    buf[6..8].copy_from_slice(&0u16.to_le_bytes());
    buf[8..12].copy_from_slice(&((8 + 2 * 6) as u32).to_le_bytes());
    buf[12..14].copy_from_slice(&2u16.to_le_bytes());
    buf[14..16].copy_from_slice(&0u16.to_le_bytes());
    // Reserved already zero.
    // Vert 0 = (0x0100, 0, 0) -- X at offset 20..22.
    buf[20..22].copy_from_slice(&0x0100_i16.to_le_bytes());
    // Vert 1 = (0, 0x0200, 0) -- Y at offset 28..30
    // (vert 1 starts at 26, Y is offset +2 into the vert).
    buf[28..30].copy_from_slice(&0x0200_i16.to_le_bytes());

    let m = Mesh::from_bytes(&buf, &MESH).expect("parse");
    assert_eq!(m.vert_count(), 2);
    assert_eq!(m.face_count(), 0);
    let v0 = m.vertex(0);
    assert_eq!(v0.x, 0x0100);
    let v1 = m.vertex(1);
    assert_eq!(v1.y, 0x0200);
}

#[test]
fn parses_v2_u16_indices() {
    const VERTS: usize = 260;
    const FACES: usize = 1;
    const PAYLOAD_LEN: usize = MESH_HEADER_SIZE + VERTS * 6 + FACES * 6;
    const INDEX_OFFSET: usize =
        HEADER_SIZE + MESH_HEADER_SIZE + VERTS * 6;

    let mut buf = [0u8; HEADER_SIZE + PAYLOAD_LEN];
    buf[0..4].copy_from_slice(&MESH.magic);
    buf[4..6].copy_from_slice(&MESH.version.to_le_bytes());
    buf[6..8].copy_from_slice(&0u16.to_le_bytes());
    buf[8..12].copy_from_slice(&(PAYLOAD_LEN as u32).to_le_bytes());
    buf[12..14].copy_from_slice(&(VERTS as u16).to_le_bytes());
    buf[14..16].copy_from_slice(&(FACES as u16).to_le_bytes());

    buf[INDEX_OFFSET..INDEX_OFFSET + 2].copy_from_slice(&0u16.to_le_bytes());
    buf[INDEX_OFFSET + 2..INDEX_OFFSET + 4].copy_from_slice(&255u16.to_le_bytes());
    buf[INDEX_OFFSET + 4..INDEX_OFFSET + 6].copy_from_slice(&259u16.to_le_bytes());

    let mesh = Mesh::from_bytes(&buf, &MESH).expect("parse v2 mesh");
    assert_eq!(mesh.vert_count(), VERTS as u16);
    assert_eq!(mesh.face(0), (0, 255, 259));
}

/// Build a minimal v2 animation: `frames` frames, one joint, each
/// frame's matrix diagonal and translation stamped with `values[f]`.
fn blend_test_animation(values: &[i16]) -> Vec<u8> {
    let payload_len = ANIMATION_HEADER_SIZE + values.len() * POSE_RECORD_SIZE;
    let mut out = Vec::new();
    out.extend_from_slice(&ANIMATION.magic);
    out.extend_from_slice(&ANIMATION.version.to_le_bytes());
    out.extend_from_slice(&0u16.to_le_bytes());
    out.extend_from_slice(&(payload_len as u32).to_le_bytes());
    out.extend_from_slice(&1u16.to_le_bytes()); // joints
    out.extend_from_slice(&(values.len() as u16).to_le_bytes()); // frames
    out.extend_from_slice(&30u16.to_le_bytes()); // sample rate
    out.extend_from_slice(&0u16.to_le_bytes()); // translation shift
    for &value in values {
        let matrix = [value, 0, 0, 0, value, 0, 0, 0, value];
        for element in matrix {
            out.extend_from_slice(&element.to_le_bytes());
        }
        for translation in [value, value, value] {
            out.extend_from_slice(&translation.to_le_bytes());
        }
    }
    out
}

#[test]
fn model_pose_blend_endpoints_and_midpoint() {
    let from_bytes_a = blend_test_animation(&[1000, 1000]);
    let from_bytes_b = blend_test_animation(&[3000, 3000]);
    let outgoing = Animation::from_bytes(&from_bytes_a, &ANIMATION).expect("outgoing parses");
    let incoming = Animation::from_bytes(&from_bytes_b, &ANIMATION).expect("incoming parses");
    let outgoing_sample = outgoing.looped_pose_sample_q12(0).expect("outgoing sample");
    let primary = incoming
        .looped_pose_sample_q12(0)
        .and_then(|sample| sample.pose(0))
        .expect("incoming pose");

    // Alpha 0 shows the outgoing pose.
    let blend = ModelPoseBlend {
        sample: outgoing_sample,
        alpha_q12: 0,
    };
    assert_eq!(blend.blend_toward(primary, 0).matrix[0][0], 1000);

    // Saturated alpha passes the primary through untouched.
    let blend = ModelPoseBlend {
        sample: outgoing_sample,
        alpha_q12: 1 << 12,
    };
    assert_eq!(blend.blend_toward(primary, 0), primary);

    // Midpoint lands halfway, matrix and translation alike.
    let blend = ModelPoseBlend {
        sample: outgoing_sample,
        alpha_q12: 1 << 11,
    };
    let mid = blend.blend_toward(primary, 0);
    assert_eq!(mid.matrix[0][0], 2000);
    assert_eq!(mid.translation.x, 2000);

    // A joint missing from the outgoing clip degrades to the primary.
    let blend = ModelPoseBlend {
        sample: outgoing_sample,
        alpha_q12: 1 << 11,
    };
    assert_eq!(blend.blend_toward(primary, 7), primary);
}

#[test]
fn wide_q11_decode_equals_narrow_for_every_code() {
    for raw in 0..=0x0fffu16 {
        let narrow = decode_q11_element(raw);
        assert_eq!(narrow, plain_decode_q11_element(raw), "code {raw:#05x}");
        assert_eq!(
            decode_q11_element_wide(raw),
            narrow as i32,
            "code {raw:#05x} widened"
        );
        // The reconstruction and the interpolation both rely on this bound.
        assert!((-4096..=4096).contains(&decode_q11_element_wide(raw)));
    }
}

#[test]
fn cross_rounding_matches_the_saturating_form_across_its_whole_domain() {
    // `cross_round_q12` only ever sees `a*b - c*d` over decoded Q11 elements,
    // so sweep every value that expression can produce.
    let mut value = -V4_CROSS_LIMIT;
    while value <= V4_CROSS_LIMIT {
        let expected = if value >= 0 {
            value.saturating_add(1 << 11) >> 12
        } else {
            -((value.saturating_neg().saturating_add(1 << 11)) >> 12)
        };
        assert_eq!(cross_round_q12(value), expected, "value {value}");
        value += 1;
    }
}

#[test]
fn third_basis_reconstruction_matches_the_array_form() {
    let interesting: [i16; 9] = [-4096, -4095, -2048, -1, 0, 1, 2048, 4094, 4096];
    let mut rng = Rng(0x5eed_1234);
    let mut checked = 0u64;

    // Every corner of the element range against every correction byte.
    for &f0 in &interesting {
        for &s2 in &interesting {
            for correction_byte in 0..=255u8 {
                let first = [f0, interesting[(correction_byte as usize) % 9], -s2];
                let second = [s2, f0, interesting[(f0.unsigned_abs() as usize) % 9]];
                let expected = plain_apply_v4_basis_correction(
                    plain_reconstruct_third_basis_q12(first, second),
                    correction_byte,
                );
                let actual = v4_third_basis_q12(
                    [first[0] as i32, first[1] as i32, first[2] as i32],
                    [second[0] as i32, second[1] as i32, second[2] as i32],
                    correction_byte,
                );
                assert_eq!(
                    [actual[0] as i16, actual[1] as i16, actual[2] as i16],
                    expected,
                    "first {first:?} second {second:?} correction {correction_byte:#04x}"
                );
                checked += 1;
            }
        }
    }

    // Plus a wide random sweep over the full decoded-element range.
    for _ in 0..200_000 {
        let mut element = || {
            decode_q11_element((rng.next() & 0x0fff) as u16)
        };
        let first = [element(), element(), element()];
        let second = [element(), element(), element()];
        let correction_byte = (rng.next() & 0xff) as u8;
        let expected = plain_apply_v4_basis_correction(
            plain_reconstruct_third_basis_q12(first, second),
            correction_byte,
        );
        let actual = v4_third_basis_q12(
            [first[0] as i32, first[1] as i32, first[2] as i32],
            [second[0] as i32, second[1] as i32, second[2] as i32],
            correction_byte,
        );
        assert_eq!(
            [actual[0] as i16, actual[1] as i16, actual[2] as i16],
            expected,
            "first {first:?} second {second:?} correction {correction_byte:#04x}"
        );
        checked += 1;
    }
    assert!(checked > 200_000);
}

#[test]
fn wide_element_lerp_matches_the_i16_lerp() {
    let alphas = [0u16, 1, 2, 2047, 2048, 2049, 4093, 4094, 4095];
    let mut a = -4096i32;
    while a <= 4096 {
        let mut b = -4096i32;
        while b <= 4096 {
            for &alpha in &alphas {
                assert_eq!(
                    lerp_q12_wide_to_i16(a, b, alpha),
                    plain_lerp_i16_q12(a as i16, b as i16, alpha),
                    "a {a} b {b} alpha {alpha}"
                );
            }
            b += 37;
        }
        a += 31;
    }
}

#[test]
fn packed_translation_lerp_matches_the_saturating_form() {
    let endpoints: [i16; 11] = [
        i16::MIN,
        i16::MIN + 1,
        -30_000,
        -4096,
        -1,
        0,
        1,
        4096,
        30_000,
        i16::MAX - 1,
        i16::MAX,
    ];
    let alphas = [0u16, 1, 2, 1023, 2047, 2048, 2049, 4093, 4094, 4095];
    for shift in 0..=15u8 {
        for &a in &endpoints {
            for &b in &endpoints {
                for &alpha in &alphas {
                    let expected = plain_lerp_i32_q12(
                        plain_decode_packed_translation(a, shift),
                        plain_decode_packed_translation(b, shift),
                        alpha,
                    );
                    assert_eq!(
                        lerp_packed_translation_q12(a, b, shift, alpha),
                        expected,
                        "a {a} b {b} shift {shift} alpha {alpha}"
                    );
                }
            }
        }
    }

    let mut rng = Rng(0x1234_5eed);
    for _ in 0..400_000 {
        let a = (rng.next() & 0xffff) as u16 as i16;
        let b = (rng.next() & 0xffff) as u16 as i16;
        let shift = (rng.next() % 16) as u8;
        let alpha = (rng.next() & 0x0fff) as u16;
        let expected = plain_lerp_i32_q12(
            plain_decode_packed_translation(a, shift),
            plain_decode_packed_translation(b, shift),
            alpha,
        );
        assert_eq!(
            lerp_packed_translation_q12(a, b, shift, alpha),
            expected,
            "a {a} b {b} shift {shift} alpha {alpha}"
        );
    }
}

/// Build a word-aligned v4 clip whose pose records are the given bytes.
fn v4_clip(joint_count: u16, frame_count: u16, shift: u16, records: &[u8]) -> Vec<u8> {
    let payload_len = ANIMATION_HEADER_SIZE + records.len();
    let mut blob = Vec::new();
    blob.extend_from_slice(&ANIMATION.magic);
    blob.extend_from_slice(&ANIMATION.version_v4.to_le_bytes());
    blob.extend_from_slice(&0u16.to_le_bytes());
    blob.extend_from_slice(&(payload_len as u32).to_le_bytes());
    blob.extend_from_slice(&joint_count.to_le_bytes());
    blob.extend_from_slice(&frame_count.to_le_bytes());
    blob.extend_from_slice(&15u16.to_le_bytes());
    blob.extend_from_slice(&shift.to_le_bytes());
    blob.extend_from_slice(records);
    blob
}

#[test]
fn v4_interpolated_pose_is_bit_identical_to_the_pre_change_decode() {
    const REC: usize = POSE_RECORD_SIZE_V4;

    const JOINTS: u16 = 6;
    const FRAMES: u16 = 5;
    let mut rng = Rng(0xc0ff_ee11);
    let mut compared = 0u64;

    for shift in [0u16, 1, 4, 9, 15] {
        let mut records =
            vec![0u8; JOINTS as usize * FRAMES as usize * REC];
        for byte in records.iter_mut() {
            *byte = (rng.next() >> 7) as u8;
        }
        let blob = v4_clip(JOINTS, FRAMES, shift, &records);
        let animation = Animation::from_bytes(&blob, &ANIMATION).expect("v4 clip parses");

        // Every joint, every looping frame pair, and alphas covering the
        // zero-alpha fast path, both ends and the interior.
        for whole in 0..u32::from(FRAMES) + 2 {
            for frac in [0u32, 1, 2, 1365, 2048, 2731, 4093, 4094, 4095] {
                let phase = (whole << 12) | frac;
                let sample = animation.looped_pose_sample_q12(phase).unwrap();
                let base_frame = whole as usize % (FRAMES as usize - 1);
                let next_frame = (base_frame + 1) % (FRAMES as usize - 1);
                for joint in 0..JOINTS {
                    let stride = joint as usize * REC;
                    let frame_size = JOINTS as usize * REC;
                    let a = &records[base_frame * frame_size + stride..][..REC];
                    let b = &records[next_frame * frame_size + stride..][..REC];
                    let expected = if frac == 0 {
                        plain_joint_pose(a, shift as u8)
                    } else {
                        plain_interpolated(a, b, shift as u8, frac as u16)
                    };
                    assert_eq!(
                        sample.pose(joint),
                        Some(expected),
                        "shift {shift} phase {phase:#x} joint {joint}"
                    );
                    // `pose_looped_q12` is the same decode through the other
                    // public entry point.
                    assert_eq!(animation.pose_looped_q12(phase, joint), Some(expected));
                    compared += 1;
                }
            }
        }
    }
    assert!(compared > 1_000);
}

#[test]
fn v4_fast_path_and_unaligned_pool_agree_on_random_records() {
    const REC: usize = POSE_RECORD_SIZE_V4;

    // Where a clip lies in memory does not matter.
    const JOINTS: u16 = 3;
    const FRAMES: u16 = 4;
    let mut rng = Rng(0x0bad_f00d);
    let mut records = vec![0u8; JOINTS as usize * FRAMES as usize * REC];
    for byte in records.iter_mut() {
        *byte = (rng.next() >> 11) as u8;
    }
    let blob = v4_clip(JOINTS, FRAMES, 7, &records);
    let aligned = Animation::from_bytes(&blob, &ANIMATION).expect("aligned clip parses");

    for skew in 1..4usize {
        let mut storage = vec![0u8; blob.len() + 4];
        let prefix = (skew + 4 - (storage.as_ptr() as usize & 3)) & 3;
        storage[prefix..prefix + blob.len()].copy_from_slice(&blob);
        let bytes = &storage[prefix..prefix + blob.len()];
        let skewed = Animation::from_bytes(bytes, &ANIMATION).expect("skewed clip parses");
        for whole in 0..u32::from(FRAMES) + 1 {
            for frac in [0u32, 1, 999, 2048, 4095] {
                let phase = (whole << 12) | frac;
                let a = aligned.looped_pose_sample_q12(phase).unwrap();
                let b = skewed.looped_pose_sample_q12(phase).unwrap();
                for joint in 0..JOINTS {
                    assert_eq!(a.pose(joint), b.pose(joint), "phase {phase:#x} joint {joint}");
                }
            }
        }
    }
}


#[test]
fn blobs_with_bad_lengths_are_refused() {
    let mut blob = vec![0u8; 32];
    blob[0..4].copy_from_slice(&MESH.magic);
    blob[4..6].copy_from_slice(&1u16.to_le_bytes());
    blob[8..12].copy_from_slice(&19u32.to_le_bytes());
    assert!(matches!(
        Mesh::from_bytes(&blob, &MESH),
        Err(ParseError::InvalidPayloadLen { declared: 19, actual: 20 })
    ));
    blob[8..12].copy_from_slice(&20u32.to_le_bytes());
    blob[12..14].copy_from_slice(&3u16.to_le_bytes());
    assert!(matches!(Mesh::from_bytes(&blob, &MESH), Err(ParseError::TableOverflow)));
    blob.truncate(16);
    blob[8..12].copy_from_slice(&4u32.to_le_bytes());
    assert!(matches!(Mesh::from_bytes(&blob, &MESH), Err(ParseError::Truncated)));
    let mut texture = vec![0u8; 28];
    texture[0..4].copy_from_slice(b"PSXT");
    texture[4..6].copy_from_slice(&1u16.to_le_bytes());
    texture[8..12].copy_from_slice(&16u32.to_le_bytes());
    texture[12] = 5;
    assert!(matches!(Texture::from_bytes(&texture), Err(ParseError::TableOverflow)));
}

#[test]
fn transparency_of_the_first_entry_is_a_flag() {
    let mut texture = vec![0u8; 28];
    texture[0..4].copy_from_slice(b"PSXT");
    texture[4..6].copy_from_slice(&1u16.to_le_bytes());
    texture[6] = 0b100;
    texture[8..12].copy_from_slice(&16u32.to_le_bytes());
    texture[12] = 4;
    let texture = Texture::from_bytes(&texture).unwrap();
    assert!(texture.index_zero_transparent(4));
    assert!(!texture.index_zero_transparent(1));
    assert_eq!(texture.depth(), Depth::Bit4);
}

#[test]
fn mesh_tables_come_in_order() {
    let mut blob = Vec::new();
    blob.extend_from_slice(&MESH.magic);
    blob.extend_from_slice(&1u16.to_le_bytes());
    blob.extend_from_slice(&3u16.to_le_bytes());
    blob.extend_from_slice(&(8u32 + 12 + 6 + 6 + 12).to_le_bytes());
    for count in [2u16, 2, 0, 0] {
        blob.extend_from_slice(&count.to_le_bytes());
    }
    for value in [1i16, 2, 3, -4, -5, -6] {
        blob.extend_from_slice(&value.to_le_bytes());
    }
    blob.extend_from_slice(&[0, 1, 0, 1, 0, 255]);
    blob.extend_from_slice(&[10, 20, 30, 40, 50, 60]);
    for value in [4096i16, 0, 0, 0, -4096, 0] {
        blob.extend_from_slice(&value.to_le_bytes());
    }
    let mesh = Mesh::from_bytes(&blob, &MESH).unwrap();
    assert_eq!((mesh.vert_count(), mesh.face_count(), mesh.flags()), (2, 2, 3));
    assert!(mesh.has_face_colors() && mesh.has_normals());
    assert_eq!(mesh.vertex(1), Vec3I16::new(-4, -5, -6));
    assert_eq!(mesh.vertex(2), Vec3I16::zero());
    assert_eq!(mesh.face(1), (1, 0, 255));
    assert_eq!(mesh.face(2), (0, 0, 0));
    assert_eq!(mesh.face_color(1), Some((40, 50, 60)));
    assert_eq!(mesh.face_color(2), None);
    assert_eq!(mesh.vertex_normal(1), Some(Vec3I16::new(0, -4096, 0)));
    assert_eq!(mesh.vertex_normal(2), None);
}

#[test]
fn model_with_a_face_outside_its_vertices_is_refused() {
    let mut blob = Vec::new();
    blob.extend_from_slice(&MODEL.magic);
    blob.extend_from_slice(&MODEL.legacy_version.to_le_bytes());
    blob.extend_from_slice(&MODEL.double_sided.to_le_bytes());
    let payload = MODEL_HEADER_SIZE + VERTEX_SIZE + FACE_SIZE;
    blob.extend_from_slice(&(payload as u32).to_le_bytes());
    for value in [0u16, 0, 1, 1, 0, 64, 32, 0x0800] {
        blob.extend_from_slice(&value.to_le_bytes());
    }
    blob.extend_from_slice(&[1, 0, 2, 0, 3, 0, 7, 200]);
    blob.extend_from_slice(&[0, 0, 1, 2, 0, 0, 3, 4, 0, 0, 5, 6]);
    let model = Model::from_bytes(&blob, &MODEL).unwrap();
    assert!(model.double_sided());
    assert_eq!((model.local_to_world_q12(), model.texture_height()), (0x0800, 32));
    let vertex = model.vertex(0).unwrap();
    assert_eq!((vertex.joint1, vertex.blend, vertex.is_blend()), (Some(7), 200, true));
    assert!(!ModelVertex::zero().is_blend());
    assert_eq!(model.vertex(1), None);
    assert_eq!((model.material_count(), model.part_count()), (0, 0));
    assert_eq!(ModelPart::zero().material_index(), 0);
    let last = blob.len() - 4;
    blob[last] = 1;
    assert!(matches!(Model::from_bytes(&blob, &MODEL), Err(ParseError::InvalidModelLayout)));
    blob.push(0);
    let longer = payload as u32 + 1;
    blob[8..12].copy_from_slice(&longer.to_le_bytes());
    assert!(matches!(Model::from_bytes(&blob, &MODEL), Err(ParseError::InvalidModelLayout)));
}

#[test]
fn palette_banks_are_unpacked() {
    let blob = |banks: &[u8]| {
        let mut blob = Vec::new();
        blob.extend_from_slice(&MODEL.magic);
        blob.extend_from_slice(&MODEL.version.to_le_bytes());
        blob.extend_from_slice(&MODEL.face_palette_banks.to_le_bytes());
        let payload = MODEL_HEADER_SIZE + VERTEX_SIZE + 5 * FACE_SIZE + banks.len();
        blob.extend_from_slice(&(payload as u32).to_le_bytes());
        for value in [0u16, 0, 1, 5, 0, 0, 0, 0] {
            blob.extend_from_slice(&value.to_le_bytes());
        }
        blob.resize(12 + payload - banks.len(), 0);
        blob.extend_from_slice(banks);
        blob
    };
    let banks = |blob: &[u8], packing: BankPacking| {
        let format = ModelFormat { bank_packing: packing, ..MODEL };
        let model = Model::from_bytes(blob, &format).unwrap();
        let all: Vec<u8> = (0..5).map(|i| model.face_palette_bank(i).unwrap()).collect();
        assert_eq!(model.face_palette_bank(5), None);
        (all, model.palette_bank_count())
    };
    assert_eq!(
        banks(&blob(&[0b11_10_01_00, 0b1111_1101]), BankPacking::BitPairs),
        (vec![0, 1, 2, 3, 1], 4)
    );
    assert_eq!(
        banks(&blob(&[0x21, 0x43, 0x05]), BankPacking::Nibbles),
        (vec![1, 2, 3, 4, 5], 6)
    );
    assert_eq!(
        banks(&blob(&[9, 0, 200, 1, 2]), BankPacking::Bytes),
        (vec![9, 0, 200, 1, 2], 201)
    );
    assert!(matches!(
        Model::from_bytes(&blob(&[0, 0, 0]), &MODEL),
        Err(ParseError::InvalidModelLayout)
    ));
}

#[test]
fn scaled_phase_multiplies_the_step() {
    let bytes = blend_test_animation(&[1, 2, 3]);
    let animation = Animation::from_bytes(&bytes, &ANIMATION).unwrap();
    assert_eq!(animation.phase_step_q12(60), 0x0800);
    assert_eq!(animation.phase_step_q12(0), 30 << 12);
    assert_eq!(animation.phase_at_tick_scaled_q12(3, 60, 512), 3 * 0x1000);
    assert_eq!(animation.phase_at_tick_scaled_q12(3, 60, 128), 3 * 0x0400);
    assert_eq!((animation.pose_record_size(), animation.translation_shift()), (24, 0));
    let mut bad = bytes.clone();
    bad[18] = 16;
    assert!(matches!(
        Animation::from_bytes(&bad, &ANIMATION),
        Err(ParseError::InvalidAnimationLayout)
    ));
}

#[test]
fn looped_sampling_shows_frames_and_repeats() {
    let bytes = blend_test_animation(&[100, 200, 400, 100]);
    let animation = Animation::from_bytes(&bytes, &ANIMATION).unwrap();
    let x = |phase: u32| animation.pose_looped_q12(phase, 0).unwrap().translation.x;
    // Three frames make a turn; the fourth repeats the first.
    assert_eq!([x(0), x(0x1000), x(0x2000), x(0x3000)], [100, 200, 400, 100]);
    assert_eq!(x(0x2800), 250);
    for phase in [0, 0x123, 0x1456, 0x2FFF] {
        assert_eq!(x(phase), x(phase + 3 * 0x1000));
    }
}

#[test]
fn sectors_fall_back_to_their_records() {
    let mut blob = vec![0u8; 12 + 24 + 60];
    blob[0..4].copy_from_slice(&WORLD.magic);
    blob[4..6].copy_from_slice(&WORLD.version_v4.to_le_bytes());
    blob[8..12].copy_from_slice(&84u32.to_le_bytes());
    blob[12] = 1;
    blob[14] = 1;
    blob[20] = 1;
    let sector = 36;
    blob[sector] = WORLD.has_floor | WORLD.has_ceiling | WORLD.ceiling_walkable;
    blob[sector + 1] = 1;
    blob[sector + 4..sector + 8].copy_from_slice(&[9, 0, 0xFF, 0xFF]);
    for k in 0..4 {
        blob[sector + 12 + 4 * k] = 10 * (k as u8 + 1);
        blob[sector + 28 + 4 * k] = 100 + k as u8;
    }
    blob[sector + 44 + 4..sector + 44 + 6].copy_from_slice(&[33, 34]);
    blob[sector + 52] = 77;
    let world = World::from_bytes(&blob, &WORLD).unwrap();
    let s = world.sector(0, 0).unwrap();
    assert_eq!(s, world.sector_without_horizontal_overrides(0, 0).unwrap());
    assert!(s.has_floor() && s.has_ceiling() && s.has_geometry());
    assert_eq!((s.floor_material(), s.ceiling_material()), (Some(9), None));
    assert_eq!(s.floor_triangle_material(1), Some(9));
    assert_eq!(s.floor_triangle_heights(0), [10, 20, 40]);
    assert_eq!(s.floor_triangle_heights(1), [20, 30, 40]);
    assert_eq!(s.ceiling_triangle_heights(5), [100, 102, 103]);
    assert!(!s.floor_walkable() && s.ceiling_triangle_walkable(0));
    assert!(!s.floor_triangle_walkable(0) && s.ceiling_triangle_present(1));
    assert_eq!(s.ceiling_heights(), [100, 101, 102, 103]);
    assert_eq!((s.floor_split(), s.ceiling_split()), (1, 0));
    assert_eq!(s.ceiling_triangle_material(0), None);
    assert_eq!(s.floor_triangle_uvs(1).corners[2], (33, 34));
    assert_eq!(s.floor_triangle_uvs(0), s.floor_uvs());
    assert_eq!(s.ceiling_uvs().corners[0], (77, 0));
    assert_eq!(s.ceiling_triangle_uvs(1), s.ceiling_uvs());
    let probe = world.sector_collision_probe(0, 0).unwrap();
    assert!(probe.has_floor() && probe.has_ceiling());
    assert_eq!((probe.first_wall(), probe.wall_count()), (0, 0));
    assert!(world.sector(1, 0).is_none());
    assert!(world.sector_floor_collision(0, 0, 1, 0).is_none());
    assert_eq!(
        world.sector_floor_collision(0, 0, 1, 5).unwrap().triangle_heights(),
        [20, 30, 40]
    );
    assert!(world.wall(0).is_none() && world.surface_light(0).is_none());
    assert_eq!(WorldSurfaceLight::white().vertex_rgb()[3], [255, 255, 255]);
}

/// Two bones, one clip: a root with a single coarse key and a child with two
/// fine keys and moving translation.
fn hma1_blob() -> Vec<u8> {
    let mut d = vec![2, 0, 1, 0, 255, 0];
    // Bind coordinates of the two bones, then the clip offset at 20.
    for v in [4i16, 8, 12, 0, 0, 0] {
        d.extend_from_slice(&v.to_le_bytes());
    }
    d.resize(20, 0);
    d.extend_from_slice(&24u32.to_le_bytes());
    // Clip: two intervals; one segment at each rate, factors of one half.
    d.extend_from_slice(&[2, 0, 0, 3]);
    for _ in 0..7 {
        d.extend_from_slice(&1u16.to_le_bytes());
    }
    for _ in 0..7 {
        d.extend_from_slice(&0x4000u16.to_le_bytes());
    }
    // Root: single coarse key, bind translation. Child: fine keys at rate 0,
    // translation keys at rate 1.
    d.extend_from_slice(&[7 | (7 << 3), (1 << 3) | 0x40]);
    d.extend_from_slice(&[0, 0, 0, 127]);
    // Two fine keys: identity, and half a turn about the third axis.
    d.extend_from_slice(&[0, 0, 0, 0, 0xF0, 0x7F]);
    d.extend_from_slice(&[0, 0, 0, 0xFF, 0x07, 0]);
    // Translation: base (100, 0, -4), keys of two bytes with five bits each.
    for v in [100i16, 0, -4] {
        d.extend_from_slice(&v.to_le_bytes());
    }
    d.extend_from_slice(&[2, 0]);
    d.extend_from_slice(&(2u16 | (4 << 5) | (6 << 10)).to_le_bytes());
    d.extend_from_slice(&(10u16 | (4 << 5) | (30 << 10)).to_le_bytes());
    d.extend_from_slice(&[0; 4]);
    d
}

#[test]
fn tracks_decode_parents_first() {
    let d = hma1_blob();
    let model = hma1::Model::new(&d);
    assert_eq!((model.n_bones(), model.n_clips()), (2, 1));
    assert_eq!((model.bind_off(), model.clips_off()), (6, 20));
    assert_eq!(model.clip_intervals(0), 2);
    let mut out = [Aff::zero(); 3];
    model.decode(0, 0, &mut out);
    // The root's key is 127 * 32 / 4096 of one; it is brought to unit length.
    assert_eq!(out[0].t, [4, 8, 12]);
    assert_eq!(out[0].r[0], [4096, 0, 0]);
    // The child's translation is the base plus the first key.
    assert_eq!(out[1].t, [4 + 102, 8 + 4, 12 + 2]);
    assert_eq!(out[2], Aff::zero());
    // Halfway between the keys, at position 256 and a factor of one half.
    model.decode(0, 256, &mut out);
    assert_eq!(out[1].t, [4 + 106, 8 + 4, 12 + 14]);
    // Past the end the last key holds.
    model.decode(0, 100_000, &mut out);
    assert_eq!(out[1].t, [4 + 110, 8 + 4, 12 + 26]);
    assert!(out[1].r[0][0] < -4090 && out[1].r[2][2] > 4090);
    // A controller that turns the root half about the first axis.
    let jaw = Jaw::open(0, false, [4096, 0, 0, 0], 64);
    model.decode_with(0, 0, &jaw, &mut out);
    assert!(out[0].r[0][0] > 4090 && out[0].r[1][1] < -4090);
    assert!((out[1].t[1] - (8 - 4)).abs() <= 1);
}

#[test]
fn quaternions_multiply_and_rotate() {
    let one = [0, 0, 0, 4096];
    let q = [1234, -2000, 3000, 100];
    assert_eq!(quat_mul(one, q), q);
    assert_eq!(quat_mul(q, one), q);
    // i * j = k.
    assert_eq!(quat_mul([4096, 0, 0, 0], [0, 4096, 0, 0]), [0, 0, 4096, 0]);
    assert_eq!(quat_mul([0, 4096, 0, 0], [4096, 0, 0, 0]), [0, 0, -4096, 0]);
    assert_eq!(
        quat_to_mat([0, 0, 4096, 0]),
        [[-4096, 0, 0], [0, -4096, 0], [0, 0, 4096]]
    );
    assert_eq!(Jaw::open(3, true, [0, 0, 0, 0], 0), Jaw::none());
    assert_eq!(Jaw::open(3, true, [4096, 0, -1, 0], 32).q, [2048, 0, -1, 2048]);
    assert_eq!(Jaw::open(3, true, [4096, 0, 0, 0], 255).q, [4096, 0, 0, 0]);
}
