//! What cooked textures, samples, animations and meshes are read as.

use vstd::prelude::*;

use crate::asset::animation::{animation_of, AnimationFormat, AnimationView};
use crate::asset::audio::{audio_of, AudioFormat, AudioView};
use crate::asset::cooked::{blob, blob_opens};
use crate::asset::header::ParseError;
use crate::asset::mesh::{mesh_of, vector_at, MeshFormat, MeshView};
use crate::asset::pose::{record_size, PoseLayout};
use crate::asset::pose_laws::{vector_bytes, vector_reads_back};
use crate::asset::texture::{texels_per_halfword, texture_of, Depth, TextureView, TEXTURE_MAGIC};
use crate::gte::math::Vec3I16;
use crate::written::{
    bytes16, bytes32, cut_is_what_was_written, even_rows, joined, lies, long_word_reads_back,
    parts_lie, rows_are_even, table_rows_lie, word_reads_back,
};

verus! {

/// The number of bits that names a depth.
pub open spec fn depth_name(depth: Depth) -> u8 {
    match depth {
        Depth::Bit4 => 4,
        Depth::Bit8 => 8,
        Depth::Bit15 => 15,
    }
}

/// The payload of a texture: depth, a byte, size, palette entries, the lengths of
/// both tables, the pixels, the palette.
pub open spec fn texture_payload(texture: TextureView) -> Seq<u8> {
    seq![depth_name(texture.depth), 0u8] + bytes16(texture.width as int) + bytes16(
        texture.height as int,
    ) + bytes16(texture.clut_entries as int) + bytes32(texture.pixels.len() as int) + bytes32(
        texture.clut.len() as int,
    ) + texture.pixels + texture.clut
}

/// A written texture is read back.
pub proof fn texture_reads_back(texture: TextureView)
    requires
        28 + texture.pixels.len() + texture.clut.len() < 0x1_0000_0000,
    ensures
        texture_of(blob(TEXTURE_MAGIC@, 1, texture.flags, texture_payload(texture))) == Ok::<
            TextureView,
            ParseError,
        >(texture),
{
    let payload = texture_payload(texture);
    let bytes = blob(TEXTURE_MAGIC@, 1, texture.flags, payload);
    let head = seq![depth_name(texture.depth), 0u8];
    let a = head + bytes16(texture.width as int);
    let b = a + bytes16(texture.height as int);
    let c = b + bytes16(texture.clut_entries as int);
    let d = c + bytes32(texture.pixels.len() as int);
    let e = d + bytes32(texture.clut.len() as int);
    let f = e + texture.pixels;
    blob_opens(TEXTURE_MAGIC@, 1, texture.flags, payload);
    parts_lie(bytes, 12, f, texture.clut);
    parts_lie(bytes, 12, e, texture.pixels);
    parts_lie(bytes, 12, d, bytes32(texture.clut.len() as int));
    parts_lie(bytes, 12, c, bytes32(texture.pixels.len() as int));
    parts_lie(bytes, 12, b, bytes16(texture.clut_entries as int));
    parts_lie(bytes, 12, a, bytes16(texture.height as int));
    parts_lie(bytes, 12, head, bytes16(texture.width as int));
    assert(bytes[12] == depth_name(texture.depth)) by {
        reveal(lies);
        assert(head[0] == bytes[12int + 0]);
    }
    word_reads_back(bytes, 14, texture.width as int);
    word_reads_back(bytes, 16, texture.height as int);
    word_reads_back(bytes, 18, texture.clut_entries as int);
    long_word_reads_back(bytes, 20, texture.pixels.len() as int);
    long_word_reads_back(bytes, 24, texture.clut.len() as int);
    cut_is_what_was_written(bytes, 28, texture.pixels);
    cut_is_what_was_written(bytes, 28int + texture.pixels.len(), texture.clut);
}

/// A halfword holds as many texels as its sixteen bits do; direct colour takes all
/// of them.
pub proof fn texels_fill_halfwords(depth: Depth)
    ensures
        texels_per_halfword(depth) * (if depth == Depth::Bit15 {
            16
        } else {
            depth_name(depth) as int
        }) == 16,
{
}

/// The payload of a sample: codec, one channel, padding, rate, samples, blocks,
/// no loop, and the blocks.
pub open spec fn audio_payload(audio: AudioView, format: AudioFormat) -> Seq<u8> {
    seq![format.codec, 1u8, 0u8, 0u8] + bytes32(audio.sample_rate_hz as int) + bytes32(
        audio.sample_count as int,
    ) + bytes32(audio.block_count as int) + bytes32(format.no_loop as int) + audio.adpcm
}

/// A written sample is read back, where it has a rate, and whole blocks of 28
/// samples of which the last is begun.
pub proof fn audio_reads_back(audio: AudioView, flags: u16, format: AudioFormat)
    requires
        flags & format.mono != 0,
        flags & format.one_shot != 0,
        audio.sample_rate_hz != 0,
        0 < audio.block_count,
        audio.block_count * 28 <= u32::MAX,
        28 * audio.block_count - 28 < audio.sample_count <= 28 * audio.block_count,
        audio.adpcm.len() == 16 * audio.block_count,
    ensures
        audio_of(blob(format.magic@, format.version, flags, audio_payload(audio, format)), format)
            == Ok::<AudioView, ParseError>(audio),
{
    let payload = audio_payload(audio, format);
    let bytes = blob(format.magic@, format.version, flags, payload);
    let head = seq![format.codec, 1u8, 0u8, 0u8];
    let a = head + bytes32(audio.sample_rate_hz as int);
    let b = a + bytes32(audio.sample_count as int);
    let c = b + bytes32(audio.block_count as int);
    let d = c + bytes32(format.no_loop as int);
    blob_opens(format.magic@, format.version, flags, payload);
    parts_lie(bytes, 12, d, audio.adpcm);
    parts_lie(bytes, 12, c, bytes32(format.no_loop as int));
    parts_lie(bytes, 12, b, bytes32(audio.block_count as int));
    parts_lie(bytes, 12, a, bytes32(audio.sample_count as int));
    parts_lie(bytes, 12, head, bytes32(audio.sample_rate_hz as int));
    assert(bytes[12] == format.codec && bytes[13] == 1) by {
        reveal(lies);
        assert(head[0] == bytes[12int + 0] && head[1] == bytes[12int + 1]);
    }
    long_word_reads_back(bytes, 16, audio.sample_rate_hz as int);
    long_word_reads_back(bytes, 20, audio.sample_count as int);
    long_word_reads_back(bytes, 24, audio.block_count as int);
    long_word_reads_back(bytes, 28, format.no_loop as int);
    cut_is_what_was_written(bytes, 32, audio.adpcm);
}

/// The payload of an animation: joints, frames, rate, shift, and the poses.
pub open spec fn animation_payload(animation: AnimationView) -> Seq<u8> {
    bytes16(animation.joint_count as int) + bytes16(animation.frame_count as int) + bytes16(
        animation.sample_rate_hz as int,
    ) + bytes16(animation.translation_shift as int) + animation.poses
}

/// Whether a version stores poses in a layout: the newest shifted ones, the first
/// wide ones, the third packed ones, the fourth crossed ones.
pub open spec fn stores(version: u16, format: AnimationFormat, layout: PoseLayout) -> bool {
    match layout {
        PoseLayout::Shifted => version == format.version,
        PoseLayout::Wide => version == format.version_v1,
        PoseLayout::Packed => version == format.version_v3,
        PoseLayout::Crossed => version == format.version_v4,
    }
}

/// A written animation is read back.
pub proof fn animation_reads_back(
    animation: AnimationView,
    version: u16,
    flags: u16,
    format: AnimationFormat,
)
    requires
        stores(version, format, animation.layout),
        format.version != format.version_v1,
        format.version != format.version_v3,
        format.version != format.version_v4,
        format.version_v1 != format.version_v3,
        format.version_v1 != format.version_v4,
        format.version_v3 != format.version_v4,
        0 < animation.joint_count,
        0 < animation.frame_count,
        0 < animation.sample_rate_hz,
        animation.translation_shift <= 15,
        animation.layout == PoseLayout::Wide ==> animation.translation_shift == 0,
        animation.poses.len() < 0xF000_0000,
        animation.poses.len() == (animation.frame_count * animation.joint_count) * record_size(
            animation.layout,
        ),
    ensures
        animation_of(blob(format.magic@, version, flags, animation_payload(animation)), format)
            == Ok::<AnimationView, ParseError>(animation),
{
    let payload = animation_payload(animation);
    let bytes = blob(format.magic@, version, flags, payload);
    let a = bytes16(animation.joint_count as int);
    let b = a + bytes16(animation.frame_count as int);
    let c = b + bytes16(animation.sample_rate_hz as int);
    let d = c + bytes16(animation.translation_shift as int);
    blob_opens(format.magic@, version, flags, payload);
    parts_lie(bytes, 12, d, animation.poses);
    parts_lie(bytes, 12, c, bytes16(animation.translation_shift as int));
    parts_lie(bytes, 12, b, bytes16(animation.sample_rate_hz as int));
    parts_lie(bytes, 12, a, bytes16(animation.frame_count as int));
    word_reads_back(bytes, 12, animation.joint_count as int);
    word_reads_back(bytes, 14, animation.frame_count as int);
    word_reads_back(bytes, 16, animation.sample_rate_hz as int);
    word_reads_back(bytes, 18, animation.translation_shift as int);
    cut_is_what_was_written(bytes, 20, animation.poses);
}

/// The rows of vectors.
pub open spec fn vector_rows(list: Seq<Vec3I16>) -> Seq<Seq<u8>> {
    Seq::new(list.len(), |i: int| vector_bytes(list[i]))
}

/// The rows of faces, with wide indices or narrow ones.
pub open spec fn face_rows(list: Seq<(u16, u16, u16)>, wide: bool) -> Seq<Seq<u8>> {
    Seq::new(
        list.len(),
        |i: int|
            if wide {
                bytes16(list[i].0 as int) + bytes16(list[i].1 as int) + bytes16(list[i].2 as int)
            } else {
                seq![list[i].0 as u8, list[i].1 as u8, list[i].2 as u8]
            },
    )
}

/// The rows of colours.
pub open spec fn color_rows(list: Seq<(u8, u8, u8)>) -> Seq<Seq<u8>> {
    Seq::new(list.len(), |i: int| seq![list[i].0, list[i].1, list[i].2])
}

/// The payload of a mesh: counts, four bytes, vertices, faces, and then colours
/// and normals if it has any.
pub open spec fn mesh_payload(mesh: MeshView, wide: bool) -> Seq<u8> {
    bytes16(mesh.vertices.len() as int) + bytes16(mesh.faces.len() as int) + seq![0u8, 0u8, 0u8, 0u8]
        + joined(vector_rows(mesh.vertices)) + joined(face_rows(mesh.faces, wide)) + (
    match mesh.face_colors {
        Some(list) => joined(color_rows(list)),
        None => Seq::empty(),
    }) + (match mesh.normals {
        Some(list) => joined(vector_rows(list)),
        None => Seq::empty(),
    })
}

proof fn vectors_read_back(bytes: Seq<u8>, from: int, list: Seq<Vec3I16>)
    requires
        lies(bytes, from, joined(vector_rows(list))),
        list.len() <= 0xFFFF,
    ensures
        joined(vector_rows(list)).len() == 6 * list.len(),
        crate::asset::mesh::vectors(
            bytes.subrange(from, from + 6 * list.len()),
            list.len() as u16,
        ) == list,
{
    let rows = vector_rows(list);
    let cut = bytes.subrange(from, from + 6 * list.len());
    assert(even_rows(rows, 6));
    rows_are_even(rows, 6);
    table_rows_lie(bytes, from, from + 6 * list.len(), rows, 6);
    assert forall|i: int| 0 <= i < list.len() implies #[trigger] vector_at(cut, 6 * i)
        == list[i] by {
        assert(rows[i] == vector_bytes(list[i]));
        vector_reads_back(cut, 6 * i, list[i]);
    }
    assert(crate::asset::mesh::vectors(cut, list.len() as u16) =~= list);
}

proof fn faces_read_back(bytes: Seq<u8>, from: int, list: Seq<(u16, u16, u16)>, wide: bool)
    requires
        lies(bytes, from, joined(face_rows(list, wide))),
        list.len() <= 0xFFFF,
        !wide ==> forall|i: int|
            0 <= i < list.len() ==> (#[trigger] list[i]).0 < 256 && list[i].1 < 256 && list[i].2
                < 256,
    ensures
        ({
            let width = if wide {
                2int
            } else {
                1
            };
            &&& joined(face_rows(list, wide)).len() == 3 * width * list.len()
            &&& crate::asset::mesh::faces(
                bytes.subrange(from, from + 3 * width * list.len()),
                list.len() as u16,
                width,
            ) == list
        }),
{
    let width = if wide {
        2int
    } else {
        1
    };
    let rows = face_rows(list, wide);
    let cut = bytes.subrange(from, from + 3 * width * list.len());
    assert(even_rows(rows, 3 * width));
    rows_are_even(rows, 3 * width);
    assert(rows.len() * (3 * width) == 3 * width * list.len()) by (nonlinear_arith)
        requires
            rows.len() == list.len(),
    ;
    table_rows_lie(bytes, from, from + 3 * width * list.len(), rows, 3 * width);
    assert forall|i: int| 0 <= i < list.len() implies #[trigger] crate::asset::mesh::indices_at(
        cut,
        3 * width * i,
        width,
    ) == list[i] by {
        let row = rows[i];
        let at = 3 * width * i;
        if wide {
            let a = bytes16(list[i].0 as int);
            let b = a + bytes16(list[i].1 as int);
            assert(row == b + bytes16(list[i].2 as int));
            parts_lie(cut, at, b, bytes16(list[i].2 as int));
            parts_lie(cut, at, a, bytes16(list[i].1 as int));
            word_reads_back(cut, at, list[i].0 as int);
            word_reads_back(cut, at + 2, list[i].1 as int);
            word_reads_back(cut, at + 4, list[i].2 as int);
        } else {
            reveal(lies);
            assert(row[0] == cut[at + 0] && row[1] == cut[at + 1] && row[2] == cut[at + 2]);
        }
    }
    assert(crate::asset::mesh::faces(cut, list.len() as u16, width) =~= list);
}

proof fn colors_read_back(bytes: Seq<u8>, from: int, list: Seq<(u8, u8, u8)>)
    requires
        lies(bytes, from, joined(color_rows(list))),
        list.len() <= 0xFFFF,
    ensures
        joined(color_rows(list)).len() == 3 * list.len(),
        crate::asset::mesh::colors(
            bytes.subrange(from, from + 3 * list.len()),
            list.len() as u16,
        ) == list,
{
    let rows = color_rows(list);
    let cut = bytes.subrange(from, from + 3 * list.len());
    assert(even_rows(rows, 3));
    rows_are_even(rows, 3);
    table_rows_lie(bytes, from, from + 3 * list.len(), rows, 3);
    let read = crate::asset::mesh::colors(cut, list.len() as u16);
    assert forall|i: int| 0 <= i < list.len() implies #[trigger] read[i] == list[i] by {
        let row = rows[i];
        reveal(lies);
        assert(row[0] == cut[3 * i + 0] && row[1] == cut[3 * i + 1] && row[2] == cut[3 * i + 2]);
    }
    assert(read =~= list);
}

/// A written mesh is read back. In version 1 face indices are bytes.
pub proof fn mesh_reads_back(mesh: MeshView, wide: bool, format: MeshFormat)
    requires
        format.version != 1,
        mesh.vertices.len() <= 0xFFFF,
        mesh.faces.len() <= 0xFFFF,
        (mesh.flags & format.has_face_colors != 0) == (mesh.face_colors is Some),
        (mesh.flags & format.has_normals != 0) == (mesh.normals is Some),
        mesh.face_colors matches Some(list) ==> list.len() == mesh.faces.len(),
        mesh.normals matches Some(list) ==> list.len() == mesh.vertices.len(),
        !wide ==> forall|i: int|
            0 <= i < mesh.faces.len() ==> (#[trigger] mesh.faces[i]).0 < 256 && mesh.faces[i].1
                < 256 && mesh.faces[i].2 < 256,
    ensures
        mesh_of(
            blob(
                format.magic@,
                if wide {
                    format.version
                } else {
                    1
                },
                mesh.flags,
                mesh_payload(mesh, wide),
            ),
            format,
        ) == Ok::<MeshView, ParseError>(mesh),
{
    let version = if wide {
        format.version
    } else {
        1
    };
    let width = if wide {
        2int
    } else {
        1
    };
    let payload = mesh_payload(mesh, wide);
    let bytes = blob(format.magic@, version, mesh.flags, payload);
    let a = bytes16(mesh.vertices.len() as int);
    let b = a + bytes16(mesh.faces.len() as int);
    let c = b + seq![0u8, 0u8, 0u8, 0u8];
    let vertices = joined(vector_rows(mesh.vertices));
    let faces = joined(face_rows(mesh.faces, wide));
    let colors = match mesh.face_colors {
        Some(list) => joined(color_rows(list)),
        None => Seq::empty(),
    };
    let normals = match mesh.normals {
        Some(list) => joined(vector_rows(list)),
        None => Seq::empty(),
    };
    let d = c + vertices;
    let e = d + faces;
    let f = e + colors;
    assert(even_rows(vector_rows(mesh.vertices), 6));
    rows_are_even(vector_rows(mesh.vertices), 6);
    assert(even_rows(face_rows(mesh.faces, wide), 3 * width));
    rows_are_even(face_rows(mesh.faces, wide), 3 * width);
    if let Some(list) = mesh.face_colors {
        assert(even_rows(color_rows(list), 3));
        rows_are_even(color_rows(list), 3);
    }
    if let Some(list) = mesh.normals {
        assert(even_rows(vector_rows(list), 6));
        rows_are_even(vector_rows(list), 6);
    }
    blob_opens(format.magic@, version, mesh.flags, payload);
    parts_lie(bytes, 12, f, normals);
    parts_lie(bytes, 12, e, colors);
    parts_lie(bytes, 12, d, faces);
    parts_lie(bytes, 12, c, vertices);
    parts_lie(bytes, 12, b, seq![0u8, 0u8, 0u8, 0u8]);
    parts_lie(bytes, 12, a, bytes16(mesh.faces.len() as int));
    word_reads_back(bytes, 12, mesh.vertices.len() as int);
    word_reads_back(bytes, 14, mesh.faces.len() as int);
    vectors_read_back(bytes, 20, mesh.vertices);
    faces_read_back(bytes, 20int + vertices.len(), mesh.faces, wide);
    if let Some(list) = mesh.face_colors {
        colors_read_back(bytes, 20int + vertices.len() + faces.len(), list);
    }
    if let Some(list) = mesh.normals {
        vectors_read_back(bytes, 20int + vertices.len() + faces.len() + colors.len(), list);
    }
}

} // verus!
