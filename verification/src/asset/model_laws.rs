//! What a cooked model is read as.

use vstd::prelude::*;

use crate::asset::cooked::{blob, blob_opens};
use crate::asset::header::{flags_of, magic_fault, payload_fault, version_of, ParseError};
use crate::asset::model::{
    bank_at, bank_bytes, banks_of, face_at, has_banks, joint_at, material_at, model_consistent,
    model_layout, model_of, model_tables, part_at, vertex_at, BankPacking, ModelFace,
    ModelFaceCorner, ModelFormat, ModelJoint, ModelMaterial, ModelPart, ModelVertex, ModelView,
};
use crate::asset::pose_laws::{vector_bytes, vector_reads_back};
use crate::bytes::le16;
use crate::written::{
    bytes16, cut_is_what_was_written, even_rows, joined, lies, parts_lie, rows_are_even,
    table_rows_lie, word_reads_back,
};

verus! {

/// The bytes of a joint: its parent, or that there is none, and two bytes.
pub open spec fn joint_bytes(joint: ModelJoint, format: ModelFormat) -> Seq<u8> {
    bytes16(
        match joint.parent {
            Some(parent) => parent as int,
            None => format.no_joint as int,
        },
    ) + seq![0u8, 0u8]
}

/// The bytes of a material.
pub open spec fn material_bytes(m: ModelMaterial) -> Seq<u8> {
    bytes16(m.texture_index as int) + bytes16(m.flags as int) + m.base_color@
}

/// The bytes of a part, and four more.
pub open spec fn part_bytes(p: ModelPart) -> Seq<u8> {
    bytes16(p.joint_index as int) + bytes16(p.first_vertex as int) + bytes16(p.vertex_count as int)
        + bytes16(p.first_face as int) + bytes16(p.face_count as int) + bytes16(
        p.material_index as int,
    ) + seq![0u8, 0u8, 0u8, 0u8]
}

/// The bytes of a vertex: its position, its second joint or that there is none,
/// and the weight of that.
pub open spec fn vertex_bytes(v: ModelVertex, format: ModelFormat) -> Seq<u8> {
    vector_bytes(v.position) + seq![
        match v.joint1 {
            Some(joint) => joint,
            None => format.no_joint8,
        },
        v.blend,
    ]
}

/// The bytes of a face corner.
pub open spec fn corner_bytes(c: ModelFaceCorner) -> Seq<u8> {
    bytes16(c.vertex_index as int) + seq![c.uv.0, c.uv.1]
}

/// The bytes of a face: its three corners.
pub open spec fn face_bytes(f: ModelFace) -> Seq<u8> {
    corner_bytes(f.corners[0]) + corner_bytes(f.corners[1]) + corner_bytes(f.corners[2])
}

/// A written joint is read back.
pub proof fn joint_reads_back(bytes: Seq<u8>, at: int, joint: ModelJoint, format: ModelFormat)
    requires
        lies(bytes, at, joint_bytes(joint, format)),
        joint.parent != Some(format.no_joint),
    ensures
        joint_at(bytes, at, format) == joint,
{
    let parent = match joint.parent {
        Some(parent) => parent as int,
        None => format.no_joint as int,
    };
    parts_lie(bytes, at, bytes16(parent), seq![0u8, 0u8]);
    word_reads_back(bytes, at, parent);
}

/// A written material is read back.
pub proof fn material_reads_back(bytes: Seq<u8>, at: int, m: ModelMaterial)
    requires
        lies(bytes, at, material_bytes(m)),
    ensures
        material_at(bytes, at) == m,
{
    let a = bytes16(m.texture_index as int);
    let b = a + bytes16(m.flags as int);
    parts_lie(bytes, at, b, m.base_color@);
    parts_lie(bytes, at, a, bytes16(m.flags as int));
    word_reads_back(bytes, at, m.texture_index as int);
    word_reads_back(bytes, at + 2, m.flags as int);
    reveal(lies);
    let c = m.base_color@;
    assert(c[0] == bytes[at + 4 + 0] && c[1] == bytes[at + 4 + 1] && c[2] == bytes[at + 4 + 2]
        && c[3] == bytes[at + 4 + 3]);
    assert(material_at(bytes, at).base_color =~= m.base_color);
}

/// A written part is read back.
pub proof fn part_reads_back(bytes: Seq<u8>, at: int, p: ModelPart)
    requires
        lies(bytes, at, part_bytes(p)),
    ensures
        part_at(bytes, at) == p,
{
    let a = bytes16(p.joint_index as int);
    let b = a + bytes16(p.first_vertex as int);
    let c = b + bytes16(p.vertex_count as int);
    let d = c + bytes16(p.first_face as int);
    let e = d + bytes16(p.face_count as int);
    let f = e + bytes16(p.material_index as int);
    parts_lie(bytes, at, f, seq![0u8, 0u8, 0u8, 0u8]);
    parts_lie(bytes, at, e, bytes16(p.material_index as int));
    parts_lie(bytes, at, d, bytes16(p.face_count as int));
    parts_lie(bytes, at, c, bytes16(p.first_face as int));
    parts_lie(bytes, at, b, bytes16(p.vertex_count as int));
    parts_lie(bytes, at, a, bytes16(p.first_vertex as int));
    word_reads_back(bytes, at, p.joint_index as int);
    word_reads_back(bytes, at + 2, p.first_vertex as int);
    word_reads_back(bytes, at + 4, p.vertex_count as int);
    word_reads_back(bytes, at + 6, p.first_face as int);
    word_reads_back(bytes, at + 8, p.face_count as int);
    word_reads_back(bytes, at + 10, p.material_index as int);
}

/// A written vertex is read back.
pub proof fn vertex_reads_back(bytes: Seq<u8>, at: int, v: ModelVertex, format: ModelFormat)
    requires
        lies(bytes, at, vertex_bytes(v, format)),
        v.joint1 != Some(format.no_joint8),
    ensures
        vertex_at(bytes, at, format) == v,
{
    let joint = match v.joint1 {
        Some(joint) => joint,
        None => format.no_joint8,
    };
    let tail = seq![joint, v.blend];
    assert(vertex_bytes(v, format) =~= vector_bytes(v.position) + tail);
    parts_lie(bytes, at, vector_bytes(v.position), tail);
    vector_reads_back(bytes, at, v.position);
    reveal(lies);
    assert(tail[0] == bytes[at + 6 + 0] && tail[1] == bytes[at + 6 + 1]);
}

/// A written face is read back, corner by corner.
pub proof fn face_reads_back(bytes: Seq<u8>, at: int, f: ModelFace)
    requires
        lies(bytes, at, face_bytes(f)),
    ensures
        face_at(bytes, at) == f,
{
    let a = corner_bytes(f.corners[0]);
    let b = a + corner_bytes(f.corners[1]);
    parts_lie(bytes, at, b, corner_bytes(f.corners[2]));
    parts_lie(bytes, at, a, corner_bytes(f.corners[1]));
    corner_reads_back(bytes, at, f.corners[0]);
    corner_reads_back(bytes, at + 4, f.corners[1]);
    corner_reads_back(bytes, at + 8, f.corners[2]);
    assert(face_at(bytes, at).corners =~= f.corners);
}

proof fn corner_reads_back(bytes: Seq<u8>, at: int, c: ModelFaceCorner)
    requires
        lies(bytes, at, corner_bytes(c)),
    ensures
        crate::asset::model::corner_at(bytes, at) == c,
{
    let tail = seq![c.uv.0, c.uv.1];
    parts_lie(bytes, at, bytes16(c.vertex_index as int), tail);
    word_reads_back(bytes, at, c.vertex_index as int);
    reveal(lies);
    assert(tail[0] == bytes[at + 2 + 0] && tail[1] == bytes[at + 2 + 1]);
}

/// The highest bank that a packing holds, plus one.
pub open spec fn bank_unit(packing: BankPacking) -> int {
    match packing {
        BankPacking::Bytes => 256,
        BankPacking::Nibbles => 16,
        BankPacking::BitPairs => 4,
    }
}

/// Whether a table packs the banks of faces: a byte each, or two or four in a
/// byte, the first in the lowest bits.
pub open spec fn packs(table: Seq<u8>, banks: Seq<u8>, packing: BankPacking) -> bool {
    &&& forall|i: int| 0 <= i < banks.len() ==> (#[trigger] banks[i]) < bank_unit(packing)
    &&& match packing {
        BankPacking::Bytes => table == banks,
        BankPacking::Nibbles => {
            &&& banks.len() <= 2 * table.len() <= banks.len() + 1
            &&& forall|j: int|
                0 <= j < table.len() ==> #[trigger] table[j] == bank_or_zero(banks, 2 * j) + 16
                    * bank_or_zero(banks, 2 * j + 1)
        },
        BankPacking::BitPairs => {
            &&& banks.len() <= 4 * table.len() <= banks.len() + 3
            &&& forall|j: int|
                0 <= j < table.len() ==> #[trigger] table[j] == bank_or_zero(banks, 4 * j) + 4
                    * bank_or_zero(banks, 4 * j + 1) + 16 * bank_or_zero(banks, 4 * j + 2) + 64
                    * bank_or_zero(banks, 4 * j + 3)
        },
    }
}

/// The bank of a face, zero past the last one.
pub open spec fn bank_or_zero(banks: Seq<u8>, i: int) -> int {
    if 0 <= i < banks.len() {
        banks[i] as int
    } else {
        0
    }
}

/// Packed banks are read back, face by face.
pub proof fn banks_read_back(table: Seq<u8>, banks: Seq<u8>, packing: BankPacking)
    requires
        packs(table, banks, packing),
    ensures
        table.len() == bank_bytes(banks.len() as int, packing),
        banks_of(table, banks.len() as int, packing) == banks,
{
    assert forall|i: int| 0 <= i < banks.len() implies #[trigger] bank_at(table, i, packing)
        == banks[i] by {
        assert(banks[i] < bank_unit(packing));
        match packing {
            BankPacking::Bytes => {},
            BankPacking::Nibbles => {
                let j = i / 2;
                assert(table[j] == bank_or_zero(banks, 2 * j) + 16 * bank_or_zero(
                    banks,
                    2 * j + 1,
                ));
                if i % 2 == 0 {
                    if 2 * j + 1 < banks.len() {
                        assert(banks[2 * j + 1] < 16);
                    }
                    assert(i == 2 * j);
                } else {
                    assert(banks[2 * j] < 16);
                    assert(i == 2 * j + 1);
                }
            },
            BankPacking::BitPairs => {
                let j = i / 4;
                let (a, b, c, d) = (
                    bank_or_zero(banks, 4 * j),
                    bank_or_zero(banks, 4 * j + 1),
                    bank_or_zero(banks, 4 * j + 2),
                    bank_or_zero(banks, 4 * j + 3),
                );
                assert(table[j] == a + 4 * b + 16 * c + 64 * d);
                small_bank(banks, 4 * j);
                small_bank(banks, 4 * j + 1);
                small_bank(banks, 4 * j + 2);
                small_bank(banks, 4 * j + 3);
                let x = table[j] as int;
                assert(x % 4 == a && x / 4 % 4 == b && x / 16 % 4 == c && x / 64 == d);
                assert(i == 4 * j || i == 4 * j + 1 || i == 4 * j + 2 || i == 4 * j + 3);
            },
        }
    }
    assert(banks_of(table, banks.len() as int, packing) =~= banks);
}

proof fn small_bank(banks: Seq<u8>, i: int)
    requires
        forall|k: int| 0 <= k < banks.len() ==> (#[trigger] banks[k]) < 4,
    ensures
        0 <= bank_or_zero(banks, i) < 4,
{
}

/// The rows of a model's tables.
pub open spec fn joint_rows(model: ModelView, format: ModelFormat) -> Seq<Seq<u8>> {
    Seq::new(model.joints.len(), |i: int| joint_bytes(model.joints[i], format))
}

/// The rows of the materials.
pub open spec fn material_rows(model: ModelView) -> Seq<Seq<u8>> {
    Seq::new(model.materials.len(), |i: int| material_bytes(model.materials[i]))
}

/// The rows of the parts.
pub open spec fn part_rows(model: ModelView) -> Seq<Seq<u8>> {
    Seq::new(model.parts.len(), |i: int| part_bytes(model.parts[i]))
}

/// The rows of the vertices.
pub open spec fn vertex_rows(model: ModelView, format: ModelFormat) -> Seq<Seq<u8>> {
    Seq::new(model.vertices.len(), |i: int| vertex_bytes(model.vertices[i], format))
}

/// The rows of the faces.
pub open spec fn face_rows(model: ModelView) -> Seq<Seq<u8>> {
    Seq::new(model.faces.len(), |i: int| face_bytes(model.faces[i]))
}

/// What stands in front of the tables of a model.
#[verifier::opaque]
pub open spec fn model_header(model: ModelView) -> Seq<u8> {
    bytes16(model.joints.len() as int) + bytes16(model.parts.len() as int) + bytes16(
        model.vertices.len() as int,
    ) + bytes16(model.faces.len() as int) + bytes16(model.materials.len() as int) + bytes16(
        model.texture_width as int,
    ) + bytes16(model.texture_height as int) + bytes16(model.local_to_world_q12 as int)
}

/// The payload of a model: joints, materials, parts, vertices, faces, and the
/// packed palette banks.
pub open spec fn model_payload(model: ModelView, packed: Seq<u8>, format: ModelFormat) -> Seq<u8> {
    model_header(model) + joined(joint_rows(model, format)) + joined(material_rows(model)) + joined(
        part_rows(model),
    ) + joined(vertex_rows(model, format)) + joined(face_rows(model)) + packed
}

/// Whether a model fits into a blob of a version.
pub open spec fn model_fits(
    model: ModelView,
    packed: Seq<u8>,
    version: u16,
    format: ModelFormat,
) -> bool {
    &&& model.joints.len() <= 0xFFFF
    &&& model.materials.len() <= 0xFFFF
    &&& model.parts.len() <= 0xFFFF
    &&& model.vertices.len() <= 0xFFFF
    &&& model.faces.len() <= 0xFFFF
    &&& model.local_to_world_q12 != 0
    &&& model.double_sided == (model.flags & format.double_sided != 0)
    &&& forall|i: int|
        0 <= i < model.joints.len() ==> (#[trigger] model.joints[i]).parent != Some(
            format.no_joint,
        )
    &&& forall|i: int|
        0 <= i < model.vertices.len() ==> (#[trigger] model.vertices[i]).joint1 != Some(
            format.no_joint8,
        )
    &&& version == format.version || version == format.legacy_version
    &&& (model.banks is Some) == (version == format.version && model.flags
        & format.face_palette_banks != 0)
    &&& model.banks is None ==> packed.len() == 0
    &&& model.banks matches Some(banks) ==> banks.len() == model.faces.len() && packs(
        packed,
        banks,
        format.bank_packing,
    )
}

proof fn model_header_reads_back(bytes: Seq<u8>, model: ModelView)
    requires
        lies(bytes, 12, model_header(model)),
        model.joints.len() <= 0xFFFF,
        model.materials.len() <= 0xFFFF,
        model.parts.len() <= 0xFFFF,
        model.vertices.len() <= 0xFFFF,
        model.faces.len() <= 0xFFFF,
    ensures
        model_header(model).len() == 16,
        le16(bytes, 12) == model.joints.len(),
        le16(bytes, 14) == model.parts.len(),
        le16(bytes, 16) == model.vertices.len(),
        le16(bytes, 18) == model.faces.len(),
        le16(bytes, 20) == model.materials.len(),
        le16(bytes, 22) == model.texture_width,
        le16(bytes, 24) == model.texture_height,
        le16(bytes, 26) == model.local_to_world_q12,
{
    reveal(model_header);
    let a = bytes16(model.joints.len() as int);
    let b = a + bytes16(model.parts.len() as int);
    let c = b + bytes16(model.vertices.len() as int);
    let d = c + bytes16(model.faces.len() as int);
    let e = d + bytes16(model.materials.len() as int);
    let f = e + bytes16(model.texture_width as int);
    let g = f + bytes16(model.texture_height as int);
    parts_lie(bytes, 12, g, bytes16(model.local_to_world_q12 as int));
    parts_lie(bytes, 12, f, bytes16(model.texture_height as int));
    parts_lie(bytes, 12, e, bytes16(model.texture_width as int));
    parts_lie(bytes, 12, d, bytes16(model.materials.len() as int));
    parts_lie(bytes, 12, c, bytes16(model.faces.len() as int));
    parts_lie(bytes, 12, b, bytes16(model.vertices.len() as int));
    parts_lie(bytes, 12, a, bytes16(model.parts.len() as int));
    word_reads_back(bytes, 12, model.joints.len() as int);
    word_reads_back(bytes, 14, model.parts.len() as int);
    word_reads_back(bytes, 16, model.vertices.len() as int);
    word_reads_back(bytes, 18, model.faces.len() as int);
    word_reads_back(bytes, 20, model.materials.len() as int);
    word_reads_back(bytes, 22, model.texture_width as int);
    word_reads_back(bytes, 24, model.texture_height as int);
    word_reads_back(bytes, 26, model.local_to_world_q12 as int);
}

proof fn rows_have_their_lengths(model: ModelView, format: ModelFormat)
    ensures
        even_rows(joint_rows(model, format), 4),
        even_rows(material_rows(model), 8),
        even_rows(part_rows(model), 16),
        even_rows(vertex_rows(model, format), 8),
        even_rows(face_rows(model), 12),
        joined(joint_rows(model, format)).len() == 4 * model.joints.len(),
        joined(material_rows(model)).len() == 8 * model.materials.len(),
        joined(part_rows(model)).len() == 16 * model.parts.len(),
        joined(vertex_rows(model, format)).len() == 8 * model.vertices.len(),
        joined(face_rows(model)).len() == 12 * model.faces.len(),
        model_header(model).len() == 16,
{
    reveal(model_header);
    rows_are_even(joint_rows(model, format), 4);
    rows_are_even(material_rows(model), 8);
    rows_are_even(part_rows(model), 16);
    rows_are_even(vertex_rows(model, format), 8);
    rows_are_even(face_rows(model), 12);
}

/// The blob of a model.
pub open spec fn model_blob(
    model: ModelView,
    packed: Seq<u8>,
    version: u16,
    format: ModelFormat,
) -> Seq<u8> {
    blob(format.magic@, version, model.flags, model_payload(model, packed, format))
}

/// Where the tables of a model's blob stand.
proof fn tables_stand(model: ModelView, packed: Seq<u8>, version: u16, format: ModelFormat)
    requires
        model_fits(model, packed, version, format),
    ensures
        ({
            let bytes = model_blob(model, packed, version, format);
            let at = model_layout(bytes, format);
            &&& magic_fault(bytes, format.magic@) is None
            &&& version_of(bytes) == version
            &&& flags_of(bytes) == model.flags
            &&& payload_fault(bytes, 16) is None
            &&& lies(bytes, 12, model_header(model))
            &&& lies(bytes, 28, joined(joint_rows(model, format)))
            &&& lies(bytes, at.joints_end, joined(material_rows(model)))
            &&& lies(bytes, at.materials_end, joined(part_rows(model)))
            &&& lies(bytes, at.parts_end, joined(vertex_rows(model, format)))
            &&& lies(bytes, at.vertices_end, joined(face_rows(model)))
            &&& lies(bytes, at.faces_end, packed)
            &&& at.joints_end == 28 + 4 * model.joints.len()
            &&& at.materials_end == at.joints_end + 8 * model.materials.len()
            &&& at.parts_end == at.materials_end + 16 * model.parts.len()
            &&& at.vertices_end == at.parts_end + 8 * model.vertices.len()
            &&& at.faces_end == at.vertices_end + 12 * model.faces.len()
            &&& at.banks_end == at.faces_end + packed.len()
            &&& at.banks_end == bytes.len()
        }),
{
    let payload = model_payload(model, packed, format);
    let bytes = model_blob(model, packed, version, format);
    let (j, m, p, v, f) = (
        joined(joint_rows(model, format)),
        joined(material_rows(model)),
        joined(part_rows(model)),
        joined(vertex_rows(model, format)),
        joined(face_rows(model)),
    );
    rows_have_their_lengths(model, format);
    if let Some(banks) = model.banks {
        banks_read_back(packed, banks, format.bank_packing);
    }
    blob_opens(format.magic@, version, model.flags, payload);
    let a = model_header(model) + j;
    let b = a + m;
    let c = b + p;
    let d = c + v;
    let e = d + f;
    parts_lie(bytes, 12, e, packed);
    parts_lie(bytes, 12, d, f);
    parts_lie(bytes, 12, c, v);
    parts_lie(bytes, 12, b, p);
    parts_lie(bytes, 12, a, m);
    parts_lie(bytes, 12, model_header(model), j);
    model_header_reads_back(bytes, model);
    assert(has_banks(bytes, format) == (model.banks is Some));
}

proof fn joints_and_materials_stand(
    model: ModelView,
    packed: Seq<u8>,
    version: u16,
    format: ModelFormat,
)
    requires
        model_fits(model, packed, version, format),
    ensures
        model_tables(model_blob(model, packed, version, format), format).joints == model.joints,
        model_tables(model_blob(model, packed, version, format), format).materials
            == model.materials,
{
    let bytes = model_blob(model, packed, version, format);
    let at = model_layout(bytes, format);
    let read = model_tables(bytes, format);
    tables_stand(model, packed, version, format);
    rows_have_their_lengths(model, format);
    model_header_reads_back(bytes, model);
    let (jr, mr) = (joint_rows(model, format), material_rows(model));
    let joints = bytes.subrange(28, at.joints_end);
    let materials = bytes.subrange(at.joints_end, at.materials_end);
    table_rows_lie(bytes, 28, at.joints_end, jr, 4);
    table_rows_lie(bytes, at.joints_end, at.materials_end, mr, 8);
    assert forall|i: int| 0 <= i < model.joints.len() implies #[trigger] read.joints[i]
        == model.joints[i] by {
        assert(jr[i] == joint_bytes(model.joints[i], format));
        joint_reads_back(joints, 4 * i, model.joints[i], format);
    }
    assert forall|i: int| 0 <= i < model.materials.len() implies #[trigger] read.materials[i]
        == model.materials[i] by {
        assert(mr[i] == material_bytes(model.materials[i]));
        material_reads_back(materials, 8 * i, model.materials[i]);
    }
    assert(read.joints =~= model.joints);
    assert(read.materials =~= model.materials);
}

proof fn parts_stand(model: ModelView, packed: Seq<u8>, version: u16, format: ModelFormat)
    requires
        model_fits(model, packed, version, format),
    ensures
        model_tables(model_blob(model, packed, version, format), format).parts == model.parts,
        model_tables(model_blob(model, packed, version, format), format).vertices
            == model.vertices,
{
    let bytes = model_blob(model, packed, version, format);
    let at = model_layout(bytes, format);
    let read = model_tables(bytes, format);
    tables_stand(model, packed, version, format);
    rows_have_their_lengths(model, format);
    model_header_reads_back(bytes, model);
    let (pr, vr) = (part_rows(model), vertex_rows(model, format));
    let parts = bytes.subrange(at.materials_end, at.parts_end);
    let vertices = bytes.subrange(at.parts_end, at.vertices_end);
    table_rows_lie(bytes, at.materials_end, at.parts_end, pr, 16);
    table_rows_lie(bytes, at.parts_end, at.vertices_end, vr, 8);
    assert forall|i: int| 0 <= i < model.parts.len() implies #[trigger] read.parts[i]
        == model.parts[i] by {
        assert(pr[i] == part_bytes(model.parts[i]));
        part_reads_back(parts, 16 * i, model.parts[i]);
    }
    assert forall|i: int| 0 <= i < model.vertices.len() implies #[trigger] read.vertices[i]
        == model.vertices[i] by {
        assert(vr[i] == vertex_bytes(model.vertices[i], format));
        vertex_reads_back(vertices, 8 * i, model.vertices[i], format);
    }
    assert(read.parts =~= model.parts);
    assert(read.vertices =~= model.vertices);
}

proof fn faces_stand(model: ModelView, packed: Seq<u8>, version: u16, format: ModelFormat)
    requires
        model_fits(model, packed, version, format),
    ensures
        model_tables(model_blob(model, packed, version, format), format).faces == model.faces,
        model_tables(model_blob(model, packed, version, format), format).banks == model.banks,
        model_tables(model_blob(model, packed, version, format), format).flags == model.flags,
        model_tables(model_blob(model, packed, version, format), format).texture_width
            == model.texture_width,
        model_tables(model_blob(model, packed, version, format), format).texture_height
            == model.texture_height,
        model_tables(model_blob(model, packed, version, format), format).local_to_world_q12
            == model.local_to_world_q12,
        model_tables(model_blob(model, packed, version, format), format).double_sided
            == model.double_sided,
{
    let bytes = model_blob(model, packed, version, format);
    let at = model_layout(bytes, format);
    let read = model_tables(bytes, format);
    tables_stand(model, packed, version, format);
    rows_have_their_lengths(model, format);
    model_header_reads_back(bytes, model);
    let fr = face_rows(model);
    let faces = bytes.subrange(at.vertices_end, at.faces_end);
    table_rows_lie(bytes, at.vertices_end, at.faces_end, fr, 12);
    assert forall|i: int| 0 <= i < model.faces.len() implies #[trigger] read.faces[i]
        == model.faces[i] by {
        assert(fr[i] == face_bytes(model.faces[i]));
        face_reads_back(faces, 12 * i, model.faces[i]);
    }
    assert(read.faces =~= model.faces);
    cut_is_what_was_written(bytes, at.faces_end, packed);
    if let Some(banks) = model.banks {
        banks_read_back(packed, banks, format.bank_packing);
    }
}

/// A written model is read back, where its parts and faces stay inside its
/// tables: joints, materials, parts, vertices, faces and palette banks.
pub proof fn model_reads_back(
    model: ModelView,
    packed: Seq<u8>,
    version: u16,
    format: ModelFormat,
)
    requires
        model_fits(model, packed, version, format),
        model_consistent(model, format),
    ensures
        model_of(model_blob(model, packed, version, format), format) == Ok::<ModelView, ParseError>(
            model,
        ),
{
    let bytes = model_blob(model, packed, version, format);
    tables_stand(model, packed, version, format);
    joints_and_materials_stand(model, packed, version, format);
    parts_stand(model, packed, version, format);
    faces_stand(model, packed, version, format);
    assert(model_tables(bytes, format) == model);
}

/// A scale that a header leaves out is one.
pub proof fn missing_scale_is_one(bytes: Seq<u8>, format: ModelFormat)
    requires
        bytes.len() >= 28,
        bytes[26] == 0,
        bytes[27] == 0,
    ensures
        model_tables(bytes, format).local_to_world_q12 == 4096,
{
}

} // verus!
