//! Textured models: joints, materials, rigid parts, vertices, faces.

use vstd::prelude::*;

use crate::asset::header::{
    check_magic, check_payload, flags_of, magic_fault, payload_fault, take_table, version_of,
    viewed, ParseError,
};
use crate::asset::mesh::vector_at;
use crate::bytes::{le16, read_i16, read_le16};
use crate::gte::math::Vec3I16;

verus! {

/// How palette banks are packed into bytes, the first face in the lowest bits.
#[derive(Clone, Copy, Debug, PartialEq, Eq, Structural)]
pub enum BankPacking {
    /// One face in a byte.
    Bytes,
    /// Two faces in a byte, four bits each.
    Nibbles,
    /// Four faces in a byte, two bits each.
    BitPairs,
}

/// The agreed numbers of the model format.
#[derive(Clone, Copy, Debug)]
pub struct ModelFormat {
    pub magic: [u8; 4],
    pub version: u16,
    /// An older version, without palette banks.
    pub legacy_version: u16,
    /// Joint index that stands for no joint.
    pub no_joint: u16,
    /// Blend joint of a vertex that follows a single joint.
    pub no_joint8: u8,
    /// Flag bit: draw both sides of every face.
    pub double_sided: u16,
    /// Flag bit: the palette banks of the faces end the blob.
    pub face_palette_banks: u16,
    pub bank_packing: BankPacking,
}

/// Bytes in the model header.
pub const MODEL_HEADER_SIZE: usize = 16;

/// Bytes in a joint record.
pub const JOINT_SIZE: usize = 4;

/// Bytes in a material record.
pub const MATERIAL_SIZE: usize = 8;

/// Bytes in a part record.
pub const PART_SIZE: usize = 16;

/// Bytes in a vertex record.
pub const VERTEX_SIZE: usize = 8;

/// Bytes in a face record.
pub const FACE_SIZE: usize = 12;

/// Scale of a model whose header leaves it zero: one, in Q12.
pub const DEFAULT_LOCAL_TO_WORLD_Q12: u16 = 0x1000;

/// One joint.
#[derive(Clone, Copy, Debug, PartialEq, Eq, Structural)]
pub struct ModelJoint {
    pub parent: Option<u16>,
}

impl ModelJoint {
    /// Parent joint, none for a root.
    pub fn parent(&self) -> (parent: Option<u16>)
        ensures
            parent == self.parent,
    {
        self.parent
    }
}

/// One material.
#[derive(Clone, Copy, Debug, PartialEq, Eq)]
pub struct ModelMaterial {
    pub texture_index: u16,
    pub flags: u16,
    pub base_color: [u8; 4],
}

impl ModelMaterial {
    /// Texture slot.
    pub fn texture_index(&self) -> (index: u16)
        ensures
            index == self.texture_index,
    {
        self.texture_index
    }

    /// Material flags.
    pub fn flags(&self) -> (flags: u16)
        ensures
            flags == self.flags,
    {
        self.flags
    }

    /// Tint: red, green, blue, alpha.
    pub fn base_color(&self) -> (color: [u8; 4])
        ensures
            color == self.base_color,
    {
        self.base_color
    }
}

/// A run of vertices and faces that follow one joint.
#[derive(Clone, Copy, Debug, PartialEq, Eq, Structural)]
pub struct ModelPart {
    pub joint_index: u16,
    pub first_vertex: u16,
    pub vertex_count: u16,
    pub first_face: u16,
    pub face_count: u16,
    pub material_index: u16,
}

impl ModelPart {
    /// The empty part.
    pub fn zero() -> (part: ModelPart)
        ensures
            part == (ModelPart {
                joint_index: 0,
                first_vertex: 0,
                vertex_count: 0,
                first_face: 0,
                face_count: 0,
                material_index: 0,
            }),
    {
        ModelPart {
            joint_index: 0,
            first_vertex: 0,
            vertex_count: 0,
            first_face: 0,
            face_count: 0,
            material_index: 0,
        }
    }

    /// Joint that the part follows.
    pub fn joint_index(&self) -> (index: u16)
        ensures
            index == self.joint_index,
    {
        self.joint_index
    }

    /// First vertex of the part.
    pub fn first_vertex(&self) -> (index: u16)
        ensures
            index == self.first_vertex,
    {
        self.first_vertex
    }

    /// Number of vertices in the part.
    pub fn vertex_count(&self) -> (count: u16)
        ensures
            count == self.vertex_count,
    {
        self.vertex_count
    }

    /// First face of the part.
    pub fn first_face(&self) -> (index: u16)
        ensures
            index == self.first_face,
    {
        self.first_face
    }

    /// Number of faces in the part.
    pub fn face_count(&self) -> (count: u16)
        ensures
            count == self.face_count,
    {
        self.face_count
    }

    /// Material of the part.
    pub fn material_index(&self) -> (index: u16)
        ensures
            index == self.material_index,
    {
        self.material_index
    }
}

/// One vertex.
#[derive(Clone, Copy, Debug, PartialEq, Eq, Structural)]
pub struct ModelVertex {
    /// Position in model units.
    pub position: Vec3I16,
    /// Second joint that the vertex follows, if any.
    pub joint1: Option<u8>,
    /// Weight of the second joint.
    pub blend: u8,
}

impl ModelVertex {
    /// The empty vertex.
    pub fn zero() -> (vertex: ModelVertex)
        ensures
            vertex == (ModelVertex {
                position: (Vec3I16 { x: 0, y: 0, z: 0 }),
                joint1: None,
                blend: 0,
            }),
    {
        ModelVertex { position: Vec3I16::zero(), joint1: None, blend: 0 }
    }

    /// Whether two joints move the vertex.
    pub fn is_blend(&self) -> (blend: bool)
        ensures
            blend == (self.blend != 0 && self.joint1 is Some),
    {
        self.blend != 0 && self.joint1.is_some()
    }
}

/// One corner of a face.
#[derive(Clone, Copy, Debug, PartialEq, Eq)]
pub struct ModelFaceCorner {
    pub vertex_index: u16,
    pub uv: (u8, u8),
}

/// One textured triangle.
#[derive(Clone, Copy, Debug, PartialEq, Eq)]
pub struct ModelFace {
    pub corners: [ModelFaceCorner; 3],
}

/// What a model holds.
pub struct ModelView {
    pub flags: u16,
    pub texture_width: u16,
    pub texture_height: u16,
    pub local_to_world_q12: u16,
    pub double_sided: bool,
    pub joints: Seq<ModelJoint>,
    pub materials: Seq<ModelMaterial>,
    pub parts: Seq<ModelPart>,
    pub vertices: Seq<ModelVertex>,
    pub faces: Seq<ModelFace>,
    /// Palette bank of each face; nothing if all are bank zero.
    pub banks: Option<Seq<u8>>,
}

/// The joint record at `at`.
pub open spec fn joint_at(table: Seq<u8>, at: int, format: ModelFormat) -> ModelJoint {
    ModelJoint {
        parent: if le16(table, at) == format.no_joint {
            None
        } else {
            Some(le16(table, at))
        },
    }
}

/// The material record at `at`.
pub open spec fn material_at(table: Seq<u8>, at: int) -> ModelMaterial {
    ModelMaterial {
        texture_index: le16(table, at),
        flags: le16(table, at + 2),
        base_color: [table[at + 4], table[at + 5], table[at + 6], table[at + 7]],
    }
}

/// The part record at `at`.
pub open spec fn part_at(table: Seq<u8>, at: int) -> ModelPart {
    ModelPart {
        joint_index: le16(table, at),
        first_vertex: le16(table, at + 2),
        vertex_count: le16(table, at + 4),
        first_face: le16(table, at + 6),
        face_count: le16(table, at + 8),
        material_index: le16(table, at + 10),
    }
}

/// The vertex record at `at`.
pub open spec fn vertex_at(table: Seq<u8>, at: int, format: ModelFormat) -> ModelVertex {
    ModelVertex {
        position: vector_at(table, at),
        joint1: if table[at + 6] == format.no_joint8 {
            None
        } else {
            Some(table[at + 6])
        },
        blend: table[at + 7],
    }
}

/// The face corner at `at`.
pub open spec fn corner_at(table: Seq<u8>, at: int) -> ModelFaceCorner {
    ModelFaceCorner { vertex_index: le16(table, at), uv: (table[at + 2], table[at + 3]) }
}

/// The face record at `at`.
pub open spec fn face_at(table: Seq<u8>, at: int) -> ModelFace {
    ModelFace {
        corners: [corner_at(table, at), corner_at(table, at + 4), corner_at(table, at + 8)],
    }
}

/// Whether a part stays inside the tables of its model.
pub open spec fn part_in_range(
    part: ModelPart,
    joint_count: u16,
    material_count: u16,
    vertex_count: u16,
    face_count: u16,
    format: ModelFormat,
) -> bool {
    &&& part.joint_index == format.no_joint || part.joint_index < joint_count
    &&& part.material_index < material_count
    &&& part.first_vertex + part.vertex_count <= vertex_count
    &&& part.first_face + part.face_count <= face_count
}

/// Whether a face names vertices of its model only.
pub open spec fn face_in_range(face: ModelFace, vertex_count: u16) -> bool {
    &&& face.corners[0].vertex_index < vertex_count
    &&& face.corners[1].vertex_index < vertex_count
    &&& face.corners[2].vertex_index < vertex_count
}

/// Whether every part and face stays inside the tables.
pub open spec fn model_consistent(model: ModelView, format: ModelFormat) -> bool {
    &&& forall|i: int|
        0 <= i < model.parts.len() ==> part_in_range(
            #[trigger] model.parts[i],
            model.joints.len() as u16,
            model.materials.len() as u16,
            model.vertices.len() as u16,
            model.faces.len() as u16,
            format,
        )
    &&& forall|i: int|
        0 <= i < model.faces.len() ==> face_in_range(
            #[trigger] model.faces[i],
            model.vertices.len() as u16,
        )
}

/// Whether a blob ends with palette banks.
pub open spec fn has_banks(bytes: Seq<u8>, format: ModelFormat) -> bool {
    version_of(bytes) == format.version && flags_of(bytes) & format.face_palette_banks != 0
}

/// Faces in a byte of palette banks.
pub open spec fn banks_in_byte(packing: BankPacking) -> int {
    match packing {
        BankPacking::Bytes => 1,
        BankPacking::Nibbles => 2,
        BankPacking::BitPairs => 4,
    }
}

/// Bytes that the palette banks of a number of faces take.
pub open spec fn bank_bytes(faces: int, packing: BankPacking) -> int {
    (faces + banks_in_byte(packing) - 1) / banks_in_byte(packing)
}

/// The palette bank of face `i` in a table.
pub open spec fn bank_at(table: Seq<u8>, i: int, packing: BankPacking) -> u8 {
    match packing {
        BankPacking::Bytes => table[i],
        BankPacking::Nibbles => (if i % 2 == 0 {
            table[i / 2] % 16
        } else {
            table[i / 2] / 16
        }) as u8,
        BankPacking::BitPairs => (if i % 4 == 0 {
            table[i / 4] % 4
        } else if i % 4 == 1 {
            (table[i / 4] / 4) % 4
        } else if i % 4 == 2 {
            (table[i / 4] / 16) % 4
        } else {
            table[i / 4] / 64
        }) as u8,
    }
}

/// The palette banks of all faces in a table.
pub open spec fn banks_of(table: Seq<u8>, faces: int, packing: BankPacking) -> Seq<u8> {
    Seq::new(faces as nat, |i: int| bank_at(table, i, packing))
}

/// Offsets at which the tables of a blob end.
pub struct ModelLayout {
    pub joints_end: int,
    pub materials_end: int,
    pub parts_end: int,
    pub vertices_end: int,
    pub faces_end: int,
    pub banks_end: int,
}

/// Where the tables of a blob end, from the counts in its header.
pub open spec fn model_layout(bytes: Seq<u8>, format: ModelFormat) -> ModelLayout {
    let joints_end = 28 + JOINT_SIZE * le16(bytes, 12);
    let materials_end = joints_end + MATERIAL_SIZE * le16(bytes, 20);
    let parts_end = materials_end + PART_SIZE * le16(bytes, 14);
    let vertices_end = parts_end + VERTEX_SIZE * le16(bytes, 16);
    let faces_end = vertices_end + FACE_SIZE * le16(bytes, 18);
    let banks_end = faces_end + if has_banks(bytes, format) {
        bank_bytes(le16(bytes, 18) as int, format.bank_packing)
    } else {
        0
    };
    ModelLayout { joints_end, materials_end, parts_end, vertices_end, faces_end, banks_end }
}

/// The tables of a blob, decoded.
pub open spec fn model_tables(bytes: Seq<u8>, format: ModelFormat) -> ModelView {
    let at = model_layout(bytes, format);
    let joints = bytes.subrange(28, at.joints_end);
    let materials = bytes.subrange(at.joints_end, at.materials_end);
    let parts = bytes.subrange(at.materials_end, at.parts_end);
    let vertices = bytes.subrange(at.parts_end, at.vertices_end);
    let faces = bytes.subrange(at.vertices_end, at.faces_end);
    ModelView {
        flags: flags_of(bytes),
        texture_width: le16(bytes, 22),
        texture_height: le16(bytes, 24),
        local_to_world_q12: if le16(bytes, 26) == 0 {
            DEFAULT_LOCAL_TO_WORLD_Q12
        } else {
            le16(bytes, 26)
        },
        double_sided: flags_of(bytes) & format.double_sided != 0,
        joints: Seq::new(
            le16(bytes, 12) as nat,
            |i: int| joint_at(joints, JOINT_SIZE * i, format),
        ),
        materials: Seq::new(
            le16(bytes, 20) as nat,
            |i: int| material_at(materials, MATERIAL_SIZE * i),
        ),
        parts: Seq::new(le16(bytes, 14) as nat, |i: int| part_at(parts, PART_SIZE * i)),
        vertices: Seq::new(
            le16(bytes, 16) as nat,
            |i: int| vertex_at(vertices, VERTEX_SIZE * i, format),
        ),
        faces: Seq::new(le16(bytes, 18) as nat, |i: int| face_at(faces, FACE_SIZE * i)),
        banks: if has_banks(bytes, format) {
            Some(
                banks_of(
                    bytes.subrange(at.faces_end, at.banks_end),
                    le16(bytes, 18) as int,
                    format.bank_packing,
                ),
            )
        } else {
            None
        },
    }
}

/// The model in a blob.
pub open spec fn model_of(bytes: Seq<u8>, format: ModelFormat) -> Result<ModelView, ParseError> {
    if let Some(error) = magic_fault(bytes, format.magic@) {
        Err(error)
    } else if version_of(bytes) != format.version && version_of(bytes) != format.legacy_version {
        Err(ParseError::UnsupportedVersion(version_of(bytes)))
    } else if let Some(error) = payload_fault(bytes, MODEL_HEADER_SIZE as int) {
        Err(error)
    } else if model_layout(bytes, format).banks_end > bytes.len() {
        Err(ParseError::TableOverflow)
    } else if model_layout(bytes, format).banks_end != bytes.len() || !model_consistent(
        model_tables(bytes, format),
        format,
    ) {
        Err(ParseError::InvalidModelLayout)
    } else {
        Ok(model_tables(bytes, format))
    }
}

/// The number of palette banks that `banks` uses: one more than the highest.
pub open spec fn bank_count(banks: Seq<u8>) -> int
    decreases banks.len(),
{
    if banks.len() == 0 {
        1
    } else {
        let before = bank_count(banks.drop_last());
        if banks.last() + 1 > before {
            banks.last() + 1
        } else {
            before
        }
    }
}

/// A model borrowed from its blob.
#[derive(Clone, Copy, Debug)]
pub struct Model<'a> {
    joints: &'a [u8],
    materials: &'a [u8],
    parts: &'a [u8],
    vertices: &'a [u8],
    faces: &'a [u8],
    banks: Option<&'a [u8]>,
    joint_count: u16,
    material_count: u16,
    part_count: u16,
    vertex_count: u16,
    face_count: u16,
    texture_width: u16,
    texture_height: u16,
    local_to_world_q12: u16,
    flags: u16,
    format: ModelFormat,
}

impl<'a> View for Model<'a> {
    type V = ModelView;

    closed spec fn view(&self) -> ModelView {
        let format = self.format;
        ModelView {
            flags: self.flags,
            texture_width: self.texture_width,
            texture_height: self.texture_height,
            local_to_world_q12: self.local_to_world_q12,
            double_sided: self.flags & format.double_sided != 0,
            joints: Seq::new(
                self.joint_count as nat,
                |i: int| joint_at(self.joints@, JOINT_SIZE * i, format),
            ),
            materials: Seq::new(
                self.material_count as nat,
                |i: int| material_at(self.materials@, MATERIAL_SIZE * i),
            ),
            parts: Seq::new(
                self.part_count as nat,
                |i: int| part_at(self.parts@, PART_SIZE * i),
            ),
            vertices: Seq::new(
                self.vertex_count as nat,
                |i: int| vertex_at(self.vertices@, VERTEX_SIZE * i, format),
            ),
            faces: Seq::new(
                self.face_count as nat,
                |i: int| face_at(self.faces@, FACE_SIZE * i),
            ),
            banks: match self.banks {
                Some(banks) => Some(
                    banks_of(banks@, self.face_count as int, format.bank_packing),
                ),
                None => None,
            },
        }
    }
}

fn read_part(table: &[u8], index: usize) -> (part: ModelPart)
    requires
        index < 0x1_0000,
        PART_SIZE * index + PART_SIZE <= table@.len(),
    ensures
        part == part_at(table@, PART_SIZE * index),
{
    let base: usize = PART_SIZE * index;
    ModelPart {
        joint_index: read_le16(table, base),
        first_vertex: read_le16(table, base + 2),
        vertex_count: read_le16(table, base + 4),
        first_face: read_le16(table, base + 6),
        face_count: read_le16(table, base + 8),
        material_index: read_le16(table, base + 10),
    }
}

fn read_corner(table: &[u8], at: usize) -> (corner: ModelFaceCorner)
    requires
        at + 4 <= table@.len(),
    ensures
        corner == corner_at(table@, at as int),
{
    assert(table@.len() == table.len());
    ModelFaceCorner { vertex_index: read_le16(table, at), uv: (table[at + 2], table[at + 3]) }
}

fn read_face(table: &[u8], index: usize) -> (face: ModelFace)
    requires
        index < 0x1_0000,
        FACE_SIZE * index + FACE_SIZE <= table@.len(),
    ensures
        face == face_at(table@, FACE_SIZE * index),
{
    let base: usize = FACE_SIZE * index;
    let face = ModelFace {
        corners: [
            read_corner(table, base),
            read_corner(table, base + 4),
            read_corner(table, base + 8),
        ],
    };
    assert(face.corners =~= face_at(table@, FACE_SIZE * index).corners);
    face
}

/// Whether every part stays inside the tables.
fn parts_in_range(
    parts: &[u8],
    count: u16,
    joint_count: u16,
    material_count: u16,
    vertex_count: u16,
    face_count: u16,
    format: &ModelFormat,
) -> (valid: bool)
    requires
        parts@.len() == PART_SIZE * count,
    ensures
        valid == forall|i: int|
            0 <= i < count ==> part_in_range(
                #[trigger] part_at(parts@, PART_SIZE * i),
                joint_count,
                material_count,
                vertex_count,
                face_count,
                *format,
            ),
{
    let mut index: usize = 0;
    while index < count as usize
        invariant
            index <= count,
            parts@.len() == PART_SIZE * count,
            forall|i: int|
                0 <= i < index ==> part_in_range(
                    #[trigger] part_at(parts@, PART_SIZE * i),
                    joint_count,
                    material_count,
                    vertex_count,
                    face_count,
                    *format,
                ),
        decreases count - index,
    {
        let part = read_part(parts, index);
        let valid: bool = (part.joint_index == format.no_joint || part.joint_index < joint_count)
            && part.material_index < material_count && part.first_vertex as u32
            + part.vertex_count as u32 <= vertex_count as u32 && part.first_face as u32
            + part.face_count as u32 <= face_count as u32;
        if !valid {
            assert(!part_in_range(
                part_at(parts@, PART_SIZE * (index as int)),
                joint_count,
                material_count,
                vertex_count,
                face_count,
                *format,
            ));
            return false;
        }
        index += 1;
    }
    true
}

/// Whether every face names existing vertices.
fn faces_in_range(faces: &[u8], count: u16, vertex_count: u16) -> (valid: bool)
    requires
        faces@.len() == FACE_SIZE * count,
    ensures
        valid == forall|i: int|
            0 <= i < count ==> face_in_range(
                #[trigger] face_at(faces@, FACE_SIZE * i),
                vertex_count,
            ),
{
    let mut index: usize = 0;
    while index < count as usize
        invariant
            index <= count,
            faces@.len() == FACE_SIZE * count,
            forall|i: int|
                0 <= i < index ==> face_in_range(
                    #[trigger] face_at(faces@, FACE_SIZE * i),
                    vertex_count,
                ),
        decreases count - index,
    {
        let face = read_face(faces, index);
        if face.corners[0].vertex_index >= vertex_count || face.corners[1].vertex_index
            >= vertex_count || face.corners[2].vertex_index >= vertex_count {
            assert(!face_in_range(face_at(faces@, FACE_SIZE * (index as int)), vertex_count));
            return false;
        }
        index += 1;
    }
    true
}

fn count_bank_bytes(faces: u16, packing: BankPacking) -> (bytes: usize)
    ensures
        bytes == bank_bytes(faces as int, packing),
{
    match packing {
        BankPacking::Bytes => faces as usize,
        BankPacking::Nibbles => (faces as usize + 1) / 2,
        BankPacking::BitPairs => (faces as usize + 3) / 4,
    }
}

fn read_bank(table: &[u8], index: u16, packing: BankPacking) -> (bank: u8)
    requires
        index as int / banks_in_byte(packing) < table@.len(),
    ensures
        bank == bank_at(table@, index as int, packing),
{
    let i: usize = index as usize;
    match packing {
        BankPacking::Bytes => table[i],
        BankPacking::Nibbles => if i % 2 == 0 {
            table[i / 2] % 16
        } else {
            table[i / 2] / 16
        },
        BankPacking::BitPairs => if i % 4 == 0 {
            table[i / 4] % 4
        } else if i % 4 == 1 {
            (table[i / 4] / 4) % 4
        } else if i % 4 == 2 {
            (table[i / 4] / 16) % 4
        } else {
            table[i / 4] / 64
        },
    }
}

/// A table of the right size has the bank of every face.
proof fn bank_is_inside(index: int, faces: int, packing: BankPacking)
    requires
        0 <= index < faces,
    ensures
        0 <= index / banks_in_byte(packing) < bank_bytes(faces, packing),
{
    match packing {
        BankPacking::Bytes => {},
        BankPacking::Nibbles => {
            assert(index / 2 < (faces + 1) / 2);
        },
        BankPacking::BitPairs => {
            assert(index / 4 < (faces + 3) / 4);
        },
    }
}

impl<'a> Model<'a> {
    /// The tables are as long as the counts say.
    #[verifier::type_invariant]
    closed spec fn wf(self) -> bool {
        &&& self.joints@.len() == JOINT_SIZE * self.joint_count
        &&& self.materials@.len() == MATERIAL_SIZE * self.material_count
        &&& self.parts@.len() == PART_SIZE * self.part_count
        &&& self.vertices@.len() == VERTEX_SIZE * self.vertex_count
        &&& self.faces@.len() == FACE_SIZE * self.face_count
        &&& match self.banks {
            Some(banks) => banks@.len() == bank_bytes(
                self.face_count as int,
                self.format.bank_packing,
            ),
            None => true,
        }
    }

    /// Parse a cooked model.
    pub fn from_bytes(bytes: &'a [u8], format: &ModelFormat) -> (result: Result<Self, ParseError>)
        ensures
            viewed(result) == model_of(bytes@, *format),
    {
        let version: u16 = check_magic(bytes, &format.magic)?;
        if version != format.version && version != format.legacy_version {
            return Err(ParseError::UnsupportedVersion(version));
        }
        check_payload(bytes, MODEL_HEADER_SIZE)?;
        let flags: u16 = read_le16(bytes, 6);
        let joint_count: u16 = read_le16(bytes, 12);
        let part_count: u16 = read_le16(bytes, 14);
        let vertex_count: u16 = read_le16(bytes, 16);
        let face_count: u16 = read_le16(bytes, 18);
        let material_count: u16 = read_le16(bytes, 20);
        let scale: u16 = read_le16(bytes, 26);
        let mut offset: usize = 28;
        let joints: &'a [u8] = take_table(bytes, &mut offset, JOINT_SIZE * joint_count as usize)?;
        let materials: &'a [u8] = take_table(
            bytes,
            &mut offset,
            MATERIAL_SIZE * material_count as usize,
        )?;
        let parts: &'a [u8] = take_table(bytes, &mut offset, PART_SIZE * part_count as usize)?;
        let vertices: &'a [u8] = take_table(
            bytes,
            &mut offset,
            VERTEX_SIZE * vertex_count as usize,
        )?;
        let faces: &'a [u8] = take_table(bytes, &mut offset, FACE_SIZE * face_count as usize)?;
        let banks: Option<&'a [u8]> = if version == format.version && flags
            & format.face_palette_banks != 0 {
            Some(
                take_table(bytes, &mut offset, count_bank_bytes(face_count, format.bank_packing))?,
            )
        } else {
            None
        };
        let model = Model {
            joints,
            materials,
            parts,
            vertices,
            faces,
            banks,
            joint_count,
            material_count,
            part_count,
            vertex_count,
            face_count,
            texture_width: read_le16(bytes, 22),
            texture_height: read_le16(bytes, 24),
            local_to_world_q12: if scale == 0 {
                DEFAULT_LOCAL_TO_WORLD_Q12
            } else {
                scale
            },
            flags,
            format: *format,
        };
        proof {
            let tables = model_tables(bytes@, *format);
            assert(model@.joints =~= tables.joints);
            assert(model@.materials =~= tables.materials);
            assert(model@.parts =~= tables.parts);
            assert(model@.vertices =~= tables.vertices);
            assert(model@.faces =~= tables.faces);
            assert(model@.banks == tables.banks);
            assert(model@ == tables);
        }
        if offset != bytes.len() {
            return Err(ParseError::InvalidModelLayout);
        }
        let parts_valid = parts_in_range(
            parts,
            part_count,
            joint_count,
            material_count,
            vertex_count,
            face_count,
            format,
        );
        let faces_valid = faces_in_range(faces, face_count, vertex_count);
        proof {
            let view = model@;
            assert(forall|i: int|
                0 <= i < part_count ==> #[trigger] view.parts[i] == part_at(parts@, PART_SIZE * i));
            assert(forall|i: int|
                0 <= i < face_count ==> #[trigger] view.faces[i] == face_at(faces@, FACE_SIZE * i));
            if !parts_valid {
                let i = choose|i: int|
                    0 <= i < part_count && !part_in_range(
                        #[trigger] part_at(parts@, PART_SIZE * i),
                        joint_count,
                        material_count,
                        vertex_count,
                        face_count,
                        *format,
                    );
                assert(view.parts[i] == part_at(parts@, PART_SIZE * i));
                assert(!model_consistent(view, *format));
            }
            if !faces_valid {
                let i = choose|i: int|
                    0 <= i < face_count && !face_in_range(
                        #[trigger] face_at(faces@, FACE_SIZE * i),
                        vertex_count,
                    );
                assert(view.faces[i] == face_at(faces@, FACE_SIZE * i));
                assert(!model_consistent(view, *format));
            }
        }
        if !parts_valid || !faces_valid {
            return Err(ParseError::InvalidModelLayout);
        }
        Ok(model)
    }

    /// Feature flags.
    pub fn flags(&self) -> (flags: u16)
        ensures
            flags == self@.flags,
    {
        self.flags
    }

    /// Whether both sides of every face are drawn.
    pub fn double_sided(&self) -> (double: bool)
        ensures
            double == self@.double_sided,
    {
        self.flags & self.format.double_sided != 0
    }

    /// Number of joints.
    pub fn joint_count(&self) -> (count: u16)
        ensures
            count == self@.joints.len(),
    {
        self.joint_count
    }

    /// Number of materials.
    pub fn material_count(&self) -> (count: u16)
        ensures
            count == self@.materials.len(),
    {
        self.material_count
    }

    /// Number of parts.
    pub fn part_count(&self) -> (count: u16)
        ensures
            count == self@.parts.len(),
    {
        self.part_count
    }

    /// Number of vertices.
    pub fn vertex_count(&self) -> (count: u16)
        ensures
            count == self@.vertices.len(),
    {
        self.vertex_count
    }

    /// Number of faces.
    pub fn face_count(&self) -> (count: u16)
        ensures
            count == self@.faces.len(),
    {
        self.face_count
    }

    /// Width of the texture in texels.
    pub fn texture_width(&self) -> (width: u16)
        ensures
            width == self@.texture_width,
    {
        self.texture_width
    }

    /// Height of the texture in texels.
    pub fn texture_height(&self) -> (height: u16)
        ensures
            height == self@.texture_height,
    {
        self.texture_height
    }

    /// Scale from model units to world units, in Q12.
    pub fn local_to_world_q12(&self) -> (scale: u16)
        ensures
            scale == self@.local_to_world_q12,
    {
        self.local_to_world_q12
    }

    /// Joint by index.
    pub fn joint(&self, index: u16) -> (joint: Option<ModelJoint>)
        ensures
            joint == if index < self@.joints.len() {
                Some(self@.joints[index as int])
            } else {
                None
            },
    {
        if index >= self.joint_count {
            return None;
        }
        proof {
            use_type_invariant(self);
        }
        let parent: u16 = read_le16(self.joints, JOINT_SIZE * index as usize);
        Some(
            ModelJoint {
                parent: if parent == self.format.no_joint {
                    None
                } else {
                    Some(parent)
                },
            },
        )
    }

    /// Material by index.
    pub fn material(&self, index: u16) -> (material: Option<ModelMaterial>)
        ensures
            material == if index < self@.materials.len() {
                Some(self@.materials[index as int])
            } else {
                None
            },
    {
        if index >= self.material_count {
            return None;
        }
        proof {
            use_type_invariant(self);
        }
        let table: &'a [u8] = self.materials;
        let base: usize = MATERIAL_SIZE * index as usize;
        let base_color: [u8; 4] = [
            table[base + 4],
            table[base + 5],
            table[base + 6],
            table[base + 7],
        ];
        assert(base_color =~= self@.materials[index as int].base_color);
        Some(
            ModelMaterial {
                texture_index: read_le16(table, base),
                flags: read_le16(table, base + 2),
                base_color,
            },
        )
    }

    /// Part by index.
    pub fn part(&self, index: u16) -> (part: Option<ModelPart>)
        ensures
            part == if index < self@.parts.len() {
                Some(self@.parts[index as int])
            } else {
                None
            },
    {
        if index >= self.part_count {
            return None;
        }
        proof {
            use_type_invariant(self);
        }
        Some(read_part(self.parts, index as usize))
    }

    /// Vertex by index.
    pub fn vertex(&self, index: u16) -> (vertex: Option<ModelVertex>)
        ensures
            vertex == if index < self@.vertices.len() {
                Some(self@.vertices[index as int])
            } else {
                None
            },
    {
        if index >= self.vertex_count {
            return None;
        }
        proof {
            use_type_invariant(self);
        }
        let table: &'a [u8] = self.vertices;
        let base: usize = VERTEX_SIZE * index as usize;
        let joint: u8 = table[base + 6];
        Some(
            ModelVertex {
                position: Vec3I16::new(
                    read_i16(table, base),
                    read_i16(table, base + 2),
                    read_i16(table, base + 4),
                ),
                joint1: if joint == self.format.no_joint8 {
                    None
                } else {
                    Some(joint)
                },
                blend: table[base + 7],
            },
        )
    }

    /// Face by index.
    pub fn face(&self, index: u16) -> (face: Option<ModelFace>)
        ensures
            face == if index < self@.faces.len() {
                Some(self@.faces[index as int])
            } else {
                None
            },
    {
        if index >= self.face_count {
            return None;
        }
        proof {
            use_type_invariant(self);
        }
        Some(read_face(self.faces, index as usize))
    }

    /// Palette bank of a face: zero in a model without banks.
    pub fn face_palette_bank(&self, index: u16) -> (bank: Option<u8>)
        ensures
            bank == if index < self@.faces.len() {
                Some(
                    match self@.banks {
                        Some(banks) => banks[index as int],
                        None => 0,
                    },
                )
            } else {
                None
            },
    {
        if index >= self.face_count {
            return None;
        }
        proof {
            use_type_invariant(self);
        }
        match self.banks {
            Some(banks) => {
                proof {
                    bank_is_inside(
                        index as int,
                        self.face_count as int,
                        self.format.bank_packing,
                    );
                }
                Some(read_bank(banks, index, self.format.bank_packing))
            },
            None => Some(0),
        }
    }

    /// Number of palette banks that the faces use.
    pub fn palette_bank_count(&self) -> (count: u16)
        ensures
            count == match self@.banks {
                Some(banks) => bank_count(banks),
                None => 1,
            },
    {
        let table: &'a [u8] = match self.banks {
            Some(table) => table,
            None => return 1,
        };
        proof {
            use_type_invariant(self);
        }
        let faces: u16 = self.face_count;
        let packing: BankPacking = self.format.bank_packing;
        let ghost banks = banks_of(table@, faces as int, packing);
        let mut count: u16 = 1;
        let mut index: u16 = 0;
        while index < faces
            invariant
                index <= faces,
                banks == banks_of(table@, faces as int, packing),
                table@.len() == bank_bytes(faces as int, packing),
                count == bank_count(banks.take(index as int)),
            decreases faces - index,
        {
            proof {
                assert(banks.take(index + 1).drop_last() =~= banks.take(index as int));
                bank_is_inside(index as int, faces as int, packing);
            }
            let above: u16 = read_bank(table, index, packing) as u16 + 1;
            if above > count {
                count = above;
            }
            index += 1;
        }
        assert(banks.take(index as int) =~= banks);
        count
    }
}

/// Every part of a parsed model names a joint, a material, vertices and faces
/// of that model, and every face names vertices of it.
pub proof fn parsed_model_is_consistent(bytes: Seq<u8>, format: ModelFormat)
    ensures
        match model_of(bytes, format) {
            Ok(model) => model_consistent(model, format),
            Err(_) => true,
        },
{
}

/// The bank count exceeds every bank in use, by one at the highest.
pub proof fn bank_count_is_tight(banks: Seq<u8>)
    ensures
        1 <= bank_count(banks) <= 256,
        forall|i: int| 0 <= i < banks.len() ==> (#[trigger] banks[i]) < bank_count(banks),
        bank_count(banks) == 1 || exists|i: int|
            0 <= i < banks.len() && #[trigger] banks[i] == bank_count(banks) - 1,
    decreases banks.len(),
{
    if banks.len() > 0 {
        let rest = banks.drop_last();
        bank_count_is_tight(rest);
        assert forall|i: int| 0 <= i < banks.len() implies (#[trigger] banks[i]) < bank_count(
            banks,
        ) by {
            if i < rest.len() {
                assert(rest[i] == banks[i]);
            }
        }
        if banks.last() + 1 > bank_count(rest) {
            assert(banks[banks.len() - 1] == bank_count(banks) - 1);
        } else if bank_count(rest) != 1 {
            let i = choose|i: int| 0 <= i < rest.len() && #[trigger] rest[i] == bank_count(rest) - 1;
            assert(banks[i] == rest[i]);
        }
    }
}

} // verus!
