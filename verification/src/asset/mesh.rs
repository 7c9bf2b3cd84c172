//! Triangle meshes with optional face colours and vertex normals.

use vstd::prelude::*;

use crate::asset::header::{
    check_magic, check_payload, flags_of, magic_fault, payload_fault, take_table,
    version_of, viewed, ParseError,
};
use crate::bytes::{le16, le_i16, read_i16, read_le16};
use crate::gte::math::Vec3I16;

verus! {

/// The agreed numbers of the mesh format.
#[derive(Clone, Copy, Debug)]
pub struct MeshFormat {
    pub magic: [u8; 4],
    /// Version whose face indices are 16 bits wide. Version 1 has 8-bit ones.
    pub version: u16,
    /// Flag bit: a table of face colours follows the faces.
    pub has_face_colors: u16,
    /// Flag bit: a table of vertex normals ends the blob.
    pub has_normals: u16,
}

/// Version with 8-bit face indices.
pub const MESH_VERSION_U8_INDICES: u16 = 1;

/// Bytes in the mesh header.
pub const MESH_HEADER_SIZE: usize = 8;

/// What a mesh holds.
pub struct MeshView {
    pub flags: u16,
    pub vertices: Seq<Vec3I16>,
    pub faces: Seq<(u16, u16, u16)>,
    pub face_colors: Option<Seq<(u8, u8, u8)>>,
    pub normals: Option<Seq<Vec3I16>>,
}

/// Three signed 16-bit numbers at `at`.
pub open spec fn vector_at(bytes: Seq<u8>, at: int) -> Vec3I16 {
    Vec3I16 { x: le_i16(bytes, at), y: le_i16(bytes, at + 2), z: le_i16(bytes, at + 4) }
}

/// Three face indices at `at`, `width` bytes each.
pub open spec fn indices_at(bytes: Seq<u8>, at: int, width: int) -> (u16, u16, u16) {
    if width == 2 {
        (le16(bytes, at), le16(bytes, at + 2), le16(bytes, at + 4))
    } else {
        (bytes[at] as u16, bytes[at + 1] as u16, bytes[at + 2] as u16)
    }
}

/// A table of vectors.
pub open spec fn vectors(table: Seq<u8>, count: u16) -> Seq<Vec3I16> {
    Seq::new(count as nat, |i: int| vector_at(table, 6 * i))
}

/// A table of faces whose indices are `width` bytes wide.
pub open spec fn faces(table: Seq<u8>, count: u16, width: int) -> Seq<(u16, u16, u16)> {
    Seq::new(count as nat, |i: int| indices_at(table, 3 * width * i, width))
}

/// A table of colours.
pub open spec fn colors(table: Seq<u8>, count: u16) -> Seq<(u8, u8, u8)> {
    Seq::new(count as nat, |i: int| (table[3 * i], table[3 * i + 1], table[3 * i + 2]))
}

/// Bytes per face index, or nothing for a version that is not read.
pub open spec fn index_width(version: u16, format: MeshFormat) -> Option<int> {
    if version == MESH_VERSION_U8_INDICES {
        Some(1int)
    } else if version == format.version {
        Some(2int)
    } else {
        None
    }
}

/// The mesh in a blob: vertices, faces, face colours, normals, in this order.
pub open spec fn mesh_of(bytes: Seq<u8>, format: MeshFormat) -> Result<MeshView, ParseError> {
    if let Some(error) = magic_fault(bytes, format.magic@) {
        Err(error)
    } else if index_width(version_of(bytes), format) is None {
        Err(ParseError::UnsupportedVersion(version_of(bytes)))
    } else if let Some(error) = payload_fault(bytes, MESH_HEADER_SIZE as int) {
        Err(error)
    } else {
        let width = index_width(version_of(bytes), format)->0;
        let flags = flags_of(bytes);
        let colored = flags & format.has_face_colors != 0;
        let lit = flags & format.has_normals != 0;
        let vertex_count = le16(bytes, 12);
        let face_count = le16(bytes, 14);
        let vertices_end = 20 + 6 * vertex_count;
        let faces_end = vertices_end + 3 * width * face_count;
        let colors_end = faces_end + if colored {
            3 * face_count
        } else {
            0
        };
        let normals_end = colors_end + if lit {
            6 * vertex_count
        } else {
            0
        };
        if normals_end > bytes.len() {
            Err(ParseError::TableOverflow)
        } else {
            Ok(
                MeshView {
                    flags,
                    vertices: vectors(bytes.subrange(20, vertices_end), vertex_count),
                    faces: faces(bytes.subrange(vertices_end, faces_end), face_count, width),
                    face_colors: if colored {
                        Some(colors(bytes.subrange(faces_end, colors_end), face_count))
                    } else {
                        None
                    },
                    normals: if lit {
                        Some(vectors(bytes.subrange(colors_end, normals_end), vertex_count))
                    } else {
                        None
                    },
                },
            )
        }
    }
}

/// A mesh borrowed from its blob.
#[derive(Clone, Copy, Debug)]
pub struct Mesh<'a> {
    verts: &'a [u8],
    indices: &'a [u8],
    face_colors: Option<&'a [u8]>,
    vertex_normals: Option<&'a [u8]>,
    index_width: u8,
    vert_count: u16,
    face_count: u16,
    flags: u16,
}

impl<'a> View for Mesh<'a> {
    type V = MeshView;

    closed spec fn view(&self) -> MeshView {
        MeshView {
            flags: self.flags,
            vertices: vectors(self.verts@, self.vert_count),
            faces: faces(self.indices@, self.face_count, self.index_width as int),
            face_colors: match self.face_colors {
                Some(table) => Some(colors(table@, self.face_count)),
                None => None,
            },
            normals: match self.vertex_normals {
                Some(table) => Some(vectors(table@, self.vert_count)),
                None => None,
            },
        }
    }
}

fn read_vector(table: &[u8], index: u16) -> (v: Vec3I16)
    requires
        6 * index + 6 <= table@.len(),
    ensures
        v == vector_at(table@, 6 * index),
{
    let base: usize = 6 * (index as usize);
    Vec3I16::new(read_i16(table, base), read_i16(table, base + 2), read_i16(table, base + 4))
}

impl<'a> Mesh<'a> {
    /// The tables are as long as the counts say.
    #[verifier::type_invariant]
    closed spec fn wf(self) -> bool {
        &&& self.index_width == 1 || self.index_width == 2
        &&& self.verts@.len() == 6 * self.vert_count
        &&& self.indices@.len() == 3 * self.index_width * self.face_count
        &&& match self.face_colors {
            Some(table) => table@.len() == 3 * self.face_count,
            None => true,
        }
        &&& match self.vertex_normals {
            Some(table) => table@.len() == 6 * self.vert_count,
            None => true,
        }
    }

    /// Parse a cooked mesh.
    pub fn from_bytes(bytes: &'a [u8], format: &MeshFormat) -> (result: Result<Self, ParseError>)
        ensures
            viewed(result) == mesh_of(bytes@, *format),
    {
        let version: u16 = check_magic(bytes, &format.magic)?;
        let index_width: u8 = if version == MESH_VERSION_U8_INDICES {
            1
        } else if version == format.version {
            2
        } else {
            return Err(ParseError::UnsupportedVersion(version));
        };
        check_payload(bytes, MESH_HEADER_SIZE)?;
        let flags: u16 = read_le16(bytes, 6);
        let vert_count: u16 = read_le16(bytes, 12);
        let face_count: u16 = read_le16(bytes, 14);
        let mut offset: usize = 20;
        let verts: &'a [u8] = take_table(bytes, &mut offset, 6 * (vert_count as usize))?;
        assert(3 * index_width * face_count <= 6 * face_count) by (nonlinear_arith)
            requires
                index_width <= 2,
        ;
        let index_bytes: usize = if index_width == 1 {
            3 * (face_count as usize)
        } else {
            6 * (face_count as usize)
        };
        assert(index_bytes == 3 * index_width * face_count);
        let indices: &'a [u8] = take_table(bytes, &mut offset, index_bytes)?;
        let face_colors: Option<&'a [u8]> = if flags & format.has_face_colors != 0 {
            Some(take_table(bytes, &mut offset, 3 * (face_count as usize))?)
        } else {
            None
        };
        let vertex_normals: Option<&'a [u8]> = if flags & format.has_normals != 0 {
            Some(take_table(bytes, &mut offset, 6 * (vert_count as usize))?)
        } else {
            None
        };
        Ok(
            Mesh {
                verts,
                indices,
                face_colors,
                vertex_normals,
                index_width,
                vert_count,
                face_count,
                flags,
            },
        )
    }

    /// Number of vertices.
    pub fn vert_count(&self) -> (count: u16)
        ensures
            count == self@.vertices.len(),
    {
        self.vert_count
    }

    /// Number of triangles.
    pub fn face_count(&self) -> (count: u16)
        ensures
            count == self@.faces.len(),
    {
        self.face_count
    }

    /// Feature flags.
    pub fn flags(&self) -> (flags: u16)
        ensures
            flags == self@.flags,
    {
        self.flags
    }

    /// Whether there is a table of face colours.
    pub fn has_face_colors(&self) -> (has: bool)
        ensures
            has == (self@.face_colors is Some),
    {
        self.face_colors.is_some()
    }

    /// Whether there is a table of vertex normals.
    pub fn has_normals(&self) -> (has: bool)
        ensures
            has == (self@.normals is Some),
    {
        self.vertex_normals.is_some()
    }

    /// Vertex `i`, the zero vector past the end.
    pub fn vertex(&self, i: u16) -> (v: Vec3I16)
        ensures
            v == if i < self@.vertices.len() {
                self@.vertices[i as int]
            } else {
                (Vec3I16 { x: 0, y: 0, z: 0 })
            },
    {
        if i >= self.vert_count {
            return Vec3I16::zero();
        }
        proof {
            use_type_invariant(self);
        }
        read_vector(self.verts, i)
    }

    /// The vertex indices of triangle `i`, zeros past the end.
    pub fn face(&self, i: u16) -> (f: (u16, u16, u16))
        ensures
            f == if i < self@.faces.len() {
                self@.faces[i as int]
            } else {
                (0u16, 0u16, 0u16)
            },
    {
        if i >= self.face_count {
            return (0, 0, 0);
        }
        proof {
            use_type_invariant(self);
        }
        if self.index_width == 2 {
            let base: usize = 6 * (i as usize);
            assert(self@.faces[i as int] == indices_at(self.indices@, base as int, 2));
            assert(3 * self.index_width * self.face_count == 6 * self.face_count)
                by (nonlinear_arith)
                requires
                    self.index_width == 2,
            ;
            (
                read_le16(self.indices, base),
                read_le16(self.indices, base + 2),
                read_le16(self.indices, base + 4),
            )
        } else {
            let base: usize = 3 * (i as usize);
            assert(self@.faces[i as int] == indices_at(self.indices@, base as int, 1));
            assert(3 * self.index_width * self.face_count == 3 * self.face_count)
                by (nonlinear_arith)
                requires
                    self.index_width == 1,
            ;
            (
                self.indices[base] as u16,
                self.indices[base + 1] as u16,
                self.indices[base + 2] as u16,
            )
        }
    }

    /// The colour of triangle `i`, if the mesh has colours and the triangle.
    pub fn face_color(&self, i: u16) -> (color: Option<(u8, u8, u8)>)
        ensures
            color == match self@.face_colors {
                Some(colors) => if i < colors.len() {
                    Some(colors[i as int])
                } else {
                    None
                },
                None => None,
            },
    {
        let colors: &'a [u8] = self.face_colors?;
        if i >= self.face_count {
            return None;
        }
        proof {
            use_type_invariant(self);
        }
        let base: usize = 3 * (i as usize);
        Some((colors[base], colors[base + 1], colors[base + 2]))
    }

    /// The normal of vertex `i`, if the mesh has normals and the vertex.
    pub fn vertex_normal(&self, i: u16) -> (normal: Option<Vec3I16>)
        ensures
            normal == match self@.normals {
                Some(normals) => if i < normals.len() {
                    Some(normals[i as int])
                } else {
                    None
                },
                None => None,
            },
    {
        let normals: &'a [u8] = self.vertex_normals?;
        if i >= self.vert_count {
            return None;
        }
        proof {
            use_type_invariant(self);
        }
        Some(read_vector(normals, i))
    }
}

} // verus!
