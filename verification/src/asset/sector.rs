//! The records of a grid world: sectors with a floor and a ceiling, walls,
//! surface lights.

use vstd::prelude::*;

use crate::bytes::{le16, le_i32, read_i32, read_le16};

verus! {

/// The agreed numbers of the world format.
#[derive(Clone, Copy, Debug)]
pub struct WorldFormat {
    pub magic: [u8; 4],
    pub version: u16,
    pub version_v1: u16,
    pub version_v2: u16,
    pub version_v3: u16,
    pub version_v4: u16,
    /// World flag bit: fog.
    pub fog_enabled: u8,
    /// World flag bit: surfaces carry baked vertex colours.
    pub static_vertex_lighting: u8,
    /// Sector flag bits.
    pub has_floor: u8,
    pub has_ceiling: u8,
    pub floor_walkable: u8,
    pub ceiling_walkable: u8,
    /// Triangle flag bits, for the first and the second triangle of a surface.
    pub triangle_present: [u8; 2],
    pub triangle_walkable: [u8; 2],
    /// Surface numbers in override records.
    pub floor_surface: u8,
    pub ceiling_surface: u8,
    /// Material slot that stands for none.
    pub no_material: u16,
    /// Split number of the diagonal from north-east to south-west; every
    /// other number means the diagonal from north-west to south-east.
    pub north_east_south_west: u8,
    /// Corners of the two triangles of each split.
    pub north_east_south_west_triangles: [[u8; 3]; 2],
    pub north_west_south_east_triangles: [[u8; 3]; 2],
    /// Texture corners of surfaces and walls that carry none.
    pub floor_uvs: WorldQuadUvs,
    pub wall_uvs: WorldQuadUvs,
    /// Shape of a wall with four corners.
    pub wall_quad: u16,
    /// Wall flag bit: blocks movement.
    pub wall_solid: u8,
}

/// Whether the corners of both triangles are corners of a quad.
pub open spec fn corners_exist(triangles: [[u8; 3]; 2]) -> bool {
    forall|t: int, c: int| 0 <= t < 2 && 0 <= c < 3 ==> (#[trigger] triangles[t][c]) < 4
}

impl WorldFormat {
    /// Triangles have corners of their quad.
    pub open spec fn wf(self) -> bool {
        &&& corners_exist(self.north_east_south_west_triangles)
        &&& corners_exist(self.north_west_south_east_triangles)
    }
}

/// The triangles of a split.
pub open spec fn split_triangles(split: u8, format: WorldFormat) -> [[u8; 3]; 2] {
    if split == format.north_east_south_west {
        format.north_east_south_west_triangles
    } else {
        format.north_west_south_east_triangles
    }
}

/// Texture coordinates of the four corners of a quad.
#[derive(Clone, Copy, Debug, PartialEq, Eq)]
pub struct WorldQuadUvs {
    pub corners: [(u8, u8); 4],
}

impl WorldQuadUvs {
    pub fn new(corners: [(u8, u8); 4]) -> (uvs: WorldQuadUvs)
        ensures
            uvs.corners == corners,
    {
        WorldQuadUvs { corners }
    }

    /// The coordinates in corner order.
    pub fn corners(self) -> (corners: [(u8, u8); 4])
        ensures
            corners == self.corners,
    {
        self.corners
    }
}

/// Colours of the four corners of a quad.
#[derive(Clone, Copy, Debug, PartialEq, Eq)]
pub struct WorldSurfaceLight {
    pub vertex_rgb: [[u8; 3]; 4],
}

impl WorldSurfaceLight {
    /// Full brightness.
    pub fn white() -> (light: WorldSurfaceLight)
        ensures
            forall|i: int, c: int|
                0 <= i < 4 && 0 <= c < 3 ==> #[trigger] light.vertex_rgb[i][c] == 255,
    {
        WorldSurfaceLight { vertex_rgb: [[255, 255, 255]; 4] }
    }

    pub fn new(vertex_rgb: [[u8; 3]; 4]) -> (light: WorldSurfaceLight)
        ensures
            light.vertex_rgb == vertex_rgb,
    {
        WorldSurfaceLight { vertex_rgb }
    }

    /// The colours in corner order.
    pub fn vertex_rgb(self) -> (rgb: [[u8; 3]; 4])
        ensures
            rgb == self.vertex_rgb,
    {
        self.vertex_rgb
    }
}

/// Floor or ceiling of a sector: a quad, split into two triangles.
#[derive(Clone, Copy, Debug, PartialEq, Eq)]
pub struct WorldSurface {
    pub exists: bool,
    pub split: u8,
    pub material: Option<u16>,
    pub heights: [i32; 4],
    pub uvs: WorldQuadUvs,
    pub triangle_present: [bool; 2],
    pub triangle_walkable: [bool; 2],
    pub triangle_materials: [Option<u16>; 2],
    pub triangle_heights: [[i32; 3]; 2],
    pub triangle_uvs: [WorldQuadUvs; 2],
}

/// The triangle that an index means: the second for everything but zero.
pub open spec fn triangle_index(index: usize) -> int {
    if index == 0 {
        0
    } else {
        1
    }
}

/// The material of a triangle, none for a missing triangle.
pub open spec fn triangle_material(surface: WorldSurface, index: int) -> Option<u16> {
    if surface.triangle_present[index] {
        surface.triangle_materials[index]
    } else {
        None
    }
}

/// The material of a surface: of the first triangle that has one, else of the
/// quad.
pub open spec fn surface_material(surface: WorldSurface) -> Option<u16> {
    if triangle_material(surface, 0) is Some {
        triangle_material(surface, 0)
    } else if triangle_material(surface, 1) is Some {
        triangle_material(surface, 1)
    } else {
        surface.material
    }
}

/// Whether any triangle of a surface is there.
pub open spec fn surface_shows(surface: WorldSurface) -> bool {
    surface.exists && (surface.triangle_present[0] || surface.triangle_present[1])
}

/// Whether a triangle is there and can be walked on.
pub open spec fn triangle_walks(surface: WorldSurface, index: int) -> bool {
    surface.triangle_present[index] && surface.triangle_walkable[index]
}

impl WorldSurface {
    fn shows(&self) -> (shows: bool)
        ensures
            shows == surface_shows(*self),
    {
        self.exists && (self.triangle_present[0] || self.triangle_present[1])
    }

    fn material_of(&self, index: usize) -> (material: Option<u16>)
        ensures
            material == triangle_material(*self, triangle_index(index)),
    {
        let i: usize = if index == 0 {
            0
        } else {
            1
        };
        if self.triangle_present[i] {
            self.triangle_materials[i]
        } else {
            None
        }
    }

    fn any_material(&self) -> (material: Option<u16>)
        ensures
            material == surface_material(*self),
    {
        let first = self.material_of(0);
        if first.is_some() {
            return first;
        }
        let second = self.material_of(1);
        if second.is_some() {
            return second;
        }
        self.material
    }

    fn present(&self, index: usize) -> (present: bool)
        ensures
            present == self.triangle_present[triangle_index(index)],
    {
        if index == 0 {
            self.triangle_present[0]
        } else {
            self.triangle_present[1]
        }
    }

    fn walks(&self, index: usize) -> (walks: bool)
        ensures
            walks == triangle_walks(*self, triangle_index(index)),
    {
        let i: usize = if index == 0 {
            0
        } else {
            1
        };
        self.triangle_present[i] && self.triangle_walkable[i]
    }
}

/// One cell of the grid.
#[derive(Clone, Copy, Debug, PartialEq, Eq)]
pub struct WorldSector {
    pub floor: WorldSurface,
    pub ceiling: WorldSurface,
    pub first_wall: u16,
    pub wall_count: u16,
}

/// Whether a sector has anything to show.
pub open spec fn sector_shows(sector: WorldSector) -> bool {
    surface_shows(sector.floor) || surface_shows(sector.ceiling) || sector.wall_count != 0
}

impl WorldSector {
    /// Whether the sector has a floor, a ceiling or walls.
    pub fn has_geometry(&self) -> (has: bool)
        ensures
            has == sector_shows(*self),
    {
        self.has_floor() || self.has_ceiling() || self.wall_count != 0
    }

    /// Whether any triangle of the floor is there.
    pub fn has_floor(&self) -> (has: bool)
        ensures
            has == surface_shows(self.floor),
    {
        self.floor.shows()
    }

    /// Whether any triangle of the ceiling is there.
    pub fn has_ceiling(&self) -> (has: bool)
        ensures
            has == surface_shows(self.ceiling),
    {
        self.ceiling.shows()
    }

    /// Whether any triangle of the floor can be walked on.
    pub fn floor_walkable(&self) -> (walkable: bool)
        ensures
            walkable == (triangle_walks(self.floor, 0) || triangle_walks(self.floor, 1)),
    {
        self.floor.walks(0) || self.floor.walks(1)
    }

    /// Split number of the floor.
    pub fn floor_split(&self) -> (split: u8)
        ensures
            split == self.floor.split,
    {
        self.floor.split
    }

    /// Material of the floor.
    pub fn floor_material(&self) -> (material: Option<u16>)
        ensures
            material == surface_material(self.floor),
    {
        self.floor.any_material()
    }

    /// Corner heights of the floor.
    pub fn floor_heights(&self) -> (heights: [i32; 4])
        ensures
            heights == self.floor.heights,
    {
        self.floor.heights
    }

    /// Texture corners of the floor.
    pub fn floor_uvs(&self) -> (uvs: WorldQuadUvs)
        ensures
            uvs == self.floor.uvs,
    {
        self.floor.uvs
    }

    /// Whether a triangle of the floor is there.
    pub fn floor_triangle_present(&self, index: usize) -> (present: bool)
        ensures
            present == self.floor.triangle_present[triangle_index(index)],
    {
        self.floor.present(index)
    }

    /// Material of a triangle of the floor.
    pub fn floor_triangle_material(&self, index: usize) -> (material: Option<u16>)
        ensures
            material == triangle_material(self.floor, triangle_index(index)),
    {
        self.floor.material_of(index)
    }

    /// Texture corners of a triangle of the floor.
    pub fn floor_triangle_uvs(&self, index: usize) -> (uvs: WorldQuadUvs)
        ensures
            uvs == self.floor.triangle_uvs[triangle_index(index)],
    {
        if index == 0 {
            self.floor.triangle_uvs[0]
        } else {
            self.floor.triangle_uvs[1]
        }
    }

    /// Corner heights of a triangle of the floor.
    pub fn floor_triangle_heights(&self, index: usize) -> (heights: [i32; 3])
        ensures
            heights == self.floor.triangle_heights[triangle_index(index)],
    {
        if index == 0 {
            self.floor.triangle_heights[0]
        } else {
            self.floor.triangle_heights[1]
        }
    }

    /// Whether a triangle of the floor can be walked on.
    pub fn floor_triangle_walkable(&self, index: usize) -> (walkable: bool)
        ensures
            walkable == triangle_walks(self.floor, triangle_index(index)),
    {
        self.floor.walks(index)
    }

    /// Split number of the ceiling.
    pub fn ceiling_split(&self) -> (split: u8)
        ensures
            split == self.ceiling.split,
    {
        self.ceiling.split
    }

    /// Material of the ceiling.
    pub fn ceiling_material(&self) -> (material: Option<u16>)
        ensures
            material == surface_material(self.ceiling),
    {
        self.ceiling.any_material()
    }

    /// Corner heights of the ceiling.
    pub fn ceiling_heights(&self) -> (heights: [i32; 4])
        ensures
            heights == self.ceiling.heights,
    {
        self.ceiling.heights
    }

    /// Texture corners of the ceiling.
    pub fn ceiling_uvs(&self) -> (uvs: WorldQuadUvs)
        ensures
            uvs == self.ceiling.uvs,
    {
        self.ceiling.uvs
    }

    /// Whether a triangle of the ceiling is there.
    pub fn ceiling_triangle_present(&self, index: usize) -> (present: bool)
        ensures
            present == self.ceiling.triangle_present[triangle_index(index)],
    {
        self.ceiling.present(index)
    }

    /// Material of a triangle of the ceiling.
    pub fn ceiling_triangle_material(&self, index: usize) -> (material: Option<u16>)
        ensures
            material == triangle_material(self.ceiling, triangle_index(index)),
    {
        self.ceiling.material_of(index)
    }

    /// Texture corners of a triangle of the ceiling.
    pub fn ceiling_triangle_uvs(&self, index: usize) -> (uvs: WorldQuadUvs)
        ensures
            uvs == self.ceiling.triangle_uvs[triangle_index(index)],
    {
        if index == 0 {
            self.ceiling.triangle_uvs[0]
        } else {
            self.ceiling.triangle_uvs[1]
        }
    }

    /// Corner heights of a triangle of the ceiling.
    pub fn ceiling_triangle_heights(&self, index: usize) -> (heights: [i32; 3])
        ensures
            heights == self.ceiling.triangle_heights[triangle_index(index)],
    {
        if index == 0 {
            self.ceiling.triangle_heights[0]
        } else {
            self.ceiling.triangle_heights[1]
        }
    }

    /// Whether a triangle of the ceiling can be walked on.
    pub fn ceiling_triangle_walkable(&self, index: usize) -> (walkable: bool)
        ensures
            walkable == triangle_walks(self.ceiling, triangle_index(index)),
    {
        self.ceiling.walks(index)
    }

    /// First wall of the sector.
    pub fn first_wall(&self) -> (index: u16)
        ensures
            index == self.first_wall,
    {
        self.first_wall
    }

    /// Number of walls of the sector.
    pub fn wall_count(&self) -> (count: u16)
        ensures
            count == self.wall_count,
    {
        self.wall_count
    }
}

/// What a collision probe needs of a sector.
#[derive(Clone, Copy, Debug, PartialEq, Eq, Structural)]
pub struct WorldSectorCollisionProbe {
    pub has_floor: bool,
    pub has_ceiling: bool,
    pub first_wall: u16,
    pub wall_count: u16,
}

impl WorldSectorCollisionProbe {
    /// Whether the sector has a floor, a ceiling or walls.
    pub fn has_geometry(self) -> (has: bool)
        ensures
            has == (self.has_floor || self.has_ceiling || self.wall_count != 0),
    {
        self.has_floor || self.has_ceiling || self.wall_count != 0
    }

    /// Whether the sector has a floor.
    pub fn has_floor(self) -> (has: bool)
        ensures
            has == self.has_floor,
    {
        self.has_floor
    }

    /// Whether the sector has a ceiling.
    pub fn has_ceiling(self) -> (has: bool)
        ensures
            has == self.has_ceiling,
    {
        self.has_ceiling
    }

    /// First wall of the sector.
    pub fn first_wall(self) -> (index: u16)
        ensures
            index == self.first_wall,
    {
        self.first_wall
    }

    /// Number of walls of the sector.
    pub fn wall_count(self) -> (count: u16)
        ensures
            count == self.wall_count,
    {
        self.wall_count
    }
}

/// The floor triangle under a point.
#[derive(Clone, Copy, Debug, PartialEq, Eq)]
pub struct WorldSectorFloorCollision {
    pub split: u8,
    pub triangle: u8,
    pub walkable: bool,
    pub floor_heights: [i32; 4],
    pub triangle_heights: [i32; 3],
}

impl WorldSectorFloorCollision {
    /// Split number of the floor.
    pub fn split(self) -> (split: u8)
        ensures
            split == self.split,
    {
        self.split
    }

    /// Which triangle it is.
    pub fn triangle(self) -> (triangle: usize)
        ensures
            triangle == self.triangle,
    {
        self.triangle as usize
    }

    /// Whether the triangle can be walked on.
    pub fn walkable(self) -> (walkable: bool)
        ensures
            walkable == self.walkable,
    {
        self.walkable
    }

    /// Corner heights of the whole floor.
    pub fn floor_heights(self) -> (heights: [i32; 4])
        ensures
            heights == self.floor_heights,
    {
        self.floor_heights
    }

    /// Corner heights of the triangle.
    pub fn triangle_heights(self) -> (heights: [i32; 3])
        ensures
            heights == self.triangle_heights,
    {
        self.triangle_heights
    }
}

/// A wall.
#[derive(Clone, Copy, Debug, PartialEq, Eq)]
pub struct WorldWall {
    pub direction: u8,
    pub solid: bool,
    pub material: u16,
    pub shape: u16,
    pub heights: [i32; 4],
    pub uvs: WorldQuadUvs,
}

impl WorldWall {
    /// Direction number.
    pub fn direction(&self) -> (direction: u8)
        ensures
            direction == self.direction,
    {
        self.direction
    }

    /// Whether the wall blocks movement.
    pub fn solid(&self) -> (solid: bool)
        ensures
            solid == self.solid,
    {
        self.solid
    }

    /// Material slot.
    pub fn material(&self) -> (material: u16)
        ensures
            material == self.material,
    {
        self.material
    }

    /// Shape number.
    pub fn shape(&self) -> (shape: u16)
        ensures
            shape == self.shape,
    {
        self.shape
    }

    /// Corner heights: bottom left, bottom right, top right, top left.
    pub fn heights(&self) -> (heights: [i32; 4])
        ensures
            heights == self.heights,
    {
        self.heights
    }

    /// Texture corners, in the order of the heights.
    pub fn uvs(&self) -> (uvs: WorldQuadUvs)
        ensures
            uvs == self.uvs,
    {
        self.uvs
    }
}

/// Four signed 32-bit numbers at `at`.
pub open spec fn heights_at(bytes: Seq<u8>, at: int) -> [i32; 4] {
    [le_i32(bytes, at), le_i32(bytes, at + 4), le_i32(bytes, at + 8), le_i32(bytes, at + 12)]
}

/// Three signed 32-bit numbers at `at`.
pub open spec fn triangle_at(bytes: Seq<u8>, at: int) -> [i32; 3] {
    [le_i32(bytes, at), le_i32(bytes, at + 4), le_i32(bytes, at + 8)]
}

/// Four texture corners at `at`.
pub open spec fn uvs_at(bytes: Seq<u8>, at: int) -> WorldQuadUvs {
    WorldQuadUvs {
        corners: [
            (bytes[at], bytes[at + 1]),
            (bytes[at + 2], bytes[at + 3]),
            (bytes[at + 4], bytes[at + 5]),
            (bytes[at + 6], bytes[at + 7]),
        ],
    }
}

/// Four colours at `at`.
pub open spec fn light_at(bytes: Seq<u8>, at: int) -> WorldSurfaceLight {
    WorldSurfaceLight {
        vertex_rgb: [
            [bytes[at], bytes[at + 1], bytes[at + 2]],
            [bytes[at + 3], bytes[at + 4], bytes[at + 5]],
            [bytes[at + 6], bytes[at + 7], bytes[at + 8]],
            [bytes[at + 9], bytes[at + 10], bytes[at + 11]],
        ],
    }
}

/// A material slot, or none.
pub open spec fn slot(material: u16, format: WorldFormat) -> Option<u16> {
    if material == format.no_material {
        None
    } else {
        Some(material)
    }
}

/// Triangle flags of a surface that no override record speaks of.
pub open spec fn default_triangle_flags(exists: bool, walkable: bool, format: WorldFormat) -> u8 {
    let present = format.triangle_present[0] | format.triangle_present[1];
    if !exists {
        0
    } else if walkable {
        present | (format.triangle_walkable[0] | format.triangle_walkable[1])
    } else {
        present
    }
}

/// The heights of a triangle, from those of its quad.
pub open spec fn triangle_of_quad(heights: [i32; 4], corners: [u8; 3]) -> [i32; 3] {
    [heights[corners[0] as int], heights[corners[1] as int], heights[corners[2] as int]]
}

/// What an override record says of a surface.
#[derive(Clone, Copy)]
pub struct SurfaceOverride {
    pub flags: u8,
    pub materials: [u16; 2],
    pub uvs: [WorldQuadUvs; 2],
    pub heights: Option<[[i32; 3]; 2]>,
}

/// The override record at `at`, `size` bytes long; only long ones hold heights.
pub open spec fn override_at(bytes: Seq<u8>, at: int, size: int) -> SurfaceOverride {
    SurfaceOverride {
        flags: bytes[at + 3],
        materials: [le16(bytes, at + 4), le16(bytes, at + 6)],
        uvs: [uvs_at(bytes, at + 8), uvs_at(bytes, at + 16)],
        heights: if size >= 48 {
            Some([triangle_at(bytes, at + 24), triangle_at(bytes, at + 36)])
        } else {
            None
        },
    }
}

/// The fields of a sector record that one of its surfaces reads.
#[derive(Clone, Copy)]
pub struct SurfaceFields {
    pub exists: bool,
    pub walkable: bool,
    pub split: u8,
    pub material: u16,
    pub heights: [i32; 4],
    pub uvs: WorldQuadUvs,
}

/// A surface, from the fields of its sector and an override record, if any.
pub open spec fn surface_of(
    fields: SurfaceFields,
    replaced: Option<SurfaceOverride>,
    format: WorldFormat,
) -> WorldSurface {
    let corners = split_triangles(fields.split, format);
    let flags = match replaced {
        Some(r) => r.flags,
        None => default_triangle_flags(fields.exists, fields.walkable, format),
    };
    WorldSurface {
        exists: fields.exists,
        split: fields.split,
        material: slot(fields.material, format),
        heights: fields.heights,
        uvs: fields.uvs,
        triangle_present: [
            flags & format.triangle_present[0] != 0,
            flags & format.triangle_present[1] != 0,
        ],
        triangle_walkable: [
            flags & format.triangle_walkable[0] != 0,
            flags & format.triangle_walkable[1] != 0,
        ],
        triangle_materials: match replaced {
            Some(r) => [slot(r.materials[0], format), slot(r.materials[1], format)],
            None => [slot(fields.material, format), slot(fields.material, format)],
        },
        triangle_heights: match replaced {
            Some(SurfaceOverride { heights: Some(heights), .. }) => heights,
            _ => [
                triangle_of_quad(fields.heights, corners[0]),
                triangle_of_quad(fields.heights, corners[1]),
            ],
        },
        triangle_uvs: match replaced {
            Some(r) => r.uvs,
            None => [fields.uvs, fields.uvs],
        },
    }
}

/// The floor fields of the sector record at `at`, `size` bytes long; short
/// records hold no texture corners.
pub open spec fn floor_fields(
    bytes: Seq<u8>,
    at: int,
    size: int,
    format: WorldFormat,
) -> SurfaceFields {
    SurfaceFields {
        exists: bytes[at] & format.has_floor != 0,
        walkable: bytes[at] & format.floor_walkable != 0,
        split: bytes[at + 1],
        material: le16(bytes, at + 4),
        heights: heights_at(bytes, at + 12),
        uvs: if size >= 60 {
            uvs_at(bytes, at + 44)
        } else {
            format.floor_uvs
        },
    }
}

/// The ceiling fields of the sector record at `at`.
pub open spec fn ceiling_fields(
    bytes: Seq<u8>,
    at: int,
    size: int,
    format: WorldFormat,
) -> SurfaceFields {
    SurfaceFields {
        exists: bytes[at] & format.has_ceiling != 0,
        walkable: bytes[at] & format.ceiling_walkable != 0,
        split: bytes[at + 2],
        material: le16(bytes, at + 6),
        heights: heights_at(bytes, at + 28),
        uvs: if size >= 60 {
            uvs_at(bytes, at + 52)
        } else {
            format.floor_uvs
        },
    }
}

/// The sector record at `at`, with the override records of its surfaces.
pub open spec fn sector_at(
    bytes: Seq<u8>,
    at: int,
    size: int,
    floor: Option<SurfaceOverride>,
    ceiling: Option<SurfaceOverride>,
    format: WorldFormat,
) -> WorldSector {
    WorldSector {
        floor: surface_of(floor_fields(bytes, at, size, format), floor, format),
        ceiling: surface_of(ceiling_fields(bytes, at, size, format), ceiling, format),
        first_wall: le16(bytes, at + 8),
        wall_count: le16(bytes, at + 10),
    }
}

/// The wall record at `at`, `size` bytes long; short records hold neither a
/// shape nor texture corners.
pub open spec fn wall_at(bytes: Seq<u8>, at: int, size: int, format: WorldFormat) -> WorldWall {
    WorldWall {
        direction: bytes[at],
        solid: bytes[at + 1] & format.wall_solid != 0,
        material: le16(bytes, at + 4),
        shape: if size >= 32 {
            le16(bytes, at + 6)
        } else {
            format.wall_quad
        },
        heights: heights_at(bytes, at + 8),
        uvs: if size >= 32 {
            uvs_at(bytes, at + 24)
        } else {
            format.wall_uvs
        },
    }
}

pub(crate) fn read_heights(bytes: &[u8], at: usize) -> (heights: [i32; 4])
    requires
        at + 16 <= bytes@.len(),
    ensures
        heights == heights_at(bytes@, at as int),
{
    assert(bytes@.len() == bytes.len());
    let heights: [i32; 4] = [
        read_i32(bytes, at),
        read_i32(bytes, at + 4),
        read_i32(bytes, at + 8),
        read_i32(bytes, at + 12),
    ];
    assert(heights =~= heights_at(bytes@, at as int));
    heights
}

pub(crate) fn read_triangle(bytes: &[u8], at: usize) -> (heights: [i32; 3])
    requires
        at + 12 <= bytes@.len(),
    ensures
        heights == triangle_at(bytes@, at as int),
{
    assert(bytes@.len() == bytes.len());
    let heights: [i32; 3] = [
        read_i32(bytes, at),
        read_i32(bytes, at + 4),
        read_i32(bytes, at + 8),
    ];
    assert(heights =~= triangle_at(bytes@, at as int));
    heights
}

pub(crate) fn read_uvs(bytes: &[u8], at: usize) -> (uvs: WorldQuadUvs)
    requires
        at + 8 <= bytes@.len(),
    ensures
        uvs == uvs_at(bytes@, at as int),
{
    assert(bytes@.len() == bytes.len());
    let corners: [(u8, u8); 4] = [
        (bytes[at], bytes[at + 1]),
        (bytes[at + 2], bytes[at + 3]),
        (bytes[at + 4], bytes[at + 5]),
        (bytes[at + 6], bytes[at + 7]),
    ];
    assert(corners =~= uvs_at(bytes@, at as int).corners);
    WorldQuadUvs { corners }
}

fn read_rgb(bytes: &[u8], at: usize) -> (rgb: [u8; 3])
    requires
        at + 3 <= bytes@.len(),
    ensures
        rgb == [bytes@[at as int], bytes@[at + 1], bytes@[at + 2]],
{
    assert(bytes@.len() == bytes.len());
    let rgb: [u8; 3] = [bytes[at], bytes[at + 1], bytes[at + 2]];
    assert(rgb =~= [bytes@[at as int], bytes@[at + 1], bytes@[at + 2]]);
    rgb
}

pub(crate) fn read_light(bytes: &[u8], at: usize) -> (light: WorldSurfaceLight)
    requires
        at + 12 <= bytes@.len(),
    ensures
        light == light_at(bytes@, at as int),
{
    assert(bytes@.len() == bytes.len());
    let vertex_rgb: [[u8; 3]; 4] = [
        read_rgb(bytes, at),
        read_rgb(bytes, at + 3),
        read_rgb(bytes, at + 6),
        read_rgb(bytes, at + 9),
    ];
    assert(vertex_rgb =~= light_at(bytes@, at as int).vertex_rgb);
    WorldSurfaceLight { vertex_rgb }
}

pub(crate) fn read_override(bytes: &[u8], at: usize, size: usize) -> (r: SurfaceOverride)
    requires
        size >= 24,
        at + size <= bytes@.len(),
    ensures
        r == override_at(bytes@, at as int, size as int),
{
    assert(bytes@.len() == bytes.len());
    let materials: [u16; 2] = [read_le16(bytes, at + 4), read_le16(bytes, at + 6)];
    let uvs: [WorldQuadUvs; 2] = [read_uvs(bytes, at + 8), read_uvs(bytes, at + 16)];
    let heights: Option<[[i32; 3]; 2]> = if size >= 48 {
        let pair: [[i32; 3]; 2] = [read_triangle(bytes, at + 24), read_triangle(bytes, at + 36)];
        assert(pair =~= [triangle_at(bytes@, at + 24), triangle_at(bytes@, at + 36)]);
        Some(pair)
    } else {
        None
    };
    assert(materials =~= override_at(bytes@, at as int, size as int).materials);
    assert(uvs =~= override_at(bytes@, at as int, size as int).uvs);
    SurfaceOverride { flags: bytes[at + 3], materials, uvs, heights }
}

/// Triangle flags without an override record.
pub(crate) fn triangle_flags(exists: bool, walkable: bool, format: &WorldFormat) -> (flags: u8)
    ensures
        flags == default_triangle_flags(exists, walkable, *format),
{
    if !exists {
        return 0;
    }
    let present: u8 = format.triangle_present[0] | format.triangle_present[1];
    if walkable {
        present | (format.triangle_walkable[0] | format.triangle_walkable[1])
    } else {
        present
    }
}

/// The heights of a triangle of a split quad.
pub(crate) fn split_heights(
    heights: &[i32; 4],
    split: u8,
    triangle: usize,
    format: &WorldFormat,
) -> (r: [i32; 3])
    requires
        format.wf(),
        triangle < 2,
    ensures
        r == triangle_of_quad(*heights, split_triangles(split, *format)[triangle as int]),
{
    let triangles: &[[u8; 3]; 2] = if split == format.north_east_south_west {
        &format.north_east_south_west_triangles
    } else {
        &format.north_west_south_east_triangles
    };
    let corners: [u8; 3] = triangles[triangle];
    assert(triangles[triangle as int][0] < 4 && triangles[triangle as int][1] < 4
        && triangles[triangle as int][2] < 4);
    let r: [i32; 3] = [
        heights[corners[0] as usize],
        heights[corners[1] as usize],
        heights[corners[2] as usize],
    ];
    assert(r =~= triangle_of_quad(*heights, corners));
    r
}

fn slot_of(material: u16, format: &WorldFormat) -> (s: Option<u16>)
    ensures
        s == slot(material, *format),
{
    if material == format.no_material {
        None
    } else {
        Some(material)
    }
}

fn build_surface(
    fields: SurfaceFields,
    replaced: Option<SurfaceOverride>,
    format: &WorldFormat,
) -> (surface: WorldSurface)
    requires
        format.wf(),
    ensures
        surface == surface_of(fields, replaced, *format),
{
    let ghost wanted = surface_of(fields, replaced, *format);
    let flags: u8 = match &replaced {
        Some(r) => r.flags,
        None => triangle_flags(fields.exists, fields.walkable, format),
    };
    let triangle_present: [bool; 2] = [
        flags & format.triangle_present[0] != 0,
        flags & format.triangle_present[1] != 0,
    ];
    let triangle_walkable: [bool; 2] = [
        flags & format.triangle_walkable[0] != 0,
        flags & format.triangle_walkable[1] != 0,
    ];
    let triangle_materials: [Option<u16>; 2] = match &replaced {
        Some(r) => [slot_of(r.materials[0], format), slot_of(r.materials[1], format)],
        None => [slot_of(fields.material, format), slot_of(fields.material, format)],
    };
    let own_heights: [[i32; 3]; 2] = [
        split_heights(&fields.heights, fields.split, 0, format),
        split_heights(&fields.heights, fields.split, 1, format),
    ];
    let triangle_heights: [[i32; 3]; 2] = match &replaced {
        Some(r) => match r.heights {
            Some(heights) => heights,
            None => own_heights,
        },
        None => own_heights,
    };
    let triangle_uvs: [WorldQuadUvs; 2] = match &replaced {
        Some(r) => r.uvs,
        None => [fields.uvs, fields.uvs],
    };
    assert(triangle_present =~= wanted.triangle_present);
    assert(triangle_walkable =~= wanted.triangle_walkable);
    assert(triangle_materials =~= wanted.triangle_materials);
    assert(triangle_heights =~= wanted.triangle_heights);
    assert(triangle_uvs =~= wanted.triangle_uvs);
    WorldSurface {
        exists: fields.exists,
        split: fields.split,
        material: slot_of(fields.material, format),
        heights: fields.heights,
        uvs: fields.uvs,
        triangle_present,
        triangle_walkable,
        triangle_materials,
        triangle_heights,
        triangle_uvs,
    }
}

/// Decode a sector record.
pub(crate) fn read_sector(
    bytes: &[u8],
    at: usize,
    size: usize,
    floor: Option<SurfaceOverride>,
    ceiling: Option<SurfaceOverride>,
    format: &WorldFormat,
) -> (sector: WorldSector)
    requires
        format.wf(),
        size >= 44,
        44 <= size < 60 || at + 60 <= bytes@.len(),
        at + 44 <= bytes@.len(),
    ensures
        sector == sector_at(bytes@, at as int, size as int, floor, ceiling, *format),
{
    assert(bytes@.len() == bytes.len());
    let flags: u8 = bytes[at];
    let long: bool = size >= 60;
    let floor_fields = SurfaceFields {
        exists: flags & format.has_floor != 0,
        walkable: flags & format.floor_walkable != 0,
        split: bytes[at + 1],
        material: read_le16(bytes, at + 4),
        heights: read_heights(bytes, at + 12),
        uvs: if long {
            read_uvs(bytes, at + 44)
        } else {
            format.floor_uvs
        },
    };
    let ceiling_fields = SurfaceFields {
        exists: flags & format.has_ceiling != 0,
        walkable: flags & format.ceiling_walkable != 0,
        split: bytes[at + 2],
        material: read_le16(bytes, at + 6),
        heights: read_heights(bytes, at + 28),
        uvs: if long {
            read_uvs(bytes, at + 52)
        } else {
            format.floor_uvs
        },
    };
    WorldSector {
        floor: build_surface(floor_fields, floor, format),
        ceiling: build_surface(ceiling_fields, ceiling, format),
        first_wall: read_le16(bytes, at + 8),
        wall_count: read_le16(bytes, at + 10),
    }
}

/// Decode a wall record.
pub(crate) fn read_wall(bytes: &[u8], at: usize, size: usize, format: &WorldFormat) -> (wall:
    WorldWall)
    requires
        24 <= size <= 32,
        at + size <= bytes@.len(),
    ensures
        wall == wall_at(bytes@, at as int, size as int, *format),
{
    assert(bytes@.len() == bytes.len());
    let long: bool = size >= 32;
    WorldWall {
        direction: bytes[at],
        solid: bytes[at + 1] & format.wall_solid != 0,
        material: read_le16(bytes, at + 4),
        shape: if long {
            read_le16(bytes, at + 6)
        } else {
            format.wall_quad
        },
        heights: read_heights(bytes, at + 8),
        uvs: if long {
            read_uvs(bytes, at + 24)
        } else {
            format.wall_uvs
        },
    }
}

} // verus!
