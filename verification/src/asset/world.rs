//! Grid worlds.

use vstd::prelude::*;

use crate::asset::header::{
    check_magic, check_payload, magic_fault, payload_fault, take_table, version_of, viewed,
    ParseError,
};
use crate::asset::sector::{
    light_at, override_at, read_heights, read_light, read_override,
    read_sector, read_triangle, read_wall, sector_at, sector_shows, split_heights, triangle_flags,
    wall_at, SurfaceOverride, WorldFormat, WorldSector, WorldSectorCollisionProbe,
    WorldSectorFloorCollision, WorldSurfaceLight, WorldWall,
};
use crate::bytes::{le16, le_i32, read_i32, read_le16};

verus! {

/// Bytes in the header of the first three versions.
pub const WORLD_V3_HEADER_SIZE: usize = 20;

/// Bytes in the header of later versions.
pub const WORLD_HEADER_SIZE: usize = 24;

/// Bytes in a sector record of the first version.
pub const WORLD_V1_SECTOR_RECORD_SIZE: usize = 44;

/// Bytes in a wall record of the first version.
pub const WORLD_V1_WALL_RECORD_SIZE: usize = 24;

/// Bytes in a sector record of later versions.
pub const WORLD_SECTOR_RECORD_SIZE: usize = 60;

/// Bytes in a wall record of later versions.
pub const WORLD_WALL_RECORD_SIZE: usize = 32;

/// Bytes in an override record of the fourth version.
pub const WORLD_V4_HORIZONTAL_OVERRIDE_RECORD_SIZE: usize = 24;

/// Bytes in an override record of later versions.
pub const WORLD_HORIZONTAL_OVERRIDE_RECORD_SIZE: usize = 48;

/// Bytes in a surface light record.
pub const WORLD_SURFACE_LIGHT_RECORD_SIZE: usize = 12;

/// The record sizes of a version, and which tables it has.
#[derive(Clone, Copy, Debug, PartialEq, Eq, Structural)]
pub struct WorldLayout {
    pub header: usize,
    pub sector: usize,
    pub wall: usize,
    pub horizontal_override: usize,
    pub has_lights: bool,
    pub has_overrides: bool,
}

/// The layout of a version, or nothing for a version that is not read.
pub open spec fn layout_of(version: u16, format: WorldFormat) -> Option<WorldLayout> {
    if version == format.version_v1 {
        Some(
            WorldLayout {
                header: WORLD_V3_HEADER_SIZE,
                sector: WORLD_V1_SECTOR_RECORD_SIZE,
                wall: WORLD_V1_WALL_RECORD_SIZE,
                horizontal_override: WORLD_HORIZONTAL_OVERRIDE_RECORD_SIZE,
                has_lights: false,
                has_overrides: false,
            },
        )
    } else if version == format.version_v2 || version == format.version_v3 {
        Some(
            WorldLayout {
                header: WORLD_V3_HEADER_SIZE,
                sector: WORLD_SECTOR_RECORD_SIZE,
                wall: WORLD_WALL_RECORD_SIZE,
                horizontal_override: WORLD_HORIZONTAL_OVERRIDE_RECORD_SIZE,
                has_lights: version == format.version_v3,
                has_overrides: false,
            },
        )
    } else if version == format.version_v4 || version == format.version {
        Some(
            WorldLayout {
                header: WORLD_HEADER_SIZE,
                sector: WORLD_SECTOR_RECORD_SIZE,
                wall: WORLD_WALL_RECORD_SIZE,
                horizontal_override: if version == format.version_v4 {
                    WORLD_V4_HORIZONTAL_OVERRIDE_RECORD_SIZE
                } else {
                    WORLD_HORIZONTAL_OVERRIDE_RECORD_SIZE
                },
                has_lights: true,
                has_overrides: true,
            },
        )
    } else {
        None
    }
}

/// The counts in a world header.
pub struct WorldCounts {
    pub width: u16,
    pub depth: u16,
    pub sectors: u16,
    pub walls: u16,
    pub lights: u16,
    pub overrides: u16,
    pub lit: bool,
}

/// The counts of a blob.
pub open spec fn counts_of(bytes: Seq<u8>, layout: WorldLayout, format: WorldFormat) -> WorldCounts {
    WorldCounts {
        width: le16(bytes, 12),
        depth: le16(bytes, 14),
        sectors: le16(bytes, 20),
        walls: le16(bytes, 24),
        lights: if layout.has_lights {
            le16(bytes, 30)
        } else {
            0
        },
        overrides: if layout.has_overrides {
            le16(bytes, 32)
        } else {
            0
        },
        lit: layout.has_lights && bytes[29] & format.static_vertex_lighting != 0,
    }
}

/// One sector per cell; two lights per sector and one per wall in a lit world,
/// none in another.
pub open spec fn counts_agree(counts: WorldCounts) -> bool {
    &&& counts.sectors == counts.width * counts.depth
    &&& counts.lights == if counts.lit {
        2 * counts.sectors + counts.walls
    } else {
        0
    }
}

/// The first of the override records from `from` on that speaks of a surface
/// of a sector.
pub open spec fn find_override(
    table: Seq<u8>,
    size: int,
    from: int,
    count: int,
    sector: int,
    surface: u8,
) -> Option<SurfaceOverride>
    decreases count - from,
{
    if from >= count {
        None
    } else if le16(table, from * size) == sector && table[from * size + 2] == surface {
        Some(override_at(table, from * size, size))
    } else {
        find_override(table, size, from + 1, count, sector, surface)
    }
}

/// The tables of a world.
pub struct WorldTables {
    pub layout: WorldLayout,
    pub sectors: Seq<u8>,
    pub walls: Seq<u8>,
    pub overrides: Seq<u8>,
    pub lights: Seq<u8>,
    pub override_count: int,
}

/// A sector, with or without what the override records say.
pub open spec fn tabled_sector(
    tables: WorldTables,
    index: int,
    overridden: bool,
    format: WorldFormat,
) -> WorldSector {
    let size = tables.layout.horizontal_override as int;
    let count = tables.override_count;
    let (floor, ceiling) = if overridden {
        (
            find_override(tables.overrides, size, 0, count, index, format.floor_surface),
            find_override(tables.overrides, size, 0, count, index, format.ceiling_surface),
        )
    } else {
        (None, None)
    };
    sector_at(
        tables.sectors,
        index * tables.layout.sector,
        tables.layout.sector as int,
        floor,
        ceiling,
        format,
    )
}

/// What a world holds. Sectors are listed column by column, `x * depth + z`.
pub struct WorldView {
    pub width: u16,
    pub depth: u16,
    pub sector_size: i32,
    pub material_count: u16,
    pub ambient_color: [u8; 3],
    pub fog_enabled: bool,
    pub static_vertex_lighting: bool,
    pub override_count: u16,
    pub sectors: Seq<WorldSector>,
    /// The sectors as they are without override records.
    pub plain_sectors: Seq<WorldSector>,
    pub walls: Seq<WorldWall>,
    pub lights: Seq<WorldSurfaceLight>,
}

/// Whether the walls of a sector exist.
pub open spec fn walls_exist(first: u16, count: u16, walls: u16) -> bool {
    first + count <= walls
}

/// Whether every override record speaks of the floor or ceiling of a sector.
pub open spec fn overrides_apply(
    table: Seq<u8>,
    size: int,
    count: int,
    sectors: u16,
    format: WorldFormat,
) -> bool {
    forall|i: int|
        #![trigger le16(table, i * size)]
        0 <= i < count ==> le16(table, i * size) < sectors && (table[i * size + 2]
            == format.floor_surface || table[i * size + 2] == format.ceiling_surface)
}

/// Where the tables of a blob end.
pub struct WorldEnds {
    pub sectors: int,
    pub walls: int,
    pub overrides: int,
    pub lights: int,
}

/// The table ends that the counts give.
pub open spec fn ends_of(counts: WorldCounts, layout: WorldLayout) -> WorldEnds {
    let sectors = 12 + layout.header + counts.sectors * layout.sector;
    let walls = sectors + counts.walls * layout.wall;
    let overrides = walls + counts.overrides * layout.horizontal_override;
    let lights = overrides + counts.lights * WORLD_SURFACE_LIGHT_RECORD_SIZE;
    WorldEnds { sectors, walls, overrides, lights }
}

/// The tables of a blob.
pub open spec fn tables_of(bytes: Seq<u8>, counts: WorldCounts, layout: WorldLayout) -> WorldTables {
    let ends = ends_of(counts, layout);
    WorldTables {
        layout,
        sectors: bytes.subrange(12 + layout.header, ends.sectors),
        walls: bytes.subrange(ends.sectors, ends.walls),
        overrides: bytes.subrange(ends.walls, ends.overrides),
        lights: bytes.subrange(ends.overrides, ends.lights),
        override_count: counts.overrides as int,
    }
}

/// The sectors of a world's tables.
pub open spec fn tabled_sectors(
    tables: WorldTables,
    count: int,
    overridden: bool,
    format: WorldFormat,
) -> Seq<WorldSector> {
    Seq::new(count as nat, |i: int| tabled_sector(tables, i, overridden, format))
}

/// The walls of a world's tables.
pub open spec fn tabled_walls(tables: WorldTables, count: int, format: WorldFormat) -> Seq<
    WorldWall,
> {
    Seq::new(
        count as nat,
        |i: int| wall_at(tables.walls, i * tables.layout.wall, tables.layout.wall as int, format),
    )
}

/// The lights of a world's tables.
pub open spec fn tabled_lights(tables: WorldTables, count: int) -> Seq<WorldSurfaceLight> {
    Seq::new(
        count as nat,
        |i: int| light_at(tables.lights, i * WORLD_SURFACE_LIGHT_RECORD_SIZE),
    )
}

/// The world that a blob's header and tables describe.
pub open spec fn described_world(bytes: Seq<u8>, layout: WorldLayout, format: WorldFormat) -> WorldView {
    let counts = counts_of(bytes, layout, format);
    let tables = tables_of(bytes, counts, layout);
    WorldView {
        width: counts.width,
        depth: counts.depth,
        sector_size: le_i32(bytes, 16),
        material_count: le16(bytes, 22),
        ambient_color: [bytes[26], bytes[27], bytes[28]],
        fog_enabled: bytes[29] & format.fog_enabled != 0,
        static_vertex_lighting: counts.lit,
        override_count: counts.overrides,
        sectors: tabled_sectors(tables, counts.sectors as int, true, format),
        plain_sectors: tabled_sectors(tables, counts.sectors as int, false, format),
        walls: tabled_walls(tables, counts.walls as int, format),
        lights: tabled_lights(tables, counts.lights as int),
    }
}

/// Whether the tables of a blob speak of existing walls and sectors only.
pub open spec fn tables_agree(bytes: Seq<u8>, layout: WorldLayout, format: WorldFormat) -> bool {
    let counts = counts_of(bytes, layout, format);
    let tables = tables_of(bytes, counts, layout);
    &&& sectors_agree(tables, counts.sectors as int, counts.walls)
    &&& overrides_apply(
        tables.overrides,
        layout.horizontal_override as int,
        counts.overrides as int,
        counts.sectors,
        format,
    )
}

/// Whether the walls of every sector exist.
pub open spec fn sectors_agree(tables: WorldTables, count: int, walls: u16) -> bool {
    forall|i: int|
        #![trigger le16(tables.sectors, i * tables.layout.sector + 8)]
        0 <= i < count ==> walls_exist(
            le16(tables.sectors, i * tables.layout.sector + 8),
            le16(tables.sectors, i * tables.layout.sector + 10),
            walls,
        )
}

/// The world in a blob.
pub open spec fn world_of(bytes: Seq<u8>, format: WorldFormat) -> Result<WorldView, ParseError> {
    if let Some(error) = magic_fault(bytes, format.magic@) {
        Err(error)
    } else if layout_of(version_of(bytes), format) is None {
        Err(ParseError::UnsupportedVersion(version_of(bytes)))
    } else {
        let layout = layout_of(version_of(bytes), format)->0;
        let counts = counts_of(bytes, layout, format);
        if let Some(error) = payload_fault(bytes, layout.header as int) {
            Err(error)
        } else if !counts_agree(counts) {
            Err(ParseError::InvalidWorldLayout)
        } else if ends_of(counts, layout).lights > bytes.len() {
            Err(ParseError::TableOverflow)
        } else if ends_of(counts, layout).lights != bytes.len() || !tables_agree(
            bytes,
            layout,
            format,
        ) {
            Err(ParseError::InvalidWorldLayout)
        } else {
            Ok(described_world(bytes, layout, format))
        }
    }
}

/// The sector index of a cell.
pub open spec fn cell(world: WorldView, x: u16, z: u16) -> int {
    x * world.depth + z
}

/// Whether a cell lies in the grid.
pub open spec fn in_grid(world: WorldView, x: u16, z: u16) -> bool {
    x < world.width && z < world.depth
}

/// The probe of a sector.
pub open spec fn probe_of(sector: WorldSector) -> WorldSectorCollisionProbe {
    WorldSectorCollisionProbe {
        has_floor: sector.floor.exists,
        has_ceiling: sector.ceiling.exists,
        first_wall: sector.first_wall,
        wall_count: sector.wall_count,
    }
}

/// Whether a probe found anything.
pub open spec fn probe_shows(probe: WorldSectorCollisionProbe) -> bool {
    probe.has_floor || probe.has_ceiling || probe.wall_count != 0
}

/// The floor triangle of a sector that a collision query meets.
pub open spec fn floor_collision_of(sector: WorldSector, triangle: usize) -> Option<
    WorldSectorFloorCollision,
> {
    let floor = sector.floor;
    if floor.exists && floor.triangle_present[triangle as int] {
        Some(
            WorldSectorFloorCollision {
                split: floor.split,
                triangle: triangle as u8,
                walkable: floor.triangle_walkable[triangle as int],
                floor_heights: floor.heights,
                triangle_heights: floor.triangle_heights[triangle as int],
            },
        )
    } else {
        None
    }
}

/// A world borrowed from its blob.
#[derive(Clone, Copy, Debug)]
pub struct World<'a> {
    sectors: &'a [u8],
    walls: &'a [u8],
    horizontal_overrides: &'a [u8],
    surface_lights: &'a [u8],
    layout: WorldLayout,
    width: u16,
    depth: u16,
    sector_size: i32,
    material_count: u16,
    sector_count: u16,
    wall_count: u16,
    horizontal_override_count: u16,
    surface_light_count: u16,
    ambient_color: [u8; 3],
    flags: u8,
    static_vertex_lighting: bool,
    format: WorldFormat,
}

impl<'a> View for World<'a> {
    type V = WorldView;

    closed spec fn view(&self) -> WorldView {
        WorldView {
            width: self.width,
            depth: self.depth,
            sector_size: self.sector_size,
            material_count: self.material_count,
            ambient_color: self.ambient_color,
            fog_enabled: self.flags & self.format.fog_enabled != 0,
            static_vertex_lighting: self.static_vertex_lighting,
            override_count: self.horizontal_override_count,
            sectors: tabled_sectors(self.tables(), self.sector_count as int, true, self.format),
            plain_sectors: tabled_sectors(
                self.tables(),
                self.sector_count as int,
                false,
                self.format,
            ),
            walls: tabled_walls(self.tables(), self.wall_count as int, self.format),
            lights: tabled_lights(self.tables(), self.surface_light_count as int),
        }
    }
}

/// Record `index` of a table of `count` records lies inside it.
proof fn record_is_inside(index: int, count: int, size: int)
    requires
        0 <= index < count,
        0 <= size,
    ensures
        0 <= index * size,
        index * size + size <= count * size,
{
    assert(0 <= index * size && index * size + size <= count * size) by (nonlinear_arith)
        requires
            0 <= index,
            index + 1 <= count,
            0 <= size,
    ;
}

fn world_layout(version: u16, format: &WorldFormat) -> (layout: Option<WorldLayout>)
    ensures
        layout == layout_of(version, *format),
{
    if version == format.version_v1 {
        Some(
            WorldLayout {
                header: WORLD_V3_HEADER_SIZE,
                sector: WORLD_V1_SECTOR_RECORD_SIZE,
                wall: WORLD_V1_WALL_RECORD_SIZE,
                horizontal_override: WORLD_HORIZONTAL_OVERRIDE_RECORD_SIZE,
                has_lights: false,
                has_overrides: false,
            },
        )
    } else if version == format.version_v2 || version == format.version_v3 {
        Some(
            WorldLayout {
                header: WORLD_V3_HEADER_SIZE,
                sector: WORLD_SECTOR_RECORD_SIZE,
                wall: WORLD_WALL_RECORD_SIZE,
                horizontal_override: WORLD_HORIZONTAL_OVERRIDE_RECORD_SIZE,
                has_lights: version == format.version_v3,
                has_overrides: false,
            },
        )
    } else if version == format.version_v4 || version == format.version {
        Some(
            WorldLayout {
                header: WORLD_HEADER_SIZE,
                sector: WORLD_SECTOR_RECORD_SIZE,
                wall: WORLD_WALL_RECORD_SIZE,
                horizontal_override: if version == format.version_v4 {
                    WORLD_V4_HORIZONTAL_OVERRIDE_RECORD_SIZE
                } else {
                    WORLD_HORIZONTAL_OVERRIDE_RECORD_SIZE
                },
                has_lights: true,
                has_overrides: true,
            },
        )
    } else {
        None
    }
}

fn sector_walls_exist(sectors: &[u8], size: usize, count: u16, wall_count: u16) -> (valid: bool)
    requires
        44 <= size <= 60,
        sectors@.len() == count * size,
    ensures
        valid == forall|i: int|
            #![trigger le16(sectors@, i * size + 8)]
            0 <= i < count ==> walls_exist(
                le16(sectors@, i * size + 8),
                le16(sectors@, i * size + 10),
                wall_count,
            ),
{
    let mut index: usize = 0;
    let mut base: usize = 0;
    while index < count as usize
        invariant
            index <= count,
            base == index * size,
            44 <= size <= 60,
            sectors@.len() == count * size,
            forall|i: int|
                #![trigger le16(sectors@, i * size + 8)]
                0 <= i < index ==> walls_exist(
                    le16(sectors@, i * size + 8),
                    le16(sectors@, i * size + 10),
                    wall_count,
                ),
        decreases count - index,
    {
        proof {
            record_is_inside(index as int, count as int, size as int);
            assert(sectors@.len() == sectors.len());
            assert((index + 1) * size == index * size + size) by (nonlinear_arith);
        }
        let first: u16 = read_le16(sectors, base + 8);
        let walls: u16 = read_le16(sectors, base + 10);
        if first as u32 + walls as u32 > wall_count as u32 {
            assert(!walls_exist(
                le16(sectors@, index * size + 8),
                le16(sectors@, index * size + 10),
                wall_count,
            ));
            return false;
        }
        index += 1;
        base += size;
    }
    true
}

fn overrides_valid(
    table: &[u8],
    size: usize,
    count: u16,
    sector_count: u16,
    format: &WorldFormat,
) -> (valid: bool)
    requires
        24 <= size <= 48,
        table@.len() == count * size,
    ensures
        valid == overrides_apply(table@, size as int, count as int, sector_count, *format),
{
    let mut index: usize = 0;
    let mut base: usize = 0;
    while index < count as usize
        invariant
            index <= count,
            base == index * size,
            24 <= size <= 48,
            table@.len() == count * size,
            overrides_apply(table@, size as int, index as int, sector_count, *format),
        decreases count - index,
    {
        proof {
            record_is_inside(index as int, count as int, size as int);
            assert(table@.len() == table.len());
            assert((index + 1) * size == index * size + size) by (nonlinear_arith);
        }
        let sector: u16 = read_le16(table, base);
        let surface: u8 = table[base + 2];
        if sector >= sector_count || (surface != format.floor_surface && surface
            != format.ceiling_surface) {
            proof {
                let i = index as int;
                assert(le16(table@, i * size) == sector);
            }
            return false;
        }
        index += 1;
        base += size;
    }
    true
}

impl<'a> World<'a> {
    closed spec fn tables(&self) -> WorldTables {
        WorldTables {
            layout: self.layout,
            sectors: self.sectors@,
            walls: self.walls@,
            overrides: self.horizontal_overrides@,
            lights: self.surface_lights@,
            override_count: self.horizontal_override_count as int,
        }
    }

    /// The tables are as long as the counts say, and agree with each other.
    #[verifier::type_invariant]
    closed spec fn wf(self) -> bool {
        &&& self.format.wf()
        &&& 44 <= self.layout.sector <= 60
        &&& self.layout.sector == 60 || self.layout.sector == 44
        &&& self.layout.wall == 24 || self.layout.wall == 32
        &&& self.layout.horizontal_override == 24 || self.layout.horizontal_override == 48
        &&& self.sector_count == self.width * self.depth
        &&& self.sectors@.len() == self.sector_count * self.layout.sector
        &&& self.walls@.len() == self.wall_count * self.layout.wall
        &&& self.horizontal_overrides@.len() == self.horizontal_override_count
            * self.layout.horizontal_override
        &&& self.surface_lights@.len() == self.surface_light_count * 12
        &&& sectors_agree(self.tables(), self.sector_count as int, self.wall_count)
        &&& !self.static_vertex_lighting ==> self.surface_light_count == 0
    }

    /// Parse a cooked world.
    #[verifier::rlimit(40)]
    pub fn from_bytes(bytes: &'a [u8], format: &WorldFormat) -> (result: Result<Self, ParseError>)
        requires
            format.wf(),
        ensures
            viewed(result) == world_of(bytes@, *format),
    {
        let version: u16 = check_magic(bytes, &format.magic)?;
        let layout: WorldLayout = match world_layout(version, format) {
            Some(layout) => layout,
            None => return Err(ParseError::UnsupportedVersion(version)),
        };
        check_payload(bytes, layout.header)?;
        let width: u16 = read_le16(bytes, 12);
        let depth: u16 = read_le16(bytes, 14);
        let sector_count: u16 = read_le16(bytes, 20);
        let wall_count: u16 = read_le16(bytes, 24);
        let flags: u8 = bytes[29];
        let surface_light_count: u16 = if layout.has_lights {
            read_le16(bytes, 30)
        } else {
            0
        };
        let horizontal_override_count: u16 = if layout.has_overrides {
            read_le16(bytes, 32)
        } else {
            0
        };
        let lit: bool = layout.has_lights && flags & format.static_vertex_lighting != 0;
        let ghost counts = counts_of(bytes@, layout, *format);
        assert(width * depth <= 0xFFFF * 0xFFFF) by (nonlinear_arith)
            requires
                width <= 0xFFFF,
                depth <= 0xFFFF,
        ;
        if sector_count as u32 != width as u32 * depth as u32 {
            return Err(ParseError::InvalidWorldLayout);
        }
        let expected_lights: u32 = if lit {
            2 * (sector_count as u32) + wall_count as u32
        } else {
            0
        };
        if surface_light_count as u32 != expected_lights {
            return Err(ParseError::InvalidWorldLayout);
        }
        let mut offset: usize = 12 + layout.header;
        proof {
            table_bytes_fit(sector_count as int, layout.sector as int);
            table_bytes_fit(wall_count as int, layout.wall as int);
            table_bytes_fit(horizontal_override_count as int, layout.horizontal_override as int);
        }
        let sectors: &'a [u8] = take_table(
            bytes,
            &mut offset,
            sector_count as usize * layout.sector,
        )?;
        let walls: &'a [u8] = take_table(bytes, &mut offset, wall_count as usize * layout.wall)?;
        let horizontal_overrides: &'a [u8] = take_table(
            bytes,
            &mut offset,
            horizontal_override_count as usize * layout.horizontal_override,
        )?;
        let surface_lights: &'a [u8] = take_table(
            bytes,
            &mut offset,
            surface_light_count as usize * WORLD_SURFACE_LIGHT_RECORD_SIZE,
        )?;
        let ghost tables = tables_of(bytes@, counts, layout);
        if offset != bytes.len() {
            return Err(ParseError::InvalidWorldLayout);
        }
        assert(tables.sectors == sectors@);
        assert(tables.overrides == horizontal_overrides@);
        if !sector_walls_exist(sectors, layout.sector, sector_count, wall_count) {
            assert(!sectors_agree(tables, sector_count as int, wall_count));
            return Err(ParseError::InvalidWorldLayout);
        }
        if !overrides_valid(
            horizontal_overrides,
            layout.horizontal_override,
            horizontal_override_count,
            sector_count,
            format,
        ) {
            return Err(ParseError::InvalidWorldLayout);
        }
        let ambient_color: [u8; 3] = [bytes[26], bytes[27], bytes[28]];
        assert(ambient_color =~= [bytes@[26], bytes@[27], bytes@[28]]);
        assert(sectors_agree(tables, sector_count as int, wall_count));
        let world = World {
            sectors,
            walls,
            horizontal_overrides,
            surface_lights,
            layout,
            width,
            depth,
            sector_size: read_i32(bytes, 16),
            material_count: read_le16(bytes, 22),
            sector_count,
            wall_count,
            horizontal_override_count,
            surface_light_count,
            ambient_color,
            flags,
            static_vertex_lighting: lit,
            format: *format,
        };
        assert(world.tables() == tables);
        Ok(world)
    }

    /// Width of the grid.
    pub fn width(&self) -> (width: u16)
        ensures
            width == self@.width,
    {
        self.width
    }

    /// Depth of the grid.
    pub fn depth(&self) -> (depth: u16)
        ensures
            depth == self@.depth,
    {
        self.depth
    }

    /// Engine units per sector.
    pub fn sector_size(&self) -> (size: i32)
        ensures
            size == self@.sector_size,
    {
        self.sector_size
    }

    /// Number of material slots.
    pub fn material_count(&self) -> (count: u16)
        ensures
            count == self@.material_count,
    {
        self.material_count
    }

    /// Number of walls.
    pub fn wall_count(&self) -> (count: u16)
        ensures
            count == self@.walls.len(),
    {
        self.wall_count
    }

    /// Number of override records.
    pub fn horizontal_override_count(&self) -> (count: u16)
        ensures
            count == self@.override_count,
    {
        self.horizontal_override_count
    }

    /// Number of surface lights.
    pub fn surface_light_count(&self) -> (count: u16)
        ensures
            count == self@.lights.len(),
    {
        self.surface_light_count
    }

    /// Ambient red, green and blue.
    pub fn ambient_color(&self) -> (color: [u8; 3])
        ensures
            color == self@.ambient_color,
    {
        self.ambient_color
    }

    /// Whether there is fog.
    pub fn fog_enabled(&self) -> (enabled: bool)
        ensures
            enabled == self@.fog_enabled,
    {
        self.flags & self.format.fog_enabled != 0
    }

    /// Whether surfaces carry baked colours.
    pub fn static_vertex_lighting(&self) -> (lit: bool)
        ensures
            lit == self@.static_vertex_lighting,
    {
        self.static_vertex_lighting
    }

    fn index_of(&self, x: u16, z: u16) -> (index: usize)
        requires
            in_grid(self@, x, z),
        ensures
            index == cell(self@, x, z),
            index < self@.sectors.len(),
            index < self.sector_count,
    {
        proof {
            use_type_invariant(self);
            assert(x * self.depth + z < self.width * self.depth && 0 <= x * self.depth)
                by (nonlinear_arith)
                requires
                    x < self.width,
                    z < self.depth,
            ;
        }
        x as usize * self.depth as usize + z as usize
    }

    /// The sector of a cell, none outside the grid and none without geometry.
    pub fn sector(&self, x: u16, z: u16) -> (sector: Option<WorldSector>)
        ensures
            sector == if in_grid(self@, x, z) && sector_shows(self@.sectors[cell(self@, x, z)]) {
                Some(self@.sectors[cell(self@, x, z)])
            } else {
                None
            },
    {
        if x >= self.width || z >= self.depth {
            return None;
        }
        let sector = self.sector_record(self.index_of(x, z))?;
        if sector.has_geometry() {
            Some(sector)
        } else {
            None
        }
    }

    /// The sector of a cell without what override records say.
    pub fn sector_without_horizontal_overrides(&self, x: u16, z: u16) -> (sector: Option<
        WorldSector,
    >)
        ensures
            sector == if in_grid(self@, x, z) && sector_shows(
                self@.plain_sectors[cell(self@, x, z)],
            ) {
                Some(self@.plain_sectors[cell(self@, x, z)])
            } else {
                None
            },
    {
        if x >= self.width || z >= self.depth {
            return None;
        }
        let index: usize = self.index_of(x, z);
        proof {
            use_type_invariant(self);
            record_is_inside(index as int, self.sector_count as int, self.layout.sector as int);
            assert(self.sectors@.len() == self.sectors.len());
        }
        let size: usize = self.layout.sector;
        let sector = read_sector(self.sectors, index * size, size, None, None, &self.format);
        if sector.has_geometry() {
            Some(sector)
        } else {
            None
        }
    }

    /// What a collision probe needs of a cell.
    pub fn sector_collision_probe(&self, x: u16, z: u16) -> (probe: Option<
        WorldSectorCollisionProbe,
    >)
        ensures
            ({
                let found = probe_of(self@.plain_sectors[cell(self@, x, z)]);
                probe == if in_grid(self@, x, z) && probe_shows(found) {
                    Some(found)
                } else {
                    None
                }
            }),
    {
        if x >= self.width || z >= self.depth {
            return None;
        }
        let index: usize = self.index_of(x, z);
        proof {
            use_type_invariant(self);
            record_is_inside(index as int, self.sector_count as int, self.layout.sector as int);
            assert(self.sectors@.len() == self.sectors.len());
        }
        let base: usize = index * self.layout.sector;
        let flags: u8 = self.sectors[base];
        let probe = WorldSectorCollisionProbe {
            has_floor: flags & self.format.has_floor != 0,
            has_ceiling: flags & self.format.has_ceiling != 0,
            first_wall: read_le16(self.sectors, base + 8),
            wall_count: read_le16(self.sectors, base + 10),
        };
        if probe.has_geometry() {
            Some(probe)
        } else {
            None
        }
    }

    /// One triangle of the floor of a cell, as the full sector has it. Only
    /// what a collision query needs is decoded.
    pub fn sector_floor_collision(
        &self,
        x: u16,
        z: u16,
        triangle: usize,
        sector_size: i32,
    ) -> (collision: Option<WorldSectorFloorCollision>)
        requires
            triangle < 2,
        ensures
            collision == if in_grid(self@, x, z) && sector_size > 0 {
                floor_collision_of(self@.sectors[cell(self@, x, z)], triangle)
            } else {
                None
            },
    {
        if x >= self.width || z >= self.depth || sector_size <= 0 {
            return None;
        }
        let index: usize = self.index_of(x, z);
        proof {
            use_type_invariant(self);
            record_is_inside(index as int, self.sector_count as int, self.layout.sector as int);
            assert(self.sectors@.len() == self.sectors.len());
        }
        let base: usize = index * self.layout.sector;
        let flags: u8 = self.sectors[base];
        if flags & self.format.has_floor == 0 {
            return None;
        }
        let split: u8 = self.sectors[base + 1];
        let floor_heights: [i32; 4] = read_heights(self.sectors, base + 12);
        let found = self.floor_override(index as u16, triangle);
        let (triangle_flags_now, own_heights): (u8, Option<[i32; 3]>) = match found {
            Some(found) => found,
            None => (
                triangle_flags(true, flags & self.format.floor_walkable != 0, &self.format),
                None,
            ),
        };
        if triangle_flags_now & self.format.triangle_present[triangle] == 0 {
            return None;
        }
        let triangle_heights: [i32; 3] = match own_heights {
            Some(heights) => heights,
            None => split_heights(&floor_heights, split, triangle, &self.format),
        };
        Some(
            WorldSectorFloorCollision {
                split,
                triangle: triangle as u8,
                walkable: triangle_flags_now & self.format.triangle_walkable[triangle] != 0,
                floor_heights,
                triangle_heights,
            },
        )
    }

    /// The sector at an index, empty ones too.
    pub fn sector_record(&self, index: usize) -> (sector: Option<WorldSector>)
        ensures
            sector == if index < self@.sectors.len() {
                Some(self@.sectors[index as int])
            } else {
                None
            },
    {
        if index >= self.sector_count as usize {
            return None;
        }
        proof {
            use_type_invariant(self);
            record_is_inside(index as int, self.sector_count as int, self.layout.sector as int);
            assert(self.sectors@.len() == self.sectors.len());
        }
        let floor = self.horizontal_override(index as u16, self.format.floor_surface);
        let ceiling = self.horizontal_override(index as u16, self.format.ceiling_surface);
        let size: usize = self.layout.sector;
        Some(read_sector(self.sectors, index * size, size, floor, ceiling, &self.format))
    }

    /// The wall at an index.
    pub fn wall(&self, index: u16) -> (wall: Option<WorldWall>)
        ensures
            wall == if index < self@.walls.len() {
                Some(self@.walls[index as int])
            } else {
                None
            },
    {
        if index >= self.wall_count {
            return None;
        }
        proof {
            use_type_invariant(self);
            record_is_inside(index as int, self.wall_count as int, self.layout.wall as int);
            assert(self.walls@.len() == self.walls.len());
        }
        let size: usize = self.layout.wall;
        Some(read_wall(self.walls, index as usize * size, size, &self.format))
    }

    /// A wall of a sector, counted from the first of the sector.
    pub fn sector_wall(&self, sector: WorldSector, local_index: u16) -> (wall: Option<WorldWall>)
        ensures
            wall == if local_index < sector.wall_count && sector.first_wall + local_index
                < self@.walls.len() {
                Some(self@.walls[sector.first_wall + local_index])
            } else {
                None
            },
    {
        if local_index >= sector.wall_count {
            return None;
        }
        let index: u32 = sector.first_wall as u32 + local_index as u32;
        if index >= self.wall_count as u32 {
            return None;
        }
        self.wall(index as u16)
    }

    /// The surface light at an index.
    pub fn surface_light(&self, index: u16) -> (light: Option<WorldSurfaceLight>)
        ensures
            light == if index < self@.lights.len() {
                Some(self@.lights[index as int])
            } else {
                None
            },
    {
        proof {
            use_type_invariant(self);
        }
        if !self.static_vertex_lighting || index >= self.surface_light_count {
            return None;
        }
        proof {
            assert(self.surface_lights@.len() == self.surface_lights.len());
        }
        Some(read_light(self.surface_lights, index as usize * WORLD_SURFACE_LIGHT_RECORD_SIZE))
    }

    /// Where the first override record for a surface lies.
    fn override_offset(&self, sector: u16, surface: u8) -> (offset: Option<usize>)
        ensures
            ({
                let size = self.layout.horizontal_override as int;
                let table = self.horizontal_overrides@;
                let found = find_override(
                    table,
                    size,
                    0,
                    self.horizontal_override_count as int,
                    sector as int,
                    surface,
                );
                match offset {
                    Some(at) => at + size <= table.len() && found == Some(
                        override_at(table, at as int, size),
                    ),
                    None => found is None,
                }
            }),
    {
        proof {
            use_type_invariant(self);
        }
        let size: usize = self.layout.horizontal_override;
        let count: usize = self.horizontal_override_count as usize;
        let table: &'a [u8] = self.horizontal_overrides;
        let mut index: usize = 0;
        let mut base: usize = 0;
        while index < count
            invariant
                index <= count,
                base == index * size,
                size == 24 || size == 48,
                count <= 0xFFFF,
                table@.len() == count * size,
                find_override(table@, size as int, 0, count as int, sector as int, surface)
                    == find_override(
                    table@,
                    size as int,
                    index as int,
                    count as int,
                    sector as int,
                    surface,
                ),
                size == self.layout.horizontal_override,
                count == self.horizontal_override_count,
                table@ == self.horizontal_overrides@,
            decreases count - index,
        {
            proof {
                record_is_inside(index as int, count as int, size as int);
                assert(table@.len() == table.len());
                assert((index + 1) * size == index * size + size) by (nonlinear_arith);
            }
            if read_le16(table, base) == sector && table[base + 2] == surface {
                return Some(base);
            }
            index += 1;
            base += size;
        }
        None
    }

    fn horizontal_override(&self, sector: u16, surface: u8) -> (r: Option<SurfaceOverride>)
        ensures
            r == find_override(
                self.horizontal_overrides@,
                self.layout.horizontal_override as int,
                0,
                self.horizontal_override_count as int,
                sector as int,
                surface,
            ),
    {
        proof {
            use_type_invariant(self);
        }
        match self.override_offset(sector, surface) {
            Some(at) => Some(
                read_override(self.horizontal_overrides, at, self.layout.horizontal_override),
            ),
            None => None,
        }
    }

    /// The triangle flags, and the triangle heights if there are any, that an
    /// override record gives the floor of a sector.
    fn floor_override(&self, sector: u16, triangle: usize) -> (r: Option<(u8, Option<[i32; 3]>)>)
        requires
            triangle < 2,
        ensures
            r == match find_override(
                self.horizontal_overrides@,
                self.layout.horizontal_override as int,
                0,
                self.horizontal_override_count as int,
                sector as int,
                self.format.floor_surface,
            ) {
                Some(found) => Some(
                    (
                        found.flags,
                        match found.heights {
                            Some(heights) => Some(heights[triangle as int]),
                            None => None,
                        },
                    ),
                ),
                None => None,
            },
    {
        proof {
            use_type_invariant(self);
        }
        let table: &'a [u8] = self.horizontal_overrides;
        match self.override_offset(sector, self.format.floor_surface) {
            Some(at) => {
                assert(table@.len() == table.len());
                let heights: Option<[i32; 3]> = if self.layout.horizontal_override
                    >= WORLD_HORIZONTAL_OVERRIDE_RECORD_SIZE {
                    Some(read_triangle(table, at + 24 + triangle * 12))
                } else {
                    None
                };
                Some((table[at + 3], heights))
            },
            None => None,
        }
    }
}

/// A table of at most 65535 records fits into the address space.
proof fn table_bytes_fit(count: int, size: int)
    requires
        0 <= count <= 0xFFFF,
        0 <= size <= 60,
    ensures
        0 <= count * size <= 0xFFFF * 60,
{
    assert(0 <= count * size <= 0xFFFF * 60) by (nonlinear_arith)
        requires
            0 <= count <= 0xFFFF,
            0 <= size <= 60,
    ;
}

/// Every cell of a parsed world has a sector, and all walls that a sector
/// counts exist.
pub proof fn parsed_world_is_consistent(bytes: Seq<u8>, format: WorldFormat)
    ensures
        match world_of(bytes, format) {
            Ok(world) => {
                &&& world.sectors.len() == world.width * world.depth
                &&& world.plain_sectors.len() == world.sectors.len()
                &&& forall|i: int|
                    0 <= i < world.sectors.len() ==> (#[trigger] world.sectors[i]).first_wall
                        + world.sectors[i].wall_count <= world.walls.len()
                &&& world.static_vertex_lighting ==> world.lights.len() == 2 * world.sectors.len()
                    + world.walls.len()
                &&& !world.static_vertex_lighting ==> world.lights.len() == 0
            },
            Err(_) => true,
        },
{
    if let Ok(world) = world_of(bytes, format) {
        let layout = layout_of(version_of(bytes), format)->0;
        let counts = counts_of(bytes, layout, format);
        let tables = tables_of(bytes, counts, layout);
        assert(sectors_agree(tables, counts.sectors as int, counts.walls));
        assert forall|i: int| 0 <= i < world.sectors.len() implies (
        #[trigger] world.sectors[i]).first_wall + world.sectors[i].wall_count
            <= world.walls.len() by {
            assert(world.sectors[i] == tabled_sector(tables, i, true, format));
            assert(world.sectors[i].first_wall == le16(tables.sectors, i * layout.sector + 8));
        }
    }
}

/// Override records change neither which surfaces a sector has, nor the corner
/// heights of their quads, nor the walls.
pub proof fn overrides_touch_triangles_only(
    tables: WorldTables,
    index: int,
    format: WorldFormat,
)
    ensures
        ({
            let full = tabled_sector(tables, index, true, format);
            let plain = tabled_sector(tables, index, false, format);
            &&& probe_of(full) == probe_of(plain)
            &&& full.floor.heights == plain.floor.heights
            &&& full.ceiling.heights == plain.ceiling.heights
            &&& full.floor.split == plain.floor.split
            &&& full.ceiling.split == plain.ceiling.split
            &&& full.floor.uvs == plain.floor.uvs
            &&& full.ceiling.uvs == plain.ceiling.uvs
        }),
{
}

} // verus!
