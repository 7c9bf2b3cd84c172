//! What a cooked world is read as.

use vstd::prelude::*;

use crate::asset::cooked::{
    blob, blob_opens, chained, columns_chain, height_bytes, light_bytes, light_rows, override_bytes,
    override_rows, sector_bytes, sector_rows, triangle_bytes, uv_bytes, wall_bytes, wall_rows,
    world_header, world_payload, CookedWorld, OverrideRecord, SectorRecord, WallRecord,
    WorldWriting,
};
use crate::asset::header::{magic_fault, payload_fault, version_of, ParseError};
use crate::asset::sector::{
    heights_at, light_at, override_at, sector_at, sector_shows, surface_material, surface_of,
    triangle_at, triangle_material, triangle_walks, uvs_at, wall_at, SurfaceFields, SurfaceOverride,
    WorldFormat, WorldQuadUvs, WorldSector, WorldSurface, WorldSurfaceLight, WorldWall,
};
use crate::asset::world::{
    cell, counts_agree, counts_of, described_world, ends_of, find_override, floor_collision_of,
    in_grid, layout_of, overrides_touch_triangles_only, probe_of, probe_shows, sectors_agree,
    tabled_sector, tables_agree, tables_of, walls_exist, world_of, WorldView,
};
use crate::bytes::{le16, le_i32};
use crate::written::{
    bytes16, bytes32, even_rows, joined, lies, long_reads_back, parts_lie, rows_are_even, rows_lie,
    word_reads_back,
};

verus! {

proof fn heights_read_back(bytes: Seq<u8>, at: int, h: [i32; 4])
    requires
        lies(bytes, at, height_bytes(h)),
    ensures
        heights_at(bytes, at) == h,
{
    let a = bytes32(h[0] as int);
    let b = a + bytes32(h[1] as int);
    let c = b + bytes32(h[2] as int);
    parts_lie(bytes, at, c, bytes32(h[3] as int));
    parts_lie(bytes, at, b, bytes32(h[2] as int));
    parts_lie(bytes, at, a, bytes32(h[1] as int));
    long_reads_back(bytes, at, h[0] as int);
    long_reads_back(bytes, at + 4, h[1] as int);
    long_reads_back(bytes, at + 8, h[2] as int);
    long_reads_back(bytes, at + 12, h[3] as int);
    assert(heights_at(bytes, at) =~= h);
}

proof fn triangle_reads_back(bytes: Seq<u8>, at: int, h: [i32; 3])
    requires
        lies(bytes, at, triangle_bytes(h)),
    ensures
        triangle_at(bytes, at) == h,
{
    let a = bytes32(h[0] as int);
    let b = a + bytes32(h[1] as int);
    parts_lie(bytes, at, b, bytes32(h[2] as int));
    parts_lie(bytes, at, a, bytes32(h[1] as int));
    long_reads_back(bytes, at, h[0] as int);
    long_reads_back(bytes, at + 4, h[1] as int);
    long_reads_back(bytes, at + 8, h[2] as int);
    assert(triangle_at(bytes, at) =~= h);
}

proof fn uvs_read_back(bytes: Seq<u8>, at: int, uvs: WorldQuadUvs)
    requires
        lies(bytes, at, uv_bytes(uvs)),
    ensures
        uvs_at(bytes, at) == uvs,
{
    reveal(lies);
    let part = uv_bytes(uvs);
    assert(part[0] == bytes[at + 0] && part[1] == bytes[at + 1] && part[2] == bytes[at + 2]
        && part[3] == bytes[at + 3] && part[4] == bytes[at + 4] && part[5] == bytes[at + 5]
        && part[6] == bytes[at + 6] && part[7] == bytes[at + 7]);
    assert(uvs_at(bytes, at).corners =~= uvs.corners);
}

/// A written light is read back, corner by corner and colour by colour.
pub proof fn light_reads_back(bytes: Seq<u8>, at: int, light: WorldSurfaceLight)
    requires
        lies(bytes, at, light_bytes(light)),
    ensures
        light_at(bytes, at) == light,
{
    reveal(lies);
    let part = light_bytes(light);
    let c = light.vertex_rgb;
    let d = light_at(bytes, at).vertex_rgb;
    assert(part[0] == bytes[at + 0] && part[1] == bytes[at + 1] && part[2] == bytes[at + 2]
        && part[3] == bytes[at + 3] && part[4] == bytes[at + 4] && part[5] == bytes[at + 5]
        && part[6] == bytes[at + 6] && part[7] == bytes[at + 7] && part[8] == bytes[at + 8]
        && part[9] == bytes[at + 9] && part[10] == bytes[at + 10] && part[11] == bytes[at + 11]);
    assert(d[0] =~= c[0]);
    assert(d[1] =~= c[1]);
    assert(d[2] =~= c[2]);
    assert(d[3] =~= c[3]);
    assert(d =~= c);
}

/// Whether a sector shows what its record says: both of its surfaces and its
/// walls. Without texture corners of its own it has those of the format.
pub open spec fn sector_shows_record(
    sector: WorldSector,
    r: SectorRecord,
    long: bool,
    format: WorldFormat,
) -> bool {
    &&& sector.floor.exists == (r.flags & format.has_floor != 0)
    &&& sector.ceiling.exists == (r.flags & format.has_ceiling != 0)
    &&& sector.floor.split == r.floor_split
    &&& sector.ceiling.split == r.ceiling_split
    &&& r.floor_material == format.no_material ==> sector.floor.material is None
    &&& r.floor_material != format.no_material ==> sector.floor.material == Some(r.floor_material)
    &&& r.ceiling_material == format.no_material ==> sector.ceiling.material is None
    &&& r.ceiling_material != format.no_material ==> sector.ceiling.material == Some(
        r.ceiling_material,
    )
    &&& sector.floor.heights == r.floor_heights
    &&& sector.ceiling.heights == r.ceiling_heights
    &&& sector.first_wall == r.first_wall
    &&& sector.wall_count == r.wall_count
    &&& long ==> sector.floor.uvs == r.floor_uvs
    &&& long ==> sector.ceiling.uvs == r.ceiling_uvs
    &&& !long ==> sector.floor.uvs == format.floor_uvs
    &&& !long ==> sector.ceiling.uvs == format.floor_uvs
}

/// Whether a wall shows what its record says. Without a shape of its own it is a
/// quad, and without texture corners of its own it has those of the format.
pub open spec fn wall_shows_record(
    wall: WorldWall,
    w: WallRecord,
    long: bool,
    format: WorldFormat,
) -> bool {
    &&& wall.direction == w.direction
    &&& wall.solid == (w.flags & format.wall_solid != 0)
    &&& wall.material == w.material
    &&& wall.heights == w.heights
    &&& long ==> wall.shape == w.shape && wall.uvs == w.uvs
    &&& !long ==> wall.shape == format.wall_quad && wall.uvs == format.wall_uvs
}

/// A written sector is read back: both of its surfaces and its walls. Without
/// texture corners of its own it has those of the format.
pub proof fn sector_reads_back(
    bytes: Seq<u8>,
    at: int,
    r: SectorRecord,
    long: bool,
    format: WorldFormat,
)
    requires
        lies(bytes, at, sector_bytes(r, long)),
    ensures
        sector_shows_record(
            sector_at(
                bytes,
                at,
                if long {
                    60
                } else {
                    44
                },
                None,
                None,
                format,
            ),
            r,
            long,
            format,
        ),
{
    reveal(lies);
    let head = seq![r.flags, r.floor_split, r.ceiling_split, 0u8];
    let a = head + bytes16(r.floor_material as int);
    let b = a + bytes16(r.ceiling_material as int);
    let c = b + bytes16(r.first_wall as int);
    let d = c + bytes16(r.wall_count as int);
    let e = d + height_bytes(r.floor_heights);
    let f = e + height_bytes(r.ceiling_heights);
    let tail = if long {
        uv_bytes(r.floor_uvs) + uv_bytes(r.ceiling_uvs)
    } else {
        Seq::empty()
    };
    parts_lie(bytes, at, f, tail);
    parts_lie(bytes, at, e, height_bytes(r.ceiling_heights));
    parts_lie(bytes, at, d, height_bytes(r.floor_heights));
    parts_lie(bytes, at, c, bytes16(r.wall_count as int));
    parts_lie(bytes, at, b, bytes16(r.first_wall as int));
    parts_lie(bytes, at, a, bytes16(r.ceiling_material as int));
    parts_lie(bytes, at, head, bytes16(r.floor_material as int));
    assert(head[0] == bytes[at + 0] && head[1] == bytes[at + 1] && head[2] == bytes[at + 2]);
    word_reads_back(bytes, at + 4, r.floor_material as int);
    word_reads_back(bytes, at + 6, r.ceiling_material as int);
    word_reads_back(bytes, at + 8, r.first_wall as int);
    word_reads_back(bytes, at + 10, r.wall_count as int);
    heights_read_back(bytes, at + 12, r.floor_heights);
    heights_read_back(bytes, at + 28, r.ceiling_heights);
    if long {
        parts_lie(bytes, at + 44, uv_bytes(r.floor_uvs), uv_bytes(r.ceiling_uvs));
        uvs_read_back(bytes, at + 44, r.floor_uvs);
        uvs_read_back(bytes, at + 52, r.ceiling_uvs);
    }
}

/// A written wall is read back. Without a shape of its own it is a quad, and
/// without texture corners of its own it has those of the format.
pub proof fn wall_reads_back(
    bytes: Seq<u8>,
    at: int,
    w: WallRecord,
    long: bool,
    format: WorldFormat,
)
    requires
        lies(bytes, at, wall_bytes(w, long)),
    ensures
        wall_shows_record(
            wall_at(
                bytes,
                at,
                if long {
                    32
                } else {
                    24
                },
                format,
            ),
            w,
            long,
            format,
        ),
{
    reveal(lies);
    let shape = if long {
        w.shape as int
    } else {
        0
    };
    let head = seq![w.direction, w.flags, 0u8, 0u8];
    let a = head + bytes16(w.material as int);
    let b = a + bytes16(shape);
    let c = b + height_bytes(w.heights);
    let tail = if long {
        uv_bytes(w.uvs)
    } else {
        Seq::empty()
    };
    parts_lie(bytes, at, c, tail);
    parts_lie(bytes, at, b, height_bytes(w.heights));
    parts_lie(bytes, at, a, bytes16(shape));
    parts_lie(bytes, at, head, bytes16(w.material as int));
    assert(head[0] == bytes[at + 0] && head[1] == bytes[at + 1]);
    word_reads_back(bytes, at + 4, w.material as int);
    word_reads_back(bytes, at + 6, shape);
    heights_read_back(bytes, at + 8, w.heights);
    if long {
        uvs_read_back(bytes, at + 24, w.uvs);
    }
}

/// A written override is read back; a short one holds no heights.
pub proof fn override_reads_back(bytes: Seq<u8>, at: int, o: OverrideRecord, long: bool)
    requires
        lies(bytes, at, override_bytes(o, long)),
    ensures
        ({
            let found = override_at(
                bytes,
                at,
                if long {
                    48
                } else {
                    24
                },
            );
            &&& found.flags == o.flags
            &&& found.materials == o.materials
            &&& found.uvs == o.uvs
            &&& long ==> found.heights == Some(o.heights)
            &&& !long ==> found.heights is None
        }),
{
    reveal(lies);
    let a = bytes16(o.sector as int);
    let s = seq![o.surface, o.flags];
    let b = a + s;
    let c = b + bytes16(o.materials[0] as int);
    let d = c + bytes16(o.materials[1] as int);
    let e = d + uv_bytes(o.uvs[0]);
    let f = e + uv_bytes(o.uvs[1]);
    let tail = if long {
        triangle_bytes(o.heights[0]) + triangle_bytes(o.heights[1])
    } else {
        Seq::empty()
    };
    parts_lie(bytes, at, f, tail);
    parts_lie(bytes, at, e, uv_bytes(o.uvs[1]));
    parts_lie(bytes, at, d, uv_bytes(o.uvs[0]));
    parts_lie(bytes, at, c, bytes16(o.materials[1] as int));
    parts_lie(bytes, at, b, bytes16(o.materials[0] as int));
    parts_lie(bytes, at, a, s);
    assert(s[0] == bytes[at + 2 + 0] && s[1] == bytes[at + 2 + 1]);
    word_reads_back(bytes, at + 4, o.materials[0] as int);
    word_reads_back(bytes, at + 6, o.materials[1] as int);
    uvs_read_back(bytes, at + 8, o.uvs[0]);
    uvs_read_back(bytes, at + 16, o.uvs[1]);
    let found = override_at(
        bytes,
        at,
        if long {
            48
        } else {
            24
        },
    );
    assert(found.materials =~= o.materials);
    assert(found.uvs =~= o.uvs);
    if long {
        parts_lie(bytes, at + 24, triangle_bytes(o.heights[0]), triangle_bytes(o.heights[1]));
        triangle_reads_back(bytes, at + 24, o.heights[0]);
        triangle_reads_back(bytes, at + 36, o.heights[1]);
        assert(found.heights->0 =~= o.heights);
    }
}

/// Cells are numbered column by column: the first cell comes first, the next
/// cell of a column comes next, and behind the last cell of a column comes the
/// first of the next column.
pub proof fn cells_go_column_by_column(world: WorldView, x: u16, z: u16)
    requires
        in_grid(world, x, z),
    ensures
        cell(world, 0, 0) == 0,
        z + 1 < world.depth ==> cell(world, x, (z + 1) as u16) == cell(world, x, z) + 1,
        x + 1 < world.width ==> cell(world, (x + 1) as u16, 0) == cell(
            world,
            x,
            (world.depth - 1) as u16,
        ) + 1,
        cell(world, (world.width - 1) as u16, (world.depth - 1) as u16) == world.width * world.depth
            - 1,
{
    let (w, d) = (world.width as int, world.depth as int);
    assert((x + 1) * d == x * d + d && (w - 1) * d == w * d - d && 0 * d == 0) by (nonlinear_arith);
}

/// What the header of a cooked world says.
#[verifier::rlimit(30)]
proof fn world_header_reads_back(bytes: Seq<u8>, world: CookedWorld, writing: WorldWriting)
    requires
        lies(bytes, 12, world_header(world, writing)),
        world.columns.len() <= 0xFFFF,
        chained(world.columns).len() <= 0xFFFF,
        world.walls.len() <= 0xFFFF,
        world.overrides.len() <= 0xFFFF,
        world.lights.len() <= 0xFFFF,
    ensures
        world_header(world, writing).len() == if writing.counts_overrides {
            24int
        } else {
            20
        },
        le16(bytes, 12) == world.columns.len(),
        le16(bytes, 14) == world.depth,
        le_i32(bytes, 16) == world.sector_size,
        le16(bytes, 20) == chained(world.columns).len(),
        le16(bytes, 22) == world.materials,
        le16(bytes, 24) == world.walls.len(),
        bytes[26] == world.ambient[0],
        bytes[27] == world.ambient[1],
        bytes[28] == world.ambient[2],
        bytes[29] == world.flags,
        le16(bytes, 30) == world.lights.len(),
        writing.counts_overrides ==> le16(bytes, 32) == world.overrides.len(),
{
    reveal(world_header);
    reveal(lies);
    let sectors = chained(world.columns).len() as int;
    let a = bytes16(world.columns.len() as int);
    let b = a + bytes16(world.depth as int);
    let c = b + bytes32(world.sector_size as int);
    let d = c + bytes16(sectors);
    let e = d + bytes16(world.materials as int);
    let f = e + bytes16(world.walls.len() as int);
    let g = f + world.ambient@;
    let h = g + seq![world.flags];
    let i = h + bytes16(world.lights.len() as int);
    let last = bytes16(world.overrides.len() as int);
    let tail = if writing.counts_overrides {
        last + seq![0u8, 0u8]
    } else {
        Seq::empty()
    };
    parts_lie(bytes, 12, i, tail);
    parts_lie(bytes, 12, h, bytes16(world.lights.len() as int));
    parts_lie(bytes, 12, g, seq![world.flags]);
    parts_lie(bytes, 12, f, world.ambient@);
    parts_lie(bytes, 12, e, bytes16(world.walls.len() as int));
    parts_lie(bytes, 12, d, bytes16(world.materials as int));
    parts_lie(bytes, 12, c, bytes16(sectors));
    parts_lie(bytes, 12, b, bytes32(world.sector_size as int));
    parts_lie(bytes, 12, a, bytes16(world.depth as int));
    word_reads_back(bytes, 12, world.columns.len() as int);
    word_reads_back(bytes, 14, world.depth as int);
    long_reads_back(bytes, 16, world.sector_size as int);
    word_reads_back(bytes, 20, sectors);
    word_reads_back(bytes, 22, world.materials as int);
    word_reads_back(bytes, 24, world.walls.len() as int);
    assert(world.ambient@[0] == bytes[26int + 0] && world.ambient@[1] == bytes[26int + 1]
        && world.ambient@[2] == bytes[26int + 2]);
    assert(seq![world.flags][0] == bytes[29int + 0]);
    word_reads_back(bytes, 30, world.lights.len() as int);
    if writing.counts_overrides {
        parts_lie(bytes, 32, last, seq![0u8, 0u8]);
        word_reads_back(bytes, 32, world.overrides.len() as int);
    }
}

/// Bytes that a sector takes.
pub open spec fn sector_length(writing: WorldWriting) -> int {
    if writing.long_records {
        60
    } else {
        44
    }
}

/// Bytes that a wall takes.
pub open spec fn wall_length(writing: WorldWriting) -> int {
    if writing.long_records {
        32
    } else {
        24
    }
}

/// Bytes that an override takes.
pub open spec fn override_length(writing: WorldWriting) -> int {
    if writing.long_overrides {
        48
    } else {
        24
    }
}

#[verifier::rlimit(40)]
proof fn rows_have_their_lengths(world: CookedWorld, writing: WorldWriting)
    ensures
        even_rows(sector_rows(world, writing), sector_length(writing)),
        even_rows(wall_rows(world, writing), wall_length(writing)),
        even_rows(override_rows(world, writing), override_length(writing)),
        even_rows(light_rows(world), 12),
{
}

/// Whether the numbers of a world tell its versions apart.
pub open spec fn versions_differ(format: WorldFormat) -> bool {
    let v = seq![
        format.version_v1,
        format.version_v2,
        format.version_v3,
        format.version_v4,
        format.version,
    ];
    forall|i: int, j: int| 0 <= i < j < 5 ==> #[trigger] v[i] != #[trigger] v[j]
}

/// Whether a version writes records in a way, and can hold what the world has.
pub open spec fn version_writes(
    version: u16,
    format: WorldFormat,
    world: CookedWorld,
    writing: WorldWriting,
) -> bool {
    let lit = world.flags & format.static_vertex_lighting != 0;
    let surfaces = 2 * chained(world.columns).len() + world.walls.len();
    if version == format.version_v1 || version == format.version_v2 {
        &&& !writing.counts_overrides
        &&& writing.long_records == (version == format.version_v2)
        &&& world.overrides.len() == 0
        &&& world.lights.len() == 0
    } else {
        &&& version == format.version_v3 || version == format.version_v4 || version
            == format.version
        &&& writing.long_records
        &&& writing.counts_overrides == (version != format.version_v3)
        &&& writing.long_overrides == (version == format.version)
        &&& version == format.version_v3 ==> world.overrides.len() == 0
        &&& world.lights.len() == if lit {
            surfaces as int
        } else {
            0
        }
    }
}

/// Whether a world fits into a blob, and its records speak of each other.
pub open spec fn world_is_sound(world: CookedWorld, format: WorldFormat) -> bool {
    let sectors = chained(world.columns);
    &&& 0 < world.depth
    &&& forall|x: int|
        0 <= x < world.columns.len() ==> (#[trigger] world.columns[x]).len() == world.depth
    &&& world.columns.len() <= 0xFFFF
    &&& sectors.len() <= 0xFFFF
    &&& world.walls.len() <= 0xFFFF
    &&& world.overrides.len() <= 0xFFFF
    &&& world.lights.len() <= 0xFFFF
    &&& forall|i: int|
        0 <= i < sectors.len() ==> (#[trigger] sectors[i]).first_wall + sectors[i].wall_count
            <= world.walls.len()
    &&& forall|i: int|
        0 <= i < world.overrides.len() ==> {
            let o = #[trigger] world.overrides[i];
            o.sector < sectors.len() && (o.surface == format.floor_surface || o.surface
                == format.ceiling_surface)
        }
}

/// The blob of a world.
pub open spec fn world_blob(
    world: CookedWorld,
    writing: WorldWriting,
    version: u16,
    flags: u16,
    format: WorldFormat,
) -> Seq<u8> {
    blob(format.magic@, version, flags, world_payload(world, writing))
}

proof fn layout_is_the_writing(
    world: CookedWorld,
    writing: WorldWriting,
    version: u16,
    format: WorldFormat,
)
    requires
        versions_differ(format),
        version_writes(version, format, world, writing),
    ensures
        layout_of(version, format) is Some,
        ({
            let layout = layout_of(version, format)->0;
            &&& layout.header == if writing.counts_overrides {
                24int
            } else {
                20
            }
            &&& layout.sector == sector_length(writing)
            &&& layout.wall == wall_length(writing)
            &&& writing.counts_overrides ==> layout.horizontal_override == override_length(writing)
            &&& layout.has_overrides == writing.counts_overrides
            &&& !writing.counts_overrides ==> world.overrides.len() == 0
            &&& layout.has_lights ==> world.lights.len() == if world.flags
                & format.static_vertex_lighting != 0 {
                2 * chained(world.columns).len() + world.walls.len() as int
            } else {
                0
            }
            &&& !layout.has_lights ==> world.lights.len() == 0
        }),
{
    let v = seq![
        format.version_v1,
        format.version_v2,
        format.version_v3,
        format.version_v4,
        format.version,
    ];
    assert(v[0] != v[1] && v[0] != v[2] && v[0] != v[3] && v[0] != v[4] && v[1] != v[2] && v[1]
        != v[3] && v[1] != v[4] && v[2] != v[3] && v[2] != v[4] && v[3] != v[4]);
}

/// Where the tables of a world's blob stand.
proof fn tables_stand(
    world: CookedWorld,
    writing: WorldWriting,
    version: u16,
    flags: u16,
    format: WorldFormat,
)
    requires
        versions_differ(format),
        version_writes(version, format, world, writing),
        world_is_sound(world, format),
    ensures
        ({
            let bytes = world_blob(world, writing, version, flags, format);
            let layout = layout_of(version, format)->0;
            let counts = counts_of(bytes, layout, format);
            let ends = ends_of(counts, layout);
            &&& magic_fault(bytes, format.magic@) is None
            &&& version_of(bytes) == version
            &&& payload_fault(bytes, layout.header as int) is None
            &&& lies(bytes, 12, world_header(world, writing))
            &&& lies(bytes, 12 + layout.header, joined(sector_rows(world, writing)))
            &&& lies(bytes, ends.sectors, joined(wall_rows(world, writing)))
            &&& lies(bytes, ends.walls, joined(override_rows(world, writing)))
            &&& lies(bytes, ends.overrides, joined(light_rows(world)))
            &&& ends.lights == bytes.len()
            &&& 12 + layout.header <= ends.sectors <= ends.walls <= ends.overrides <= ends.lights
            &&& ends.sectors - (12 + layout.header) == chained(world.columns).len()
                * sector_length(writing)
            &&& ends.walls - ends.sectors == world.walls.len() * wall_length(writing)
            &&& ends.overrides - ends.walls == world.overrides.len() * override_length(writing)
            &&& ends.lights - ends.overrides == world.lights.len() * 12
            &&& counts.width == world.columns.len()
            &&& counts.depth == world.depth
            &&& counts.sectors == chained(world.columns).len()
            &&& counts.walls == world.walls.len()
            &&& counts.lights == world.lights.len()
            &&& counts.overrides == world.overrides.len()
            &&& counts_agree(counts)
        }),
{
    let payload = world_payload(world, writing);
    let bytes = world_blob(world, writing, version, flags, format);
    let header = world_header(world, writing);
    let sectors = joined(sector_rows(world, writing));
    let walls = joined(wall_rows(world, writing));
    let overrides = joined(override_rows(world, writing));
    let lights = joined(light_rows(world));
    let (sl, wl, ol) = (sector_length(writing), wall_length(writing), override_length(writing));
    let (sn, wn, on) = (
        chained(world.columns).len() as int,
        world.walls.len() as int,
        world.overrides.len() as int,
    );
    layout_is_the_writing(world, writing, version, format);
    rows_have_their_lengths(world, writing);
    rows_are_even(sector_rows(world, writing), sl);
    rows_are_even(wall_rows(world, writing), wl);
    rows_are_even(override_rows(world, writing), ol);
    rows_are_even(light_rows(world), 12);
    columns_chain(world.columns, world.depth as int);
    assert(0 <= sn * sl <= 0xFFFF * 60 && 0 <= wn * wl <= 0xFFFF * 32 && 0 <= on * ol <= 0xFFFF
        * 48) by (nonlinear_arith)
        requires
            0 <= sn <= 0xFFFF,
            0 <= wn <= 0xFFFF,
            0 <= on <= 0xFFFF,
            0 <= sl <= 60,
            0 <= wl <= 32,
            0 <= ol <= 48,
    ;
    header_length(world, writing);
    blob_opens(format.magic@, version, flags, payload);
    let a = header + sectors;
    let b = a + walls;
    let c = b + overrides;
    parts_lie(bytes, 12, c, lights);
    parts_lie(bytes, 12, b, overrides);
    parts_lie(bytes, 12, a, walls);
    parts_lie(bytes, 12, header, sectors);
    world_header_reads_back(bytes, world, writing);
    let layout = layout_of(version, format)->0;
    assert(on == 0 ==> on * layout.horizontal_override == 0 && on * ol == 0) by (nonlinear_arith);
}

proof fn header_length(world: CookedWorld, writing: WorldWriting)
    ensures
        world_header(world, writing).len() == if writing.counts_overrides {
            24int
        } else {
            20
        },
{
    reveal(world_header);
}

/// The records stand in the tables.
proof fn records_stand(
    world: CookedWorld,
    writing: WorldWriting,
    version: u16,
    flags: u16,
    format: WorldFormat,
)
    requires
        versions_differ(format),
        version_writes(version, format, world, writing),
        world_is_sound(world, format),
    ensures
        ({
            let bytes = world_blob(world, writing, version, flags, format);
            let layout = layout_of(version, format)->0;
            let tables = tables_of(bytes, counts_of(bytes, layout, format), layout);
            let sectors = chained(world.columns);
            let (sl, wl, ol) = (
                sector_length(writing),
                wall_length(writing),
                override_length(writing),
            );
            &&& forall|i: int|
                0 <= i < sectors.len() ==> lies(
                    tables.sectors,
                    i * sl,
                    sector_bytes(#[trigger] sectors[i], writing.long_records),
                )
            &&& forall|i: int|
                0 <= i < world.walls.len() ==> lies(
                    tables.walls,
                    i * wl,
                    wall_bytes(#[trigger] world.walls[i], writing.long_records),
                )
            &&& forall|i: int|
                0 <= i < world.overrides.len() ==> lies(
                    tables.overrides,
                    i * ol,
                    override_bytes(#[trigger] world.overrides[i], writing.long_overrides),
                )
            &&& forall|i: int|
                0 <= i < world.lights.len() ==> light_at(tables.lights, i * 12)
                    == #[trigger] world.lights[i]
        }),
{
    let bytes = world_blob(world, writing, version, flags, format);
    let layout = layout_of(version, format)->0;
    let counts = counts_of(bytes, layout, format);
    let ends = ends_of(counts, layout);
    let tables = tables_of(bytes, counts, layout);
    let sectors = chained(world.columns);
    let (sr, wr, or, lr) = (
        sector_rows(world, writing),
        wall_rows(world, writing),
        override_rows(world, writing),
        light_rows(world),
    );
    let (sl, wl, ol) = (sector_length(writing), wall_length(writing), override_length(writing));
    let h = layout.header as int;
    tables_stand(world, writing, version, flags, format);
    layout_is_the_writing(world, writing, version, format);
    rows_have_their_lengths(world, writing);
    rows_lie(bytes, 12 + h, sr, sl);
    rows_lie(bytes, ends.sectors, wr, wl);
    rows_lie(bytes, ends.walls, or, ol);
    rows_lie(bytes, ends.overrides, lr, 12);
    assert forall|i: int| 0 <= i < sectors.len() implies lies(
        tables.sectors,
        i * sl,
        sector_bytes(#[trigger] sectors[i], writing.long_records),
    ) by {
        assert(sr[i] == sector_bytes(sectors[i], writing.long_records));
        cut_lies(bytes, 12 + h, ends.sectors, i, sr.len() as int, sl, sr[i]);
    }
    assert forall|i: int| 0 <= i < world.walls.len() implies lies(
        tables.walls,
        i * wl,
        wall_bytes(#[trigger] world.walls[i], writing.long_records),
    ) by {
        assert(wr[i] == wall_bytes(world.walls[i], writing.long_records));
        cut_lies(bytes, ends.sectors, ends.walls, i, wr.len() as int, wl, wr[i]);
    }
    assert forall|i: int| 0 <= i < world.overrides.len() implies lies(
        tables.overrides,
        i * ol,
        override_bytes(#[trigger] world.overrides[i], writing.long_overrides),
    ) by {
        assert(or[i] == override_bytes(world.overrides[i], writing.long_overrides));
        cut_lies(bytes, ends.walls, ends.overrides, i, or.len() as int, ol, or[i]);
    }
    assert forall|i: int| 0 <= i < world.lights.len() implies light_at(tables.lights, i * 12)
        == #[trigger] world.lights[i] by {
        assert(lr[i] == light_bytes(world.lights[i]));
        cut_lies(bytes, ends.overrides, ends.lights, i, lr.len() as int, 12, lr[i]);
        light_reads_back(tables.lights, i * 12, world.lights[i]);
    }
}

/// The records of a sound world agree.
proof fn records_agree(
    world: CookedWorld,
    writing: WorldWriting,
    version: u16,
    flags: u16,
    format: WorldFormat,
)
    requires
        versions_differ(format),
        version_writes(version, format, world, writing),
        world_is_sound(world, format),
    ensures
        tables_agree(
            world_blob(world, writing, version, flags, format),
            layout_of(version, format)->0,
            format,
        ),
{
    let bytes = world_blob(world, writing, version, flags, format);
    let layout = layout_of(version, format)->0;
    let counts = counts_of(bytes, layout, format);
    let tables = tables_of(bytes, counts, layout);
    let sectors = chained(world.columns);
    let (sl, ol) = (sector_length(writing), override_length(writing));
    tables_stand(world, writing, version, flags, format);
    records_stand(world, writing, version, flags, format);
    layout_is_the_writing(world, writing, version, format);
    assert forall|i: int|
        #![trigger le16(tables.sectors, i * tables.layout.sector + 8)]
        0 <= i < counts.sectors implies walls_exist(
        le16(tables.sectors, i * tables.layout.sector + 8),
        le16(tables.sectors, i * tables.layout.sector + 10),
        counts.walls,
    ) by {
        let r = sectors[i];
        sector_reads_back(tables.sectors, i * sl, r, writing.long_records, format);
    }
    assert(sectors_agree(tables, counts.sectors as int, counts.walls));
    assert forall|i: int|
        #![trigger le16(tables.overrides, i * layout.horizontal_override)]
        0 <= i < counts.overrides implies le16(tables.overrides, i * layout.horizontal_override)
        < counts.sectors && (tables.overrides[i * layout.horizontal_override + 2]
        == format.floor_surface || tables.overrides[i * layout.horizontal_override + 2]
        == format.ceiling_surface) by {
        override_names_its_surface(
            tables.overrides,
            i * ol,
            world.overrides[i],
            writing.long_overrides,
        );
    }
}

/// Where the sector of a cell stands.
proof fn cell_stands(
    world: CookedWorld,
    writing: WorldWriting,
    version: u16,
    flags: u16,
    format: WorldFormat,
    x: int,
    z: int,
)
    requires
        versions_differ(format),
        version_writes(version, format, world, writing),
        world_is_sound(world, format),
        0 <= x < world.columns.len(),
        0 <= z < world.depth,
    ensures
        ({
            let bytes = world_blob(world, writing, version, flags, format);
            let layout = layout_of(version, format)->0;
            let tables = tables_of(bytes, counts_of(bytes, layout, format), layout);
            let i = x * world.depth + z;
            let full = tabled_sector(tables, i, true, format);
            let r = world.columns[x][z];
            &&& 0 <= i < chained(world.columns).len()
            &&& sector_shows_record(
                tabled_sector(tables, i, false, format),
                r,
                writing.long_records,
                format,
            )
            &&& full.floor.heights == r.floor_heights
            &&& full.ceiling.heights == r.ceiling_heights
            &&& full.first_wall == r.first_wall
            &&& full.wall_count == r.wall_count
        }),
{
    let bytes = world_blob(world, writing, version, flags, format);
    let layout = layout_of(version, format)->0;
    let tables = tables_of(bytes, counts_of(bytes, layout, format), layout);
    let sectors = chained(world.columns);
    columns_chain(world.columns, world.depth as int);
    assert(world.columns[x][z] == sectors[x * world.depth + z]);
    assert(0 <= x * world.depth + z < sectors.len()) by (nonlinear_arith)
        requires
            0 <= x < world.columns.len(),
            0 <= z < world.depth,
            sectors.len() == world.columns.len() * world.depth,
    ;
    let i = x * world.depth + z;
    let r = sectors[i];
    records_stand(world, writing, version, flags, format);
    layout_is_the_writing(world, writing, version, format);
    sector_reads_back(
        tables.sectors,
        i * sector_length(writing),
        r,
        writing.long_records,
        format,
    );
    overrides_touch_triangles_only(tables, i, format);
}

proof fn world_is_accepted(
    world: CookedWorld,
    writing: WorldWriting,
    version: u16,
    flags: u16,
    format: WorldFormat,
)
    requires
        versions_differ(format),
        version_writes(version, format, world, writing),
        world_is_sound(world, format),
    ensures
        world_of(world_blob(world, writing, version, flags, format), format) == Ok::<
            WorldView,
            ParseError,
        >(
            described_world(
                world_blob(world, writing, version, flags, format),
                layout_of(version, format)->0,
                format,
            ),
        ),
{
    tables_stand(world, writing, version, flags, format);
    records_agree(world, writing, version, flags, format);
    layout_is_the_writing(world, writing, version, format);
}

/// What a world's blob describes.
pub open spec fn described_blob(
    world: CookedWorld,
    writing: WorldWriting,
    version: u16,
    flags: u16,
    format: WorldFormat,
) -> WorldView {
    described_world(
        world_blob(world, writing, version, flags, format),
        layout_of(version, format)->0,
        format,
    )
}

proof fn header_is_described(
    world: CookedWorld,
    writing: WorldWriting,
    version: u16,
    flags: u16,
    format: WorldFormat,
)
    requires
        versions_differ(format),
        version_writes(version, format, world, writing),
        world_is_sound(world, format),
    ensures
        ({
            let read = described_blob(world, writing, version, flags, format);
            &&& read.width == world.columns.len()
            &&& read.depth == world.depth
            &&& read.sector_size == world.sector_size
            &&& read.material_count == world.materials
            &&& read.ambient_color == world.ambient
            &&& read.fog_enabled == (world.flags & format.fog_enabled != 0)
            &&& read.override_count == world.overrides.len()
            &&& read.plain_sectors.len() == read.sectors.len()
        }),
{
    let bytes = world_blob(world, writing, version, flags, format);
    let read = described_blob(world, writing, version, flags, format);
    tables_stand(world, writing, version, flags, format);
    world_header_reads_back(bytes, world, writing);
    assert(read.ambient_color =~= world.ambient);
}

proof fn sectors_are_described(
    world: CookedWorld,
    writing: WorldWriting,
    version: u16,
    flags: u16,
    format: WorldFormat,
    x: u16,
    z: u16,
)
    requires
        versions_differ(format),
        version_writes(version, format, world, writing),
        world_is_sound(world, format),
        x < world.columns.len(),
        z < world.depth,
    ensures
        ({
            let read = described_blob(world, writing, version, flags, format);
            let i = cell(read, x, z);
            let r = world.columns[x as int][z as int];
            &&& 0 <= i < read.sectors.len()
            &&& sector_shows_record(read.plain_sectors[i], r, writing.long_records, format)
            &&& read.sectors[i].floor.heights == r.floor_heights
            &&& read.sectors[i].ceiling.heights == r.ceiling_heights
            &&& read.sectors[i].first_wall == r.first_wall
            &&& read.sectors[i].wall_count == r.wall_count
        }),
{
    header_is_described(world, writing, version, flags, format);
    tables_stand(world, writing, version, flags, format);
    cell_stands(world, writing, version, flags, format, x as int, z as int);
}

proof fn walls_and_lights_are_described(
    world: CookedWorld,
    writing: WorldWriting,
    version: u16,
    flags: u16,
    format: WorldFormat,
)
    requires
        versions_differ(format),
        version_writes(version, format, world, writing),
        world_is_sound(world, format),
    ensures
        ({
            let read = described_blob(world, writing, version, flags, format);
            &&& read.walls.len() == world.walls.len()
            &&& forall|i: int|
                0 <= i < world.walls.len() ==> wall_shows_record(
                    #[trigger] read.walls[i],
                    world.walls[i],
                    writing.long_records,
                    format,
                )
            &&& read.lights == world.lights
        }),
{
    let bytes = world_blob(world, writing, version, flags, format);
    let layout = layout_of(version, format)->0;
    let counts = counts_of(bytes, layout, format);
    let tables = tables_of(bytes, counts, layout);
    let read = described_blob(world, writing, version, flags, format);
    tables_stand(world, writing, version, flags, format);
    records_stand(world, writing, version, flags, format);
    layout_is_the_writing(world, writing, version, format);
    assert forall|i: int| 0 <= i < world.walls.len() implies wall_shows_record(
        #[trigger] read.walls[i],
        world.walls[i],
        writing.long_records,
        format,
    ) by {
        let w = world.walls[i];
        wall_reads_back(tables.walls, i * wall_length(writing), w, writing.long_records, format);
    }
    assert(read.lights =~= world.lights);
}

/// What a cooker wrote of a world is what is read: the grid cell by cell, the
/// walls and the lights one by one.
pub proof fn world_reads_back(
    world: CookedWorld,
    writing: WorldWriting,
    version: u16,
    flags: u16,
    format: WorldFormat,
)
    requires
        versions_differ(format),
        version_writes(version, format, world, writing),
        world_is_sound(world, format),
    ensures
        world_of(world_blob(world, writing, version, flags, format), format) is Ok,
        ({
            let read = world_of(world_blob(world, writing, version, flags, format), format)->Ok_0;
            &&& read.width == world.columns.len()
            &&& read.depth == world.depth
            &&& read.sector_size == world.sector_size
            &&& read.material_count == world.materials
            &&& read.ambient_color == world.ambient
            &&& read.fog_enabled == (world.flags & format.fog_enabled != 0)
            &&& read.override_count == world.overrides.len()
            &&& read.plain_sectors.len() == read.sectors.len()
            &&& forall|x: u16, z: u16|
                x < read.width && z < read.depth ==> ({
                    let i = #[trigger] cell(read, x, z);
                    let r = world.columns[x as int][z as int];
                    &&& 0 <= i < read.sectors.len()
                    &&& sector_shows_record(
                        read.plain_sectors[i],
                        r,
                        writing.long_records,
                        format,
                    )
                    &&& read.sectors[i].floor.heights == r.floor_heights
                    &&& read.sectors[i].ceiling.heights == r.ceiling_heights
                    &&& read.sectors[i].first_wall == r.first_wall
                    &&& read.sectors[i].wall_count == r.wall_count
                })
            &&& read.walls.len() == world.walls.len()
            &&& forall|i: int|
                0 <= i < world.walls.len() ==> wall_shows_record(
                    #[trigger] read.walls[i],
                    world.walls[i],
                    writing.long_records,
                    format,
                )
            &&& read.lights == world.lights
        }),
{
    let read = described_blob(world, writing, version, flags, format);
    world_is_accepted(world, writing, version, flags, format);
    header_is_described(world, writing, version, flags, format);
    walls_and_lights_are_described(world, writing, version, flags, format);
    assert forall|x: u16, z: u16| x < read.width && z < read.depth implies ({
        let i = #[trigger] cell(read, x, z);
        let r = world.columns[x as int][z as int];
        &&& 0 <= i < read.sectors.len()
        &&& sector_shows_record(read.plain_sectors[i], r, writing.long_records, format)
        &&& read.sectors[i].floor.heights == r.floor_heights
        &&& read.sectors[i].ceiling.heights == r.ceiling_heights
        &&& read.sectors[i].first_wall == r.first_wall
        &&& read.sectors[i].wall_count == r.wall_count
    }) by {
        sectors_are_described(world, writing, version, flags, format, x, z);
    }
}

/// A row stands in the table that it was written to.
proof fn cut_lies(
    bytes: Seq<u8>,
    from: int,
    to: int,
    i: int,
    count: int,
    size: int,
    row: Seq<u8>,
)
    requires
        0 <= from <= to <= bytes.len(),
        to - from == count * size,
        0 <= i < count,
        row.len() == size,
        lies(bytes, from + i * size, row),
    ensures
        lies(bytes.subrange(from, to), i * size, row),
{
    reveal(lies);
    let cut = bytes.subrange(from, to);
    assert(0 <= i * size && i * size + size <= count * size) by (nonlinear_arith)
        requires
            0 <= i,
            i + 1 <= count,
            0 <= size,
    ;
    assert forall|j: int| 0 <= j < row.len() implies #[trigger] row[j] == cut[i * size + j] by {
        assert(row[j] == bytes[from + i * size + j]);
    }
}

proof fn override_names_its_surface(bytes: Seq<u8>, at: int, o: OverrideRecord, long: bool)
    requires
        lies(bytes, at, override_bytes(o, long)),
    ensures
        le16(bytes, at) == o.sector,
        bytes[at + 2] == o.surface,
{
    reveal(lies);
    let part = override_bytes(o, long);
    assert(part[0] == bytes[at + 0] && part[1] == bytes[at + 1] && part[2] == bytes[at + 2]);
}

/// Where an override record speaks of a surface of a sector, the first that does
/// is what the surface is told.
pub proof fn first_override_counts(
    table: Seq<u8>,
    size: int,
    from: int,
    count: int,
    sector: int,
    surface: u8,
    i: int,
)
    requires
        0 <= from <= i < count,
        le16(table, i * size) == sector && table[i * size + 2] == surface,
        forall|j: int|
            from <= j < i ==> !(#[trigger] le16(table, j * size) == sector && table[j * size + 2]
                == surface),
    ensures
        find_override(table, size, from, count, sector, surface) == Some(
            override_at(table, i * size, size),
        ),
    decreases i - from,
{
    if from < i {
        assert(!(le16(table, from * size) == sector && table[from * size + 2] == surface));
        first_override_counts(table, size, from + 1, count, sector, surface, i);
    }
}

/// A surface that no override speaks of has both of its triangles or none, both to
/// be walked on or none, all of one material, and each triangle takes its heights
/// from the corners of the quad that its split names.
pub proof fn plain_surfaces_split_their_quads(
    fields: SurfaceFields,
    format: WorldFormat,
    t: int,
    c: int,
)
    requires
        format.wf(),
        0 <= t < 2,
        0 <= c < 3,
        format.triangle_present[t] != 0,
        format.triangle_walkable[t] != 0,
        (format.triangle_present[0] | format.triangle_present[1]) & format.triangle_walkable[t]
            == 0,
    ensures
        ({
            let surface = surface_of(fields, None, format);
            &&& surface.triangle_present[t] == fields.exists
            &&& surface.triangle_walkable[t] == (fields.exists && fields.walkable)
            &&& surface.triangle_materials[t] == surface.material
            &&& surface.triangle_uvs[t] == fields.uvs
            &&& fields.split == format.north_east_south_west ==> surface.triangle_heights[t][c]
                == fields.heights[format.north_east_south_west_triangles[t][c] as int]
            &&& fields.split != format.north_east_south_west ==> surface.triangle_heights[t][c]
                == fields.heights[format.north_west_south_east_triangles[t][c] as int]
        }),
{
    flags_select(
        format.triangle_present[0],
        format.triangle_present[1],
        format.triangle_walkable[0],
        format.triangle_walkable[1],
    );
}

proof fn flags_select(p0: u8, p1: u8, w0: u8, w1: u8)
    by (bit_vector)
    ensures
        p0 != 0 ==> (p0 | p1) & p0 != 0 && ((p0 | p1) | (w0 | w1)) & p0 != 0,
        p1 != 0 ==> (p0 | p1) & p1 != 0 && ((p0 | p1) | (w0 | w1)) & p1 != 0,
        w0 != 0 ==> ((p0 | p1) | (w0 | w1)) & w0 != 0,
        w1 != 0 ==> ((p0 | p1) | (w0 | w1)) & w1 != 0,
        0u8 & p0 == 0,
        0u8 & p1 == 0,
        0u8 & w0 == 0,
        0u8 & w1 == 0,
{
}

/// What an override says of a triangle is what the triangle is: whether it is
/// there, whether it can be walked on, its material, its texture corners and, if
/// the record has any, its heights.
pub proof fn overrides_are_followed(
    fields: SurfaceFields,
    o: SurfaceOverride,
    format: WorldFormat,
    t: int,
)
    requires
        0 <= t < 2,
    ensures
        ({
            let surface = surface_of(fields, Some(o), format);
            let plain = surface_of(fields, None, format);
            &&& surface.triangle_present[t] == (o.flags & format.triangle_present[t] != 0)
            &&& surface.triangle_walkable[t] == (o.flags & format.triangle_walkable[t] != 0)
            &&& o.materials[t] == format.no_material ==> surface.triangle_materials[t] is None
            &&& o.materials[t] != format.no_material ==> surface.triangle_materials[t] == Some(
                o.materials[t],
            )
            &&& surface.triangle_uvs[t] == o.uvs[t]
            &&& o.heights is Some ==> surface.triangle_heights[t] == o.heights->0[t]
            &&& o.heights is None ==> surface.triangle_heights[t] == plain.triangle_heights[t]
        }),
{
}

/// A surface shows if it exists and has a triangle; a sector shows if a surface of
/// it does or it has a wall; a probe finds what exists or has a wall.
pub proof fn showing_takes_a_triangle_or_a_wall(sector: WorldSector, t: int)
    requires
        0 <= t < 2,
    ensures
        sector.wall_count > 0 ==> sector_shows(sector) && probe_shows(probe_of(sector)),
        sector.floor.exists && sector.floor.triangle_present[t] ==> sector_shows(sector),
        sector.ceiling.exists && sector.ceiling.triangle_present[t] ==> sector_shows(sector),
        sector.floor.exists || sector.ceiling.exists ==> probe_shows(probe_of(sector)),
        sector.wall_count == 0 && !sector.floor.exists && !sector.ceiling.exists ==> !sector_shows(
            sector,
        ) && !probe_shows(probe_of(sector)),
        sector.wall_count == 0 && (forall|k: int|
            0 <= k < 2 ==> !(#[trigger] sector.floor.triangle_present[k])
                && !sector.ceiling.triangle_present[k]) ==> !sector_shows(sector),
{
}

/// The material of a surface is that of its first triangle, or of the second where
/// the first is missing or has none, or else that of the quad. A missing triangle
/// has no material and cannot be walked on.
pub proof fn materials_come_from_triangles(surface: WorldSurface, t: int)
    requires
        0 <= t < 2,
    ensures
        !surface.triangle_present[t] ==> triangle_material(surface, t) is None && !triangle_walks(
            surface,
            t,
        ),
        surface.triangle_present[t] ==> triangle_material(surface, t)
            == surface.triangle_materials[t] && triangle_walks(surface, t)
            == surface.triangle_walkable[t],
        surface.triangle_present[0] && surface.triangle_materials[0] is Some ==> surface_material(
            surface,
        ) == surface.triangle_materials[0],
        !surface.triangle_present[0] && surface.triangle_present[1]
            && surface.triangle_materials[1] is Some ==> surface_material(surface)
            == surface.triangle_materials[1],
        !surface.triangle_present[0] && !surface.triangle_present[1] ==> surface_material(surface)
            == surface.material,
{
}

/// A collision query meets the triangle that it asks for, as the sector has it, or
/// none where the floor or that triangle is missing.
pub proof fn collisions_meet_their_triangle(sector: WorldSector, t: usize)
    requires
        t < 2,
    ensures
        ({
            let met = floor_collision_of(sector, t);
            &&& met is Some <==> sector.floor.exists && sector.floor.triangle_present[t as int]
            &&& met matches Some(met) ==> {
                &&& met.triangle == t
                &&& met.walkable == sector.floor.triangle_walkable[t as int]
                &&& met.floor_heights == sector.floor.heights
                &&& met.triangle_heights == sector.floor.triangle_heights[t as int]
                &&& met.split == sector.floor.split
            }
        }),
{
}

} // verus!
