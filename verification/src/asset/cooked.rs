//! What a cooker writes: blobs, and the records of grid worlds.
//!
//! Everything here is put together front to back, field behind field, as a
//! writer does it.

use vstd::prelude::*;

use crate::asset::header::{flags_of, magic_fault, payload_fault, version_of};
use crate::asset::sector::{WorldQuadUvs, WorldSurfaceLight};
use crate::written::{
    bytes16, bytes32, joined, lies, long_word_reads_back, parts_lie, word_reads_back,
};

verus! {

/// The twelve bytes that every blob opens with.
pub open spec fn opening(magic: Seq<u8>, version: u16, flags: u16, payload: int) -> Seq<u8> {
    magic + bytes16(version as int) + bytes16(flags as int) + bytes32(payload)
}

/// A blob.
#[verifier::opaque]
pub open spec fn blob(magic: Seq<u8>, version: u16, flags: u16, payload: Seq<u8>) -> Seq<u8> {
    opening(magic, version, flags, payload.len() as int) + payload
}

/// A written blob opens without a fault, and shows its version and flags. Its
/// payload lies behind twelve bytes.
pub proof fn blob_opens(magic: Seq<u8>, version: u16, flags: u16, payload: Seq<u8>)
    requires
        magic.len() == 4,
        payload.len() < 0x1_0000_0000,
    ensures
        ({
            let bytes = blob(magic, version, flags, payload);
            &&& bytes.len() == 12 + payload.len()
            &&& magic_fault(bytes, magic) is None
            &&& version_of(bytes) == version
            &&& flags_of(bytes) == flags
            &&& forall|size: int|
                size <= payload.len() ==> (#[trigger] payload_fault(bytes, size)) is None
            &&& lies(bytes, 12, payload)
        }),
{
    reveal(blob);
    let bytes = blob(magic, version, flags, payload);
    let n = payload.len() as int;
    let a = magic + bytes16(version as int);
    let b = a + bytes16(flags as int);
    assert(lies(bytes, 0, bytes)) by {
        reveal(lies);
    }
    parts_lie(bytes, 0, opening(magic, version, flags, n), payload);
    parts_lie(bytes, 0, b, bytes32(n));
    parts_lie(bytes, 0, a, bytes16(flags as int));
    parts_lie(bytes, 0, magic, bytes16(version as int));
    word_reads_back(bytes, 4, version as int);
    word_reads_back(bytes, 6, flags as int);
    long_word_reads_back(bytes, 8, n);
    assert forall|j: int| 0 <= j < 4 implies bytes[j] == magic[j] by {
        reveal(lies);
        assert(magic[j] == bytes[0 + j]);
    }
    assert(bytes.subrange(0, 4) =~= magic);
}

/// Another magic is another kind of asset, and a payload of another length than
/// the opening says is refused.
pub proof fn foreign_blobs_are_refused(magic: Seq<u8>, bytes: Seq<u8>, size: int)
    ensures
        magic_fault(bytes, magic) is None ==> bytes.len() >= 12 && bytes.take(4) == magic,
        payload_fault(bytes, size) is None ==> {
            &&& bytes[8] + 256 * bytes[9] + 256 * 256 * bytes[10] + 256 * 256 * 256 * bytes[11]
                == bytes.len() - 12
            &&& size <= bytes.len() - 12
        },
{
    assert(bytes.len() >= 4 ==> bytes.take(4) =~= bytes.subrange(0, 4));
}

/// The four heights of a quad.
pub open spec fn height_bytes(h: [i32; 4]) -> Seq<u8> {
    bytes32(h[0] as int) + bytes32(h[1] as int) + bytes32(h[2] as int) + bytes32(h[3] as int)
}

/// The three heights of a triangle.
pub open spec fn triangle_bytes(h: [i32; 3]) -> Seq<u8> {
    bytes32(h[0] as int) + bytes32(h[1] as int) + bytes32(h[2] as int)
}

/// The texture corners of a quad.
pub open spec fn uv_bytes(uvs: WorldQuadUvs) -> Seq<u8> {
    let c = uvs.corners;
    seq![c[0].0, c[0].1, c[1].0, c[1].1, c[2].0, c[2].1, c[3].0, c[3].1]
}

/// The colours of a quad.
pub open spec fn light_bytes(light: WorldSurfaceLight) -> Seq<u8> {
    let c = light.vertex_rgb;
    c[0]@ + c[1]@ + c[2]@ + c[3]@
}

/// A sector as the cooker has it.
pub struct SectorRecord {
    pub flags: u8,
    pub floor_split: u8,
    pub ceiling_split: u8,
    pub floor_material: u16,
    pub ceiling_material: u16,
    pub first_wall: u16,
    pub wall_count: u16,
    pub floor_heights: [i32; 4],
    pub ceiling_heights: [i32; 4],
    pub floor_uvs: WorldQuadUvs,
    pub ceiling_uvs: WorldQuadUvs,
}

/// The bytes of a sector, with or without texture corners.
pub open spec fn sector_bytes(r: SectorRecord, long: bool) -> Seq<u8> {
    seq![r.flags, r.floor_split, r.ceiling_split, 0u8] + bytes16(r.floor_material as int)
        + bytes16(r.ceiling_material as int) + bytes16(r.first_wall as int) + bytes16(
        r.wall_count as int,
    ) + height_bytes(r.floor_heights) + height_bytes(r.ceiling_heights) + if long {
        uv_bytes(r.floor_uvs) + uv_bytes(r.ceiling_uvs)
    } else {
        Seq::empty()
    }
}

/// A wall as the cooker has it.
pub struct WallRecord {
    pub direction: u8,
    pub flags: u8,
    pub material: u16,
    pub shape: u16,
    pub heights: [i32; 4],
    pub uvs: WorldQuadUvs,
}

/// The bytes of a wall, with or without a shape and texture corners.
pub open spec fn wall_bytes(w: WallRecord, long: bool) -> Seq<u8> {
    seq![w.direction, w.flags, 0u8, 0u8] + bytes16(w.material as int) + bytes16(
        if long {
            w.shape as int
        } else {
            0
        },
    ) + height_bytes(w.heights) + if long {
        uv_bytes(w.uvs)
    } else {
        Seq::empty()
    }
}

/// What a cooker overrides of a floor or a ceiling.
pub struct OverrideRecord {
    pub sector: u16,
    pub surface: u8,
    pub flags: u8,
    pub materials: [u16; 2],
    pub uvs: [WorldQuadUvs; 2],
    pub heights: [[i32; 3]; 2],
}

/// The bytes of an override, with or without heights.
pub open spec fn override_bytes(o: OverrideRecord, long: bool) -> Seq<u8> {
    bytes16(o.sector as int) + seq![o.surface, o.flags] + bytes16(o.materials[0] as int) + bytes16(
        o.materials[1] as int,
    ) + uv_bytes(o.uvs[0]) + uv_bytes(o.uvs[1]) + if long {
        triangle_bytes(o.heights[0]) + triangle_bytes(o.heights[1])
    } else {
        Seq::empty()
    }
}

/// A world as the cooker has it: `columns[x][z]` is the sector of cell `(x, z)`.
pub struct CookedWorld {
    pub sector_size: i32,
    pub materials: u16,
    pub ambient: [u8; 3],
    pub flags: u8,
    pub depth: u16,
    pub columns: Seq<Seq<SectorRecord>>,
    pub walls: Seq<WallRecord>,
    pub overrides: Seq<OverrideRecord>,
    pub lights: Seq<WorldSurfaceLight>,
}

/// How a version writes its records.
pub struct WorldWriting {
    /// The header counts override records.
    pub counts_overrides: bool,
    /// Sectors and walls carry texture corners.
    pub long_records: bool,
    /// Override records carry heights.
    pub long_overrides: bool,
}

/// The columns, one behind the other.
pub open spec fn chained<T>(columns: Seq<Seq<T>>) -> Seq<T>
    decreases columns.len(),
{
    if columns.len() == 0 {
        Seq::empty()
    } else {
        chained(columns.drop_last()) + columns.last()
    }
}

/// What stands in front of the tables.
#[verifier::opaque]
pub open spec fn world_header(world: CookedWorld, writing: WorldWriting) -> Seq<u8> {
    let sectors = chained(world.columns).len() as int;
    bytes16(world.columns.len() as int) + bytes16(world.depth as int) + bytes32(
        world.sector_size as int,
    ) + bytes16(sectors) + bytes16(world.materials as int) + bytes16(world.walls.len() as int)
        + world.ambient@ + seq![world.flags] + bytes16(world.lights.len() as int)
        + if writing.counts_overrides {
        bytes16(world.overrides.len() as int) + seq![0u8, 0u8]
    } else {
        Seq::empty()
    }
}

/// The sector records.
pub open spec fn sector_rows(world: CookedWorld, writing: WorldWriting) -> Seq<Seq<u8>> {
    let sectors = chained(world.columns);
    Seq::new(sectors.len(), |i: int| sector_bytes(sectors[i], writing.long_records))
}

/// The wall records.
pub open spec fn wall_rows(world: CookedWorld, writing: WorldWriting) -> Seq<Seq<u8>> {
    Seq::new(world.walls.len(), |i: int| wall_bytes(world.walls[i], writing.long_records))
}

/// The override records.
pub open spec fn override_rows(world: CookedWorld, writing: WorldWriting) -> Seq<Seq<u8>> {
    Seq::new(
        world.overrides.len(),
        |i: int| override_bytes(world.overrides[i], writing.long_overrides),
    )
}

/// The light records.
pub open spec fn light_rows(world: CookedWorld) -> Seq<Seq<u8>> {
    Seq::new(world.lights.len(), |i: int| light_bytes(world.lights[i]))
}

/// The payload of a world: its header, sectors, walls, overrides and lights.
pub open spec fn world_payload(world: CookedWorld, writing: WorldWriting) -> Seq<u8> {
    world_header(world, writing) + joined(sector_rows(world, writing)) + joined(
        wall_rows(world, writing),
    ) + joined(override_rows(world, writing)) + joined(light_rows(world))
}

/// An item of a column stands behind the columns before it.
pub proof fn columns_chain<T>(columns: Seq<Seq<T>>, depth: int)
    requires
        forall|x: int| 0 <= x < columns.len() ==> (#[trigger] columns[x]).len() == depth,
    ensures
        chained(columns).len() == columns.len() * depth,
        forall|x: int, z: int|
            0 <= x < columns.len() && 0 <= z < depth ==> chained(columns)[x * depth + z]
                == #[trigger] columns[x][z],
    decreases columns.len(),
{
    if columns.len() > 0 {
        let before = columns.drop_last();
        let n = before.len() as int;
        assert forall|x: int| 0 <= x < n implies (#[trigger] before[x]).len() == depth by {
            assert(before[x] == columns[x]);
        }
        columns_chain(before, depth);
        assert(columns[n].len() == depth);
        assert((n + 1) * depth == n * depth + depth) by (nonlinear_arith);
        assert forall|x: int, z: int| 0 <= x < columns.len() && 0 <= z < depth implies chained(
            columns,
        )[x * depth + z] == #[trigger] columns[x][z] by {
            if x < n {
                assert(before[x][z] == columns[x][z]);
                assert(0 <= x * depth && x * depth + depth <= n * depth) by (nonlinear_arith)
                    requires
                        0 <= x < n,
                        0 <= depth,
                ;
            }
        }
    }
}

} // verus!
