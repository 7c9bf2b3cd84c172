//! Sectors as a disc holds them, and what is found in them.

use vstd::prelude::*;

use crate::fmv::iso::{ascii_lower, base_len_is_first, find_from, root_of, same_ignoring_case};
use crate::fmv::mdec::{quant_byte, word_of, QUANT_ROW_MAJOR, ZIGZAG_TO_ROW_MAJOR};
use crate::fmv::stream::{
    add_step, can_store, chunk_keeps_to_its_place, chunk_of, payload_at, stored, turned_to,
    Assembly, Chunk, Frame,
};
use crate::written::{bytes16, bytes32, lies, long_word_reads_back, parts_lie, word_reads_back};

verus! {

/// The front of a video sector: two marks, then the chunk's index and count, the
/// frame's number and size, its width and height.
pub open spec fn chunk_header(chunk: Chunk) -> Seq<u8> {
    seq![0x60u8, 0x01u8, 0x01u8, 0x80u8] + bytes16(chunk.index as int) + bytes16(
        chunk.count as int,
    ) + bytes32(chunk.frame as int) + bytes32(chunk.size as int) + bytes16(chunk.width as int)
        + bytes16(chunk.height as int)
}

/// A written chunk header is read back.
pub proof fn chunk_reads_back(sector: Seq<u8>, chunk: Chunk)
    requires
        lies(sector, 0, chunk_header(chunk)),
        sector.len() >= 32,
        chunk.index < chunk.count <= 32,
    ensures
        chunk_of(sector) == Some(chunk),
{
    let marks = seq![0x60u8, 0x01u8, 0x01u8, 0x80u8];
    let a = marks + bytes16(chunk.index as int);
    let b = a + bytes16(chunk.count as int);
    let c = b + bytes32(chunk.frame as int);
    let d = c + bytes32(chunk.size as int);
    let e = d + bytes16(chunk.width as int);
    parts_lie(sector, 0, e, bytes16(chunk.height as int));
    parts_lie(sector, 0, d, bytes16(chunk.width as int));
    parts_lie(sector, 0, c, bytes32(chunk.size as int));
    parts_lie(sector, 0, b, bytes32(chunk.frame as int));
    parts_lie(sector, 0, a, bytes16(chunk.count as int));
    parts_lie(sector, 0, marks, bytes16(chunk.index as int));
    word_reads_back(sector, 4, chunk.index as int);
    word_reads_back(sector, 6, chunk.count as int);
    long_word_reads_back(sector, 8, chunk.frame as int);
    long_word_reads_back(sector, 12, chunk.size as int);
    word_reads_back(sector, 16, chunk.width as int);
    word_reads_back(sector, 18, chunk.height as int);
    reveal(lies);
    assert(marks[0] == sector[0int + 0] && marks[1] == sector[0int + 1] && marks[2] == sector[0int
        + 2] && marks[3] == sector[0int + 3]);
}

/// A sector without the marks, or with an index that its count does not reach, is
/// no chunk and changes nothing.
pub proof fn other_sectors_change_nothing(a: Assembly, sector: Seq<u8>, buf: Seq<u8>)
    requires
        sector.len() < 32 || sector[0] != 0x60 || sector[1] != 0x01 || sector[2] != 0x01
            || sector[3] != 0x80 || sector[4] + 256 * sector[5] >= sector[6] + 256 * sector[7]
            || sector[6] + 256 * sector[7] > 32,
    ensures
        add_step(a, sector, buf) == (a, buf, None::<Frame>),
{
}

/// What an assembler comes to over a series of sectors.
pub open spec fn fed(a: Assembly, sectors: Seq<Seq<u8>>, buf: Seq<u8>) -> (
    Assembly,
    Seq<u8>,
    Option<Frame>,
)
    decreases sectors.len(),
{
    if sectors.len() == 0 {
        (a, buf, None)
    } else {
        let before = fed(a, sectors.drop_last(), buf);
        add_step(before.0, sectors.last(), before.1)
    }
}

/// Whether sectors carry the chunks of one frame, each chunk once, in any order.
pub open spec fn is_frame(sectors: Seq<Seq<u8>>, frame: Frame, buf_len: int) -> bool {
    &&& 0 < sectors.len() <= 32
    &&& 2016 * sectors.len() <= buf_len
    &&& forall|k: int|
        0 <= k < sectors.len() ==> {
            &&& (#[trigger] sectors[k]).len() >= 2048
            &&& chunk_of(sectors[k]) matches Some(chunk) && chunk.count == sectors.len()
                && chunk.frame == frame.number && chunk.size == frame.size && chunk.width
                == frame.width && chunk.height == frame.height
        }
    &&& forall|j: int, k: int|
        0 <= j < k < sectors.len() ==> index_in(#[trigger] sectors[j]) != index_in(
            #[trigger] sectors[k],
        )
    &&& forall|i: int| 0 <= i < sectors.len() ==> #[trigger] comes(sectors, i)
}

/// Whether one of the sectors carries chunk `i`.
pub open spec fn comes(sectors: Seq<Seq<u8>>, i: int) -> bool {
    exists|k: int| 0 <= k < sectors.len() && index_in(#[trigger] sectors[k]) == i
}

/// The index of the chunk in a sector.
pub open spec fn index_in(sector: Seq<u8>) -> int {
    (chunk_of(sector)->0).index as int
}

/// After some of its sectors, the frame is still open, and what came is in its
/// place.
proof fn part_of_a_frame(
    a: Assembly,
    sectors: Seq<Seq<u8>>,
    buf: Seq<u8>,
    frame: Frame,
    n: int,
)
    requires
        is_frame(sectors, frame, buf.len() as int),
        a.arrived == Set::<int>::empty(),
        0 < n < sectors.len(),
    ensures
        ({
            let now = fed(a, sectors.take(n), buf);
            &&& now.2 is None
            &&& now.0.frame == frame.number
            &&& now.0.count == sectors.len()
            &&& now.0.dropped == a.dropped
            &&& now.1.len() == buf.len()
            &&& forall|i: int|
                now.0.arrived.contains(i) <==> exists|k: int|
                    0 <= k < n && index_in(#[trigger] sectors[k]) == i
            &&& forall|k: int|
                0 <= k < n ==> payload_at(now.1, index_in(#[trigger] sectors[k]))
                    == sectors[k].subrange(32, 2048)
        }),
    decreases n,
{
    let sector = sectors[n - 1];
    let before = fed(a, sectors.take(n - 1), buf);
    assert(sectors.take(n).drop_last() =~= sectors.take(n - 1));
    assert(sectors.take(n).last() == sector);
    let chunk = chunk_of(sector)->0;
    if n > 1 {
        part_of_a_frame(a, sectors, buf, frame, n - 1);
    } else {
        assert(sectors.take(0).len() == 0);
    }
    let turned = turned_to(before.0, chunk);
    assert forall|i: int| turned.arrived.contains(i) <==> exists|k: int|
        0 <= k < n - 1 && index_in(#[trigger] sectors[k]) == i by {
        if n == 1 {
            assert(!turned.arrived.contains(i));
        }
    }
    assert((chunk.index + 1) * 2016 <= 2016 * sectors.len());
    assert(can_store(chunk, sector, before.1.len() as int));
    let arrived = turned.arrived.insert(chunk.index as int);
    let missing = index_in(sectors[n]);
    assert(!arrived.contains(missing)) by {
        if turned.arrived.contains(missing) {
            let k = choose|k: int| 0 <= k < n - 1 && index_in(#[trigger] sectors[k]) == missing;
            assert(index_in(sectors[k]) != index_in(sectors[n]));
        }
        assert(index_in(sectors[n - 1]) != index_in(sectors[n]));
    }
    assert(0 <= missing < chunk.count) by {
        assert(chunk_of(sectors[n]) is Some);
    }
    let now = fed(a, sectors.take(n), buf);
    assert(now.0.arrived == arrived);
    assert forall|i: int| arrived.contains(i) <==> exists|k: int|
        0 <= k < n && index_in(#[trigger] sectors[k]) == i by {
        if arrived.contains(i) {
            if i == chunk.index {
                assert(index_in(sectors[n - 1]) == i);
            } else {
                let k = choose|k: int| 0 <= k < n - 1 && index_in(#[trigger] sectors[k]) == i;
                assert(index_in(sectors[k]) == i);
            }
        }
    }
    payloads_stay(before.1, sector, sectors, n);
}

/// A stored chunk joins the chunks before it.
proof fn payloads_stay(buf: Seq<u8>, sector: Seq<u8>, sectors: Seq<Seq<u8>>, n: int)
    requires
        0 < n <= sectors.len(),
        2016 * sectors.len() <= buf.len(),
        sector == sectors[n - 1],
        forall|k: int|
            0 <= k < sectors.len() ==> (#[trigger] sectors[k]).len() >= 2048 && (chunk_of(
                sectors[k],
            ) matches Some(chunk) && chunk.count == sectors.len()),
        forall|j: int, k: int|
            0 <= j < k < sectors.len() ==> index_in(#[trigger] sectors[j]) != index_in(
                #[trigger] sectors[k],
            ),
        forall|k: int|
            0 <= k < n - 1 ==> payload_at(buf, index_in(#[trigger] sectors[k]))
                == sectors[k].subrange(32, 2048),
    ensures
        stored(chunk_of(sector)->0, sector, buf).len() == buf.len(),
        forall|k: int|
            0 <= k < n ==> payload_at(
                stored(chunk_of(sector)->0, sector, buf),
                index_in(#[trigger] sectors[k]),
            ) == sectors[k].subrange(32, 2048),
{
    let chunk = chunk_of(sector)->0;
    assert(chunk.index < chunk.count);
    assert((chunk.index + 1) * 2016 <= 2016 * sectors.len());
    let other = if chunk.index == 0 {
        1int
    } else {
        0
    };
    assert forall|k: int| 0 <= k < n implies payload_at(
        stored(chunk, sector, buf),
        index_in(#[trigger] sectors[k]),
    ) == sectors[k].subrange(32, 2048) by {
        let i = index_in(sectors[k]);
        if k < n - 1 {
            assert(index_in(sectors[k]) != index_in(sectors[n - 1]));
            assert(0 <= i < sectors.len());
            chunk_keeps_to_its_place(chunk, sector, buf, i);
        } else {
            let filled = stored(chunk, sector, buf);
            assert(payload_at(filled, i) =~= sector.subrange(32, 2048));
        }
    }
    assert(stored(chunk, sector, buf).len() == buf.len());
}

/// A frame is complete when its last chunk has come, in whatever order they come,
/// and not before. Each chunk's bytes stand in the place of its index.
pub proof fn frames_come_together(
    a: Assembly,
    sectors: Seq<Seq<u8>>,
    buf: Seq<u8>,
    frame: Frame,
)
    requires
        is_frame(sectors, frame, buf.len() as int),
        a.arrived == Set::<int>::empty(),
    ensures
        ({
            let done = fed(a, sectors, buf);
            &&& done.2 == Some(frame)
            &&& done.0.arrived == Set::<int>::empty()
            &&& done.0.dropped == a.dropped
            &&& forall|k: int|
                0 <= k < sectors.len() ==> payload_at(done.1, index_in(#[trigger] sectors[k]))
                    == sectors[k].subrange(32, 2048)
            &&& forall|n: int|
                0 <= n < sectors.len() ==> (#[trigger] fed(a, sectors.take(n), buf)).2 is None
        }),
{
    let n = sectors.len() as int;
    let sector = sectors[n - 1];
    let before = fed(a, sectors.take(n - 1), buf);
    let chunk = chunk_of(sector)->0;
    assert(sectors.drop_last() =~= sectors.take(n - 1));
    if n > 1 {
        part_of_a_frame(a, sectors, buf, frame, n - 1);
    } else {
        assert(sectors.take(0).len() == 0);
    }
    let turned = turned_to(before.0, chunk);
    let arrived = turned.arrived.insert(chunk.index as int);
    assert((chunk.index + 1) * 2016 <= 2016 * sectors.len());
    assert(can_store(chunk, sector, before.1.len() as int));
    assert forall|i: int| 0 <= i < chunk.count implies arrived.contains(i) by {
        assert(comes(sectors, i));
        let k = choose|k: int| 0 <= k < sectors.len() && index_in(#[trigger] sectors[k]) == i;
        if k < n - 1 {
            assert(before.0.arrived.contains(i));
        }
    }
    payloads_stay(before.1, sector, sectors, n);
    assert forall|m: int| 0 <= m < n implies (#[trigger] fed(a, sectors.take(m), buf)).2 is None by {
        if m > 0 {
            part_of_a_frame(a, sectors, buf, frame, m);
        } else {
            assert(sectors.take(0).len() == 0);
        }
    }
}

/// A chunk of another frame gives the open frame up and counts it.
pub proof fn lost_frames_are_counted(a: Assembly, sector: Seq<u8>, buf: Seq<u8>, chunk: Chunk)
    requires
        chunk_of(sector) == Some(chunk),
        chunk.frame != a.frame,
        chunk.count > 1,
        a.dropped < u32::MAX,
        can_store(chunk, sector, buf.len() as int),
    ensures
        ({
            let now = add_step(a, sector, buf).0;
            &&& a.arrived == Set::<int>::empty() ==> now.dropped == a.dropped
            &&& a.arrived != Set::<int>::empty() ==> now.dropped == a.dropped + 1
            &&& now.frame == chunk.frame
            &&& now.arrived == set![chunk.index as int]
        }),
{
    let turned = turned_to(a, chunk);
    let arrived = turned.arrived.insert(chunk.index as int);
    assert(arrived =~= set![chunk.index as int]);
    let missing = if chunk.index == 0 {
        1int
    } else {
        0
    };
    assert(!arrived.contains(missing));
}

/// The number in the other byte order.
pub open spec fn reversed32(x: int) -> Seq<u8> {
    let b = bytes32(x);
    seq![b[3], b[2], b[1], b[0]]
}

/// A directory record: its length, a byte, where the file starts and how long it
/// is, each in both byte orders, fourteen bytes that do not matter here, and its
/// name behind the name's length.
pub open spec fn directory_record(lba: u32, size: u32, rest: Seq<u8>, name: Seq<u8>) -> Seq<u8> {
    seq![(33 + name.len()) as u8, 0u8] + bytes32(lba as int) + reversed32(lba as int) + bytes32(
        size as int,
    ) + reversed32(size as int) + rest + seq![name.len() as u8] + name
}

proof fn record_reads_back(
    sector: Seq<u8>,
    at: int,
    lba: u32,
    size: u32,
    rest: Seq<u8>,
    name: Seq<u8>,
)
    requires
        lies(sector, at, directory_record(lba, size, rest, name)),
        rest.len() == 14,
        33 + name.len() < 256,
    ensures
        crate::bytes::le32(sector, at + 2) == lba,
        crate::bytes::le32(sector, at + 10) == size,
        sector[at] == 33 + name.len(),
        sector[at + 32] == name.len(),
        at + 33 + name.len() <= sector.len(),
        sector.subrange(at + 33, at + 33 + name.len()) == name,
        0 <= at,
{
    let head = seq![(33 + name.len()) as u8, 0u8];
    let a = head + bytes32(lba as int);
    let b = a + reversed32(lba as int);
    let c = b + bytes32(size as int);
    let d = c + reversed32(size as int);
    let e = d + rest;
    let f = e + seq![name.len() as u8];
    parts_lie(sector, at, f, name);
    parts_lie(sector, at, e, seq![name.len() as u8]);
    parts_lie(sector, at, d, rest);
    parts_lie(sector, at, c, reversed32(size as int));
    parts_lie(sector, at, b, bytes32(size as int));
    parts_lie(sector, at, a, reversed32(lba as int));
    parts_lie(sector, at, head, bytes32(lba as int));
    long_word_reads_back(sector, at + 2, lba as int);
    long_word_reads_back(sector, at + 10, size as int);
    crate::written::cut_is_what_was_written(sector, at + 33, name);
    reveal(lies);
    assert(head[0] == sector[at + 0]);
    assert(seq![name.len() as u8][0] == sector[at + 32 + 0]);
}

/// A file is found by its name without the version behind a semicolon, whatever
/// the case of its letters, and its record says where it is. A record of another
/// name is passed over.
pub proof fn records_are_found_by_name(
    sector: Seq<u8>,
    at: int,
    lba: u32,
    size: u32,
    rest: Seq<u8>,
    base: Seq<u8>,
    version: Seq<u8>,
    wanted: Seq<u8>,
)
    requires
        lies(sector, at, directory_record(lba, size, rest, base + version)),
        rest.len() == 14,
        33 + base.len() + version.len() < 256,
        forall|i: int| 0 <= i < base.len() ==> #[trigger] base[i] != 0x3B,
        version.len() > 0 ==> version[0] == 0x3B,
    ensures
        same_ignoring_case(base, wanted) ==> find_from(sector, wanted, at) == Some((lba, size)),
        !same_ignoring_case(base, wanted) ==> find_from(sector, wanted, at) == find_from(
            sector,
            wanted,
            at + 33 + base.len() + version.len(),
        ),
{
    let name = base + version;
    record_reads_back(sector, at, lba, size, rest, name);
    let raw = sector.subrange(at + 33, at + 33 + sector[at + 32]);
    assert(raw == name);
    base_len_is_first(raw, base.len() as int);
    assert(raw.take(base.len() as int) =~= base);
}

/// Where the records of a directory end, nothing more is found.
pub proof fn directories_end(sector: Seq<u8>, at: int, wanted: Seq<u8>)
    requires
        at + 33 > sector.len() || sector[at] == 0,
    ensures
        find_from(sector, wanted, at) is None,
{
}

/// Names are the same if they are the same letter by letter, capital or small,
/// and any other byte is only the same as itself.
pub proof fn case_does_not_matter(a: u8, b: u8)
    ensures
        ascii_lower(a) == ascii_lower(b) <==> a == b || (0x41 <= a <= 0x5A && b == a + 32) || (0x41
            <= b <= 0x5A && a == b + 32),
{
}

/// The root directory is what its own record in the volume descriptor says.
pub proof fn root_directory_reads_back(
    pvd: Seq<u8>,
    lba: u32,
    size: u32,
    rest: Seq<u8>,
    name: Seq<u8>,
)
    requires
        lies(pvd, 0, seq![1u8, 0x43u8, 0x44u8, 0x30u8, 0x30u8, 0x31u8]),
        lies(pvd, 156, directory_record(lba, size, rest, name)),
        rest.len() == 14,
        name.len() == 1,
    ensures
        root_of(pvd) == Some((lba, size)),
{
    record_reads_back(pvd, 156, lba, size, rest, name);
    reveal(lies);
    let mark = seq![1u8, 0x43u8, 0x44u8, 0x30u8, 0x30u8, 0x31u8];
    assert(mark[0] == pvd[0int + 0] && mark[1] == pvd[0int + 1] && mark[2] == pvd[0int + 2]
        && mark[3] == pvd[0int + 3] && mark[4] == pvd[0int + 4] && mark[5] == pvd[0int + 5]);
}

/// The zigzag goes from one corner to the other, diagonal by diagonal, each step
/// to a neighbour, and every other diagonal downwards.
#[verifier::rlimit(40)]
pub proof fn zigzag_goes_along_diagonals(i: int)
    requires
        0 <= i < 63,
    ensures
        ({
            let (a, b) = (ZIGZAG_TO_ROW_MAJOR[i] as int, ZIGZAG_TO_ROW_MAJOR[i + 1] as int);
            let (row, column) = (a / 8, a % 8);
            let (next_row, next_column) = (b / 8, b % 8);
            let diagonal = row + column;
            &&& 0 <= a < 64
            &&& 0 <= b < 64
            &&& next_row + next_column == diagonal ==> if diagonal % 2 == 1 {
                next_row == row + 1
            } else {
                next_row == row - 1
            }
            &&& next_row + next_column != diagonal ==> next_row + next_column == diagonal + 1
                && -1 <= next_row - row <= 1 && -1 <= next_column - column <= 1
            &&& next_row + next_column != diagonal ==> if diagonal % 2 == 1 {
                column == 0 || row == 7
            } else {
                row == 0 || column == 7
            }
        }),
        ZIGZAG_TO_ROW_MAJOR[0] == 0,
        ZIGZAG_TO_ROW_MAJOR[63] == 63,
{
}

/// The quantization table comes in zigzag order, once for each kind of block.
#[verifier::rlimit(40)]
pub proof fn quantization_comes_in_zigzag(i: int)
    requires
        0 <= i < 64,
    ensures
        quant_byte(i) == QUANT_ROW_MAJOR[ZIGZAG_TO_ROW_MAJOR[i] as int],
        quant_byte(i + 64) == quant_byte(i),
{
}

/// The first of four bytes is the lowest of their word.
pub proof fn words_take_bytes_in_order(a: u8, b: u8, c: u8, d: u8)
    ensures
        word_of(a, b, c, d) % 256 == a,
        word_of(a, b, c, d) / 256 % 256 == b,
        word_of(a, b, c, d) / 0x1_0000 % 256 == c,
        word_of(a, b, c, d) / 0x100_0000 == d,
{
}

} // verus!
