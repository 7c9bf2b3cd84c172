//! STR video sectors: the 32-byte chunk header and frame reassembly.
//!
//! Every video sector's 2048 user bytes are a 32-byte header plus 2016
//! bytes of one frame's bitstream:
//!
//! | Bytes  | Field |
//! |--------|-------|
//! | 0..2   | `0x0160` |
//! | 2..4   | `0x8001` (MDEC video chunk) |
//! | 4..6   | chunk index within the frame |
//! | 6..8   | chunks in the frame |
//! | 8..12  | frame number (1-based) |
//! | 12..16 | frame bitstream size in bytes |
//! | 16..18 | width |
//! | 18..20 | height |
//! | 20..28 | copy of the BS frame header |
//!
//! Interleaved XA audio sectors never reach this layer: with the drive in
//! XA mode they go straight to the SPU and raise no data IRQ.

use vstd::prelude::*;
use crate::bytes::{le16, le32, read_le16, read_le32};

verus! {

/// Bytes of chunk header at the start of each video sector.
pub const CHUNK_HEADER_BYTES: usize = 32;

/// Bitstream bytes carried per video sector.
pub const CHUNK_PAYLOAD_BYTES: usize = 2016;

/// Most chunks per frame [`FrameAssembler`] tracks (a 32-bit mask). At
/// 2016 bytes each that is 64 KB, far above any frame a 2x stream carries.
pub const MAX_CHUNKS: u16 = 32;

/// Parsed chunk header of one video sector.
#[derive(Clone, Copy, Debug, PartialEq, Eq, Structural)]
pub struct Chunk {
    /// Index of this chunk within its frame.
    pub index: u16,
    /// Chunks in the frame.
    pub count: u16,
    /// Frame number.
    pub frame: u32,
    /// Frame bitstream size in bytes.
    pub size: u32,
    /// Frame width in pixels.
    pub width: u16,
    /// Frame height in pixels.
    pub height: u16,
}

/// The chunk that a sector's user data holds, if it is a video sector.
pub open spec fn chunk_of(sector: Seq<u8>) -> Option<Chunk> {
    if sector.len() >= CHUNK_HEADER_BYTES && le16(sector, 0) == 0x0160 && le16(sector, 2) == 0x8001
        && 0 < le16(sector, 6) <= MAX_CHUNKS && le16(sector, 4) < le16(sector, 6) {
        Some(
            Chunk {
                index: le16(sector, 4),
                count: le16(sector, 6),
                frame: le32(sector, 8),
                size: le32(sector, 12),
                width: le16(sector, 16),
                height: le16(sector, 18),
            },
        )
    } else {
        None
    }
}

impl Chunk {
    /// Parse a sector's user data; `None` if it is not an STR video chunk.
    pub fn parse(sector: &[u8]) -> (chunk: Option<Chunk>)
        ensures
            chunk == chunk_of(sector@),
    {
        if sector.len() < CHUNK_HEADER_BYTES {
            return None;
        }
        if read_le16(sector, 0) != 0x0160 || read_le16(sector, 2) != 0x8001 {
            return None;
        }
        let chunk = Chunk {
            index: read_le16(sector, 4),
            count: read_le16(sector, 6),
            frame: read_le32(sector, 8),
            size: read_le32(sector, 12),
            width: read_le16(sector, 16),
            height: read_le16(sector, 18),
        };
        if chunk.count == 0 || chunk.count > MAX_CHUNKS || chunk.index >= chunk.count {
            return None;
        }
        Some(chunk)
    }
}

/// A frame whose every chunk has arrived.
#[derive(Clone, Copy, Debug, PartialEq, Eq, Structural)]
pub struct Frame {
    /// Frame number from the chunk headers.
    pub number: u32,
    /// Bitstream bytes.
    pub size: u32,
    /// Width in pixels.
    pub width: u16,
    /// Height in pixels.
    pub height: u16,
}

/// Collects one frame's chunks into a caller-owned buffer.
///
/// Chunks may arrive in any order. A chunk from a new frame while the
/// current one is incomplete abandons it (a lost sector) and counts it in
/// [`dropped`](Self::dropped).
pub struct FrameAssembler {
    frame: u32,
    mask: u32,
    count: u16,
    /// Frames abandoned with chunks missing.
    pub dropped: u32,
}

/// What an assembler knows: the frame and chunk count it is collecting, which
/// chunks have come, and how many frames it gave up.
pub struct Assembly {
    pub frame: u32,
    pub count: u16,
    pub arrived: Set<int>,
    pub dropped: u32,
}

/// The chunks that the bits of a mask stand for.
pub open spec fn chunks_in(mask: u32) -> Set<int> {
    Set::new(|i: int| 0 <= i < 32 && mask & (1u32 << (i as u32)) != 0)
}

/// An assembler turns to the frame of `chunk`, if it is another one.
pub open spec fn turned_to(a: Assembly, chunk: Chunk) -> Assembly {
    if chunk.frame != a.frame || chunk.count != a.count {
        Assembly {
            frame: chunk.frame,
            count: chunk.count,
            arrived: Set::empty(),
            dropped: if a.arrived == Set::<int>::empty() {
                a.dropped
            } else {
                (a.dropped + 1) as u32
            },
        }
    } else {
        a
    }
}

/// The payload of `sector` can be put in its place.
pub open spec fn can_store(chunk: Chunk, sector: Seq<u8>, buf_len: int) -> bool {
    &&& (chunk.index + 1) * CHUNK_PAYLOAD_BYTES <= buf_len
    &&& sector.len() >= CHUNK_HEADER_BYTES + CHUNK_PAYLOAD_BYTES
}

/// The buffer with the payload of `sector` in its place.
pub open spec fn stored(chunk: Chunk, sector: Seq<u8>, buf: Seq<u8>) -> Seq<u8> {
    let at = chunk.index * CHUNK_PAYLOAD_BYTES;
    buf.take(at) + sector.subrange(
        CHUNK_HEADER_BYTES as int,
        CHUNK_HEADER_BYTES + CHUNK_PAYLOAD_BYTES,
    ) + buf.skip(at + CHUNK_PAYLOAD_BYTES)
}

/// What adding a sector makes of the assembler and of the buffer, and what it
/// answers.
pub open spec fn add_step(a: Assembly, sector: Seq<u8>, buf: Seq<u8>) -> (
    Assembly,
    Seq<u8>,
    Option<Frame>,
) {
    match chunk_of(sector) {
        None => (a, buf, None),
        Some(chunk) => {
            let turned = turned_to(a, chunk);
            if !can_store(chunk, sector, buf.len() as int) {
                (turned, buf, None)
            } else {
                let arrived = turned.arrived.insert(chunk.index as int);
                let filled = stored(chunk, sector, buf);
                if forall|i: int| 0 <= i < chunk.count ==> arrived.contains(i) {
                    (
                        Assembly { frame: 0, arrived: Set::empty(), ..turned },
                        filled,
                        Some(
                            Frame {
                                number: chunk.frame,
                                size: chunk.size,
                                width: chunk.width,
                                height: chunk.height,
                            },
                        ),
                    )
                } else {
                    (Assembly { arrived, ..turned }, filled, None)
                }
            }
        },
    }
}

impl View for FrameAssembler {
    type V = Assembly;

    closed spec fn view(&self) -> Assembly {
        Assembly {
            frame: self.frame,
            count: self.count,
            arrived: chunks_in(self.mask),
            dropped: self.dropped,
        }
    }
}

/// The mask of `count` chunks.
spec fn full_mask(count: u16) -> u32 {
    if count >= 32 {
        0xFFFF_FFFF
    } else {
        ((1u32 << (count as u32)) - 1) as u32
    }
}

proof fn mask_bits(mask: u32, full: u32, i: u32, j: u32, count: u32)
    by (bit_vector)
    requires
        i < count <= 32,
        j < 32,
        full == (if count == 32 { 0xFFFF_FFFFu32 } else { ((1u32 << count) - 1) as u32 }),
    ensures
        (mask | (1u32 << i)) & (1u32 << j) != 0 <==> i == j || mask & (1u32 << j) != 0,
        mask & !full == 0 ==> (mask | (1u32 << i)) & !full == 0,
        0u32 & (1u32 << j) == 0,
        0u32 & !full == 0,
        full & (1u32 << j) != 0 <==> j < count,
        count < 32 ==> 1u32 << count >= 1,
{
}

proof fn mask_is_full(mask: u32, full: u32, count: u32)
    by (bit_vector)
    requires
        1 <= count <= 32,
        full == (if count == 32 { 0xFFFF_FFFFu32 } else { ((1u32 << count) - 1) as u32 }),
        mask & !full == 0,
        0 < count ==> mask & 0x1 != 0,
        1 < count ==> mask & 0x2 != 0,
        2 < count ==> mask & 0x4 != 0,
        3 < count ==> mask & 0x8 != 0,
        4 < count ==> mask & 0x10 != 0,
        5 < count ==> mask & 0x20 != 0,
        6 < count ==> mask & 0x40 != 0,
        7 < count ==> mask & 0x80 != 0,
        8 < count ==> mask & 0x100 != 0,
        9 < count ==> mask & 0x200 != 0,
        10 < count ==> mask & 0x400 != 0,
        11 < count ==> mask & 0x800 != 0,
        12 < count ==> mask & 0x1000 != 0,
        13 < count ==> mask & 0x2000 != 0,
        14 < count ==> mask & 0x4000 != 0,
        15 < count ==> mask & 0x8000 != 0,
        16 < count ==> mask & 0x10000 != 0,
        17 < count ==> mask & 0x20000 != 0,
        18 < count ==> mask & 0x40000 != 0,
        19 < count ==> mask & 0x80000 != 0,
        20 < count ==> mask & 0x100000 != 0,
        21 < count ==> mask & 0x200000 != 0,
        22 < count ==> mask & 0x400000 != 0,
        23 < count ==> mask & 0x800000 != 0,
        24 < count ==> mask & 0x1000000 != 0,
        25 < count ==> mask & 0x2000000 != 0,
        26 < count ==> mask & 0x4000000 != 0,
        27 < count ==> mask & 0x8000000 != 0,
        28 < count ==> mask & 0x10000000 != 0,
        29 < count ==> mask & 0x20000000 != 0,
        30 < count ==> mask & 0x40000000 != 0,
        31 < count ==> mask & 0x80000000 != 0,
    ensures
        mask == full,
{
}

proof fn bit_values()
    by (bit_vector)
    ensures
        1u32 << 0u32 == 0x1,
        1u32 << 1u32 == 0x2,
        1u32 << 2u32 == 0x4,
        1u32 << 3u32 == 0x8,
        1u32 << 4u32 == 0x10,
        1u32 << 5u32 == 0x20,
        1u32 << 6u32 == 0x40,
        1u32 << 7u32 == 0x80,
        1u32 << 8u32 == 0x100,
        1u32 << 9u32 == 0x200,
        1u32 << 10u32 == 0x400,
        1u32 << 11u32 == 0x800,
        1u32 << 12u32 == 0x1000,
        1u32 << 13u32 == 0x2000,
        1u32 << 14u32 == 0x4000,
        1u32 << 15u32 == 0x8000,
        1u32 << 16u32 == 0x10000,
        1u32 << 17u32 == 0x20000,
        1u32 << 18u32 == 0x40000,
        1u32 << 19u32 == 0x80000,
        1u32 << 20u32 == 0x100000,
        1u32 << 21u32 == 0x200000,
        1u32 << 22u32 == 0x400000,
        1u32 << 23u32 == 0x800000,
        1u32 << 24u32 == 0x1000000,
        1u32 << 25u32 == 0x2000000,
        1u32 << 26u32 == 0x4000000,
        1u32 << 27u32 == 0x8000000,
        1u32 << 28u32 == 0x10000000,
        1u32 << 29u32 == 0x20000000,
        1u32 << 30u32 == 0x40000000,
        1u32 << 31u32 == 0x80000000,
{
}

/// A mask with nothing beyond `count` is empty or full just as its set is.
proof fn mask_stands_for_set(mask: u32, count: u16)
    requires
        1 <= count <= 32,
        mask & !full_mask(count) == 0,
    ensures
        mask == full_mask(count) <==> forall|i: int| 0 <= i < count ==> chunks_in(mask).contains(i),
{
    let full = full_mask(count);
    if mask == full {
        assert forall|i: int| 0 <= i < count implies chunks_in(mask).contains(i) by {
            mask_bits(mask, full, 0, i as u32, count as u32);
        }
    } else if forall|i: int| 0 <= i < count ==> chunks_in(mask).contains(i) {
        bit_values();
        assert forall|i: u32| i < count implies #[trigger] (mask & (1u32 << i)) != 0 by {
            assert(chunks_in(mask).contains(i as int));
        }
        assert(mask & (1u32 << 0u32) == mask & 0x1);
        assert(mask & (1u32 << 1u32) == mask & 0x2);
        assert(mask & (1u32 << 2u32) == mask & 0x4);
        assert(mask & (1u32 << 3u32) == mask & 0x8);
        assert(mask & (1u32 << 4u32) == mask & 0x10);
        assert(mask & (1u32 << 5u32) == mask & 0x20);
        assert(mask & (1u32 << 6u32) == mask & 0x40);
        assert(mask & (1u32 << 7u32) == mask & 0x80);
        assert(mask & (1u32 << 8u32) == mask & 0x100);
        assert(mask & (1u32 << 9u32) == mask & 0x200);
        assert(mask & (1u32 << 10u32) == mask & 0x400);
        assert(mask & (1u32 << 11u32) == mask & 0x800);
        assert(mask & (1u32 << 12u32) == mask & 0x1000);
        assert(mask & (1u32 << 13u32) == mask & 0x2000);
        assert(mask & (1u32 << 14u32) == mask & 0x4000);
        assert(mask & (1u32 << 15u32) == mask & 0x8000);
        assert(mask & (1u32 << 16u32) == mask & 0x10000);
        assert(mask & (1u32 << 17u32) == mask & 0x20000);
        assert(mask & (1u32 << 18u32) == mask & 0x40000);
        assert(mask & (1u32 << 19u32) == mask & 0x80000);
        assert(mask & (1u32 << 20u32) == mask & 0x100000);
        assert(mask & (1u32 << 21u32) == mask & 0x200000);
        assert(mask & (1u32 << 22u32) == mask & 0x400000);
        assert(mask & (1u32 << 23u32) == mask & 0x800000);
        assert(mask & (1u32 << 24u32) == mask & 0x1000000);
        assert(mask & (1u32 << 25u32) == mask & 0x2000000);
        assert(mask & (1u32 << 26u32) == mask & 0x4000000);
        assert(mask & (1u32 << 27u32) == mask & 0x8000000);
        assert(mask & (1u32 << 28u32) == mask & 0x10000000);
        assert(mask & (1u32 << 29u32) == mask & 0x20000000);
        assert(mask & (1u32 << 30u32) == mask & 0x40000000);
        assert(mask & (1u32 << 31u32) == mask & 0x80000000);
        mask_is_full(mask, full, count as u32);
    }
}

proof fn empty_mask(mask: u32)
    by (bit_vector)
    requires
        mask & 0x1 == 0,
        mask & 0x2 == 0,
        mask & 0x4 == 0,
        mask & 0x8 == 0,
        mask & 0x10 == 0,
        mask & 0x20 == 0,
        mask & 0x40 == 0,
        mask & 0x80 == 0,
        mask & 0x100 == 0,
        mask & 0x200 == 0,
        mask & 0x400 == 0,
        mask & 0x800 == 0,
        mask & 0x1000 == 0,
        mask & 0x2000 == 0,
        mask & 0x4000 == 0,
        mask & 0x8000 == 0,
        mask & 0x10000 == 0,
        mask & 0x20000 == 0,
        mask & 0x40000 == 0,
        mask & 0x80000 == 0,
        mask & 0x100000 == 0,
        mask & 0x200000 == 0,
        mask & 0x400000 == 0,
        mask & 0x800000 == 0,
        mask & 0x1000000 == 0,
        mask & 0x2000000 == 0,
        mask & 0x4000000 == 0,
        mask & 0x8000000 == 0,
        mask & 0x10000000 == 0,
        mask & 0x20000000 == 0,
        mask & 0x40000000 == 0,
        mask & 0x80000000 == 0,
    ensures
        mask == 0,
{
}

proof fn mask_is_empty(mask: u32)
    ensures
        mask == 0 <==> chunks_in(mask) == Set::<int>::empty(),
{
    bit_values();
    if mask == 0 {
        assert forall|i: int| !chunks_in(mask).contains(i) by {
            if 0 <= i < 32 {
                mask_bits(0, 1, 0, i as u32, 1);
            }
        }
        assert(chunks_in(mask) =~= Set::<int>::empty());
    } else if chunks_in(mask) == Set::<int>::empty() {
        assert forall|i: u32| i < 32 implies #[trigger] (mask & (1u32 << i)) == 0 by {
            assert(!chunks_in(mask).contains(i as int));
        }
        assert(mask & (1u32 << 0u32) == mask & 0x1);
        assert(mask & (1u32 << 1u32) == mask & 0x2);
        assert(mask & (1u32 << 2u32) == mask & 0x4);
        assert(mask & (1u32 << 3u32) == mask & 0x8);
        assert(mask & (1u32 << 4u32) == mask & 0x10);
        assert(mask & (1u32 << 5u32) == mask & 0x20);
        assert(mask & (1u32 << 6u32) == mask & 0x40);
        assert(mask & (1u32 << 7u32) == mask & 0x80);
        assert(mask & (1u32 << 8u32) == mask & 0x100);
        assert(mask & (1u32 << 9u32) == mask & 0x200);
        assert(mask & (1u32 << 10u32) == mask & 0x400);
        assert(mask & (1u32 << 11u32) == mask & 0x800);
        assert(mask & (1u32 << 12u32) == mask & 0x1000);
        assert(mask & (1u32 << 13u32) == mask & 0x2000);
        assert(mask & (1u32 << 14u32) == mask & 0x4000);
        assert(mask & (1u32 << 15u32) == mask & 0x8000);
        assert(mask & (1u32 << 16u32) == mask & 0x10000);
        assert(mask & (1u32 << 17u32) == mask & 0x20000);
        assert(mask & (1u32 << 18u32) == mask & 0x40000);
        assert(mask & (1u32 << 19u32) == mask & 0x80000);
        assert(mask & (1u32 << 20u32) == mask & 0x100000);
        assert(mask & (1u32 << 21u32) == mask & 0x200000);
        assert(mask & (1u32 << 22u32) == mask & 0x400000);
        assert(mask & (1u32 << 23u32) == mask & 0x800000);
        assert(mask & (1u32 << 24u32) == mask & 0x1000000);
        assert(mask & (1u32 << 25u32) == mask & 0x2000000);
        assert(mask & (1u32 << 26u32) == mask & 0x4000000);
        assert(mask & (1u32 << 27u32) == mask & 0x8000000);
        assert(mask & (1u32 << 28u32) == mask & 0x10000000);
        assert(mask & (1u32 << 29u32) == mask & 0x20000000);
        assert(mask & (1u32 << 30u32) == mask & 0x40000000);
        assert(mask & (1u32 << 31u32) == mask & 0x80000000);
        empty_mask(mask);
    }
}

impl FrameAssembler {
    /// No chunk beyond the frame's count is marked.
    pub closed spec fn wf(self) -> bool {
        &&& self.count <= 32
        &&& self.count == 0 ==> self.mask == 0
        &&& self.mask & !full_mask(self.count) == 0
    }

    /// Empty assembler.
    pub fn new() -> (assembler: Self)
        ensures
            assembler.wf(),
            assembler@ == (Assembly { frame: 0, count: 0, arrived: Set::empty(), dropped: 0 }),
    {
        let assembler = FrameAssembler { frame: 0, mask: 0, count: 0, dropped: 0 };
        proof {
            mask_is_empty(0);
            mask_bits(0, 0xFFFF_FFFF, 0, 0, 32);
            assert(0u32 & !full_mask(0) == 0) by (bit_vector);
        }
        assembler
    }

    /// Add one sector (2048 user bytes). `buf` is the frame being filled
    /// and must hold `count * 2016` bytes. Returns the finished frame when
    /// this chunk completes it; the caller then hands `buf` to the decoder
    /// and passes a different buffer from now on.
    pub fn add(&mut self, sector: &[u8], buf: &mut [u8]) -> (frame: Option<Frame>)
        requires
            old(self).wf(),
            old(self)@.dropped < u32::MAX,
        ensures
            final(self).wf(),
            (final(self)@, final(buf)@, frame) == add_step(old(self)@, sector@, old(buf)@),
    {
        let chunk = Chunk::parse(sector)?;
        proof {
            mask_is_empty(self.mask);
            mask_is_empty(0);
        }
        if chunk.frame != self.frame || chunk.count != self.count {
            if self.mask != 0 {
                self.dropped = self.dropped + 1;
            }
            self.frame = chunk.frame;
            self.count = chunk.count;
            self.mask = 0;
        }
        let ghost turned = self@;
        let full: u32 = if chunk.count == 32 {
            0xFFFF_FFFF
        } else {
            proof {
                mask_bits(0, full_mask(chunk.count), 0, 0, chunk.count as u32);
            }
            (1u32 << (chunk.count as u32)) - 1
        };
        proof {
            mask_bits(0, full, 0, 0, chunk.count as u32);
        }
        let at = chunk.index as usize * CHUNK_PAYLOAD_BYTES;
        let end = at + CHUNK_PAYLOAD_BYTES;
        if end > buf.len() || sector.len() < CHUNK_HEADER_BYTES + CHUNK_PAYLOAD_BYTES {
            return None;
        }
        let mut k: usize = 0;
        while k < CHUNK_PAYLOAD_BYTES
            invariant
                k <= CHUNK_PAYLOAD_BYTES,
                end == at + CHUNK_PAYLOAD_BYTES,
                end <= buf@.len(),
                buf@.len() == old(buf)@.len(),
                sector@.len() >= CHUNK_HEADER_BYTES + CHUNK_PAYLOAD_BYTES,
                forall|j: int|
                    0 <= j < k ==> #[trigger] buf@[at + j] == sector@[CHUNK_HEADER_BYTES + j],
                forall|j: int|
                    0 <= j < buf@.len() && !(at <= j < at + k) ==> #[trigger] buf@[j]
                        == old(buf)@[j],
            decreases CHUNK_PAYLOAD_BYTES - k,
        {
            buf[at + k] = sector[CHUNK_HEADER_BYTES + k];
            k += 1;
        }
        proof {
            let goal = stored(chunk, sector@, old(buf)@);
            assert forall|j: int| 0 <= j < buf@.len() implies #[trigger] buf@[j] == goal[j] by {
                if at <= j < end {
                    assert(buf@[at + (j - at)] == sector@[CHUNK_HEADER_BYTES + (j - at)]);
                }
            }
            assert(buf@ =~= goal);
        }
        let ghost marked = self.mask | (1u32 << (chunk.index as u32));
        proof {
            mask_bits(self.mask, full, chunk.index as u32, 0, chunk.count as u32);
            assert forall|i: int| chunks_in(marked).contains(i) == chunks_in(self.mask).insert(
                chunk.index as int,
            ).contains(i) by {
                if 0 <= i < 32 {
                    mask_bits(self.mask, full, chunk.index as u32, i as u32, chunk.count as u32);
                }
            }
            assert(chunks_in(marked) =~= chunks_in(self.mask).insert(chunk.index as int));
            mask_stands_for_set(marked, chunk.count);
        }
        self.mask = self.mask | (1u32 << (chunk.index as u32));
        if self.mask != full {
            return None;
        }
        self.mask = 0;
        self.frame = 0;
        Some(
            Frame {
                number: chunk.frame,
                size: chunk.size,
                width: chunk.width,
                height: chunk.height,
            },
        )
    }
}

impl Default for FrameAssembler {
    fn default() -> (assembler: Self)
        ensures
            assembler.wf(),
            assembler@ == (Assembly { frame: 0, count: 0, arrived: Set::empty(), dropped: 0 }),
    {
        FrameAssembler::new()
    }
}

/// The place of chunk `i` in a frame buffer.
pub open spec fn payload_at(buf: Seq<u8>, i: int) -> Seq<u8> {
    buf.subrange(i * CHUNK_PAYLOAD_BYTES, (i + 1) * CHUNK_PAYLOAD_BYTES)
}

/// Storing a chunk puts its payload in its own place and in no other.
pub proof fn chunk_keeps_to_its_place(chunk: Chunk, sector: Seq<u8>, buf: Seq<u8>, other: int)
    requires
        can_store(chunk, sector, buf.len() as int),
        0 <= other,
        (other + 1) * CHUNK_PAYLOAD_BYTES <= buf.len(),
        other != chunk.index,
    ensures
        stored(chunk, sector, buf).len() == buf.len(),
        payload_at(stored(chunk, sector, buf), chunk.index as int) == sector.subrange(
            CHUNK_HEADER_BYTES as int,
            CHUNK_HEADER_BYTES + CHUNK_PAYLOAD_BYTES,
        ),
        payload_at(stored(chunk, sector, buf), other) == payload_at(buf, other),
{
    let filled = stored(chunk, sector, buf);
    assert(payload_at(filled, chunk.index as int) =~= sector.subrange(
        CHUNK_HEADER_BYTES as int,
        CHUNK_HEADER_BYTES + CHUNK_PAYLOAD_BYTES,
    ));
    assert(payload_at(filled, other) =~= payload_at(buf, other));
}

/// Chunks may arrive in any order: two chunks of one frame that have not come
/// yet leave the same assembler and the same bytes whichever comes first.
pub proof fn chunks_come_in_any_order(a: Assembly, one: Seq<u8>, two: Seq<u8>, buf: Seq<u8>)
    requires
        chunk_of(one) is Some,
        chunk_of(two) is Some,
        chunk_of(one)->0.frame == chunk_of(two)->0.frame,
        chunk_of(one)->0.count == chunk_of(two)->0.count,
        chunk_of(one)->0.index != chunk_of(two)->0.index,
        can_store(chunk_of(one)->0, one, buf.len() as int),
        can_store(chunk_of(two)->0, two, buf.len() as int),
        !turned_to(a, chunk_of(one)->0).arrived.contains(chunk_of(one)->0.index as int),
        !turned_to(a, chunk_of(one)->0).arrived.contains(chunk_of(two)->0.index as int),
    ensures
        ({
            let first = add_step(a, one, buf);
            let second = add_step(first.0, two, first.1);
            let other_first = add_step(a, two, buf);
            let other_second = add_step(other_first.0, one, other_first.1);
            &&& first.2 is None
            &&& other_first.2 is None
            &&& second.0 == other_second.0
            &&& second.1 == other_second.1
            &&& second.2 is Some <==> other_second.2 is Some
        }),
{
    let c1 = chunk_of(one)->0;
    let c2 = chunk_of(two)->0;
    let turned = turned_to(a, c1);
    let first = add_step(a, one, buf);
    let other_first = add_step(a, two, buf);
    assert(!turned.arrived.insert(c1.index as int).contains(c2.index as int));
    assert(!turned.arrived.insert(c2.index as int).contains(c1.index as int));
    assert(turned_to(first.0, c2) == first.0);
    assert(turned_to(other_first.0, c1) == other_first.0);
    assert(turned.arrived.insert(c1.index as int).insert(c2.index as int)
        =~= turned.arrived.insert(c2.index as int).insert(c1.index as int));
    assert(stored(c2, two, stored(c1, one, buf)) =~= stored(c1, one, stored(c2, two, buf)));
}

} // verus!
