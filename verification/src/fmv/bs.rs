//! BS ("bitstream") frame decode: variable-length codes to MDEC run-length
//! halfwords.
//!
//! A BS frame starts with an 8-byte header:
//!
//! | Bytes | Field |
//! |-------|-------|
//! | 0..2  | MDEC data size in 32-bit words (low half of the MDEC command) |
//! | 2..4  | `0x3800` (high half of a 15bpp decode command) |
//! | 4..6  | quantization scale, 1..63 |
//! | 6..8  | bitstream version (2 or 3) |
//!
//! The body is read as little-endian 16-bit words, most significant bit
//! first. Macroblocks come in column-major order (top to bottom, then left
//! to right), six 8x8 blocks each: Cr, Cb, Y0..Y3. In version 2 every
//! block starts with a raw 10-bit signed DC value (`0x1FF` there ends the
//! frame), followed by the AC run/level codes of the MPEG-1 DCT
//! coefficient table (ISO 11172-2 table B.5c, with the sign bit after the
//! code), a 6-bit escape `000001` followed by a raw 16-bit MDEC halfword,
//! and `10` for end of block.
//!
//! The MDEC wants, per block, `(qscale << 10) | dc` then one halfword per
//! non-zero AC coefficient (`run << 10 | level`, level 10-bit signed) and
//! `0xFE00` to end the block. The same `0xFE00` pads the tail.

use vstd::prelude::*;
use crate::bytes::{le16, read_le16};
use crate::fmv::codes::{
    AC_CODES, Found, Symbol, bits_at, build_long, build_short, coefficient, find, long_entry,
    lookahead, short_entry, symbol_at, word_at,
};

verus! {

/// Fixed BS frame header size in bytes.
pub const HEADER_BYTES: usize = 8;

/// MDEC end-of-block / padding halfword.
pub const END_OF_BLOCK: u16 = 0xFE00;

/// Version-2 DC value that ends the frame.
pub const V2_END_OF_FRAME: u32 = 0x1FF;

/// Why a frame could not be decoded.
#[derive(Clone, Copy, Debug, PartialEq, Eq, Structural)]
pub enum BsError {
    /// Shorter than the 8-byte header.
    Truncated,
    /// Bitstream version other than 2.
    Version(u16),
    /// A bit pattern that is not in the code table.
    BadCode,
    /// The output buffer is too small for the frame.
    OutputFull,
    /// The decoder ran past the end of the input.
    Overrun,
}

/// Parsed frame header.
#[derive(Clone, Copy, Debug, PartialEq, Eq, Structural)]
pub struct Header {
    /// MDEC data size the encoder announced, in 32-bit words.
    pub mdec_words: u16,
    /// Quantization scale.
    pub qscale: u16,
    /// Bitstream version.
    pub version: u16,
}

/// The header that the first bytes of `frame` spell.
pub open spec fn header_of(frame: Seq<u8>) -> Header {
    Header { mdec_words: le16(frame, 0), qscale: le16(frame, 4), version: le16(frame, 6) }
}

impl Header {
    /// Parse the 8-byte header.
    pub fn parse(frame: &[u8]) -> (header: Result<Self, BsError>)
        ensures
            header == if frame@.len() < HEADER_BYTES {
                Err(BsError::Truncated)
            } else {
                Ok(header_of(frame@))
            },
    {
        if frame.len() < HEADER_BYTES {
            return Err(BsError::Truncated);
        }
        Ok(
            Header {
                mdec_words: read_le16(frame, 0),
                qscale: read_le16(frame, 4),
                version: read_le16(frame, 6),
            },
        )
    }
}

/// Why decoding stopped.
pub enum Stop {
    /// The end-of-frame code.
    EndOfFrame,
    /// Nothing more can be decoded.
    Failed(BsError),
}

/// How far a decode has come: the bit position in the body, the halfwords
/// produced, and why it stopped, if it did.
pub struct Progress {
    pub at: int,
    pub out: Seq<u16>,
    pub stop: Option<Stop>,
}

/// The reader has run past the end of the input: more than the words that the
/// input holds have been used up.
pub open spec fn overrun(data: Seq<u8>, p: int) -> bool {
    p / 16 > data.len() / 2
}

/// One more halfword, if the output has room for it.
pub open spec fn put(s: Progress, cap: int, at: int, hw: u16) -> Progress {
    if s.out.len() >= cap {
        Progress { at, out: s.out, stop: Some(Stop::Failed(BsError::OutputFull)) }
    } else {
        Progress { at, out: s.out.push(hw), stop: None }
    }
}

/// What the next symbol of a block comes to.
pub enum Item {
    /// The block is complete.
    End,
    /// One MDEC halfword, spelled by this many bits.
    Halfword { hw: u16, bits: int },
    /// Nothing that the code table knows.
    Invalid,
}

/// What the symbol at bit position `p` comes to: an escape stands for the
/// sixteen bits behind it, a code for its run and level with the sign behind it.
pub open spec fn item_at(data: Seq<u8>, p: int) -> Item {
    match symbol_at(data, p) {
        Symbol::EndOfBlock => Item::End,
        Symbol::Escape => Item::Halfword { hw: bits_at(data, p + 6, 16) as u16, bits: 22 },
        Symbol::Code(i) => {
            let len = AC_CODES[i].0;
            Item::Halfword {
                hw: coefficient(i, bits_at(data, p + len, 1) != 0),
                bits: len + 1,
            }
        },
        Symbol::Invalid => Item::Invalid,
    }
}

/// The coefficients of a block, up to and including its end.
pub open spec fn coefficients(data: Seq<u8>, cap: int, s: Progress) -> Progress
    decreases cap - s.out.len(),
{
    match item_at(data, s.at) {
        Item::End => put(s, cap, s.at + 2, END_OF_BLOCK),
        Item::Invalid => Progress { stop: Some(Stop::Failed(BsError::BadCode)), ..s },
        Item::Halfword { hw, bits } => {
            let next = put(s, cap, s.at + bits, hw);
            if next.stop is Some {
                next
            } else {
                coefficients(data, cap, next)
            }
        },
    }
}

/// One block: its DC value with the quantization scale, then its coefficients.
/// The first block of a macroblock may be the end of the frame instead.
pub open spec fn one_block(
    data: Seq<u8>,
    qscale: u16,
    cap: int,
    s: Progress,
    first: bool,
) -> Progress {
    let dc = bits_at(data, s.at, 10);
    if dc == V2_END_OF_FRAME && first {
        Progress { at: s.at + 10, out: s.out, stop: Some(Stop::EndOfFrame) }
    } else {
        let head = put(s, cap, s.at + 10, ((qscale % 0x40) * 1024 + dc) as u16);
        if head.stop is Some {
            head
        } else {
            let body = coefficients(data, cap, head);
            if body.stop is None && overrun(data, body.at) {
                Progress { stop: Some(Stop::Failed(BsError::Overrun)), ..body }
            } else {
                body
            }
        }
    }
}

/// The first `k` blocks of a macroblock.
pub open spec fn blocks(data: Seq<u8>, qscale: u16, cap: int, s: Progress, k: nat) -> Progress
    decreases k,
{
    if k == 0 {
        s
    } else {
        let before = blocks(data, qscale, cap, s, (k - 1) as nat);
        if before.stop is Some {
            before
        } else {
            one_block(data, qscale, cap, before, k == 1)
        }
    }
}

/// Up to `k` macroblocks of six blocks each.
pub open spec fn macroblocks(
    data: Seq<u8>,
    qscale: u16,
    cap: int,
    s: Progress,
    k: nat,
) -> Progress
    decreases k,
{
    if k == 0 {
        s
    } else {
        let before = macroblocks(data, qscale, cap, s, (k - 1) as nat);
        if before.stop is Some {
            before
        } else {
            blocks(data, qscale, cap, before, 6)
        }
    }
}

/// The least multiple of 64 halfwords that holds `n`.
pub open spec fn padded_to_dma(n: int) -> int {
    (n + 63) / 64 * 64
}

/// How many halfwords are sent when `n` were produced and the header announced
/// `words` words.
pub open spec fn padded_len(n: int, words: u16) -> int {
    if padded_to_dma(n) < words * 2 {
        padded_to_dma(words * 2)
    } else {
        padded_to_dma(n)
    }
}

/// Bit reader, most significant bit first, over little-endian 16-bit words.
struct Bits<'a> {
    data: &'a [u8],
    /// Index of the next word to load; stays at the maximum once there.
    next: usize,
    /// Pending bits, left-aligned.
    buf: u32,
    /// Valid bits in `buf`.
    avail: u32,
}

/// Shifting out `n` bits, and loading another word where the first one has been
/// used up.
proof fn shift_out(a: u32, b: u32, c: u32, s: u32, n: u32)
    by (bit_vector)
    requires
        a < 0x1_0000,
        b < 0x1_0000,
        c < 0x1_0000,
        s < 16,
        n <= 16,
    ensures
        s + n < 16 ==> (((a << 16) | b) << s) << n == ((a << 16) | b) << ((s + n) as u32),
        s + n >= 16 ==> ((((a << 16) | b) << s) << n) | (c << ((s + n - 16) as u32)) == ((b << 16)
            | c) << ((s + n - 16) as u32),
{
}

proof fn whole_word(a: u32, b: u32)
    by (bit_vector)
    ensures
        ((a << 16) | b) << 0u32 == (a << 16) | b,
{
}

impl<'a> Bits<'a> {
    /// The reader stands at bit position `p`.
    spec fn at(self, p: int) -> bool {
        &&& 0 <= p
        &&& self.avail == 32 - p % 16
        &&& self.buf == lookahead(self.data@, p)
        &&& if self.next < usize::MAX {
            self.next == p / 16 + 2
        } else {
            p / 16 + 2 >= usize::MAX
        }
    }

    /// The word at `self.next`, which moves on.
    fn load(&mut self) -> (word: u32)
        ensures
            word == word_at(old(self).data@, old(self).next as int),
            word < 0x1_0000,
            old(self).next < usize::MAX ==> final(self).next == old(self).next + 1,
            old(self).next == usize::MAX ==> final(self).next == usize::MAX,
            final(self).data == old(self).data,
            final(self).buf == old(self).buf,
            final(self).avail == old(self).avail,
    {
        let word = if self.next < self.data.len() / 2 {
            read_le16(self.data, 2 * self.next) as u32
        } else {
            0
        };
        self.next = self.next.saturating_add(1);
        word
    }

    fn new(data: &'a [u8]) -> (bits: Self)
        ensures
            bits.data == data,
            bits.at(0),
    {
        let mut bits = Bits { data, next: 0, buf: 0, avail: 32 };
        let first = bits.load();
        let second = bits.load();
        bits.buf = (first << 16) | second;
        proof {
            whole_word(first, second);
        }
        bits
    }

    fn skip(&mut self, n: u32, Ghost(p): Ghost<int>)
        requires
            old(self).at(p),
            n <= 16,
        ensures
            final(self).at(p + n),
            final(self).data == old(self).data,
    {
        let ghost a = word_at(self.data@, p / 16);
        let ghost b = word_at(self.data@, p / 16 + 1);
        let ghost c = word_at(self.data@, p / 16 + 2);
        let ghost s = (p % 16) as u32;
        proof {
            shift_out(a, b, c, s, n);
            assert(self.data@.len() == self.data.len());
        }
        self.buf = self.buf << n;
        self.avail = self.avail - n;
        if self.avail <= 16 {
            let word = self.load();
            self.buf = self.buf | (word << (16 - self.avail));
            self.avail = self.avail + 16;
        }
    }

    /// Read `n` (1..=16) bits.
    fn read(&mut self, n: u32, Ghost(p): Ghost<int>) -> (v: u32)
        requires
            old(self).at(p),
            1 <= n <= 16,
        ensures
            v == bits_at(old(self).data@, p, n as int),
            final(self).at(p + n),
            final(self).data == old(self).data,
    {
        let v = self.buf >> (32 - n);
        self.skip(n, Ghost(p));
        v
    }

    fn overrun(&self, Ghost(p): Ghost<int>) -> (over: bool)
        requires
            self.at(p),
        ensures
            over == overrun(self.data@, p),
    {
        self.next > self.data.len() / 2 + 2
    }
}

/// A decode that can be interrupted between macroblocks.
///
/// A streaming player drains CD sectors whenever [`run`](Self::run) says so,
/// and the drive never runs ahead of the decoder.
pub struct FrameDecoder<'a> {
    bits: Bits<'a>,
    short: [u32; 256],
    long: [u32; 96],
    qscale: u16,
    announced: u16,
    produced: usize,
    macroblocks_left: u32,
    pump_every: u32,
    since_pump: u32,
    at: Ghost<int>,
}

/// What the owner of a [`FrameDecoder`] does next.
#[derive(Clone, Copy, Debug, PartialEq, Eq, Structural)]
pub enum Step {
    /// Serve the stream, then run the decoder again.
    Pump,
    /// The frame is complete in this many 32-bit words.
    Done(usize),
}

/// How many macroblocks a run decodes before it stops for the pump, or for want
/// of more.
pub open spec fn run_length(left: int, pump_every: int, since_pump: int) -> int {
    if since_pump < pump_every && pump_every - since_pump <= left {
        pump_every - since_pump
    } else {
        left
    }
}

enum Next {
    End,
    Halfword(u16),
    Invalid,
}

impl<'a> FrameDecoder<'a> {
    /// The body that is being decoded.
    pub closed spec fn data(self) -> Seq<u8> {
        self.bits.data@
    }

    pub closed spec fn spec_qscale(self) -> u16 {
        self.qscale
    }

    /// The size that the header announced, in 32-bit words.
    pub closed spec fn spec_announced(self) -> u16 {
        self.announced
    }

    /// How many halfwords have been produced.
    pub closed spec fn spec_produced(self) -> nat {
        self.produced as nat
    }

    /// The bit position in the body.
    pub closed spec fn position(self) -> int {
        self.at@
    }

    pub closed spec fn left(self) -> u32 {
        self.macroblocks_left
    }

    pub closed spec fn spec_pump_every(self) -> u32 {
        self.pump_every
    }

    pub closed spec fn spec_since_pump(self) -> u32 {
        self.since_pump
    }

    pub closed spec fn wf(self) -> bool {
        &&& self.bits.at(self.at@)
        &&& self.since_pump < self.pump_every || self.pump_every == 0 && self.since_pump == 0
        &&& forall|b: int| 0 <= b < 256 ==> #[trigger] self.short[b] == short_entry(b)
        &&& forall|x: int| 0 <= x < 96 ==> #[trigger] self.long[x] == long_entry(x)
    }

    /// Where a run starts, over an output that begins with what was produced.
    pub open spec fn start(self, out: Seq<u16>) -> Progress {
        Progress { at: self.position(), out: out.take(self.spec_produced() as int), stop: None }
    }

    /// Start on a version-2 frame (header included), which ends after
    /// `max_macroblocks` at the latest, with a stop for the pump after every
    /// `pump_every` macroblocks (never, if that is zero).
    pub fn new(frame: &'a [u8], max_macroblocks: u32, pump_every: u32) -> (decoder: Result<
        Self,
        BsError,
    >)
        ensures
            match decoder {
                Err(e) => if frame@.len() < HEADER_BYTES {
                    e == BsError::Truncated
                } else {
                    header_of(frame@).version != 2 && e == BsError::Version(
                        header_of(frame@).version,
                    )
                },
                Ok(decoder) => {
                    &&& frame@.len() >= HEADER_BYTES
                    &&& header_of(frame@).version == 2
                    &&& decoder.wf()
                    &&& decoder.data() == frame@.skip(HEADER_BYTES as int)
                    &&& decoder.spec_qscale() == header_of(frame@).qscale
                    &&& decoder.spec_announced() == header_of(frame@).mdec_words
                    &&& decoder.spec_produced() == 0
                    &&& decoder.position() == 0
                    &&& decoder.left() == max_macroblocks
                    &&& decoder.spec_pump_every() == pump_every
                    &&& decoder.spec_since_pump() == 0
                },
            },
    {
        let header = Header::parse(frame)?;
        if header.version != 2 {
            return Err(BsError::Version(header.version));
        }
        let body = &frame[HEADER_BYTES..frame.len()];
        assert(body@ =~= frame@.skip(HEADER_BYTES as int));
        Ok(
            FrameDecoder {
                bits: Bits::new(body),
                short: build_short(),
                long: build_long(),
                qscale: header.qscale,
                announced: header.mdec_words,
                produced: 0,
                macroblocks_left: max_macroblocks,
                pump_every,
                since_pump: 0,
                at: Ghost(0),
            },
        )
    }

    /// Room for one more halfword, or the error that there is none.
    fn put(&mut self, out: &mut [u16], hw: u16) -> (result: Result<(), BsError>)
        requires
            old(self).produced <= old(out)@.len(),
        ensures
            final(out)@.len() == old(out)@.len(),
            *final(self) == (FrameDecoder { produced: final(self).produced, ..*old(self) }),
            match result {
                Ok(()) => {
                    &&& old(self).produced < old(out)@.len()
                    &&& final(self).produced == old(self).produced + 1
                    &&& final(out)@ == old(out)@.update(old(self).produced as int, hw)
                },
                Err(e) => {
                    &&& e == BsError::OutputFull
                    &&& old(self).produced == old(out)@.len()
                    &&& final(self).produced == old(self).produced
                    &&& final(out)@ == old(out)@
                },
            },
    {
        if self.produced >= out.len() {
            return Err(BsError::OutputFull);
        }
        out[self.produced] = hw;
        self.produced = self.produced + 1;
        Ok(())
    }

    /// The decoder and its output have come as far as `progress`, and what lies
    /// behind in the output is as it was.
    spec fn reached(self, out: Seq<u16>, before: Seq<u16>, progress: Progress) -> bool {
        &&& self.wf()
        &&& self.at@ == progress.at
        &&& self.produced == progress.out.len()
        &&& self.produced <= out.len()
        &&& out == progress.out + before.skip(progress.out.len() as int)
    }

    /// Nothing but the place in the input and in the output has changed.
    spec fn same_frame(self, before: Self) -> bool {
        &&& self.bits.data == before.bits.data
        &&& self.qscale == before.qscale
        &&& self.announced == before.announced
        &&& self.macroblocks_left == before.macroblocks_left
        &&& self.pump_every == before.pump_every
        &&& self.since_pump == before.since_pump
    }

    /// Take the next symbol of a block.
    fn next_item(&mut self) -> (next: Next)
        requires
            old(self).wf(),
        ensures
            final(self).wf(),
            final(self).same_frame(*old(self)),
            final(self).produced == old(self).produced,
            match item_at(old(self).data(), old(self).at@) {
                Item::End => next is End && final(self).at@ == old(self).at@ + 2,
                Item::Halfword { hw, bits } => next == Next::Halfword(hw) && final(self).at@
                    == old(self).at@ + bits,
                Item::Invalid => next is Invalid && final(self).at@ == old(self).at@,
            },
    {
        let ghost p = self.at@;
        match find(&self.short, &self.long, self.bits.buf, Ghost(self.data()), Ghost(p)) {
            Found::EndOfBlock => {
                self.bits.skip(2, Ghost(p));
                self.at = Ghost(p + 2);
                Next::End
            },
            Found::Escape => {
                self.bits.skip(6, Ghost(p));
                let raw = self.bits.read(16, Ghost(p + 6));
                self.at = Ghost(p + 22);
                Next::Halfword(raw as u16)
            },
            Found::Code { len, hw } => {
                self.bits.skip(len, Ghost(p));
                let negative = self.bits.read(1, Ghost(p + len)) != 0;
                self.at = Ghost(p + len + 1);
                let level = hw % 0x400;
                if negative {
                    Next::Halfword((hw - level + (0x400 - level)) as u16)
                } else {
                    Next::Halfword(hw as u16)
                }
            },
            Found::Invalid => Next::Invalid,
        }
    }

    /// The coefficients of a block, up to and including its end.
    fn coefficients(&mut self, out: &mut [u16]) -> (result: Result<(), BsError>)
        requires
            old(self).wf(),
            old(self).produced <= old(out)@.len(),
        ensures
            final(self).same_frame(*old(self)),
            final(out)@.len() == old(out)@.len(),
            ({
                let end = coefficients(
                    old(self).data(),
                    old(out)@.len() as int,
                    old(self).start(old(out)@),
                );
                &&& final(self).reached(final(out)@, old(out)@, end)
                &&& match result {
                    Ok(()) => end.stop is None,
                    Err(e) => end.stop == Some(Stop::Failed(e)),
                }
            }),
    {
        let ghost cap = out@.len() as int;
        let ghost data = self.data();
        let ghost end = coefficients(data, cap, self.start(out@));
        let ghost before = out@;
        loop
            invariant
                self.wf(),
                self.same_frame(*old(self)),
                self.produced <= out@.len(),
                out@.len() == cap,
                before.len() == cap,
                data == self.data(),
                before == old(out)@,
                end == coefficients(
                    old(self).data(),
                    old(out)@.len() as int,
                    old(self).start(old(out)@),
                ),
                end == coefficients(data, cap, self.start(out@)),
                forall|k: int| self.produced <= k < cap ==> #[trigger] out@[k] == before[k],
            decreases cap - self.produced,
        {
            let ghost p = self.at@;
            let ghost now = self.start(out@);
            assert(out@ =~= now.out + before.skip(now.out.len() as int));
            match self.next_item() {
                Next::End => {
                    let result = self.put(out, END_OF_BLOCK);
                    proof {
                        if result is Ok {
                            assert(out@.take(self.produced as int) =~= now.out.push(END_OF_BLOCK));
                            assert(out@ =~= end.out + before.skip(end.out.len() as int));
                        }
                    }
                    return result;
                },
                Next::Halfword(hw) => match self.put(out, hw) {
                    Ok(()) => {
                        assert(out@.take(self.produced as int) =~= now.out.push(hw));
                    },
                    Err(e) => {
                        return Err(e);
                    },
                },
                Next::Invalid => {
                    return Err(BsError::BadCode);
                },
            }
        }
    }

    /// One block; `false` for the end-of-frame code in its place.
    fn block(&mut self, out: &mut [u16], first: bool) -> (result: Result<bool, BsError>)
        requires
            old(self).wf(),
            old(self).produced <= old(out)@.len(),
        ensures
            final(self).same_frame(*old(self)),
            final(out)@.len() == old(out)@.len(),
            ({
                let end = one_block(
                    old(self).data(),
                    old(self).qscale,
                    old(out)@.len() as int,
                    old(self).start(old(out)@),
                    first,
                );
                &&& final(self).reached(final(out)@, old(out)@, end)
                &&& match result {
                    Ok(true) => end.stop is None,
                    Ok(false) => end.stop == Some(Stop::EndOfFrame),
                    Err(e) => end.stop == Some(Stop::Failed(e)),
                }
            }),
    {
        let ghost p = self.at@;
        let ghost now = self.start(out@);
        let ghost before = out@;
        assert(out@ =~= now.out + before.skip(now.out.len() as int));
        let dc = self.bits.read(10, Ghost(p));
        proof {
            ten_bits(lookahead(self.data(), p));
        }
        self.at = Ghost(p + 10);
        if dc == V2_END_OF_FRAME && first {
            return Ok(false);
        }
        let head = (self.qscale as u32 % 0x40) * 0x400 + dc;
        match self.put(out, head as u16) {
            Ok(()) => {},
            Err(e) => {
                return Err(e);
            },
        }
        let ghost mid = out@;
        assert(mid.take(self.produced as int) =~= now.out.push(head as u16));
        let result = self.coefficients(out);
        proof {
            let head_out = Progress {
                at: p + 10,
                out: now.out.push(head as u16),
                stop: None,
            };
            let after = coefficients(self.data(), before.len() as int, head_out);
            coefficients_only_grow(self.data(), before.len() as int, head_out);
            assert(out@ =~= after.out + before.skip(after.out.len() as int)) by {
                assert(after.out.len() >= now.out.len() + 1);
                assert(mid.skip(after.out.len() as int) =~= before.skip(after.out.len() as int));
            }
        }
        match result {
            Ok(()) => {},
            Err(e) => {
                return Err(e);
            },
        }
        if self.bits.overrun(Ghost(self.at@)) {
            return Err(BsError::Overrun);
        }
        Ok(true)
    }

    /// One macroblock; `false` for the end-of-frame code in its place.
    fn macroblock(&mut self, out: &mut [u16]) -> (result: Result<bool, BsError>)
        requires
            old(self).wf(),
            old(self).produced <= old(out)@.len(),
        ensures
            final(self).same_frame(*old(self)),
            final(out)@.len() == old(out)@.len(),
            ({
                let end = blocks(
                    old(self).data(),
                    old(self).qscale,
                    old(out)@.len() as int,
                    old(self).start(old(out)@),
                    6,
                );
                &&& final(self).reached(final(out)@, old(out)@, end)
                &&& match result {
                    Ok(true) => end.stop is None,
                    Ok(false) => end.stop == Some(Stop::EndOfFrame),
                    Err(e) => end.stop == Some(Stop::Failed(e)),
                }
            }),
    {
        let ghost data = self.data();
        let ghost cap = out@.len() as int;
        let ghost before = out@;
        let ghost begin = self.start(out@);
        assert(out@ =~= begin.out + before.skip(begin.out.len() as int));
        let mut k: usize = 0;
        while k < 6
            invariant
                k <= 6,
                data == old(self).data(),
                cap == before.len(),
                before == old(out)@,
                begin == old(self).start(old(out)@),
                begin.out.len() <= cap,
                out@.len() == before.len(),
                self.same_frame(*old(self)),
                blocks(data, self.qscale, cap, begin, k as nat).stop is None,
                self.reached(out@, before, blocks(data, self.qscale, cap, begin, k as nat)),
            decreases 6 - k,
        {
            let ghost mid = out@;
            let ghost now = blocks(data, self.qscale, cap, begin, k as nat);
            assert(mid.take(self.produced as int) =~= now.out);
            assert(self.start(mid) == now);
            let result = self.block(out, k == 0);
            proof {
                let end = one_block(data, self.qscale, cap, now, k == 0);
                assert(end == blocks(data, self.qscale, cap, begin, (k + 1) as nat));
                one_block_only_grows(data, self.qscale, cap, now, k == 0);
                assert(mid.skip(end.out.len() as int) =~= before.skip(end.out.len() as int));
                if end.stop is Some {
                    blocks_stay_stopped(data, self.qscale, cap, begin, (k + 1) as nat, 6);
                }
            }
            match result {
                Ok(true) => {},
                Ok(false) => {
                    return Ok(false);
                },
                Err(e) => {
                    return Err(e);
                },
            }
            k += 1;
        }
        Ok(true)
    }

    /// Up to `count` macroblocks; `false` if the end-of-frame code came first.
    #[verifier::rlimit(30)]
    fn advance(&mut self, out: &mut [u16], count: u32) -> (result: Result<bool, BsError>)
        requires
            old(self).wf(),
            old(self).produced <= old(out)@.len(),
        ensures
            final(self).same_frame(*old(self)),
            final(out)@.len() == old(out)@.len(),
            ({
                let end = macroblocks(
                    old(self).data(),
                    old(self).qscale,
                    old(out)@.len() as int,
                    old(self).start(old(out)@),
                    count as nat,
                );
                &&& final(self).reached(final(out)@, old(out)@, end)
                &&& match result {
                    Ok(true) => end.stop is None,
                    Ok(false) => end.stop == Some(Stop::EndOfFrame),
                    Err(e) => end.stop == Some(Stop::Failed(e)),
                }
            }),
    {
        let ghost data = self.data();
        let ghost cap = out@.len() as int;
        let ghost before = out@;
        let ghost begin = self.start(out@);
        assert(out@ =~= begin.out + before.skip(begin.out.len() as int));
        let mut k: u32 = 0;
        while k < count
            invariant
                k <= count,
                data == old(self).data(),
                cap == before.len(),
                before == old(out)@,
                begin == old(self).start(old(out)@),
                begin.out.len() <= cap,
                out@.len() == before.len(),
                self.same_frame(*old(self)),
                macroblocks(data, self.qscale, cap, begin, k as nat).stop is None,
                self.reached(out@, before, macroblocks(data, self.qscale, cap, begin, k as nat)),
            decreases count - k,
        {
            let ghost mid = out@;
            let ghost now = macroblocks(data, self.qscale, cap, begin, k as nat);
            assert(mid.take(self.produced as int) =~= now.out);
            assert(self.start(mid) == now);
            let result = self.macroblock(out);
            proof {
                let end = blocks(data, self.qscale, cap, now, 6);
                assert(end == macroblocks(data, self.qscale, cap, begin, (k + 1) as nat));
                blocks_only_grow(data, self.qscale, cap, now, 6);
                assert(mid.skip(end.out.len() as int) =~= before.skip(end.out.len() as int));
                if end.stop is Some {
                    macroblocks_stay_stopped(
                        data,
                        self.qscale,
                        cap,
                        begin,
                        (k + 1) as nat,
                        count as nat,
                    );
                }
            }
            match result {
                Ok(true) => {},
                Ok(false) => {
                    return Ok(false);
                },
                Err(e) => {
                    return Err(e);
                },
            }
            k += 1;
        }
        Ok(true)
    }

    /// Pad the output behind the last macroblock; the number of 32-bit words to
    /// send.
    fn finish(&self, out: &mut [u16]) -> (result: Result<usize, BsError>)
        requires
            self.produced <= old(out)@.len(),
        ensures
            final(out)@.len() == old(out)@.len(),
            finished(
                old(out)@,
                final(out)@,
                self.produced as int,
                self.announced,
                result,
            ),
    {
        let room = out.len();
        let announced = self.announced as usize * 2;
        let padded = match round_up_64(self.produced) {
            Some(padded) => if padded < announced {
                (announced + 63) / 64 * 64
            } else {
                padded
            },
            None => {
                return Err(BsError::OutputFull);
            },
        };
        if padded > room {
            return Err(BsError::OutputFull);
        }
        let mut k = self.produced;
        while k < padded
            invariant
                self.produced <= k <= padded <= out@.len(),
                out@.len() == old(out)@.len(),
                forall|j: int|
                    self.produced <= j < k ==> #[trigger] out@[j] == END_OF_BLOCK,
                forall|j: int|
                    0 <= j < out@.len() && !(self.produced <= j < k) ==> #[trigger] out@[j]
                        == old(out)@[j],
            decreases padded - k,
        {
            out[k] = END_OF_BLOCK;
            k += 1;
        }
        proof {
            let goal = old(out)@.take(self.produced as int) + Seq::new(
                (padded - self.produced) as nat,
                |j: int| END_OF_BLOCK,
            ) + old(out)@.skip(padded as int);
            assert(out@ =~= goal);
        }
        Ok(padded / 2)
    }

    /// Decode on to the next stop for the pump, or to the end of the frame.
    ///
    /// At the end the output is padded with [`END_OF_BLOCK`] to a multiple of
    /// 64 halfwords (32-word DMA blocks) and at least up to the size the header
    /// announced. `out` is the same buffer on every call.
    pub fn run(&mut self, out: &mut [u16]) -> (result: Result<Step, BsError>)
        requires
            old(self).wf(),
            old(self).spec_produced() <= old(out)@.len(),
        ensures
            final(self).wf(),
            final(out)@.len() == old(out)@.len(),
            final(self).data() == old(self).data(),
            final(self).spec_qscale() == old(self).spec_qscale(),
            final(self).spec_announced() == old(self).spec_announced(),
            final(self).spec_pump_every() == old(self).spec_pump_every(),
            ({
                let left = old(self).left() as int;
                let every = old(self).spec_pump_every() as int;
                let since = old(self).spec_since_pump() as int;
                let count = run_length(left, every, since);
                let end = macroblocks(
                    old(self).data(),
                    old(self).spec_qscale(),
                    old(out)@.len() as int,
                    old(self).start(old(out)@),
                    count as nat,
                );
                let written = end.out + old(out)@.skip(end.out.len() as int);
                &&& end.out.len() <= old(out)@.len()
                &&& final(self).spec_produced() == end.out.len()
                &&& final(self).position() == end.at
                &&& match end.stop {
                    Some(Stop::Failed(e)) => result == Err::<Step, BsError>(e) && final(out)@
                        == written,
                    None if since < every && every - since <= left => {
                        &&& result == Ok::<Step, BsError>(Step::Pump)
                        &&& final(out)@ == written
                        &&& final(self).left() == left - count
                        &&& final(self).spec_since_pump() == 0
                    },
                    _ => match result {
                        Ok(step) => step matches Step::Done(words) && finished(
                            written,
                            final(out)@,
                            end.out.len() as int,
                            old(self).spec_announced(),
                            Ok::<usize, BsError>(words),
                        ),
                        Err(e) => finished(
                            written,
                            final(out)@,
                            end.out.len() as int,
                            old(self).spec_announced(),
                            Err::<usize, BsError>(e),
                        ),
                    },
                }
            }),
    {
        let due = self.since_pump < self.pump_every && self.pump_every - self.since_pump
            <= self.macroblocks_left;
        let count = if due {
            self.pump_every - self.since_pump
        } else {
            self.macroblocks_left
        };
        let more = self.advance(out, count)?;
        if more && due {
            self.macroblocks_left = self.macroblocks_left - count;
            self.since_pump = 0;
            return Ok(Step::Pump);
        }
        match self.finish(out) {
            Ok(words) => Ok(Step::Done(words)),
            Err(e) => Err(e),
        }
    }
}

/// What finishing a frame of `produced` halfwords does to the output `before`:
/// it is padded behind them as far as is to be sent, if it has the room.
pub open spec fn finished(
    before: Seq<u16>,
    after: Seq<u16>,
    produced: int,
    announced: u16,
    result: Result<usize, BsError>,
) -> bool {
    let padded = padded_len(produced, announced);
    if padded > before.len() {
        result == Err::<usize, BsError>(BsError::OutputFull) && after == before
    } else {
        &&& result == Ok::<usize, BsError>((padded / 2) as usize)
        &&& after == before.take(produced) + Seq::new(
            (padded - produced) as nat,
            |j: int| END_OF_BLOCK,
        ) + before.skip(padded)
    }
}

proof fn rounding_up_64(n: int)
    requires
        0 <= n,
    ensures
        padded_to_dma(n) == if n % 64 == 0 {
            n
        } else {
            n + 64 - n % 64
        },
{
    let (q, r) = (n / 64, n % 64);
    assert(n == 64 * q + r);
    if r == 0 {
        assert((n + 63) / 64 == q);
    } else {
        assert((n + 63) / 64 == q + 1);
    }
}

fn round_up_64(n: usize) -> (padded: Option<usize>)
    ensures
        match padded {
            Some(padded) => padded == padded_to_dma(n as int),
            None => padded_to_dma(n as int) > usize::MAX,
        },
{
    let rem = n % 64;
    proof {
        rounding_up_64(n as int);
    }
    if rem == 0 {
        Some(n)
    } else {
        n.checked_add(64 - rem)
    }
}

/// Decode one version-2 BS frame (header included) into MDEC halfwords.
///
/// Stops at the end-of-frame code or after `max_macroblocks`, whichever
/// comes first, then pads the output with [`END_OF_BLOCK`] to a multiple of
/// 64 halfwords (32-word DMA blocks) and at least up to the size the header
/// announced. Returns the number of 32-bit words to send.
///
/// [`FrameDecoder`] does the same in parts, for a player that has to serve the
/// drive in between.
pub fn decode_frame(frame: &[u8], out: &mut [u16], max_macroblocks: u32) -> (result: Result<
    usize,
    BsError,
>)
    ensures
        final(out)@.len() == old(out)@.len(),
        if frame@.len() < HEADER_BYTES {
            result == Err::<usize, BsError>(BsError::Truncated) && final(out)@ == old(out)@
        } else if header_of(frame@).version != 2 {
            &&& result == Err::<usize, BsError>(BsError::Version(header_of(frame@).version))
            &&& final(out)@ == old(out)@
        } else {
            let end = macroblocks(
                frame@.skip(HEADER_BYTES as int),
                header_of(frame@).qscale,
                old(out)@.len() as int,
                Progress { at: 0, out: Seq::empty(), stop: None },
                max_macroblocks as nat,
            );
            let written = end.out + old(out)@.skip(end.out.len() as int);
            &&& end.out.len() <= old(out)@.len()
            &&& match end.stop {
                Some(Stop::Failed(e)) => result == Err::<usize, BsError>(e) && final(out)@
                    == written,
                _ => finished(
                    written,
                    final(out)@,
                    end.out.len() as int,
                    header_of(frame@).mdec_words,
                    result,
                ),
            }
        },
{
    let mut decoder = FrameDecoder::new(frame, max_macroblocks, 0)?;
    assert(out@.take(0) =~= Seq::<u16>::empty());
    decoder.advance(out, max_macroblocks)?;
    decoder.finish(out)
}

/// Decoding in parts comes to the same as decoding at once.
pub proof fn parts_make_the_whole(
    data: Seq<u8>,
    qscale: u16,
    cap: int,
    s: Progress,
    first: nat,
    second: nat,
)
    requires
        s.stop is None,
    ensures
        ({
            let half = macroblocks(data, qscale, cap, s, first);
            macroblocks(data, qscale, cap, s, first + second) == if half.stop is Some {
                half
            } else {
                macroblocks(data, qscale, cap, half, second)
            }
        }),
    decreases second,
{
    let half = macroblocks(data, qscale, cap, s, first);
    if half.stop is Some {
        macroblocks_stay_stopped(data, qscale, cap, s, first, first + second);
    } else if second > 0 {
        parts_make_the_whole(data, qscale, cap, s, first, (second - 1) as nat);
    }
}

/// What is sent is whole 32-word DMA blocks, holds everything produced, and is
/// no less than what the header announced.
pub proof fn sent_size_is_whole_blocks(produced: int, announced: u16)
    requires
        0 <= produced,
    ensures
        padded_len(produced, announced) % 64 == 0,
        padded_len(produced, announced) >= produced,
        padded_len(produced, announced) >= announced * 2,
        padded_len(produced, announced) < produced + 64 || padded_len(produced, announced)
            < announced * 2 + 64,
{
}

/// The bits of an end of block are real ones, so no block ends past the input.
pub proof fn blocks_end_inside_the_input(data: Seq<u8>, cap: int, s: Progress)
    requires
        0 <= s.at,
        s.out.len() <= cap,
    ensures
        coefficients(data, cap, s).stop is None ==> !overrun(data, coefficients(data, cap, s).at),
    decreases cap - s.out.len(),
{
    match item_at(data, s.at) {
        Item::End => {
            leading_one_is_real(
                word_at(data, s.at / 16),
                word_at(data, s.at / 16 + 1),
                (s.at % 16) as u32,
            );
        },
        Item::Invalid => {},
        Item::Halfword { hw, bits } => {
            let next = put(s, cap, s.at + bits, hw);
            if next.stop is None {
                blocks_end_inside_the_input(data, cap, next);
            }
        },
    }
}

proof fn leading_one_is_real(a: u32, b: u32, s: u32)
    by (bit_vector)
    requires
        s < 16,
        b < 0x1_0000,
    ensures
        (((a << 16) | b) << s) >> 30 == 2 ==> a != 0,
{
}

proof fn one_block_only_grows(data: Seq<u8>, qscale: u16, cap: int, s: Progress, first: bool)
    requires
        s.out.len() <= cap,
    ensures
        s.out.len() <= one_block(data, qscale, cap, s, first).out.len() <= cap,
{
    let dc = bits_at(data, s.at, 10);
    let head = put(s, cap, s.at + 10, ((qscale % 0x40) * 1024 + dc) as u16);
    if head.stop is None {
        coefficients_only_grow(data, cap, head);
    }
}

proof fn blocks_only_grow(data: Seq<u8>, qscale: u16, cap: int, s: Progress, k: nat)
    requires
        s.out.len() <= cap,
    ensures
        s.out.len() <= blocks(data, qscale, cap, s, k).out.len() <= cap,
    decreases k,
{
    if k > 0 {
        blocks_only_grow(data, qscale, cap, s, (k - 1) as nat);
        let before = blocks(data, qscale, cap, s, (k - 1) as nat);
        if before.stop is None {
            one_block_only_grows(data, qscale, cap, before, k == 1);
        }
    }
}

proof fn blocks_stay_stopped(
    data: Seq<u8>,
    qscale: u16,
    cap: int,
    s: Progress,
    k: nat,
    more: nat,
)
    requires
        k <= more,
        blocks(data, qscale, cap, s, k).stop is Some,
    ensures
        blocks(data, qscale, cap, s, more) == blocks(data, qscale, cap, s, k),
    decreases more,
{
    if k < more {
        blocks_stay_stopped(data, qscale, cap, s, k, (more - 1) as nat);
    }
}

proof fn macroblocks_stay_stopped(
    data: Seq<u8>,
    qscale: u16,
    cap: int,
    s: Progress,
    k: nat,
    more: nat,
)
    requires
        k <= more,
        macroblocks(data, qscale, cap, s, k).stop is Some,
    ensures
        macroblocks(data, qscale, cap, s, more) == macroblocks(data, qscale, cap, s, k),
    decreases more,
{
    if k < more {
        macroblocks_stay_stopped(data, qscale, cap, s, k, (more - 1) as nat);
    }
}

/// The ten bits of a DC value are below 1024.
proof fn ten_bits(ahead: u32)
    by (bit_vector)
    ensures
        ahead >> 22 < 0x400,
{
}

/// Decoding coefficients never takes anything back.
proof fn coefficients_only_grow(data: Seq<u8>, cap: int, s: Progress)
    requires
        s.out.len() <= cap,
    ensures
        s.out.len() <= coefficients(data, cap, s).out.len() <= cap,
        coefficients(data, cap, s).out.take(s.out.len() as int) == s.out,
    decreases cap - s.out.len(),
{
    assert(s.out.take(s.out.len() as int) =~= s.out);
    match item_at(data, s.at) {
        Item::End => {
            assert(s.out.push(END_OF_BLOCK).take(s.out.len() as int) =~= s.out);
        },
        Item::Invalid => {},
        Item::Halfword { hw, bits } => {
            let next = put(s, cap, s.at + bits, hw);
            if next.stop is None {
                coefficients_only_grow(data, cap, next);
                let end = coefficients(data, cap, next);
                assert(end.out.take(s.out.len() as int) =~= end.out.take(
                    next.out.len() as int,
                ).take(s.out.len() as int));
                assert(s.out.push(hw).take(s.out.len() as int) =~= s.out);
            }
        },
    }
}

} // verus!
