//! The variable-length codes of a BS frame body, and the tables that find them.

use vstd::arithmetic::div_mod::{
    lemma_fundamental_div_mod, lemma_fundamental_div_mod_converse,
};
use vstd::prelude::*;
use crate::bytes::le16;

verus! {

/// (code length without sign, code, run, level) for every AC code.
/// `11` (run 0, level 1) and the end-of-block `10` share the top level.
pub const AC_CODES: [(u8, u16, u8, u8); 111] = [
    (2, 0x3, 0, 1),
    (3, 0x3, 1, 1),
    (4, 0x4, 0, 2),
    (4, 0x5, 2, 1),
    (5, 0x05, 0, 3),
    (5, 0x06, 4, 1),
    (5, 0x07, 3, 1),
    (6, 0x04, 7, 1),
    (6, 0x05, 6, 1),
    (6, 0x06, 1, 2),
    (6, 0x07, 5, 1),
    (7, 0x04, 2, 2),
    (7, 0x05, 9, 1),
    (7, 0x06, 0, 4),
    (7, 0x07, 8, 1),
    (8, 0x20, 13, 1),
    (8, 0x21, 0, 6),
    (8, 0x22, 12, 1),
    (8, 0x23, 11, 1),
    (8, 0x24, 3, 2),
    (8, 0x25, 1, 3),
    (8, 0x26, 0, 5),
    (8, 0x27, 10, 1),
    (10, 0x008, 16, 1),
    (10, 0x009, 5, 2),
    (10, 0x00A, 0, 7),
    (10, 0x00B, 2, 3),
    (10, 0x00C, 1, 4),
    (10, 0x00D, 15, 1),
    (10, 0x00E, 14, 1),
    (10, 0x00F, 4, 2),
    (12, 0x010, 0, 11),
    (12, 0x011, 8, 2),
    (12, 0x012, 4, 3),
    (12, 0x013, 0, 10),
    (12, 0x014, 2, 4),
    (12, 0x015, 7, 2),
    (12, 0x016, 21, 1),
    (12, 0x017, 20, 1),
    (12, 0x018, 0, 9),
    (12, 0x019, 19, 1),
    (12, 0x01A, 18, 1),
    (12, 0x01B, 1, 5),
    (12, 0x01C, 3, 3),
    (12, 0x01D, 0, 8),
    (12, 0x01E, 6, 2),
    (12, 0x01F, 17, 1),
    (13, 0x0010, 10, 2),
    (13, 0x0011, 9, 2),
    (13, 0x0012, 5, 3),
    (13, 0x0013, 3, 4),
    (13, 0x0014, 2, 5),
    (13, 0x0015, 1, 7),
    (13, 0x0016, 1, 6),
    (13, 0x0017, 0, 15),
    (13, 0x0018, 0, 14),
    (13, 0x0019, 0, 13),
    (13, 0x001A, 0, 12),
    (13, 0x001B, 26, 1),
    (13, 0x001C, 25, 1),
    (13, 0x001D, 24, 1),
    (13, 0x001E, 23, 1),
    (13, 0x001F, 22, 1),
    (14, 0x0010, 0, 31),
    (14, 0x0011, 0, 30),
    (14, 0x0012, 0, 29),
    (14, 0x0013, 0, 28),
    (14, 0x0014, 0, 27),
    (14, 0x0015, 0, 26),
    (14, 0x0016, 0, 25),
    (14, 0x0017, 0, 24),
    (14, 0x0018, 0, 23),
    (14, 0x0019, 0, 22),
    (14, 0x001A, 0, 21),
    (14, 0x001B, 0, 20),
    (14, 0x001C, 0, 19),
    (14, 0x001D, 0, 18),
    (14, 0x001E, 0, 17),
    (14, 0x001F, 0, 16),
    (15, 0x0010, 0, 40),
    (15, 0x0011, 0, 39),
    (15, 0x0012, 0, 38),
    (15, 0x0013, 0, 37),
    (15, 0x0014, 0, 36),
    (15, 0x0015, 0, 35),
    (15, 0x0016, 0, 34),
    (15, 0x0017, 0, 33),
    (15, 0x0018, 0, 32),
    (15, 0x0019, 1, 14),
    (15, 0x001A, 1, 13),
    (15, 0x001B, 1, 12),
    (15, 0x001C, 1, 11),
    (15, 0x001D, 1, 10),
    (15, 0x001E, 1, 9),
    (15, 0x001F, 1, 8),
    (16, 0x0010, 1, 18),
    (16, 0x0011, 1, 17),
    (16, 0x0012, 1, 16),
    (16, 0x0013, 1, 15),
    (16, 0x0014, 6, 3),
    (16, 0x0015, 16, 2),
    (16, 0x0016, 15, 2),
    (16, 0x0017, 14, 2),
    (16, 0x0018, 13, 2),
    (16, 0x0019, 12, 2),
    (16, 0x001A, 11, 2),
    (16, 0x001B, 31, 1),
    (16, 0x001C, 30, 1),
    (16, 0x001D, 29, 1),
    (16, 0x001E, 28, 1),
    (16, 0x001F, 27, 1),
];

/// The `w`-th 16-bit word of the body; zero past its end.
pub open spec fn word_at(data: Seq<u8>, w: int) -> u32 {
    if 0 <= w && 2 * w + 1 < data.len() {
        le16(data, 2 * w) as u32
    } else {
        0
    }
}

/// What lies ahead of bit position `p`, left-aligned. At least the first
/// seventeen bits are of the stream.
pub open spec fn lookahead(data: Seq<u8>, p: int) -> u32 {
    ((word_at(data, p / 16) << 16) | word_at(data, p / 16 + 1)) << ((p % 16) as u32)
}

/// The `n` bits (1 to 16) from bit position `p` on, as a number.
pub open spec fn bits_at(data: Seq<u8>, p: int, n: int) -> u32 {
    lookahead(data, p) >> ((32 - n) as u32)
}

/// What can stand at a place where a coefficient is expected.
pub enum Symbol {
    /// `10`: the block is complete.
    EndOfBlock,
    /// `000001`: a raw halfword follows.
    Escape,
    /// Entry of [`AC_CODES`]; a sign bit follows.
    Code(int),
    /// Nothing that the code table knows.
    Invalid,
}

/// Entry `i` of the code table stands at bit position `p`.
pub open spec fn code_at(data: Seq<u8>, p: int, i: int) -> bool {
    0 <= i < AC_CODES@.len() && bits_at(data, p, AC_CODES[i].0 as int) == AC_CODES[i].1
}

/// What stands at bit position `p`.
pub open spec fn symbol_at(data: Seq<u8>, p: int) -> Symbol {
    if bits_at(data, p, 2) == 2 {
        Symbol::EndOfBlock
    } else if bits_at(data, p, 6) == 1 {
        Symbol::Escape
    } else if exists|i: int| code_at(data, p, i) {
        Symbol::Code(choose|i: int| code_at(data, p, i))
    } else {
        Symbol::Invalid
    }
}

/// The MDEC halfword of code `i` with the given sign: the run in the upper six
/// bits, the level as a signed number in the lower ten.
pub open spec fn coefficient(i: int, negative: bool) -> u16 {
    (AC_CODES[i].2 * 1024 + if negative {
        1024 - AC_CODES[i].3
    } else {
        AC_CODES[i].3 as int
    }) as u16
}

/// The length of code `i`, from its place in the table.
spec fn code_length(i: int) -> int {
    if i < 1 {
        2
    } else if i < 2 {
        3
    } else if i < 4 {
        4
    } else if i < 7 {
        5
    } else if i < 11 {
        6
    } else if i < 15 {
        7
    } else if i < 23 {
        8
    } else if i < 31 {
        10
    } else if i < 47 {
        12
    } else if i < 63 {
        13
    } else if i < 79 {
        14
    } else if i < 95 {
        15
    } else {
        16
    }
}

/// The bits of code `i`, from its place in the table: codes of one length
/// count up.
spec fn code_bits(i: int) -> int {
    if i < 1 {
        3
    } else if i < 2 {
        3
    } else if i < 4 {
        4 + (i - 2)
    } else if i < 7 {
        5 + (i - 4)
    } else if i < 11 {
        4 + (i - 7)
    } else if i < 15 {
        4 + (i - 11)
    } else if i < 23 {
        0x20 + (i - 15)
    } else if i < 31 {
        8 + (i - 23)
    } else if i < 47 {
        0x10 + (i - 31)
    } else if i < 63 {
        0x10 + (i - 47)
    } else if i < 79 {
        0x10 + (i - 63)
    } else if i < 95 {
        0x10 + (i - 79)
    } else {
        0x10 + (i - 95)
    }
}

proof fn table_is_regular(i: int)
    requires
        0 <= i < 111,
    ensures
        AC_CODES@.len() == 111,
        AC_CODES[i].0 == code_length(i),
        AC_CODES[i].1 == code_bits(i),
        AC_CODES[i].2 <= 31,
        1 <= AC_CODES[i].3 <= 40,
{
}

/// How many values of the next sixteen bits begin with a code of this length.
spec fn span(length: int) -> int {
    if length == 2 {
        0x4000
    } else if length == 3 {
        0x2000
    } else if length == 4 {
        0x1000
    } else if length == 5 {
        0x800
    } else if length == 6 {
        0x400
    } else if length == 7 {
        0x200
    } else if length == 8 {
        0x100
    } else if length == 10 {
        0x40
    } else if length == 12 {
        0x10
    } else if length == 13 {
        8
    } else if length == 14 {
        4
    } else if length == 15 {
        2
    } else {
        1
    }
}

/// The code that the next sixteen bits `v` begin with.
spec fn code_in(v: int) -> Option<int> {
    if v >= 0xC000 {
        Some(0)
    } else if v >= 0x8000 {
        None
    } else if v >= 0x6000 {
        Some(1)
    } else if v >= 0x4000 {
        Some(2 + (v / 0x1000 - 4))
    } else if v >= 0x2800 {
        Some(4 + (v / 0x800 - 5))
    } else if v >= 0x2000 {
        Some(15 + (v / 0x100 - 0x20))
    } else if v >= 0x1000 {
        Some(7 + (v / 0x400 - 4))
    } else if v >= 0x800 {
        Some(11 + (v / 0x200 - 4))
    } else if v >= 0x400 {
        None
    } else if v >= 0x200 {
        Some(23 + (v / 0x40 - 8))
    } else if v >= 0x100 {
        Some(31 + (v / 0x10 - 0x10))
    } else if v >= 0x80 {
        Some(47 + (v / 8 - 0x10))
    } else if v >= 0x40 {
        Some(63 + (v / 4 - 0x10))
    } else if v >= 0x20 {
        Some(79 + (v / 2 - 0x10))
    } else if v >= 0x10 {
        Some(95 + (v - 0x10))
    } else {
        None
    }
}

/// Taking leading bits of the look-ahead is dividing its first half.
proof fn leading_bits_divide(ahead: u32)
    by (bit_vector)
    ensures
        ahead >> 30 == (ahead >> 16) / 0x4000,
        ahead >> 29 == (ahead >> 16) / 0x2000,
        ahead >> 28 == (ahead >> 16) / 0x1000,
        ahead >> 27 == (ahead >> 16) / 0x800,
        ahead >> 26 == (ahead >> 16) / 0x400,
        ahead >> 25 == (ahead >> 16) / 0x200,
        ahead >> 24 == (ahead >> 16) / 0x100,
        ahead >> 22 == (ahead >> 16) / 0x40,
        ahead >> 20 == (ahead >> 16) / 0x10,
        ahead >> 19 == (ahead >> 16) / 8,
        ahead >> 18 == (ahead >> 16) / 4,
        ahead >> 17 == (ahead >> 16) / 2,
        ahead >> 16 < 0x1_0000,
{
}

/// The table is prefix-free and complete: the next sixteen bits decide which
/// symbol stands at a place.
proof fn symbol_is_decided(data: Seq<u8>, p: int)
    ensures
        ({
            let v = (lookahead(data, p) >> 16) as int;
            symbol_at(data, p) == if 0x8000 <= v < 0xC000 {
                Symbol::EndOfBlock
            } else if 0x400 <= v < 0x800 {
                Symbol::Escape
            } else {
                match code_in(v) {
                    Some(i) => Symbol::Code(i),
                    None => Symbol::Invalid,
                }
            }
        }),
        lookahead(data, p) >> 16 < 0x1_0000,
{
    let ahead = lookahead(data, p);
    let v = (ahead >> 16) as int;
    leading_bits_divide(ahead);
    assert forall|i: int| #[trigger] code_at(data, p, i) implies code_in(v) == Some(i) by {
        table_is_regular(i);
        code_spans(data, p, i);
    }
    if let Some(i) = code_in(v) {
        table_is_regular(i);
        code_spans(data, p, i);
        assert(code_at(data, p, i));
    }
}

/// No code begins another, or the end of block, or the escape: at a place where
/// one code stands, nothing else does.
#[verifier::rlimit(30)]
pub proof fn codes_are_prefix_free(data: Seq<u8>, p: int, i: int, j: int)
    requires
        code_at(data, p, i),
    ensures
        code_at(data, p, j) ==> i == j,
        bits_at(data, p, 2) != 2,
        bits_at(data, p, 6) != 1,
        symbol_at(data, p) == Symbol::Code(i),
{
    let v = (lookahead(data, p) >> 16) as int;
    symbol_is_decided(data, p);
    leading_bits_divide(lookahead(data, p));
    code_spans(data, p, i);
    if code_at(data, p, j) {
        code_spans(data, p, j);
    }
    assert(code_in(v) == Some(i));
}

/// Only twelve zero bits in a row are no symbol.
pub proof fn codes_are_complete(data: Seq<u8>, p: int)
    ensures
        symbol_at(data, p) is Invalid <==> bits_at(data, p, 12) == 0,
{
    symbol_is_decided(data, p);
    leading_bits_divide(lookahead(data, p));
}

/// Code `i` stands where the next sixteen bits are in its span.
proof fn code_spans(data: Seq<u8>, p: int, i: int)
    requires
        0 <= i < 111,
    ensures
        code_at(data, p, i) <==> code_bits(i) * span(code_length(i)) <= (lookahead(data, p) >> 16)
            < (code_bits(i) + 1) * span(code_length(i)),
{
    let ahead = lookahead(data, p);
    let n = code_length(i);
    leading_bits_divide(ahead);
    table_is_regular(i);
    assert(bits_at(data, p, n) == (ahead >> 16) as int / span(n));
    quotient_spans((ahead >> 16) as int, span(n), code_bits(i));
}

/// A quotient holds for one span of dividends.
proof fn quotient_spans(v: int, width: int, k: int)
    requires
        0 < width,
    ensures
        v / width == k <==> k * width <= v < (k + 1) * width,
{
    lemma_fundamental_div_mod(v, width);
    if k * width <= v < (k + 1) * width {
        assert(v == width * k + (v - k * width) && (k + 1) * width == k * width + width)
            by (nonlinear_arith);
        lemma_fundamental_div_mod_converse(v, width, k, v - k * width);
    } else {
        assert(v / width != k) by {
            assert(width * (v / width) == (v / width) * width && ((v / width) + 1) * width == (v
                / width) * width + width) by (nonlinear_arith);
        }
    }
}

// A table entry packs its kind, the code length (without the sign bit) and the
// MDEC halfword (with a positive level) into the bits from 24, 16 and 0 on.
const KIND_INVALID: u32 = 0;

const KIND_CODE: u32 = 1;

const KIND_ESCAPE: u32 = 2;

const KIND_EOB: u32 = 3;

const KIND_LONG: u32 = 4;

/// The packed entry of the given kind, code length and halfword.
pub open spec fn packed_entry(kind: int, len: int, hw: int) -> u32 {
    (kind * 0x100_0000 + len * 0x1_0000 + hw) as u32
}

/// The packed entry of code `i`.
pub open spec fn code_entry(i: int) -> u32 {
    packed_entry(1, AC_CODES[i].0 as int, AC_CODES[i].2 * 1024 + AC_CODES[i].3)
}

fn entry(kind: u32, len: u32, hw: u32) -> (e: u32)
    requires
        kind <= 4,
        len <= 16,
        hw < 0x1_0000,
    ensures
        e == packed_entry(kind as int, len as int, hw as int),
{
    kind * 0x100_0000 + len * 0x1_0000 + hw
}

/// The first-level entry for the next eight bits `b`: the code that they hold
/// or begin, the escape prefix, end of block, or the way to the second level.
pub closed spec fn short_entry(b: int) -> u32 {
    if b < 4 {
        packed_entry(4, 0, 0)
    } else if b < 8 {
        packed_entry(2, 6, 0)
    } else if 0x80 <= b < 0xC0 {
        packed_entry(3, 2, 0)
    } else {
        code_entry(code_in(b * 0x100)->0)
    }
}

/// The second-level entry `x`: for codes of six to eleven leading zeros, sixteen
/// for each count, by the four bits behind the first one bit.
pub closed spec fn long_entry(x: int) -> u32 {
    code_entry(
        if x < 16 {
            23 + x / 2
        } else {
            31 + (x - 16)
        },
    )
}

/// How many first-level slots a code of this length owns.
spec fn slot_count(length: int) -> int {
    if length == 2 {
        0x40
    } else if length == 3 {
        0x20
    } else if length == 4 {
        0x10
    } else if length == 5 {
        8
    } else if length == 6 {
        4
    } else if length == 7 {
        2
    } else {
        1
    }
}

/// The first first-level slot that a code of this length owns.
spec fn first_slot(length: int, code: int) -> int {
    if length == 2 {
        code * 0x40
    } else if length == 3 {
        code * 0x20
    } else if length == 4 {
        code * 0x10
    } else if length == 5 {
        code * 8
    } else if length == 6 {
        code * 4
    } else if length == 7 {
        code * 2
    } else {
        code
    }
}

/// Code `c` owns the first-level slots from its first one on, and no others.
proof fn short_range(c: int)
    requires
        0 <= c < 23,
    ensures
        ({
            let base = first_slot(code_length(c), code_bits(c));
            let count = slot_count(code_length(c));
            &&& 8 <= base
            &&& base + count <= 256
            &&& forall|b: int|
                0 <= b < 256 ==> ((base <= b < base + count) <==> #[trigger] code_in(b * 0x100)
                    == Some(c) && 8 <= b && !(0x80 <= b < 0xC0))
        }),
{
}

/// First-level table, indexed by the next 8 bits. Covers every code of up
/// to 8 bits, the escape prefix, end of block, and routes codes with 6 or
/// more leading zeros to the second level.
pub fn build_short() -> (t: [u32; 256])
    ensures
        forall|b: int| 0 <= b < 256 ==> #[trigger] t[b] == short_entry(b),
{
    let mut t: [u32; 256] = [entry(KIND_INVALID, 0, 0);256];
    let mut i: usize = 0x80;
    while i < 0xC0
        invariant
            0x80 <= i <= 0xC0,
            forall|b: int| 0x80 <= b < i ==> #[trigger] t[b] == short_entry(b),
        decreases 0xC0 - i,
    {
        t[i] = entry(KIND_EOB, 2, 0);
        i += 1;
    }
    let mut i: usize = 4;
    while i < 8
        invariant
            4 <= i <= 8,
            forall|b: int| 0x80 <= b < 0xC0 ==> #[trigger] t[b] == short_entry(b),
            forall|b: int| 4 <= b < i ==> #[trigger] t[b] == short_entry(b),
        decreases 8 - i,
    {
        t[i] = entry(KIND_ESCAPE, 6, 0);
        i += 1;
    }
    let mut i: usize = 0;
    while i < 4
        invariant
            0 <= i <= 4,
            forall|b: int| 0x80 <= b < 0xC0 ==> #[trigger] t[b] == short_entry(b),
            forall|b: int| 4 <= b < 8 || 0 <= b < i ==> #[trigger] t[b] == short_entry(b),
        decreases 4 - i,
    {
        t[i] = entry(KIND_LONG, 0, 0);
        i += 1;
    }
    let mut c: usize = 0;
    while c < 111
        invariant
            c <= 111,
            forall|b: int|
                0 <= b < 256 && (b < 8 || 0x80 <= b < 0xC0 || code_in(b * 0x100)->0 < c)
                    ==> #[trigger] t[b] == short_entry(b),
        decreases 111 - c,
    {
        let (len, code, run, level) = AC_CODES[c];
        proof {
            table_is_regular(c as int);
        }
        if len <= 8 {
            let (base, count) = short_slots(len, code);
            proof {
                short_range(c as int);
            }
            let hw = run as u32 * 1024 + level as u32;
            let mut k: usize = 0;
            while k < count
                invariant
                    c < 23,
                    k <= count,
                    base == first_slot(code_length(c as int), code_bits(c as int)),
                    count == slot_count(code_length(c as int)),
                    len == AC_CODES[c as int].0,
                    hw == AC_CODES[c as int].2 * 1024 + AC_CODES[c as int].3,
                    len <= 16,
                    hw < 0x1_0000,
                    base + count <= 256,
                    forall|b: int|
                        0 <= b < 256 && (b < 8 || 0x80 <= b < 0xC0 || code_in(b * 0x100)->0 < c
                            || base <= b < base + k) ==> #[trigger] t[b] == short_entry(b),
                decreases count - k,
            {
                t[base + k] = entry(KIND_CODE, len as u32, hw);
                proof {
                    short_range(c as int);
                    assert(code_in((base + k) * 0x100) == Some(c as int));
                }
                k += 1;
            }
            assert forall|b: int|
                0 <= b < 256 && (b < 8 || 0x80 <= b < 0xC0 || code_in(b * 0x100)->0 < c
                    + 1) implies #[trigger] t[b] == short_entry(b) by {
                short_range(c as int);
                if !(b < 8 || 0x80 <= b < 0xC0 || code_in(b * 0x100)->0 < c) {
                    assert(code_in(b * 0x100) == Some(c as int));
                }
            }
        }
        c += 1;
    }
    t
}

/// The first-level slots of a code: the first one, and how many.
fn short_slots(len: u8, code: u16) -> (slots: (usize, usize))
    requires
        2 <= len <= 8,
        code <= 0x27,
    ensures
        slots.0 == first_slot(len as int, code as int),
        slots.1 == slot_count(len as int),
{
    let code = code as usize;
    match len {
        2 => (code * 0x40, 0x40),
        3 => (code * 0x20, 0x20),
        4 => (code * 0x10, 0x10),
        5 => (code * 8, 8),
        6 => (code * 4, 4),
        7 => (code * 2, 2),
        _ => (code, 1),
    }
}

/// Second level for codes with 6..=11 leading zeros (`lz`), indexed by
/// `(lz - 6) * 16` plus the 4 bits after the first one bit (codes with six
/// leading zeros have 3 such bits and fill two slots each).
pub fn build_long() -> (t: [u32; 96])
    ensures
        forall|x: int| 0 <= x < 96 ==> #[trigger] t[x] == long_entry(x),
{
    let mut t: [u32; 96] = [entry(KIND_INVALID, 0, 0);96];
    let mut c: usize = 0;
    while c < 111
        invariant
            c <= 111,
            forall|x: int| 0 <= x < 16 && 23 + x / 2 < c ==> #[trigger] t[x] == long_entry(x),
            forall|x: int| 16 <= x < 96 && 31 + (x - 16) < c ==> #[trigger] t[x] == long_entry(x),
        decreases 111 - c,
    {
        let (len, code, run, level) = AC_CODES[c];
        proof {
            table_is_regular(c as int);
        }
        if len >= 10 {
            let hw = run as u32 * 1024 + level as u32;
            let e = entry(KIND_CODE, len as u32, hw);
            if code < 16 {
                // Four significant bits: the three behind the first one leave
                // one index bit open.
                let first = (code as usize - 8) * 2;
                t[first] = e;
                t[first + 1] = e;
            } else {
                let lz = len as usize - 5;
                t[(lz - 6) * 16 + (code as usize - 16)] = e;
            }
        }
        c += 1;
    }
    t
}

proof fn entries_unpack(i: int)
    requires
        0 <= i < 111,
    ensures
        code_entry(i) / 0x100_0000 == 1,
        (code_entry(i) / 0x1_0000) % 0x20 == AC_CODES[i].0,
        code_entry(i) % 0x1_0000 == AC_CODES[i].2 * 1024 + AC_CODES[i].3,
        2 <= AC_CODES[i].0 <= 16,
        AC_CODES[i].2 <= 31,
        1 <= AC_CODES[i].3 <= 40,
{
    table_is_regular(i);
}

/// The code, if any, that the tables give for the next sixteen bits `v`.
proof fn tables_find(v: int)
    requires
        0 <= v < 0x1_0000,
    ensures
        v < 0x400 ==> short_entry(v / 0x100) == packed_entry(4, 0, 0),
        0x400 <= v < 0x800 ==> short_entry(v / 0x100) == packed_entry(2, 6, 0),
        0x8000 <= v < 0xC000 ==> short_entry(v / 0x100) == packed_entry(3, 2, 0),
        0x800 <= v && !(0x8000 <= v < 0xC000) ==> {
            &&& code_in(v) matches Some(i)
            &&& 0 <= i < 111
            &&& short_entry(v / 0x100) == code_entry(i)
        },
        0x10 <= v < 0x400 ==> {
            &&& code_in(v) matches Some(i)
            &&& 0 <= i < 111
            &&& 0 <= long_index(v) < 96
            &&& long_entry(long_index(v)) == code_entry(i)
        },
        v < 0x10 ==> code_in(v) is None,
{
}

/// The second-level index of the next sixteen bits `v`.
spec fn long_index(v: int) -> int {
    if v >= 0x200 {
        v / 0x20 - 16
    } else if v >= 0x100 {
        16 + (v / 0x10 - 16)
    } else if v >= 0x80 {
        32 + (v / 8 - 16)
    } else if v >= 0x40 {
        48 + (v / 4 - 16)
    } else if v >= 0x20 {
        64 + (v / 2 - 16)
    } else {
        80 + (v - 16)
    }
}

/// What a look into the tables finds.
pub enum Found {
    /// `10`: the block is complete.
    EndOfBlock,
    /// `000001`: a raw halfword follows.
    Escape,
    /// A code of `len` bits for the halfword `hw`; a sign bit follows.
    Code {
        /// Code length without the sign bit.
        len: u32,
        /// MDEC halfword with a positive level.
        hw: u32,
    },
    /// Nothing that the code table knows.
    Invalid,
}

/// Find the symbol that stands at `p`, given what lies ahead of it.
pub(crate) fn find(
    short: &[u32; 256],
    long: &[u32; 96],
    ahead: u32,
    Ghost(data): Ghost<Seq<u8>>,
    Ghost(p): Ghost<int>,
) -> (found: Found)
    requires
        forall|b: int| 0 <= b < 256 ==> #[trigger] short[b] == short_entry(b),
        forall|x: int| 0 <= x < 96 ==> #[trigger] long[x] == long_entry(x),
        ahead == lookahead(data, p),
    ensures
        match symbol_at(data, p) {
            Symbol::EndOfBlock => found is EndOfBlock,
            Symbol::Escape => found is Escape,
            Symbol::Code(i) => {
                &&& 0 <= i < 111
                &&& found == (Found::Code {
                    len: AC_CODES[i].0 as u32,
                    hw: (AC_CODES[i].2 * 1024 + AC_CODES[i].3) as u32,
                })
                &&& 2 <= AC_CODES[i].0 <= 16
                &&& AC_CODES[i].2 <= 31
                &&& 1 <= AC_CODES[i].3 <= 40
            },
            Symbol::Invalid => found is Invalid,
        },
{
    proof {
        symbol_is_decided(data, p);
        leading_bits_divide(ahead);
        tables_find((ahead >> 16) as int);
        if let Symbol::Code(i) = symbol_at(data, p) {
            entries_unpack(i);
        }
    }
    let v = ahead >> 16;
    let mut e = short[(ahead >> 24) as usize];
    if e / 0x100_0000 == KIND_EOB {
        return Found::EndOfBlock;
    }
    if e / 0x100_0000 == KIND_ESCAPE {
        return Found::Escape;
    }
    if e / 0x100_0000 == KIND_LONG {
        let index: u32 = if v >= 0x200 {
            v / 0x20 - 16
        } else if v >= 0x100 {
            16 + (v / 0x10 - 16)
        } else if v >= 0x80 {
            32 + (v / 8 - 16)
        } else if v >= 0x40 {
            48 + (v / 4 - 16)
        } else if v >= 0x20 {
            64 + (v / 2 - 16)
        } else if v >= 0x10 {
            80 + (v - 16)
        } else {
            return Found::Invalid;
        };
        e = long[index as usize];
    }
    Found::Code { len: (e / 0x1_0000) % 0x20, hw: e % 0x1_0000 }
}

} // verus!
