//! Frames as an encoder writes them, and what they decode to.

use vstd::prelude::*;

use crate::fmv::bs::{
    blocks, blocks_end_inside_the_input, coefficients, finished, header_of, item_at, macroblocks,
    one_block, put, BsError, Header, Item, Progress, Stop,
};
use crate::fmv::codes::{
    bits_at, code_at, codes_are_prefix_free, coefficient, lookahead, word_at, AC_CODES,
};
use crate::written::{bytes16, lies, parts_lie, word_reads_back};

verus! {

/// Bit `n` of a body: little-endian words of sixteen bits, the highest bit of a
/// word first.
pub open spec fn bit(data: Seq<u8>, n: int) -> int {
    let byte = if n % 16 < 8 {
        data[2 * (n / 16) + 1]
    } else {
        data[2 * (n / 16)]
    };
    (((byte as u32) >> ((7 - n % 8) as u32)) & 1) as int
}

/// Whether the `n` bits from bit `p` on are the number `v`, highest bit first.
pub open spec fn spells(data: Seq<u8>, p: int, n: int, v: int) -> bool
    decreases n,
{
    if n <= 0 {
        v == 0
    } else {
        &&& 0 <= p
        &&& 2 * ((p + n - 1) / 16) + 1 < data.len()
        &&& bit(data, p + n - 1) == v % 2
        &&& spells(data, p, n - 1, v / 2)
    }
}

proof fn top_bit(a: u32, b: u32, s: u32)
    by (bit_vector)
    requires
        a < 0x1_0000,
        b < 0x1_0000,
        s < 16,
    ensures
        (((a << 16) | b) << s) >> 31 == (a >> ((15 - s) as u32)) & 1,
{
}

proof fn next_bit(a: u32, b: u32, s: u32, n: u32)
    by (bit_vector)
    requires
        a < 0x1_0000,
        b < 0x1_0000,
        s < 16,
        2 <= n <= 16,
    ensures
        s + n - 1 < 16 ==> (((a << 16) | b) << s) >> ((32 - n) as u32) == 2 * ((((a << 16) | b)
            << s) >> ((33 - n) as u32)) + ((a >> ((15 - (s + n - 1)) as u32)) & 1),
        s + n - 1 >= 16 ==> (((a << 16) | b) << s) >> ((32 - n) as u32) == 2 * ((((a << 16) | b)
            << s) >> ((33 - n) as u32)) + ((b >> ((31 - (s + n - 1)) as u32)) & 1),
{
}

proof fn bit_of_a_word(low: u32, high: u32, t: u32)
    by (bit_vector)
    requires
        low < 256,
        high < 256,
        t < 16,
    ensures
        t < 8 ==> ((low + 256 * high) as u32 >> ((15 - t) as u32)) & 1 == (high >> ((7 - t) as u32))
            & 1,
        t >= 8 ==> ((low + 256 * high) as u32 >> ((15 - t) as u32)) & 1 == (low >> ((15 - t)
            as u32)) & 1,
{
}

/// A bit stands in its word.
proof fn bit_in_word(data: Seq<u8>, n: int)
    requires
        0 <= n,
        2 * (n / 16) + 1 < data.len(),
    ensures
        bit(data, n) == ((word_at(data, n / 16) >> ((15 - n % 16) as u32)) & 1) as int,
        word_at(data, n / 16) < 0x1_0000,
{
    let w = n / 16;
    let (low, high) = (data[2 * w] as u32, data[2 * w + 1] as u32);
    let t = (n % 16) as u32;
    bit_of_a_word(low, high, t);
    assert(word_at(data, w) == low + 256 * high);
    if n % 16 < 8 {
        assert(n % 8 == n % 16);
    } else {
        assert(n % 8 == n % 16 - 8);
    }
}

/// Spelled bits are read as the number that they spell.
pub proof fn spelled_bits_are_read(data: Seq<u8>, p: int, n: int, v: int)
    requires
        spells(data, p, n, v),
        1 <= n <= 16,
    ensures
        bits_at(data, p, n) == v,
    decreases n,
{
    let (a, b) = (word_at(data, p / 16), word_at(data, p / 16 + 1));
    let s = (p % 16) as u32;
    let last = p + n - 1;
    bit_in_word(data, last);
    words_are_halves(data, p / 16);
    words_are_halves(data, p / 16 + 1);
    if n == 1 {
        top_bit(a, b, s);
        assert(spells(data, p, 0, v / 2));
    } else {
        spelled_bits_are_read(data, p, n - 1, v / 2);
        next_bit(a, b, s, n as u32);
        if s + n - 1 < 16 {
            assert(last / 16 == p / 16 && last % 16 == s + n - 1);
        } else {
            assert(last / 16 == p / 16 + 1 && last % 16 == s + n - 1 - 16);
        }
    }
}

proof fn words_are_halves(data: Seq<u8>, w: int)
    ensures
        word_at(data, w) < 0x1_0000,
{
}

/// The code of a run of zeros and a level: its length and its bits. Pairs without
/// a code have length zero.
pub open spec fn code_of(run: int, level: int) -> (int, int) {
    if run == 0 {
        if level == 1 {
            (2, 0x3)
        } else if level == 2 {
            (4, 0x4)
        } else if level == 3 {
            (5, 0x5)
        } else if level == 4 {
            (7, 0x6)
        } else if level == 5 {
            (8, 0x26)
        } else if level == 6 {
            (8, 0x21)
        } else if level == 7 {
            (10, 0xA)
        } else if level == 8 {
            (12, 0x1D)
        } else if level == 9 {
            (12, 0x18)
        } else if level == 10 {
            (12, 0x13)
        } else if level == 11 {
            (12, 0x10)
        } else if level == 12 {
            (13, 0x1A)
        } else if level == 13 {
            (13, 0x19)
        } else if level == 14 {
            (13, 0x18)
        } else if level == 15 {
            (13, 0x17)
        } else if level == 16 {
            (14, 0x1F)
        } else if level == 17 {
            (14, 0x1E)
        } else if level == 18 {
            (14, 0x1D)
        } else if level == 19 {
            (14, 0x1C)
        } else if level == 20 {
            (14, 0x1B)
        } else if level == 21 {
            (14, 0x1A)
        } else if level == 22 {
            (14, 0x19)
        } else if level == 23 {
            (14, 0x18)
        } else if level == 24 {
            (14, 0x17)
        } else if level == 25 {
            (14, 0x16)
        } else if level == 26 {
            (14, 0x15)
        } else if level == 27 {
            (14, 0x14)
        } else if level == 28 {
            (14, 0x13)
        } else if level == 29 {
            (14, 0x12)
        } else if level == 30 {
            (14, 0x11)
        } else if level == 31 {
            (14, 0x10)
        } else if level == 32 {
            (15, 0x18)
        } else if level == 33 {
            (15, 0x17)
        } else if level == 34 {
            (15, 0x16)
        } else if level == 35 {
            (15, 0x15)
        } else if level == 36 {
            (15, 0x14)
        } else if level == 37 {
            (15, 0x13)
        } else if level == 38 {
            (15, 0x12)
        } else if level == 39 {
            (15, 0x11)
        } else if level == 40 {
            (15, 0x10)
        } else {
            (0, 0)
        }
    } else if run == 1 {
        if level == 1 {
            (3, 0x3)
        } else if level == 2 {
            (6, 0x6)
        } else if level == 3 {
            (8, 0x25)
        } else if level == 4 {
            (10, 0xC)
        } else if level == 5 {
            (12, 0x1B)
        } else if level == 6 {
            (13, 0x16)
        } else if level == 7 {
            (13, 0x15)
        } else if level == 8 {
            (15, 0x1F)
        } else if level == 9 {
            (15, 0x1E)
        } else if level == 10 {
            (15, 0x1D)
        } else if level == 11 {
            (15, 0x1C)
        } else if level == 12 {
            (15, 0x1B)
        } else if level == 13 {
            (15, 0x1A)
        } else if level == 14 {
            (15, 0x19)
        } else if level == 15 {
            (16, 0x13)
        } else if level == 16 {
            (16, 0x12)
        } else if level == 17 {
            (16, 0x11)
        } else if level == 18 {
            (16, 0x10)
        } else {
            (0, 0)
        }
    } else if run == 2 {
        if level == 1 {
            (4, 0x5)
        } else if level == 2 {
            (7, 0x4)
        } else if level == 3 {
            (10, 0xB)
        } else if level == 4 {
            (12, 0x14)
        } else if level == 5 {
            (13, 0x14)
        } else {
            (0, 0)
        }
    } else if run == 3 {
        if level == 1 {
            (5, 0x7)
        } else if level == 2 {
            (8, 0x24)
        } else if level == 3 {
            (12, 0x1C)
        } else if level == 4 {
            (13, 0x13)
        } else {
            (0, 0)
        }
    } else if run == 4 {
        if level == 1 {
            (5, 0x6)
        } else if level == 2 {
            (10, 0xF)
        } else if level == 3 {
            (12, 0x12)
        } else {
            (0, 0)
        }
    } else if run == 5 {
        if level == 1 {
            (6, 0x7)
        } else if level == 2 {
            (10, 0x9)
        } else if level == 3 {
            (13, 0x12)
        } else {
            (0, 0)
        }
    } else if run == 6 {
        if level == 1 {
            (6, 0x5)
        } else if level == 2 {
            (12, 0x1E)
        } else if level == 3 {
            (16, 0x14)
        } else {
            (0, 0)
        }
    } else if run == 7 {
        if level == 1 {
            (6, 0x4)
        } else if level == 2 {
            (12, 0x15)
        } else {
            (0, 0)
        }
    } else if run == 8 {
        if level == 1 {
            (7, 0x7)
        } else if level == 2 {
            (12, 0x11)
        } else {
            (0, 0)
        }
    } else if run == 9 {
        if level == 1 {
            (7, 0x5)
        } else if level == 2 {
            (13, 0x11)
        } else {
            (0, 0)
        }
    } else if run == 10 {
        if level == 1 {
            (8, 0x27)
        } else if level == 2 {
            (13, 0x10)
        } else {
            (0, 0)
        }
    } else if run == 11 {
        if level == 1 {
            (8, 0x23)
        } else if level == 2 {
            (16, 0x1A)
        } else {
            (0, 0)
        }
    } else if run == 12 {
        if level == 1 {
            (8, 0x22)
        } else if level == 2 {
            (16, 0x19)
        } else {
            (0, 0)
        }
    } else if run == 13 {
        if level == 1 {
            (8, 0x20)
        } else if level == 2 {
            (16, 0x18)
        } else {
            (0, 0)
        }
    } else if run == 14 {
        if level == 1 {
            (10, 0xE)
        } else if level == 2 {
            (16, 0x17)
        } else {
            (0, 0)
        }
    } else if run == 15 {
        if level == 1 {
            (10, 0xD)
        } else if level == 2 {
            (16, 0x16)
        } else {
            (0, 0)
        }
    } else if run == 16 {
        if level == 1 {
            (10, 0x8)
        } else if level == 2 {
            (16, 0x15)
        } else {
            (0, 0)
        }
    } else if run == 17 {
        if level == 1 {
            (12, 0x1F)
        } else {
            (0, 0)
        }
    } else if run == 18 {
        if level == 1 {
            (12, 0x1A)
        } else {
            (0, 0)
        }
    } else if run == 19 {
        if level == 1 {
            (12, 0x19)
        } else {
            (0, 0)
        }
    } else if run == 20 {
        if level == 1 {
            (12, 0x17)
        } else {
            (0, 0)
        }
    } else if run == 21 {
        if level == 1 {
            (12, 0x16)
        } else {
            (0, 0)
        }
    } else if run == 22 {
        if level == 1 {
            (13, 0x1F)
        } else {
            (0, 0)
        }
    } else if run == 23 {
        if level == 1 {
            (13, 0x1E)
        } else {
            (0, 0)
        }
    } else if run == 24 {
        if level == 1 {
            (13, 0x1D)
        } else {
            (0, 0)
        }
    } else if run == 25 {
        if level == 1 {
            (13, 0x1C)
        } else {
            (0, 0)
        }
    } else if run == 26 {
        if level == 1 {
            (13, 0x1B)
        } else {
            (0, 0)
        }
    } else if run == 27 {
        if level == 1 {
            (16, 0x1F)
        } else {
            (0, 0)
        }
    } else if run == 28 {
        if level == 1 {
            (16, 0x1E)
        } else {
            (0, 0)
        }
    } else if run == 29 {
        if level == 1 {
            (16, 0x1D)
        } else {
            (0, 0)
        }
    } else if run == 30 {
        if level == 1 {
            (16, 0x1C)
        } else {
            (0, 0)
        }
    } else if run == 31 {
        if level == 1 {
            (16, 0x1B)
        } else {
            (0, 0)
        }
    } else {
        (0, 0)
    }
}

/// Where the table holds a pair.
spec fn entry_of(run: int, level: int) -> int {
    if run == 0 {
        if level == 1 {
            0
        } else if level == 2 {
            2
        } else if level == 3 {
            4
        } else if level == 4 {
            13
        } else if level == 5 {
            21
        } else if level == 6 {
            16
        } else if level == 7 {
            25
        } else if level == 8 {
            44
        } else if level == 9 {
            39
        } else if level == 10 {
            34
        } else if level == 11 {
            31
        } else if level == 12 {
            57
        } else if level == 13 {
            56
        } else if level == 14 {
            55
        } else if level == 15 {
            54
        } else if level == 16 {
            78
        } else if level == 17 {
            77
        } else if level == 18 {
            76
        } else if level == 19 {
            75
        } else if level == 20 {
            74
        } else if level == 21 {
            73
        } else if level == 22 {
            72
        } else if level == 23 {
            71
        } else if level == 24 {
            70
        } else if level == 25 {
            69
        } else if level == 26 {
            68
        } else if level == 27 {
            67
        } else if level == 28 {
            66
        } else if level == 29 {
            65
        } else if level == 30 {
            64
        } else if level == 31 {
            63
        } else if level == 32 {
            87
        } else if level == 33 {
            86
        } else if level == 34 {
            85
        } else if level == 35 {
            84
        } else if level == 36 {
            83
        } else if level == 37 {
            82
        } else if level == 38 {
            81
        } else if level == 39 {
            80
        } else if level == 40 {
            79
        } else {
            0
        }
    } else if run == 1 {
        if level == 1 {
            1
        } else if level == 2 {
            9
        } else if level == 3 {
            20
        } else if level == 4 {
            27
        } else if level == 5 {
            42
        } else if level == 6 {
            53
        } else if level == 7 {
            52
        } else if level == 8 {
            94
        } else if level == 9 {
            93
        } else if level == 10 {
            92
        } else if level == 11 {
            91
        } else if level == 12 {
            90
        } else if level == 13 {
            89
        } else if level == 14 {
            88
        } else if level == 15 {
            98
        } else if level == 16 {
            97
        } else if level == 17 {
            96
        } else if level == 18 {
            95
        } else {
            0
        }
    } else if run == 2 {
        if level == 1 {
            3
        } else if level == 2 {
            11
        } else if level == 3 {
            26
        } else if level == 4 {
            35
        } else if level == 5 {
            51
        } else {
            0
        }
    } else if run == 3 {
        if level == 1 {
            6
        } else if level == 2 {
            19
        } else if level == 3 {
            43
        } else if level == 4 {
            50
        } else {
            0
        }
    } else if run == 4 {
        if level == 1 {
            5
        } else if level == 2 {
            30
        } else if level == 3 {
            33
        } else {
            0
        }
    } else if run == 5 {
        if level == 1 {
            10
        } else if level == 2 {
            24
        } else if level == 3 {
            49
        } else {
            0
        }
    } else if run == 6 {
        if level == 1 {
            8
        } else if level == 2 {
            45
        } else if level == 3 {
            99
        } else {
            0
        }
    } else if run == 7 {
        if level == 1 {
            7
        } else if level == 2 {
            36
        } else {
            0
        }
    } else if run == 8 {
        if level == 1 {
            14
        } else if level == 2 {
            32
        } else {
            0
        }
    } else if run == 9 {
        if level == 1 {
            12
        } else if level == 2 {
            48
        } else {
            0
        }
    } else if run == 10 {
        if level == 1 {
            22
        } else if level == 2 {
            47
        } else {
            0
        }
    } else if run == 11 {
        if level == 1 {
            18
        } else if level == 2 {
            105
        } else {
            0
        }
    } else if run == 12 {
        if level == 1 {
            17
        } else if level == 2 {
            104
        } else {
            0
        }
    } else if run == 13 {
        if level == 1 {
            15
        } else if level == 2 {
            103
        } else {
            0
        }
    } else if run == 14 {
        if level == 1 {
            29
        } else if level == 2 {
            102
        } else {
            0
        }
    } else if run == 15 {
        if level == 1 {
            28
        } else if level == 2 {
            101
        } else {
            0
        }
    } else if run == 16 {
        if level == 1 {
            23
        } else if level == 2 {
            100
        } else {
            0
        }
    } else if run == 17 {
        if level == 1 {
            46
        } else {
            0
        }
    } else if run == 18 {
        if level == 1 {
            41
        } else {
            0
        }
    } else if run == 19 {
        if level == 1 {
            40
        } else {
            0
        }
    } else if run == 20 {
        if level == 1 {
            38
        } else {
            0
        }
    } else if run == 21 {
        if level == 1 {
            37
        } else {
            0
        }
    } else if run == 22 {
        if level == 1 {
            62
        } else {
            0
        }
    } else if run == 23 {
        if level == 1 {
            61
        } else {
            0
        }
    } else if run == 24 {
        if level == 1 {
            60
        } else {
            0
        }
    } else if run == 25 {
        if level == 1 {
            59
        } else {
            0
        }
    } else if run == 26 {
        if level == 1 {
            58
        } else {
            0
        }
    } else if run == 27 {
        if level == 1 {
            110
        } else {
            0
        }
    } else if run == 28 {
        if level == 1 {
            109
        } else {
            0
        }
    } else if run == 29 {
        if level == 1 {
            108
        } else {
            0
        }
    } else if run == 30 {
        if level == 1 {
            107
        } else {
            0
        }
    } else if run == 31 {
        if level == 1 {
            106
        } else {
            0
        }
    } else {
        0
    }
}

/// Where a pair has a code, the table holds it.
#[verifier::rlimit(60)]
proof fn table_holds_the_pair(run: int, level: int)
    requires
        code_of(run, level).0 != 0,
    ensures
        0 <= entry_of(run, level) < 111,
        AC_CODES@.len() == 111,
        AC_CODES[entry_of(run, level)].0 == code_of(run, level).0,
        AC_CODES[entry_of(run, level)].1 == code_of(run, level).1,
        AC_CODES[entry_of(run, level)].2 == run,
        AC_CODES[entry_of(run, level)].3 == level,
{
}

/// A coefficient as an encoder has it.
pub enum Coded {
    /// A run of zeros, then a level, with a code of its own.
    Level { run: int, level: int, negative: bool },
    /// A halfword behind an escape.
    Raw(u16),
}

/// Whether the encoder can write a coefficient.
pub open spec fn can_code(item: Coded) -> bool {
    match item {
        Coded::Level { run, level, negative } => code_of(run, level).0 != 0,
        Coded::Raw(hw) => true,
    }
}

/// How many bits a coefficient takes.
pub open spec fn coded_bits(item: Coded) -> int {
    match item {
        Coded::Level { run, level, negative } => code_of(run, level).0 + 1,
        Coded::Raw(hw) => 22,
    }
}

/// Whether a coefficient is written at bit `p`: its code and its sign, or the
/// escape and its halfword.
pub open spec fn item_stands(data: Seq<u8>, p: int, item: Coded) -> bool {
    match item {
        Coded::Level { run, level, negative } => {
            let (length, bits) = code_of(run, level);
            &&& spells(data, p, length, bits)
            &&& spells(
                data,
                p + length,
                1,
                if negative {
                    1
                } else {
                    0
                },
            )
        },
        Coded::Raw(hw) => spells(data, p, 6, 1) && spells(data, p + 6, 16, hw as int),
    }
}

/// The halfword of a coefficient: the run in the upper six bits, the level as a
/// ten-bit signed number in the lower.
pub open spec fn halfword_of(item: Coded) -> u16 {
    match item {
        Coded::Level { run, level, negative } => (1024 * run + if negative {
            1024 - level
        } else {
            level
        }) as u16,
        Coded::Raw(hw) => hw,
    }
}

proof fn escape_is_no_end(ahead: u32)
    by (bit_vector)
    ensures
        ahead >> 26 == 1 ==> ahead >> 30 == 0,
{
}

/// A written coefficient is decoded to its halfword.
pub proof fn items_read_back(data: Seq<u8>, p: int, item: Coded)
    requires
        item_stands(data, p, item),
        can_code(item),
    ensures
        item_at(data, p) == (Item::Halfword { hw: halfword_of(item), bits: coded_bits(item) }),
{
    match item {
        Coded::Level { run, level, negative } => {
            let i = entry_of(run, level);
            table_holds_the_pair(run, level);
            code_is_short(run, level);
            let (length, bits) = code_of(run, level);
            spelled_bits_are_read(data, p, length, bits);
            assert(code_at(data, p, i));
            codes_are_prefix_free(data, p, i, i);
            spelled_bits_are_read(
                data,
                p + length,
                1,
                if negative {
                    1
                } else {
                    0
                },
            );
        },
        Coded::Raw(hw) => {
            spelled_bits_are_read(data, p, 6, 1);
            spelled_bits_are_read(data, p + 6, 16, hw as int);
            escape_is_no_end(lookahead(data, p));
        },
    }
}

#[verifier::rlimit(60)]
proof fn code_is_short(run: int, level: int)
    requires
        code_of(run, level).0 != 0,
    ensures
        1 <= code_of(run, level).0 <= 16,
        0 <= run <= 31,
        1 <= level <= 40,
{
}

/// A block as an encoder has it.
pub struct Block {
    /// Ten bits.
    pub dc: int,
    pub items: Seq<Coded>,
}

/// How many bits coefficients take.
pub open spec fn items_bits(items: Seq<Coded>) -> int
    decreases items.len(),
{
    if items.len() == 0 {
        0
    } else {
        coded_bits(items[0]) + items_bits(items.skip(1))
    }
}

/// Whether coefficients are written from bit `p` on, and then the end of the
/// block.
pub open spec fn items_stand(data: Seq<u8>, p: int, items: Seq<Coded>) -> bool
    decreases items.len(),
{
    if items.len() == 0 {
        spells(data, p, 2, 2)
    } else {
        &&& can_code(items[0])
        &&& item_stands(data, p, items[0])
        &&& items_stand(data, p + coded_bits(items[0]), items.skip(1))
    }
}

/// Whether a block is written at bit `p`.
pub open spec fn block_stands(data: Seq<u8>, p: int, block: Block) -> bool {
    &&& 0 <= p
    &&& 0 <= block.dc < 1024
    &&& spells(data, p, 10, block.dc)
    &&& items_stand(data, p + 10, block.items)
}

/// How many bits a block takes.
pub open spec fn block_bits(block: Block) -> int {
    10 + items_bits(block.items) + 2
}

/// The halfwords of coefficients.
pub open spec fn halfwords(items: Seq<Coded>) -> Seq<u16> {
    Seq::new(items.len(), |k: int| halfword_of(items[k]))
}

/// The halfwords of a block: the scale in the upper six bits of the first and the
/// DC value in its lower ten, the coefficients, and the end.
pub open spec fn block_halfwords(scale: int, block: Block) -> Seq<u16> {
    seq![(1024 * scale + block.dc) as u16] + halfwords(block.items) + seq![0xFE00u16]
}

proof fn coefficients_read_back(data: Seq<u8>, cap: int, s: Progress, items: Seq<Coded>)
    requires
        items_stand(data, s.at, items),
        s.out.len() + items.len() + 1 <= cap,
        s.stop is None,
        0 <= s.at,
    ensures
        coefficients(data, cap, s).stop is None,
        coefficients(data, cap, s).out == s.out + halfwords(items) + seq![0xFE00u16],
        coefficients(data, cap, s).at == s.at + items_bits(items) + 2,
    decreases items.len(),
{
    if items.len() == 0 {
        spelled_bits_are_read(data, s.at, 2, 2);
        assert(coefficients(data, cap, s).out =~= s.out + halfwords(items) + seq![0xFE00u16]);
    } else {
        let first = items[0];
        let rest = items.skip(1);
        items_read_back(data, s.at, first);
        if let Coded::Level { run, level, negative } = first {
            code_is_short(run, level);
        }
        let next = put(s, cap, s.at + coded_bits(first), halfword_of(first));
        coefficients_read_back(data, cap, next, rest);
        assert(halfwords(items) =~= seq![halfword_of(first)] + halfwords(rest));
        assert(coefficients(data, cap, s).out =~= s.out + halfwords(items) + seq![0xFE00u16]);
    }
}

/// A written block is decoded to its halfwords, for every quantization scale of
/// six bits. At the start of a macroblock the DC value that ends a frame is left
/// out.
pub proof fn block_reads_back(
    data: Seq<u8>,
    qscale: u16,
    cap: int,
    s: Progress,
    first: bool,
    block: Block,
)
    requires
        block_stands(data, s.at, block),
        qscale < 64,
        s.stop is None,
        s.out.len() + block.items.len() + 2 <= cap,
        first ==> block.dc != 0x1FF,
    ensures
        one_block(data, qscale, cap, s, first) == (Progress {
            at: s.at + block_bits(block),
            out: s.out + block_halfwords(qscale as int, block),
            stop: None,
        }),
        ({
            let head = one_block(data, qscale, cap, s, first).out[s.out.len() as int];
            head / 1024 == qscale && head % 1024 == block.dc
        }),
{
    spelled_bits_are_read(data, s.at, 10, block.dc);
    let head = put(s, cap, s.at + 10, (1024 * qscale + block.dc) as u16);
    coefficients_read_back(data, cap, head, block.items);
    blocks_end_inside_the_input(data, cap, head);
    assert(one_block(data, qscale, cap, s, first).out =~= s.out + block_halfwords(
        qscale as int,
        block,
    ));
}

/// Whether blocks are written from bit `p` on.
pub open spec fn blocks_stand(data: Seq<u8>, p: int, list: Seq<Block>) -> bool
    decreases list.len(),
{
    list.len() > 0 ==> {
        &&& blocks_stand(data, p, list.drop_last())
        &&& block_stands(data, p + list_bits(list.drop_last()), list.last())
    }
}

/// How many bits blocks take.
pub open spec fn list_bits(list: Seq<Block>) -> int
    decreases list.len(),
{
    if list.len() == 0 {
        0
    } else {
        list_bits(list.drop_last()) + block_bits(list.last())
    }
}

/// The halfwords of blocks.
pub open spec fn list_halfwords(scale: int, list: Seq<Block>) -> Seq<u16>
    decreases list.len(),
{
    if list.len() == 0 {
        Seq::empty()
    } else {
        list_halfwords(scale, list.drop_last()) + block_halfwords(scale, list.last())
    }
}

proof fn blocks_read_back(
    data: Seq<u8>,
    qscale: u16,
    cap: int,
    s: Progress,
    list: Seq<Block>,
)
    requires
        blocks_stand(data, s.at, list),
        qscale < 64,
        s.stop is None,
        s.out.len() + list_halfwords(qscale as int, list).len() <= cap,
        list.len() > 0 ==> list[0].dc != 0x1FF,
    ensures
        blocks(data, qscale, cap, s, list.len()) == (Progress {
            at: s.at + list_bits(list),
            out: s.out + list_halfwords(qscale as int, list),
            stop: None,
        }),
    decreases list.len(),
{
    if list.len() > 0 {
        let before = list.drop_last();
        blocks_read_back(data, qscale, cap, s, before);
        let half = blocks(data, qscale, cap, s, before.len());
        block_reads_back(data, qscale, cap, half, list.len() == 1, list.last());
        assert(half.out + block_halfwords(qscale as int, list.last()) =~= s.out + list_halfwords(
            qscale as int,
            list,
        ));
    } else {
        assert(s.out + Seq::<u16>::empty() =~= s.out);
    }
}

/// Macroblocks, each as a list of blocks.
pub open spec fn frame_stands(data: Seq<u8>, p: int, frame: Seq<Seq<Block>>) -> bool
    decreases frame.len(),
{
    frame.len() > 0 ==> {
        &&& frame_stands(data, p, frame.drop_last())
        &&& blocks_stand(data, p + frame_bits(frame.drop_last()), frame.last())
        &&& frame.last().len() == 6
        &&& frame.last()[0].dc != 0x1FF
    }
}

/// How many bits macroblocks take.
pub open spec fn frame_bits(frame: Seq<Seq<Block>>) -> int
    decreases frame.len(),
{
    if frame.len() == 0 {
        0
    } else {
        frame_bits(frame.drop_last()) + list_bits(frame.last())
    }
}

/// The halfwords of macroblocks.
pub open spec fn frame_halfwords(scale: int, frame: Seq<Seq<Block>>) -> Seq<u16>
    decreases frame.len(),
{
    if frame.len() == 0 {
        Seq::empty()
    } else {
        frame_halfwords(scale, frame.drop_last()) + list_halfwords(scale, frame.last())
    }
}

/// A written frame is decoded to the halfwords of its blocks, six to a
/// macroblock, in the order in which they were written.
pub proof fn frame_reads_back(
    data: Seq<u8>,
    qscale: u16,
    cap: int,
    s: Progress,
    frame: Seq<Seq<Block>>,
)
    requires
        frame_stands(data, s.at, frame),
        qscale < 64,
        s.stop is None,
        s.out.len() + frame_halfwords(qscale as int, frame).len() <= cap,
    ensures
        macroblocks(data, qscale, cap, s, frame.len()) == (Progress {
            at: s.at + frame_bits(frame),
            out: s.out + frame_halfwords(qscale as int, frame),
            stop: None,
        }),
    decreases frame.len(),
{
    if frame.len() > 0 {
        let before = frame.drop_last();
        frame_reads_back(data, qscale, cap, s, before);
        let half = macroblocks(data, qscale, cap, s, before.len());
        blocks_read_back(data, qscale, cap, half, frame.last());
        assert(half.out + list_halfwords(qscale as int, frame.last()) =~= s.out + frame_halfwords(
            qscale as int,
            frame,
        ));
    } else {
        assert(s.out + Seq::<u16>::empty() =~= s.out);
    }
}

/// A frame that is cut short by its end mark stops there, with what came before.
pub proof fn end_mark_ends_the_frame(
    data: Seq<u8>,
    qscale: u16,
    cap: int,
    s: Progress,
    frame: Seq<Seq<Block>>,
    more: nat,
)
    requires
        frame_stands(data, s.at, frame),
        qscale < 64,
        s.stop is None,
        s.out.len() + frame_halfwords(qscale as int, frame).len() <= cap,
        spells(data, s.at + frame_bits(frame), 10, 0x1FF),
    ensures
        ({
            let end = macroblocks(data, qscale, cap, s, frame.len() + 1 + more);
            &&& end.stop == Some(Stop::EndOfFrame)
            &&& end.out == s.out + frame_halfwords(qscale as int, frame)
        }),
    decreases more,
{
    if more == 0 {
        frame_reads_back(data, qscale, cap, s, frame);
        let half = macroblocks(data, qscale, cap, s, frame.len());
        spelled_bits_are_read(data, half.at, 10, 0x1FF);
        let b = one_block(data, qscale, cap, half, true);
        assert(b.stop == Some(Stop::EndOfFrame));
        reveal_with_fuel(blocks, 7);
        assert(blocks(data, qscale, cap, half, 6) == b);
    } else {
        end_mark_ends_the_frame(data, qscale, cap, s, frame, (more - 1) as nat);
    }
}

/// A written header is read back: the announced size, the command half, the scale
/// and the version, in this order.
pub proof fn frame_header_reads_back(
    frame: Seq<u8>,
    announced: u16,
    command: u16,
    qscale: u16,
    version: u16,
)
    requires
        lies(
            frame,
            0,
            bytes16(announced as int) + bytes16(command as int) + bytes16(qscale as int) + bytes16(
                version as int,
            ),
        ),
    ensures
        header_of(frame) == (Header { mdec_words: announced, qscale, version }),
{
    let a = bytes16(announced as int);
    let b = a + bytes16(command as int);
    let c = b + bytes16(qscale as int);
    parts_lie(frame, 0, c, bytes16(version as int));
    parts_lie(frame, 0, b, bytes16(qscale as int));
    parts_lie(frame, 0, a, bytes16(command as int));
    word_reads_back(frame, 0, announced as int);
    word_reads_back(frame, 4, qscale as int);
    word_reads_back(frame, 6, version as int);
}

/// A finished frame keeps what was decoded and goes on with end marks to whole
/// transfer blocks of 64 halfwords: as few as hold both what was decoded and what
/// the header announced. Without room for them it fails and changes nothing.
pub proof fn finished_frames_fill_blocks(
    before: Seq<u16>,
    after: Seq<u16>,
    produced: int,
    announced: u16,
    result: Result<usize, BsError>,
    i: int,
)
    requires
        0 <= produced <= before.len() < 0x1_0000_0000,
        finished(before, after, produced, announced, result),
        0 <= i < before.len(),
    ensures
        after.len() == before.len(),
        result is Err ==> after == before && (before.len() < produced + 64 || before.len()
            < 2 * announced + 64),
        result matches Ok(words) ==> {
            &&& 2 * words <= before.len()
            &&& words as int % 32 == 0
            &&& produced <= 2 * words
            &&& announced <= words
            &&& 2 * words < produced + 64 || 2 * words < 2 * announced + 64
            &&& i < produced ==> after[i] == before[i]
            &&& produced <= i < 2 * words ==> after[i] == 0xFE00
            &&& 2 * words <= i ==> after[i] == before[i]
        },
{
}

} // verus!
