//! Bitstream frames.

use psx_sdk::fmv::bs::{decode_frame, BsError, FrameDecoder, Header, Step, END_OF_BLOCK};
use psx_sdk::fmv::codes::{build_long, build_short, AC_CODES};

/// MSB-first bit writer producing little-endian 16-bit words, the
/// layout the encoder emits.
struct Writer {
    words: [u16; 64],
    n: usize,
    acc: u32,
    used: u32,
}

impl Writer {
    fn new() -> Self {
        Writer {
            words: [0; 64],
            n: 0,
            acc: 0,
            used: 0,
        }
    }
    fn put(&mut self, len: u32, value: u32) {
        for i in (0..len).rev() {
            self.acc = (self.acc << 1) | ((value >> i) & 1);
            self.used += 1;
            if self.used == 16 {
                self.words[self.n] = self.acc as u16;
                self.n += 1;
                self.acc = 0;
                self.used = 0;
            }
        }
    }
    fn frame(mut self, qscale: u16) -> ([u8; 136], usize) {
        if self.used > 0 {
            let pad = 16 - self.used;
            self.put(pad, 0);
        }
        let mut out = [0u8; 136];
        out[0..2].copy_from_slice(&0x0020u16.to_le_bytes());
        out[2..4].copy_from_slice(&0x3800u16.to_le_bytes());
        out[4..6].copy_from_slice(&qscale.to_le_bytes());
        out[6..8].copy_from_slice(&2u16.to_le_bytes());
        for i in 0..self.n {
            out[8 + 2 * i..10 + 2 * i].copy_from_slice(&self.words[i].to_le_bytes());
        }
        (out, 8 + 2 * self.n)
    }
}

fn decode(frame: &[u8], mbs: u32) -> ([u16; 256], usize) {
    let mut out = [0u16; 256];
    let words = decode_frame(frame, &mut out, mbs).unwrap();
    (out, words)
}

#[test]
fn every_table_code_round_trips() {
    // One macroblock: block 0 carries every code once (positive, then
    // negative for odd entries), blocks 1..5 are DC + EOB.
    let mut w = Writer::new();
    w.put(10, 0x123);
    for (i, &(len, code, _, _)) in AC_CODES.iter().enumerate().take(20) {
        w.put(len as u32, code as u32);
        w.put(1, (i & 1) as u32);
    }
    w.put(2, 0b10);
    for _ in 1..6 {
        w.put(10, 0x3FE); // DC -2
        w.put(2, 0b10);
    }
    w.put(10, 0x1FF);
    let (frame, len) = w.frame(5);
    let (out, words) = decode(&frame[..len], 16);
    assert_eq!(out[0], (5 << 10) | 0x123);
    for (i, &(_, _, run, level)) in AC_CODES.iter().enumerate().take(20) {
        let lv = if i & 1 == 1 {
            (-(level as i32)) as u32 & 0x3FF
        } else {
            level as u32
        };
        assert_eq!(out[1 + i] as u32, ((run as u32) << 10) | lv, "code {i}");
    }
    assert_eq!(out[21], END_OF_BLOCK);
    assert_eq!(out[22], (5 << 10) | 0x3FE);
    assert_eq!(words, 32);
    assert!(out[33..64].iter().all(|&h| h == END_OF_BLOCK));
}

#[test]
fn long_codes_and_escape_decode() {
    let mut w = Writer::new();
    w.put(10, 0);
    // Every code of 10+ bits, alternating sign.
    let long: [usize; 4] = [23, 31, 63, 110];
    for (k, &i) in long.iter().enumerate() {
        let (len, code, _, _) = AC_CODES[i];
        w.put(len as u32, code as u32);
        w.put(1, (k & 1) as u32);
    }
    w.put(6, 0b000001);
    w.put(16, (40 << 10) | 0x155);
    w.put(2, 0b10);
    for _ in 1..6 {
        w.put(10, 0);
        w.put(2, 0b10);
    }
    let (frame, len) = w.frame(1);
    let (out, _) = decode(&frame[..len], 1);
    for (k, &i) in long.iter().enumerate() {
        let (_, _, run, level) = AC_CODES[i];
        let lv = if k & 1 == 1 {
            (-(level as i32)) as u32 & 0x3FF
        } else {
            level as u32
        };
        assert_eq!(out[1 + k] as u32, ((run as u32) << 10) | lv, "entry {i}");
    }
    assert_eq!(out[5], (40 << 10) | 0x155);
    assert_eq!(out[6], END_OF_BLOCK);
}

#[test]
fn table_is_prefix_free_and_complete() {
    // Every AC code must land in exactly the slots it owns.
    let short = build_short();
    let long = build_long();
    let mut seen = 0;
    for &(len, code, run, level) in AC_CODES.iter() {
        let hw = ((run as u32) << 10) | level as u32;
        let e = if len <= 8 {
            short[((code as usize) << (8 - len)) as usize]
        } else {
            let significant = 16 - code.leading_zeros();
            let lz = len as u32 - significant;
            let suffix_bits = significant - 1;
            let suffix = code as u32 & ((1 << suffix_bits) - 1);
            long[((lz - 6) * 16 + (suffix << (4 - suffix_bits))) as usize]
        };
        assert_eq!(e & 0xFFFF, hw, "code len {len} value {code:#x}");
        assert_eq!((e >> 16) & 0x1F, len as u32);
        seen += 1;
    }
    assert_eq!(seen, 111);
}

#[test]
fn rejects_v3_and_short_input() {
    assert_eq!(Header::parse(&[0; 4]), Err(BsError::Truncated));
    let mut f = [0u8; 16];
    f[6] = 3;
    let mut out = [0u16; 64];
    assert_eq!(
        decode_frame(&f, &mut out, 1),
        Err(BsError::Version(3))
    );
}

#[test]
fn decoding_in_parts_gives_the_same_frame() {
    let mut w = Writer::new();
    for mb in 0..3u32 {
        for block in 0..6u32 {
            w.put(10, 0x100 + mb * 8 + block);
            w.put(2, 0b11);
            w.put(1, block & 1);
            w.put(2, 0b10);
        }
    }
    w.put(10, 0x1FF);
    let (frame, len) = w.frame(7);
    let (whole, words) = decode(&frame[..len], 16);
    let mut parts = [0u16; 256];
    let mut decoder = FrameDecoder::new(&frame[..len], 16, 2).unwrap();
    let mut pumps = 0;
    let done = loop {
        match decoder.run(&mut parts).unwrap() {
            Step::Pump => pumps += 1,
            Step::Done(n) => break n,
        }
    };
    assert_eq!(pumps, 1);
    assert_eq!(done, words);
    assert_eq!(parts, whole);
}

#[test]
fn every_failure_has_its_error() {
    // All zeroes: the DC of a first block, then no code.
    let mut f = [0u8; 40];
    f[6] = 2;
    let mut out = [0u16; 64];
    assert_eq!(decode_frame(&f, &mut out, 1), Err(BsError::BadCode));
    let mut none = [0u16; 0];
    assert_eq!(decode_frame(&f, &mut none, 1), Err(BsError::OutputFull));
    // No macroblocks asked for: padding alone, and room for it.
    let mut small = [0u16; 64];
    f[0] = 32;
    assert_eq!(decode_frame(&f, &mut small, 0), Ok(32));
    assert_eq!(small, [END_OF_BLOCK; 64]);
    f[0] = 33;
    assert_eq!(decode_frame(&f, &mut small, 0), Err(BsError::OutputFull));
    assert_eq!(decode_frame(&f[..7], &mut small, 0), Err(BsError::Truncated));
}
