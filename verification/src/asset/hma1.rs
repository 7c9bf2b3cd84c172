//! Per-bone quaternion animation tracks.
//!
//! A blob starts with the number of bones and of clips, then one parent byte
//! per bone (255 for a root), padding to two, three 16-bit bind coordinates per
//! bone, padding to four, and one 32-bit offset per clip. A clip starts with
//! its number of frame intervals, two bytes, seven segment counts and seven Q15
//! factors (one per key rate), then one mode byte per bone, padding to two, and
//! the tracks, packed byte by byte.
//!
//! Bits 0 to 2 of a mode are the rate of the rotation keys (7: a single key),
//! bits 3 to 5 that of the translation keys (7: the bind coordinates, 6: a
//! single key), bit 6 tells keys of four 12-bit codes from range-reduced ones.
//!
//! Bytes past the end of the blob read as zero.

use vstd::prelude::*;

use crate::asset::quat::{
    compose, composed, matrix_of, no_jaw, quat_mul, quat_product, quat_to_mat, Aff, Jaw,
};
use crate::bytes::{signed16, to_signed16};
use crate::fixed::{floor_div32, wrap32, wrapped32};

verus! {

/// Key rates.
pub const N_RATES: usize = 7;

/// The byte at `o`.
pub open spec fn byte(d: Seq<u8>, o: int) -> int {
    if 0 <= o < d.len() {
        d[o] as int
    } else {
        0
    }
}

/// The 16-bit number at `o`.
pub open spec fn word16(d: Seq<u8>, o: int) -> int {
    byte(d, o) + 256 * byte(d, o + 1)
}

/// The signed 16-bit number at `o`.
pub open spec fn short(d: Seq<u8>, o: int) -> int {
    signed16(word16(d, o)) as int
}

/// The 32-bit number at `o`.
pub open spec fn word32(d: Seq<u8>, o: int) -> int {
    word16(d, o) + 0x1_0000 * word16(d, o + 2)
}

/// The signed byte at `o`.
pub open spec fn signed_byte(d: Seq<u8>, o: int) -> int {
    if byte(d, o) < 128 {
        byte(d, o)
    } else {
        byte(d, o) - 256
    }
}

/// Two to the `n`.
pub open spec fn power(n: int) -> int
    decreases n,
{
    if n <= 0 {
        1
    } else {
        2 * power(n - 1)
    }
}

/// Field `k` of a word cut into fields of `w` bits.
pub open spec fn field(word: int, w: int, k: int) -> int {
    (word / power(k * w)) % power(w)
}

/// Number of bones.
pub open spec fn bone_count(d: Seq<u8>) -> int {
    word16(d, 0)
}

/// Number of clips.
pub open spec fn clip_count(d: Seq<u8>) -> int {
    word16(d, 2)
}

/// Offset of the bind coordinates.
pub open spec fn bind_offset(bones: int) -> int {
    (4 + bones + 1) / 2 * 2
}

/// Offset of the clip offsets.
pub open spec fn clips_offset(bones: int) -> int {
    (bind_offset(bones) + 6 * bones + 3) / 4 * 4
}

/// Offset of a clip.
pub open spec fn clip_offset(d: Seq<u8>, clip: int) -> int {
    word32(d, clips_offset(bone_count(d)) + 4 * clip)
}

/// A key and the Q8 way to the next one.
pub struct Segment {
    pub key: int,
    pub way: int,
    /// Keys of the track.
    pub keys: int,
}

/// The segment of a rate at a position, held to the last segment.
pub open spec fn segment(d: Seq<u8>, off: int, rate: int, pos: int) -> Segment {
    let count = word16(d, off + 4 + 2 * rate);
    let factor = word16(d, off + 18 + 2 * rate);
    let at = pos * factor / 32768;
    if at / 256 >= count {
        Segment {
            key: if count == 0 {
                0
            } else {
                count - 1
            },
            way: 256,
            keys: count + 1,
        }
    } else {
        Segment { key: at / 256, way: at % 256, keys: count + 1 }
    }
}

/// The Q8 way from `a` to `b`.
pub open spec fn between(a: int, b: int, way: int) -> i32 {
    wrapped32(a + wrapped32((b - a) * way) as int / 256)
}

/// Component `k` of an 8-bit rotation key.
pub open spec fn coarse(d: Seq<u8>, o: int, k: int) -> int {
    32 * signed_byte(d, o + k)
}

/// Component `k` of a rotation key of 12-bit codes.
pub open spec fn fine(d: Seq<u8>, o: int, k: int) -> int {
    let at = o + 3 * (k / 2);
    let code = if k % 2 == 0 {
        byte(d, at) + 256 * (byte(d, at + 1) % 16)
    } else {
        byte(d, at + 1) / 16 + 16 * byte(d, at + 2)
    };
    if code < 2048 {
        2 * code
    } else {
        2 * (code - 4096)
    }
}

/// Component `k` of a range-reduced rotation key: the base of the track at
/// `p` plus a field of the key's word.
pub open spec fn reduced(d: Seq<u8>, p: int, key: int, k: int) -> i32 {
    let size = byte(d, p + 4);
    wrapped32(
        32 * (signed_byte(d, p + k) + field(word32(d, p + 6 + key * size), 2 * size, k)),
    )
}

/// Component `k` of the rotation of a track at `p`.
pub open spec fn rotation_component(
    d: Seq<u8>,
    off: int,
    pos: int,
    p: int,
    mode: int,
    k: int,
) -> i32 {
    let rate = mode % 8;
    let hi = (mode / 64) % 2 == 1;
    let s = segment(d, off, rate, pos);
    if rate == 7 {
        if hi {
            fine(d, p, k) as i32
        } else {
            coarse(d, p, k) as i32
        }
    } else if hi {
        between(fine(d, p + 6 * s.key, k), fine(d, p + 6 * s.key + 6, k), s.way)
    } else {
        between(reduced(d, p, s.key, k) as int, reduced(d, p, s.key + 1, k) as int, s.way)
    }
}

/// The rotation of a track at `p`.
pub open spec fn rotation(d: Seq<u8>, off: int, pos: int, p: int, mode: int) -> [i32; 4] {
    [
        rotation_component(d, off, pos, p, mode, 0),
        rotation_component(d, off, pos, p, mode, 1),
        rotation_component(d, off, pos, p, mode, 2),
        rotation_component(d, off, pos, p, mode, 3),
    ]
}

/// Bytes that the rotation of a track takes.
pub open spec fn rotation_size(d: Seq<u8>, off: int, pos: int, p: int, mode: int) -> int {
    let rate = mode % 8;
    let hi = (mode / 64) % 2 == 1;
    let s = segment(d, off, rate, pos);
    if rate == 7 {
        if hi {
            6
        } else {
            4
        }
    } else if hi {
        6 * s.keys
    } else {
        6 + s.keys * byte(d, p + 4)
    }
}

/// Bits per coordinate in a translation key of `size` bytes.
pub open spec fn coordinate_bits(size: int) -> int {
    if size == 2 {
        5
    } else if size == 3 {
        8
    } else {
        10
    }
}

/// Coordinate `k` of translation key `key` in the track at `p`, less the base.
pub open spec fn translation_key(d: Seq<u8>, p: int, key: int, k: int) -> int {
    let size = byte(d, p + 6);
    if size == 6 {
        word16(d, p + 8 + 6 * key + 2 * k)
    } else {
        field(word32(d, p + 8 + key * size), coordinate_bits(size), k)
    }
}

/// Coordinate `k` of the translation of a track at `p`.
pub open spec fn translation_component(
    d: Seq<u8>,
    off: int,
    pos: int,
    p: int,
    mode: int,
    bone: int,
    k: int,
) -> int {
    let rate = (mode / 8) % 8;
    let s = segment(d, off, rate, pos);
    if rate == 7 {
        short(d, bind_offset(bone_count(d)) + 6 * bone + 2 * k)
    } else if rate == 6 {
        short(d, p + 2 * k)
    } else {
        let a = translation_key(d, p, s.key, k);
        let c = translation_key(d, p, s.key + 1, k);
        short(d, p + 2 * k) + a + (c - a) * s.way / 256
    }
}

/// The translation of a track at `p`.
pub open spec fn translation(
    d: Seq<u8>,
    off: int,
    pos: int,
    p: int,
    mode: int,
    bone: int,
) -> [i32; 3] {
    [
        translation_component(d, off, pos, p, mode, bone, 0) as i32,
        translation_component(d, off, pos, p, mode, bone, 1) as i32,
        translation_component(d, off, pos, p, mode, bone, 2) as i32,
    ]
}

/// Bytes that the translation of a track takes.
pub open spec fn translation_size(d: Seq<u8>, off: int, pos: int, p: int, mode: int) -> int {
    let rate = (mode / 8) % 8;
    if rate == 7 {
        0
    } else if rate == 6 {
        6
    } else {
        8 + segment(d, off, rate, pos).keys * byte(d, p + 6)
    }
}

/// The mode byte of a bone.
pub open spec fn mode_of(d: Seq<u8>, off: int, bone: int) -> int {
    byte(d, off + 32 + bone)
}

/// Where the track of a bone starts.
pub open spec fn track_start(d: Seq<u8>, off: int, pos: int, bone: int) -> int
    decreases bone,
{
    if bone <= 0 {
        (off + 32 + bone_count(d) + 1) / 2 * 2
    } else {
        let p = track_start(d, off, pos, bone - 1);
        let mode = mode_of(d, off, bone - 1);
        let t = p + rotation_size(d, off, pos, p, mode);
        t + translation_size(d, off, pos, t, mode)
    }
}

/// The rotation of a bone in the frame of its parent.
pub open spec fn local_rotation(d: Seq<u8>, off: int, pos: int, jaw: Jaw, bone: int) -> [i32; 4] {
    let q = rotation(d, off, pos, track_start(d, off, pos, bone), mode_of(d, off, bone));
    if bone != jaw.bone {
        q
    } else if jaw.post {
        quat_product(q, jaw.q)
    } else {
        quat_product(jaw.q, q)
    }
}

/// The translation of a bone in the frame of its parent.
pub open spec fn local_translation(d: Seq<u8>, off: int, pos: int, bone: int) -> [i32; 3] {
    let p = track_start(d, off, pos, bone);
    let mode = mode_of(d, off, bone);
    translation(d, off, pos, p + rotation_size(d, off, pos, p, mode), mode, bone)
}

/// The parent byte of a bone.
pub open spec fn parent_of(d: Seq<u8>, bone: int) -> int {
    byte(d, 4 + bone)
}

/// The transform of a bone, from those of the bones before it.
#[verifier::opaque]
pub open spec fn bone_transform(
    d: Seq<u8>,
    off: int,
    pos: int,
    jaw: Jaw,
    bone: int,
    out: Seq<Aff>,
) -> Aff {
    let r = matrix_of(local_rotation(d, off, pos, jaw, bone));
    let t = local_translation(d, off, pos, bone);
    if parent_of(d, bone) == 255 {
        Aff { r, _pad: 0, t }
    } else {
        composed(out[parent_of(d, bone)], r, t)
    }
}

/// What `out` holds once the first `bones` bones are decoded into it.
pub open spec fn decoded(
    d: Seq<u8>,
    off: int,
    pos: int,
    jaw: Jaw,
    out: Seq<Aff>,
    bones: int,
) -> Seq<Aff>
    decreases bones,
{
    if bones <= 0 {
        out
    } else {
        let before = decoded(d, off, pos, jaw, out, bones - 1);
        before.update(bones - 1, bone_transform(d, off, pos, jaw, bones - 1, before))
    }
}

/// Whether every parent has a place in `len` transforms.
pub open spec fn parents_fit(d: Seq<u8>, len: int) -> bool {
    forall|b: int|
        0 <= b < bone_count(d) ==> #[trigger] parent_of(d, b) == 255 || parent_of(d, b) < len
}

/// Whether every parent comes before its children.
pub open spec fn parents_first(d: Seq<u8>) -> bool {
    forall|b: int|
        0 <= b < bone_count(d) ==> #[trigger] parent_of(d, b) == 255 || parent_of(d, b) < b
}

fn byte_at(d: &[u8], o: u64) -> (b: u8)
    ensures
        b == byte(d@, o as int),
{
    let len: usize = d.len();
    if o < len as u64 {
        d[o as usize]
    } else {
        0
    }
}

fn u16_at(d: &[u8], o: u64) -> (x: u16)
    requires
        o < 0x8000_0000_0000_0000,
    ensures
        x == word16(d@, o as int),
{
    byte_at(d, o) as u16 + 256 * (byte_at(d, o + 1) as u16)
}

fn i16_at(d: &[u8], o: u64) -> (x: i32)
    requires
        o < 0x8000_0000_0000_0000,
    ensures
        x == short(d@, o as int),
        -0x8000 <= x < 0x8000,
{
    to_signed16(u16_at(d, o)) as i32
}

fn u32_at(d: &[u8], o: u64) -> (x: u32)
    requires
        o < 0x4000_0000_0000_0000,
    ensures
        x == word32(d@, o as int),
{
    u16_at(d, o) as u32 + 0x1_0000 * (u16_at(d, o + 2) as u32)
}

fn i8_at(d: &[u8], o: u64) -> (x: i32)
    ensures
        x == signed_byte(d@, o as int),
        -128 <= x < 128,
{
    let b: i32 = byte_at(d, o) as i32;
    if b < 128 {
        b
    } else {
        b - 256
    }
}

fn coarse_at(d: &[u8], o: u64, k: u64) -> (x: i32)
    requires
        o < 0x4000_0000_0000_0000,
        k < 4,
    ensures
        x == coarse(d@, o as int, k as int),
{
    32 * i8_at(d, o + k)
}

fn fine_at(d: &[u8], o: u64, k: u64) -> (x: i32)
    requires
        o < 0x4000_0000_0000_0000,
        k < 4,
    ensures
        x == fine(d@, o as int, k as int),
        -4096 <= x <= 4096,
{
    let at: u64 = o + 3 * (k / 2);
    let code: i32 = if k % 2 == 0 {
        byte_at(d, at) as i32 + 256 * ((byte_at(d, at + 1) % 16) as i32)
    } else {
        (byte_at(d, at + 1) / 16) as i32 + 16 * (byte_at(d, at + 2) as i32)
    };
    if code < 2048 {
        2 * code
    } else {
        2 * (code - 4096)
    }
}

/// A power of two that exceeds every 32-bit number divides none of them.
proof fn power_grows(n: int)
    ensures
        n >= 0 ==> power(n) >= 1,
        n >= 32 ==> power(n) >= 0x1_0000_0000,
    decreases n,
{
    if n > 32 {
        power_grows(n - 1);
    } else if n == 32 {
        reveal_with_fuel(power, 33);
    } else if n > 0 {
        power_grows(n - 1);
    }
}

fn power_of(n: u64) -> (p: u64)
    requires
        n < 32,
    ensures
        p == power(n as int),
        1 <= p <= 0x8000_0000,
{
    let mut p: u64 = 1;
    let mut i: u64 = 0;
    assert(power(31) == 0x8000_0000) by {
        reveal_with_fuel(power, 32);
    }
    while i < n
        invariant
            i <= n < 32,
            p == power(i as int),
            1 <= p,
            p <= 0x8000_0000,
            p * power(31 - i) == 0x8000_0000,
            i == 0 ==> p == 1,
        decreases n - i,
    {
        proof {
            power_grows(30 - i);
            assert(power(31 - i) == 2 * power(30 - i));
            let rest = power(30 - i);
            assert(p * (2 * rest) == (2 * p) * rest) by (nonlinear_arith);
            assert(2 * p <= 0x8000_0000) by (nonlinear_arith)
                requires
                    (2 * p) * rest == 0x8000_0000,
                    rest >= 1,
            ;
        }
        p = 2 * p;
        i += 1;
    }
    p
}

fn field_of(word: u32, w: u64, k: u64) -> (x: u32)
    requires
        w <= 510,
        k < 4,
    ensures
        x == field(word as int, w as int, k as int),
{
    let shift: u64 = if k == 0 {
        0
    } else if k == 1 {
        w
    } else if k == 2 {
        2 * w
    } else {
        3 * w
    };
    proof {
        assert(k * w == shift) by (nonlinear_arith)
            requires
                k == 0 && shift == 0 || k == 1 && shift == w || k == 2 && shift == 2 * w || k == 3
                    && shift == 3 * w,
        ;
        power_grows(shift as int);
        power_grows(w as int);
    }
    let high: u64 = if shift >= 32 {
        proof {
            vstd::arithmetic::div_mod::lemma_basic_div(word as int, power(shift as int));
        }
        0
    } else {
        proof {
            vstd::arithmetic::div_mod::lemma_div_is_ordered_by_denominator(
                word as int,
                1,
                power(shift as int),
            );
        }
        word as u64 / power_of(shift)
    };
    if w >= 32 {
        proof {
            vstd::arithmetic::div_mod::lemma_small_mod(high as nat, power(w as int) as nat);
        }
        high as u32
    } else {
        (high % power_of(w)) as u32
    }
}

/// The segment of one rate.
#[derive(Clone, Copy)]
struct Span {
    key: u64,
    way: i32,
    keys: u64,
}

impl Span {
    spec fn is(self, s: Segment) -> bool {
        &&& self.key == s.key
        &&& self.way == s.way
        &&& self.keys == s.keys
        &&& self.key < 0x1_0000
        &&& self.keys <= 0x1_0000
        &&& 0 <= self.way <= 256
    }
}

fn span_at(d: &[u8], off: u64, rate: u64, pos_q8: u32) -> (span: Span)
    requires
        off < 0x1_0000_0000,
        rate < 8,
    ensures
        span.is(segment(d@, off as int, rate as int, pos_q8 as int)),
{
    let count: u64 = u16_at(d, off + 4 + 2 * rate) as u64;
    let factor: u64 = u16_at(d, off + 18 + 2 * rate) as u64;
    assert(pos_q8 * factor <= 0xFFFF_FFFF * 0xFFFF) by (nonlinear_arith)
        requires
            pos_q8 <= 0xFFFF_FFFF,
            factor <= 0xFFFF,
    ;
    let at: u64 = (pos_q8 as u64 * factor) / 32768;
    let mut key: u64 = at / 256;
    let mut way: i32 = (at % 256) as i32;
    if key >= count {
        key = if count == 0 {
            0
        } else {
            count - 1
        };
        way = 256;
    }
    Span { key, way, keys: count + 1 }
}

fn blend(a: i32, b: i32, way: i32) -> (r: i32)
    requires
        0 <= way <= 256,
    ensures
        r == between(a as int, b as int, way as int),
{
    assert(-0x200_0000_0000 <= (b - a) * way <= 0x200_0000_0000) by (nonlinear_arith)
        requires
            -0x1_0000_0000 <= b - a <= 0x1_0000_0000,
            0 <= way <= 256,
    ;
    let distance: i64 = (b as i64 - a as i64) * way as i64;
    wrap32(a as i64 + floor_div32(wrap32(distance), 256) as i64)
}

/// Products of a key index and a key size stay small.
proof fn key_offset_is_small(key: int, size: int)
    requires
        0 <= key <= 0x1_0000,
        0 <= size <= 255,
    ensures
        0 <= key * size <= 0xFF_0000,
        (key + 1) * size == key * size + size,
{
    assert(0 <= key * size <= 0xFF_0000) by (nonlinear_arith)
        requires
            0 <= key <= 0x1_0000,
            0 <= size <= 255,
    ;
    assert((key + 1) * size == key * size + size) by (nonlinear_arith);
}

fn reduced_at(d: &[u8], p: u64, key: u64, k: u64) -> (x: i32)
    requires
        p < 0x1000_0000_0000_0000,
        key <= 0x1_0000,
        k < 4,
    ensures
        x == reduced(d@, p as int, key as int, k as int),
{
    let size: u64 = byte_at(d, p + 4) as u64;
    proof {
        key_offset_is_small(key as int, size as int);
    }
    let word: u32 = u32_at(d, p + 6 + key * size);
    let part: i64 = field_of(word, 2 * size, k) as i64;
    wrap32(32 * (i8_at(d, p + k) as i64 + part))
}

fn rotation_part(d: &[u8], p: u64, mode: u8, span: &Span, k: u64, off: Ghost<int>, pos: Ghost<
    int,
>) -> (x: i32)
    requires
        p < 0x1000_0000_0000_0000,
        k < 4,
        span.is(segment(d@, off@, mode as int % 8, pos@)),
    ensures
        x == rotation_component(d@, off@, pos@, p as int, mode as int, k as int),
{
    let hi: bool = (mode / 64) % 2 == 1;
    if mode % 8 == 7 {
        if hi {
            fine_at(d, p, k)
        } else {
            coarse_at(d, p, k)
        }
    } else if hi {
        blend(fine_at(d, p + 6 * span.key, k), fine_at(d, p + 6 * span.key + 6, k), span.way)
    } else {
        blend(reduced_at(d, p, span.key, k), reduced_at(d, p, span.key + 1, k), span.way)
    }
}

fn read_rotation(d: &[u8], off: u64, pos_q8: u32, p: u64, mode: u8) -> (r: ([i32; 4], u64))
    requires
        off < 0x1_0000_0000,
        p < 0x1000_0000_0000_0000,
    ensures
        r.0 == rotation(d@, off as int, pos_q8 as int, p as int, mode as int),
        r.1 == rotation_size(d@, off as int, pos_q8 as int, p as int, mode as int),
        r.1 <= 0x200_0000,
{
    let rate: u8 = mode % 8;
    let hi: bool = (mode / 64) % 2 == 1;
    let span: Span = span_at(d, off, rate as u64, pos_q8);
    let ghost o = off as int;
    let ghost at = pos_q8 as int;
    let q: [i32; 4] = [
        rotation_part(d, p, mode, &span, 0, Ghost(o), Ghost(at)),
        rotation_part(d, p, mode, &span, 1, Ghost(o), Ghost(at)),
        rotation_part(d, p, mode, &span, 2, Ghost(o), Ghost(at)),
        rotation_part(d, p, mode, &span, 3, Ghost(o), Ghost(at)),
    ];
    assert(q =~= rotation(d@, o, at, p as int, mode as int));
    let size: u64 = if rate == 7 {
        if hi {
            6
        } else {
            4
        }
    } else if hi {
        6 * span.keys
    } else {
        let key_size: u64 = byte_at(d, p + 4) as u64;
        proof {
            key_offset_is_small(span.keys as int, key_size as int);
        }
        6 + span.keys * key_size
    };
    (q, size)
}

fn translation_key_at(d: &[u8], p: u64, key: u64, k: u64) -> (x: i64)
    requires
        p < 0x1000_0000_0000_0000,
        key <= 0x1_0000,
        k < 3,
    ensures
        x == translation_key(d@, p as int, key as int, k as int),
        0 <= x <= 0xFFFF,
{
    let size: u64 = byte_at(d, p + 6) as u64;
    if size == 6 {
        return u16_at(d, p + 8 + 6 * key + 2 * k) as i64;
    }
    proof {
        key_offset_is_small(key as int, size as int);
    }
    let word: u32 = u32_at(d, p + 8 + key * size);
    let bits: u64 = if size == 2 {
        5
    } else if size == 3 {
        8
    } else {
        10
    };
    let x: u32 = field_of(word, bits, k);
    proof {
        reveal_with_fuel(power, 11);
        power_grows((k * bits) as int);
    }
    x as i64
}

fn translation_part(
    d: &[u8],
    off: u64,
    pos_q8: u32,
    p: u64,
    mode: u8,
    bone: u64,
    bind_off: u64,
    k: u64,
) -> (x: i32)
    requires
        off < 0x1_0000_0000,
        p < 0x1000_0000_0000_0000,
        bone < 0x1_0000,
        k < 3,
        bind_off == bind_offset(bone_count(d@)),
        bind_off < 0x2_0000,
    ensures
        x == translation_component(
            d@,
            off as int,
            pos_q8 as int,
            p as int,
            mode as int,
            bone as int,
            k as int,
        ),
{
    let rate: u8 = (mode / 8) % 8;
    if rate == 7 {
        return i16_at(d, bind_off + 6 * bone + 2 * k);
    }
    let base: i32 = i16_at(d, p + 2 * k);
    if rate == 6 {
        return base;
    }
    let span: Span = span_at(d, off, rate as u64, pos_q8);
    let a: i64 = translation_key_at(d, p, span.key, k);
    let c: i64 = translation_key_at(d, p, span.key + 1, k);
    assert(-0x100_0000 <= (c - a) * span.way <= 0x100_0000) by (nonlinear_arith)
        requires
            -0xFFFF <= c - a <= 0xFFFF,
            0 <= span.way <= 256,
    ;
    base + a as i32 + floor_div32((c as i32 - a as i32) * span.way, 256)
}

fn read_translation(
    d: &[u8],
    off: u64,
    pos_q8: u32,
    p: u64,
    mode: u8,
    bone: u64,
    bind_off: u64,
) -> (r: ([i32; 3], u64))
    requires
        off < 0x1_0000_0000,
        p < 0x1000_0000_0000_0000,
        bone < 0x1_0000,
        bind_off == bind_offset(bone_count(d@)),
        bind_off < 0x2_0000,
    ensures
        r.0 == translation(d@, off as int, pos_q8 as int, p as int, mode as int, bone as int),
        r.1 == translation_size(d@, off as int, pos_q8 as int, p as int, mode as int),
        r.1 <= 0x200_0000,
{
    let t: [i32; 3] = [
        translation_part(d, off, pos_q8, p, mode, bone, bind_off, 0),
        translation_part(d, off, pos_q8, p, mode, bone, bind_off, 1),
        translation_part(d, off, pos_q8, p, mode, bone, bind_off, 2),
    ];
    assert(t =~= translation(
        d@,
        off as int,
        pos_q8 as int,
        p as int,
        mode as int,
        bone as int,
    ));
    let rate: u8 = (mode / 8) % 8;
    let size: u64 = if rate == 7 {
        0
    } else if rate == 6 {
        6
    } else {
        let span: Span = span_at(d, off, rate as u64, pos_q8);
        let key_size: u64 = byte_at(d, p + 6) as u64;
        proof {
            key_offset_is_small(span.keys as int, key_size as int);
        }
        8 + span.keys * key_size
    };
    (t, size)
}

/// Read the local rotation and translation of a bone, and where the next
/// track starts.
fn read_bone(
    d: &[u8],
    off: u64,
    pos_q8: u32,
    p: u64,
    bone: u64,
    bind_off: u64,
    jaw: &Jaw,
) -> (r: ([i32; 4], [i32; 3], u64))
    requires
        off < 0x1_0000_0000,
        p < 0x800_0000_0000_0000,
        bone < 0x1_0000,
        bind_off == bind_offset(bone_count(d@)),
        p == track_start(d@, off as int, pos_q8 as int, bone as int),
    ensures
        r.0 == local_rotation(d@, off as int, pos_q8 as int, *jaw, bone as int),
        r.1 == local_translation(d@, off as int, pos_q8 as int, bone as int),
        r.2 == track_start(d@, off as int, pos_q8 as int, bone + 1),
        p <= r.2 <= p + 0x400_0000,
{
    let mode: u8 = byte_at(d, off + 32 + bone);
    let (q, rotation_len) = read_rotation(d, off, pos_q8, p, mode);
    let (t, translation_len) = read_translation(
        d,
        off,
        pos_q8,
        p + rotation_len,
        mode,
        bone,
        bind_off,
    );
    let turned: [i32; 4] = if bone == jaw.bone as u64 {
        if jaw.post {
            quat_mul(q, jaw.q)
        } else {
            quat_mul(jaw.q, q)
        }
    } else {
        q
    };
    (turned, t, p + rotation_len + translation_len)
}

/// The tracks of a skeleton.
#[derive(Clone, Copy, Debug)]
pub struct Model<'a> {
    d: &'a [u8],
    n_bones: usize,
    bind_off: usize,
    clips_off: usize,
}

impl<'a> Model<'a> {
    /// The blob.
    pub closed spec fn data(&self) -> Seq<u8> {
        self.d@
    }

    #[verifier::type_invariant]
    closed spec fn wf(self) -> bool {
        &&& self.n_bones == bone_count(self.d@)
        &&& self.bind_off == bind_offset(self.n_bones as int)
        &&& self.clips_off == clips_offset(self.n_bones as int)
    }

    /// Look at a blob.
    pub fn new(d: &'a [u8]) -> (model: Model<'a>)
        ensures
            model.data() == d@,
    {
        let n_bones: usize = u16_at(d, 0) as usize;
        let bind_off: usize = (4 + n_bones + 1) / 2 * 2;
        let clips_off: usize = (bind_off + n_bones * 6 + 3) / 4 * 4;
        Model { d, n_bones, bind_off, clips_off }
    }

    /// Number of bones.
    pub fn n_bones(&self) -> (n: usize)
        ensures
            n == bone_count(self.data()),
    {
        proof {
            use_type_invariant(self);
        }
        self.n_bones
    }

    /// Where the translations of the bind pose start in the blob.
    pub fn bind_off(&self) -> (offset: usize)
        ensures
            offset == bind_offset(bone_count(self.data())),
    {
        proof {
            use_type_invariant(self);
        }
        self.bind_off
    }

    /// Where the offsets of the clips start in the blob.
    pub fn clips_off(&self) -> (offset: usize)
        ensures
            offset == clips_offset(bone_count(self.data())),
    {
        proof {
            use_type_invariant(self);
        }
        self.clips_off
    }

    /// Number of clips.
    pub fn n_clips(&self) -> (n: usize)
        ensures
            n == clip_count(self.data()),
    {
        u16_at(self.d, 2) as usize
    }

    fn offset_of(&self, clip: usize) -> (off: u64)
        requires
            clip < clip_count(self.data()),
        ensures
            off == clip_offset(self.data(), clip as int),
            off < 0x1_0000_0000,
    {
        proof {
            use_type_invariant(self);
        }
        u32_at(self.d, self.clips_off as u64 + 4 * clip as u64) as u64
    }

    /// Frame intervals of a clip, at least one.
    pub fn clip_intervals(&self, clip: usize) -> (n: u32)
        requires
            clip < clip_count(self.data()),
        ensures
            ({
                let stored = word16(self.data(), clip_offset(self.data(), clip as int));
                n == if stored == 0 {
                    1
                } else {
                    stored
                }
            }),
    {
        let off: u64 = self.offset_of(clip);
        let stored: u32 = u16_at(self.d, off) as u32;
        if stored == 0 {
            1
        } else {
            stored
        }
    }

    /// Decode all bones of a clip at a Q8 position.
    pub fn decode(&self, clip: usize, pos_q8: u32, out: &mut [Aff])
        requires
            clip < clip_count(self.data()),
            bone_count(self.data()) <= old(out)@.len(),
            parents_fit(self.data(), old(out)@.len() as int),
        ensures
            final(out)@ == decoded(
                self.data(),
                clip_offset(self.data(), clip as int),
                pos_q8 as int,
                no_jaw(),
                old(out)@,
                bone_count(self.data()),
            ),
    {
        let jaw = Jaw::none();
        self.decode_with(clip, pos_q8, &jaw, out)
    }

    /// Decode all bones of a clip, with a controller on one of them.
    pub fn decode_with(&self, clip: usize, pos_q8: u32, jaw: &Jaw, out: &mut [Aff])
        requires
            clip < clip_count(self.data()),
            bone_count(self.data()) <= old(out)@.len(),
            parents_fit(self.data(), old(out)@.len() as int),
        ensures
            final(out)@ == decoded(
                self.data(),
                clip_offset(self.data(), clip as int),
                pos_q8 as int,
                *jaw,
                old(out)@,
                bone_count(self.data()),
            ),
    {
        proof {
            use_type_invariant(self);
        }
        let d: &'a [u8] = self.d;
        let off: u64 = self.offset_of(clip);
        let n: usize = self.n_bones;
        let bind_off: u64 = self.bind_off as u64;
        let mut p: u64 = (off + 32 + n as u64 + 1) / 2 * 2;
        let mut b: usize = 0;
        let ghost before = out@;
        let ghost at = off as int;
        let ghost pos = pos_q8 as int;
        while b < n
            invariant
                b <= n,
                n == bone_count(d@),
                n <= 0xFFFF,
                off == at,
                off < 0x1_0000_0000,
                pos_q8 == pos,
                bind_off == bind_offset(bone_count(d@)),
                p == track_start(d@, at, pos, b as int),
                p <= 0x2_0000_0000 + b * 0x400_0000,
                out@.len() == before.len(),
                n <= out@.len(),
                parents_fit(d@, before.len() as int),
                out@ == decoded(d@, at, pos, *jaw, before, b as int),
            decreases n - b,
        {
            let (q, t, next) = read_bone(d, off, pos_q8, p, b as u64, bind_off, jaw);
            let r = quat_to_mat(q);
            let parent: u8 = byte_at(d, 4 + b as u64);
            assert(parent == parent_of(d@, b as int));
            let transform: Aff = if parent == 255 {
                Aff { r, _pad: 0, t }
            } else {
                compose(&out[parent as usize], &r, t)
            };
            assert(transform == bone_transform(d@, at, pos, *jaw, b as int, out@)) by {
                reveal(bone_transform);
            }
            out[b] = transform;
            p = next;
            b += 1;
        }
    }
}

/// Decoding keeps the number of transforms, and leaves those past the bones
/// as they were.
pub proof fn decoding_keeps_the_rest(
    d: Seq<u8>,
    off: int,
    pos: int,
    jaw: Jaw,
    out: Seq<Aff>,
    bones: int,
)
    requires
        0 <= bones <= out.len(),
    ensures
        decoded(d, off, pos, jaw, out, bones).len() == out.len(),
        forall|i: int|
            bones <= i < out.len() ==> #[trigger] decoded(d, off, pos, jaw, out, bones)[i]
                == out[i],
    decreases bones,
{
    if bones > 0 {
        decoding_keeps_the_rest(d, off, pos, jaw, out, bones - 1);
    }
}

/// Once decoded, a bone stays as it is while later bones are decoded.
proof fn earlier_bones_stay(
    d: Seq<u8>,
    off: int,
    pos: int,
    jaw: Jaw,
    out: Seq<Aff>,
    bones: int,
    b: int,
)
    requires
        0 <= b < bones <= out.len(),
    ensures
        decoded(d, off, pos, jaw, out, bones)[b] == decoded(d, off, pos, jaw, out, b + 1)[b],
    decreases bones,
{
    if bones > b + 1 {
        earlier_bones_stay(d, off, pos, jaw, out, bones - 1, b);
        decoding_keeps_the_rest(d, off, pos, jaw, out, bones - 1);
    }
}

/// Of the bones before it a bone needs its parent only.
proof fn transform_needs_the_parent_only(
    d: Seq<u8>,
    off: int,
    pos: int,
    jaw: Jaw,
    b: int,
    out: Seq<Aff>,
    other: Seq<Aff>,
)
    requires
        parent_of(d, b) == 255 || out[parent_of(d, b)] == other[parent_of(d, b)],
    ensures
        bone_transform(d, off, pos, jaw, b, out) == bone_transform(d, off, pos, jaw, b, other),
{
    reveal(bone_transform);
}

/// Where parents come first, the decoded transforms satisfy the hierarchy: a
/// root has its local transform, every other bone its local transform composed
/// with the decoded transform of its parent.
pub proof fn bones_follow_their_parents(
    d: Seq<u8>,
    off: int,
    pos: int,
    jaw: Jaw,
    out: Seq<Aff>,
    b: int,
)
    requires
        parents_first(d),
        bone_count(d) <= out.len(),
        0 <= b < bone_count(d),
    ensures
        ({
            let done = decoded(d, off, pos, jaw, out, bone_count(d));
            done[b] == bone_transform(d, off, pos, jaw, b, done)
        }),
{
    let n = bone_count(d);
    decoding_keeps_the_rest(d, off, pos, jaw, out, b);
    earlier_bones_stay(d, off, pos, jaw, out, n, b);
    let parent = parent_of(d, b);
    assert(parent == 255 || parent < b);
    if parent != 255 {
        earlier_bones_stay(d, off, pos, jaw, out, n, parent);
        if parent < b {
            earlier_bones_stay(d, off, pos, jaw, out, b, parent);
        }
    }
    transform_needs_the_parent_only(
        d,
        off,
        pos,
        jaw,
        b,
        decoded(d, off, pos, jaw, out, b),
        decoded(d, off, pos, jaw, out, n),
    );
}

/// Where parents come first, what `out` held before does not matter.
pub proof fn decoding_forgets_what_was_there(
    d: Seq<u8>,
    off: int,
    pos: int,
    jaw: Jaw,
    out: Seq<Aff>,
    other: Seq<Aff>,
    b: int,
)
    requires
        parents_first(d),
        bone_count(d) <= out.len(),
        bone_count(d) <= other.len(),
        0 <= b < bone_count(d),
    ensures
        decoded(d, off, pos, jaw, out, bone_count(d))[b] == decoded(
            d,
            off,
            pos,
            jaw,
            other,
            bone_count(d),
        )[b],
    decreases b,
{
    bones_follow_their_parents(d, off, pos, jaw, out, b);
    bones_follow_their_parents(d, off, pos, jaw, other, b);
    let parent = parent_of(d, b);
    assert(parent == 255 || parent < b);
    if parent != 255 {
        decoding_forgets_what_was_there(d, off, pos, jaw, out, other, parent);
    }
    transform_needs_the_parent_only(
        d,
        off,
        pos,
        jaw,
        b,
        decoded(d, off, pos, jaw, out, bone_count(d)),
        decoded(d, off, pos, jaw, other, bone_count(d)),
    );
}

} // verus!
