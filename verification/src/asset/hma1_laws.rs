//! What animation tracks show: which keys, when, and how bones hang together.

use vstd::arithmetic::div_mod::{
    lemma_div_denominator, lemma_fundamental_div_mod, lemma_fundamental_div_mod_converse,
};
use vstd::prelude::*;

use crate::asset::hma1::{
    between, bind_offset, bone_count, byte, clip_count, clip_offset, clips_offset, coordinate_bits,
    field, fine, mode_of, parent_of, power, reduced, rotation_component, rotation_size, segment,
    short, signed_byte, track_start, translation_component, translation_key, translation_size,
    word16, word32,
};
use crate::bytes::{le16, le32, le_i16};
use crate::fixed::wrapped32;
use crate::written::{
    bytes16, bytes32, lies, long_word_reads_back, parts_lie, short_reads_back, word_reads_back,
};

verus! {

/// Numbers written in a blob are what the blob is read as.
proof fn words_agree(d: Seq<u8>, o: int)
    requires
        0 <= o,
    ensures
        o + 2 <= d.len() ==> word16(d, o) == le16(d, o) && short(d, o) == le_i16(d, o),
        o + 4 <= d.len() ==> word32(d, o) == le32(d, o),
{
}

/// Along a clip a rate goes through its segments in order: the position is the
/// key and the way behind it, in 256 parts, and grows with the factor of the
/// rate, rounded down; at the end it stays on the last key.
pub proof fn segments_go_along(d: Seq<u8>, off: int, rate: int, pos: int, count: int, factor: int)
    requires
        0 <= off,
        0 <= rate < 7,
        0 <= pos,
        0 < count < 0x1_0000,
        0 <= factor < 0x1_0000,
        lies(d, off + 4 + 2 * rate, bytes16(count)),
        lies(d, off + 18 + 2 * rate, bytes16(factor)),
    ensures
        ({
            let s = segment(d, off, rate, pos);
            let at = 256 * s.key + s.way;
            &&& 0 <= s.key < count
            &&& 0 <= s.way <= 256
            &&& s.keys == count + 1
            &&& 32768 * at <= pos * factor
            &&& at < 256 * count ==> pos * factor < 32768 * (at + 1)
            &&& at < 256 * count ==> s.way < 256
            &&& at <= 256 * count
        }),
{
    word_reads_back(d, off + 4 + 2 * rate, count);
    word_reads_back(d, off + 18 + 2 * rate, factor);
    reveal(lies);
    words_agree(d, off + 4 + 2 * rate);
    words_agree(d, off + 18 + 2 * rate);
    assert(0 <= pos * factor) by (nonlinear_arith)
        requires
            0 <= pos,
            0 <= factor,
    ;
}

/// At the start of a clip every rate shows its first key.
pub proof fn clips_start_at_the_first_key(
    d: Seq<u8>,
    off: int,
    rate: int,
    count: int,
    factor: int,
)
    requires
        0 <= off,
        0 <= rate < 7,
        0 < count < 0x1_0000,
        0 <= factor < 0x1_0000,
        lies(d, off + 4 + 2 * rate, bytes16(count)),
        lies(d, off + 18 + 2 * rate, bytes16(factor)),
    ensures
        segment(d, off, rate, 0).key == 0,
        segment(d, off, rate, 0).way == 0,
{
    assert(0 * factor == 0) by (nonlinear_arith);
    segments_go_along(d, off, rate, 0, count, factor);
}

/// Where a position lies on all of the segments, the last key is shown.
pub proof fn clips_end_at_the_last_key(
    d: Seq<u8>,
    off: int,
    rate: int,
    pos: int,
    count: int,
    factor: int,
)
    requires
        0 <= off,
        0 <= rate < 7,
        0 <= pos,
        0 < count < 0x1_0000,
        0 <= factor < 0x1_0000,
        lies(d, off + 4 + 2 * rate, bytes16(count)),
        lies(d, off + 18 + 2 * rate, bytes16(factor)),
        256 * count * 32768 <= pos * factor,
    ensures
        segment(d, off, rate, pos).key + 1 == count,
        segment(d, off, rate, pos).way == 256,
{
    segments_go_along(d, off, rate, pos, count, factor);
}

/// Whether `r` lies on the way from `a` to `b`: at `a` where the way begins, at
/// `b` where it ends, and never outside.
pub open spec fn is_between(a: int, b: int, way: int, r: int) -> bool {
    &&& way == 0 ==> r == a
    &&& way == 256 ==> r == b
    &&& a <= b ==> a <= r <= b
    &&& b <= a ==> b <= r <= a
    &&& 0 <= (b - a) * way - 256 * (r - a) < 256
}

proof fn between_is_between(a: int, b: int, way: int)
    requires
        -0x20_0000 <= a <= 0x20_0000,
        -0x20_0000 <= b <= 0x20_0000,
        0 <= way <= 256,
    ensures
        is_between(a, b, way, between(a, b, way) as int),
        is_between(a, b, way, a + (b - a) * way / 256),
{
    let x = (b - a) * way;
    assert(a <= b ==> 0 <= x <= (b - a) * 256) by (nonlinear_arith)
        requires
            0 <= way <= 256,
            x == (b - a) * way,
    ;
    assert(b <= a ==> (b - a) * 256 <= x <= 0) by (nonlinear_arith)
        requires
            0 <= way <= 256,
            x == (b - a) * way,
    ;
    assert(way == 0 ==> x == 0) by (nonlinear_arith)
        requires
            x == (b - a) * way,
    ;
    assert(wrapped32(x) == x);
}

/// Numbers packed into one, the first in the lowest place.
pub open spec fn packed(parts: Seq<int>, unit: int) -> int
    decreases parts.len(),
{
    if parts.len() == 0 {
        0
    } else {
        parts[0] + unit * packed(parts.skip(1), unit)
    }
}

/// The number that `n` bytes hold, the lowest first.
pub open spec fn held(d: Seq<u8>, at: int, n: nat) -> int
    decreases n,
{
    if n == 0 {
        0
    } else {
        d[at] + 256 * held(d, at + 1, (n - 1) as nat)
    }
}

/// Whether the numbers of a key are as many as they should be, and fit into their
/// places.
pub open spec fn key_fits(parts: Seq<int>, count: int, unit: int) -> bool {
    &&& parts.len() == count
    &&& forall|k: int| 0 <= k < count ==> 0 <= #[trigger] parts[k] < unit
}

proof fn packed4(parts: Seq<int>, unit: int)
    requires
        parts.len() == 4,
    ensures
        packed(parts, unit) == parts[0] + unit * (parts[1] + unit * (parts[2] + unit * parts[3])),
{
    let a = parts.skip(1);
    let b = a.skip(1);
    let c = b.skip(1);
    assert(a[0] == parts[1] && b[0] == parts[2] && c[0] == parts[3]);
    reveal_with_fuel(packed, 5);
    assert(c.skip(1).len() == 0);
    assert(unit * 0 == 0) by (nonlinear_arith);
}

proof fn packed3(parts: Seq<int>, unit: int)
    requires
        parts.len() == 3,
    ensures
        packed(parts, unit) == parts[0] + unit * (parts[1] + unit * parts[2]),
{
    let a = parts.skip(1);
    let b = a.skip(1);
    assert(a[0] == parts[1] && b[0] == parts[2]);
    reveal_with_fuel(packed, 4);
    assert(b.skip(1).len() == 0);
    assert(unit * 0 == 0) by (nonlinear_arith);
}

#[verifier::spinoff_prover]
proof fn held_bytes(d: Seq<u8>, o: int)
    ensures
        held(d, o, 1) == d[o],
        held(d, o, 2) == d[o] + 256 * d[o + 1],
        held(d, o, 3) == d[o] + 256 * d[o + 1] + 0x1_0000 * d[o + 2],
        held(d, o, 4) == d[o] + 256 * d[o + 1] + 0x1_0000 * d[o + 2] + 0x100_0000 * d[o + 3],
        held(d, o, 6) == d[o] + 256 * d[o + 1] + 0x1_0000 * d[o + 2] + 0x100_0000 * (d[o + 3] + 256
            * d[o + 4] + 0x1_0000 * d[o + 5]),
{
    assert(o + 1 + 1 == o + 2 && o + 2 + 1 == o + 3 && o + 3 + 1 == o + 4 && o + 4 + 1 == o + 5);
    reveal_with_fuel(held, 7);
}

proof fn powers()
    ensures
        power(0) == 1,
        power(2) == 4,
        power(4) == 16,
        power(5) == 32,
        power(6) == 64,
        power(8) == 256,
        power(10) == 1024,
        power(12) == 4096,
        power(16) == 0x1_0000,
        power(18) == 0x4_0000,
        power(20) == 0x10_0000,
        power(24) == 0x100_0000,
{
    reveal_with_fuel(power, 25);
}

/// The digits of a number, one by one.
proof fn digits_come_apart(a: int, b: int, c: int, e: int, rest: int, u: int)
    requires
        1 < u,
        0 <= a < u,
        0 <= b < u,
        0 <= c < u,
        0 <= e < u,
        0 <= rest,
    ensures
        ({
            let w = a + u * (b + u * (c + u * (e + u * rest)));
            &&& w % u == a
            &&& (w / u) % u == b
            &&& (w / (u * u)) % u == c
            &&& (w / (u * (u * u))) % u == e
            &&& w / 1 == w
        }),
{
    let z = e + u * rest;
    let y = c + u * z;
    let x = b + u * y;
    let w = a + u * x;
    assert(0 <= u * rest) by (nonlinear_arith)
        requires
            0 <= u,
            0 <= rest,
    ;
    assert(0 <= u * z) by (nonlinear_arith)
        requires
            0 <= u,
            0 <= z,
    ;
    assert(0 <= u * y) by (nonlinear_arith)
        requires
            0 <= u,
            0 <= y,
    ;
    assert(0 <= u * x) by (nonlinear_arith)
        requires
            0 <= u,
            0 <= x,
    ;
    assert(u * x == x * u && u * y == y * u && u * z == z * u && u * rest == rest * u)
        by (nonlinear_arith);
    lemma_fundamental_div_mod_converse(w, u, x, a);
    lemma_fundamental_div_mod_converse(x, u, y, b);
    lemma_fundamental_div_mod_converse(y, u, z, c);
    lemma_fundamental_div_mod_converse(z, u, rest, e);
    lemma_div_denominator(w, u, u);
    assert(0 < u * u) by (nonlinear_arith)
        requires
            1 < u,
    ;
    lemma_div_denominator(w, u * u, u);
    assert((u * u) * u == u * (u * u)) by (nonlinear_arith);
}

/// Four numbers in the lower bytes of a word are its fields.
proof fn fields_come_apart(a: int, b: int, c: int, e: int, w: int, size: int)
    requires
        1 <= size <= 4,
        0 <= a < reduced_unit(size),
        0 <= b < reduced_unit(size),
        0 <= c < reduced_unit(size),
        0 <= e < reduced_unit(size),
        0 <= w < 0x1_0000_0000,
        size == 1 ==> w % 256 == a + 4 * (b + 4 * (c + 4 * e)),
        size == 2 ==> w % 0x1_0000 == a + 16 * (b + 16 * (c + 16 * e)),
        size == 3 ==> w % 0x100_0000 == a + 64 * (b + 64 * (c + 64 * e)),
        size == 4 ==> w == a + 256 * (b + 256 * (c + 256 * e)),
    ensures
        field(w, 2 * size, 0) == a,
        field(w, 2 * size, 1) == b,
        field(w, 2 * size, 2) == c,
        field(w, 2 * size, 3) == e,
{
    powers();
    let u = reduced_unit(size);
    let rest = if size == 1 {
        w / 256
    } else if size == 2 {
        w / 0x1_0000
    } else if size == 3 {
        w / 0x100_0000
    } else {
        0
    };
    digits_come_apart(a, b, c, e, rest, u);
    assert(w == a + u * (b + u * (c + u * (e + u * rest)))) by {
        if size == 1 {
            assert(w == a + 4 * (b + 4 * (c + 4 * (e + 4 * rest))));
        } else if size == 2 {
            assert(w == a + 16 * (b + 16 * (c + 16 * (e + 16 * rest))));
        } else if size == 3 {
            assert(w == a + 64 * (b + 64 * (c + 64 * (e + 64 * rest))));
        } else {
            assert(w == a + 256 * (b + 256 * (c + 256 * (e + 256 * rest))));
        }
    }
}

/// Three numbers in the lower bytes of a word are its fields.
proof fn coordinates_come_apart(a: int, b: int, c: int, w: int, size: int)
    requires
        2 <= size <= 4,
        0 <= a < coordinate_unit(size),
        0 <= b < coordinate_unit(size),
        0 <= c < coordinate_unit(size),
        0 <= w < 0x1_0000_0000,
        size == 2 ==> w % 0x1_0000 == a + 32 * (b + 32 * c),
        size == 3 ==> w % 0x100_0000 == a + 256 * (b + 256 * c),
        size == 4 ==> w == a + 1024 * (b + 1024 * c),
    ensures
        field(w, coordinate_bits(size), 0) == a,
        field(w, coordinate_bits(size), 1) == b,
        field(w, coordinate_bits(size), 2) == c,
{
    powers();
    let u = coordinate_unit(size);
    let rest = if size == 2 {
        w % 0x1_0000 / 0x8000 + 2 * (w / 0x1_0000)
    } else if size == 3 {
        w / 0x100_0000
    } else {
        0
    };
    digits_come_apart(a, b, c, rest % u, rest / u, u);
    assert(w == a + u * (b + u * (c + u * (rest % u + u * (rest / u))))) by {
        lemma_fundamental_div_mod(rest, u);
        if size == 2 {
            assert(w == a + 32 * (b + 32 * (c + 32 * rest)));
        } else if size == 3 {
            assert(w == a + 256 * (b + 256 * (c + 256 * rest)));
        } else {
            assert(w == a + 1024 * (b + 1024 * (c + 1024 * rest)));
        }
    }
}

/// Two codes in three bytes.
#[verifier::spinoff_prover]
proof fn codes_come_apart(x: u8, y: u8, z: u8, a: int, b: int)
    requires
        0 <= a < 4096,
        0 <= b < 4096,
        x + 256 * y + 0x1_0000 * z == a + 4096 * b,
    ensures
        x + 256 * (y as int % 16) == a,
        y as int / 16 + 16 * z == b,
{
    let (low, high) = (y as int % 16, y as int / 16);
    assert(y == 16 * high + low);
    assert(0 <= x + 256 * low < 4096);
    assert((x + 256 * low) - a == 4096 * (b - (high + 16 * z)));
}

/// Three 16-bit numbers in six bytes.
proof fn halves_come_apart(d: Seq<u8>, o: int, key: Seq<int>)
    requires
        0 <= o,
        o + 6 <= d.len(),
        key.len() == 3,
        0 <= key[0] < 0x1_0000,
        0 <= key[1] < 0x1_0000,
        0 <= key[2] < 0x1_0000,
        held(d, o, 6) == key[0] + 0x1_0000 * (key[1] + 0x1_0000 * key[2]),
    ensures
        word16(d, o) == key[0],
        word16(d, o + 2) == key[1],
        word16(d, o + 4) == key[2],
{
    held_bytes(d, o);
    let (a, b, c) = (
        d[o] + 256 * d[o + 1],
        d[o + 2] + 256 * d[o + 3],
        d[o + 4] + 256 * d[o + 5],
    );
    assert(held(d, o, 6) == a + 0x1_0000 * b + 0x1_0000_0000 * c);
    words_are_the_same((a, b, c), (key[0], key[1], key[2]));
    assert(o + 2 + 1 == o + 3 && o + 4 + 1 == o + 5);
}

#[verifier::spinoff_prover]
proof fn words_are_the_same(left: (int, int, int), right: (int, int, int))
    requires
        0 <= left.0 < 0x1_0000,
        0 <= left.1 < 0x1_0000,
        0 <= left.2 < 0x1_0000,
        0 <= right.0 < 0x1_0000,
        0 <= right.1 < 0x1_0000,
        0 <= right.2 < 0x1_0000,
        left.0 + 0x1_0000 * left.1 + 0x1_0000_0000 * left.2 == right.0 + 0x1_0000 * (right.1
            + 0x1_0000 * right.2),
    ensures
        left == right,
{
    assert(left.0 - right.0 == 0x1_0000 * (right.1 - left.1 + 0x1_0000 * (right.2 - left.2)));
    assert(left.0 == right.0);
    assert(left.1 - right.1 == 0x1_0000 * (right.2 - left.2));
}

/// How many values a component of a range-reduced key of `size` bytes has.
pub open spec fn reduced_unit(size: int) -> int {
    if size == 1 {
        4
    } else if size == 2 {
        16
    } else if size == 3 {
        64
    } else {
        256
    }
}

/// Whether a track of range-reduced rotation keys is written at `p`: a signed
/// base per component, the bytes that a key takes, a byte, and the keys, each
/// packing four numbers.
pub open spec fn reduced_track(
    d: Seq<u8>,
    p: int,
    base: Seq<int>,
    size: int,
    keys: Seq<Seq<int>>,
) -> bool {
    &&& 0 <= p
    &&& 1 <= size <= 4
    &&& base.len() == 4
    &&& p + 6 + keys.len() * size <= d.len()
    &&& d[p + 4] == size
    &&& forall|k: int|
        0 <= k < 4 ==> -128 <= #[trigger] base[k] < 128 && d[p + k] as int == base[k] % 256
    &&& forall|i: int|
        0 <= i < keys.len() ==> key_fits(#[trigger] keys[i], 4, reduced_unit(size)) && held(
            d,
            p + 6 + i * size,
            size as nat,
        ) == packed(keys[i], reduced_unit(size))
}

/// What a range-reduced key shows: 32 times the base plus the key's number.
#[verifier::rlimit(40)]
pub proof fn reduced_keys_read_back(
    d: Seq<u8>,
    p: int,
    base: Seq<int>,
    size: int,
    keys: Seq<Seq<int>>,
    i: int,
    k: int,
)
    requires
        reduced_track(d, p, base, size, keys),
        0 <= i < keys.len(),
        0 <= k < 4,
    ensures
        reduced(d, p, i, k) == 32 * (base[k] + keys[i][k]),
{
    let key = keys[i];
    let o = p + 6 + i * size;
    assert(0 <= i * size && i * size + size <= keys.len() * size) by (nonlinear_arith)
        requires
            0 <= i,
            i + 1 <= keys.len(),
            1 <= size,
    ;
    assert(key_fits(keys[i], 4, reduced_unit(size)));
    assert(0 <= key[0] < reduced_unit(size) && 0 <= key[1] < reduced_unit(size) && 0 <= key[2]
        < reduced_unit(size) && 0 <= key[3] < reduced_unit(size));
    packed4(key, reduced_unit(size));
    assert(-128 <= base[k] < 128);
    let w = word32(d, o);
    held_bytes(d, o);
    assert(w == byte(d, o) + 256 * byte(d, o + 1) + 0x1_0000 * byte(d, o + 2) + 0x100_0000 * byte(
        d,
        o + 3,
    ));
    fields_come_apart(key[0], key[1], key[2], key[3], w, size);
    assert(signed_byte(d, p + k) == base[k]);
    let f = field(w, 2 * size, k);
    assert(f == key[k]);
    assert(0 <= f < 256);
    assert(byte(d, p + 4) == size);
    assert(wrapped32(32 * (base[k] + f)) == 32 * (base[k] + f));
}

/// A rotation track of range-reduced keys moves from key to key: where a segment
/// begins it shows the key of the segment, where it ends the next key, and in
/// between it is between them.
pub proof fn reduced_rotation_moves_from_key_to_key(
    d: Seq<u8>,
    off: int,
    pos: int,
    p: int,
    mode: int,
    base: Seq<int>,
    size: int,
    keys: Seq<Seq<int>>,
    k: int,
)
    requires
        reduced_track(d, p, base, size, keys),
        0 <= mode < 256,
        mode % 8 != 7,
        (mode / 64) % 2 == 0,
        0 <= k < 4,
        0 <= segment(d, off, mode % 8, pos).key,
        segment(d, off, mode % 8, pos).key + 1 < keys.len(),
        0 <= segment(d, off, mode % 8, pos).way <= 256,
    ensures
        ({
            let s = segment(d, off, mode % 8, pos);
            is_between(
                32 * (base[k] + keys[s.key][k]),
                32 * (base[k] + keys[s.key + 1][k]),
                s.way,
                rotation_component(d, off, pos, p, mode, k) as int,
            )
        }),
        rotation_size(d, off, pos, p, mode) == 6 + segment(d, off, mode % 8, pos).keys * size,
{
    let s = segment(d, off, mode % 8, pos);
    reduced_keys_read_back(d, p, base, size, keys, s.key, k);
    reduced_keys_read_back(d, p, base, size, keys, s.key + 1, k);
    assert(-128 <= base[k] < 128);
    assert(key_fits(keys[s.key], 4, reduced_unit(size)) && key_fits(
        keys[s.key + 1],
        4,
        reduced_unit(size),
    ));
    assert(0 <= keys[s.key][k] < 256 && 0 <= keys[s.key + 1][k] < 256);
    between_is_between(
        32 * (base[k] + keys[s.key][k]),
        32 * (base[k] + keys[s.key + 1][k]),
        s.way,
    );
}

/// Whether a track of 12-bit rotation keys is written at `p`: six bytes per key,
/// packing four codes.
pub open spec fn fine_track(d: Seq<u8>, p: int, keys: Seq<Seq<int>>) -> bool {
    &&& 0 <= p
    &&& p + 6 * keys.len() <= d.len()
    &&& forall|i: int|
        0 <= i < keys.len() ==> key_fits(#[trigger] keys[i], 4, 4096) && held(d, p + 6 * i, 6)
            == packed(keys[i], 4096)
}

/// What a 12-bit code shows: twice its signed value.
pub open spec fn code_shows(code: int) -> int {
    2 * (if code >= 2048 {
        code - 4096
    } else {
        code
    })
}

#[verifier::rlimit(40)]
#[verifier::spinoff_prover]
proof fn fine_codes_come_apart(d: Seq<u8>, o: int, key: Seq<int>)
    requires
        key.len() == 4,
        0 <= key[0] < 4096,
        0 <= key[1] < 4096,
        0 <= key[2] < 4096,
        0 <= key[3] < 4096,
        held(d, o, 6) == packed(key, 4096),
    ensures
        d[o] + 256 * (d[o + 1] as int % 16) == key[0],
        d[o + 1] as int / 16 + 16 * d[o + 2] == key[1],
        d[o + 3] + 256 * (d[o + 4] as int % 16) == key[2],
        d[o + 4] as int / 16 + 16 * d[o + 5] == key[3],
{
    let low = d[o] + 256 * d[o + 1] + 0x1_0000 * d[o + 2];
    let high = d[o + 3] + 256 * d[o + 4] + 0x1_0000 * d[o + 5];
    assert(held(d, o, 6) == low + 0x100_0000 * high) by {
        held_bytes(d, o);
    }
    assert(packed(key, 4096) == key[0] + 4096 * (key[1] + 4096 * (key[2] + 4096 * key[3]))) by {
        packed4(key, 4096);
    }
    triples_are_the_same(low, high, (key[0], key[1], key[2], key[3]));
    codes_come_apart(d[o], d[o + 1], d[o + 2], key[0], key[1]);
    codes_come_apart(d[o + 3], d[o + 4], d[o + 5], key[2], key[3]);
}

#[verifier::spinoff_prover]
proof fn triples_are_the_same(low: int, high: int, codes: (int, int, int, int))
    requires
        0 <= low < 0x100_0000,
        0 <= codes.0 < 4096,
        0 <= codes.1 < 4096,
        0 <= codes.2 < 4096,
        0 <= codes.3 < 4096,
        low + 0x100_0000 * high == codes.0 + 4096 * (codes.1 + 4096 * (codes.2 + 4096 * codes.3)),
    ensures
        low == codes.0 + 4096 * codes.1,
        high == codes.2 + 4096 * codes.3,
{
    let (a, b) = (codes.0 + 4096 * codes.1, codes.2 + 4096 * codes.3);
    assert(0 <= a < 0x100_0000);
    assert(low - a == 0x100_0000 * (b - high));
}

/// A 12-bit key is read back.
#[verifier::rlimit(40)]
pub proof fn fine_keys_read_back(d: Seq<u8>, p: int, keys: Seq<Seq<int>>, i: int, k: int)
    requires
        fine_track(d, p, keys),
        0 <= i < keys.len(),
        0 <= k < 4,
    ensures
        fine(d, p + 6 * i, k) == code_shows(keys[i][k]),
        -4096 <= code_shows(keys[i][k]) <= 4094,
{
    let key = keys[i];
    let o = p + 6 * i;
    assert(key_fits(keys[i], 4, 4096));
    assert(0 <= key[0] < 4096 && 0 <= key[1] < 4096 && 0 <= key[2] < 4096 && 0 <= key[3] < 4096);
    fine_codes_come_apart(d, o, key);
    if k == 0 {
        assert(fine(d, o, 0) == code_shows(key[0]));
    } else if k == 1 {
        assert(fine(d, o, 1) == code_shows(key[1]));
    } else if k == 2 {
        assert(fine(d, o, 2) == code_shows(key[2]));
    } else {
        assert(fine(d, o, 3) == code_shows(key[3]));
    }
}

/// A rotation track of 12-bit keys moves from key to key.
pub proof fn fine_rotation_moves_from_key_to_key(
    d: Seq<u8>,
    off: int,
    pos: int,
    p: int,
    mode: int,
    keys: Seq<Seq<int>>,
    k: int,
)
    requires
        fine_track(d, p, keys),
        0 <= mode < 256,
        mode % 8 != 7,
        (mode / 64) % 2 == 1,
        0 <= k < 4,
        0 <= segment(d, off, mode % 8, pos).key,
        segment(d, off, mode % 8, pos).key + 1 < keys.len(),
        0 <= segment(d, off, mode % 8, pos).way <= 256,
    ensures
        ({
            let s = segment(d, off, mode % 8, pos);
            is_between(
                code_shows(keys[s.key][k]),
                code_shows(keys[s.key + 1][k]),
                s.way,
                rotation_component(d, off, pos, p, mode, k) as int,
            )
        }),
        rotation_size(d, off, pos, p, mode) == 6 * segment(d, off, mode % 8, pos).keys,
{
    let s = segment(d, off, mode % 8, pos);
    fine_keys_read_back(d, p, keys, s.key, k);
    fine_keys_read_back(d, p, keys, s.key + 1, k);
    between_is_between(code_shows(keys[s.key][k]), code_shows(keys[s.key + 1][k]), s.way);
}

/// A rotation without keys shows its one written value at every position, four
/// signed bytes or four 12-bit codes.
pub proof fn single_rotation_stays(
    d: Seq<u8>,
    off: int,
    pos: int,
    p: int,
    mode: int,
    value: Seq<int>,
    k: int,
)
    requires
        0 <= mode < 256,
        mode % 8 == 7,
        0 <= p,
        0 <= k < 4,
        value.len() == 4,
        (mode / 64) % 2 == 1 ==> fine_track(d, p, seq![value]),
        (mode / 64) % 2 == 0 ==> p + 4 <= d.len() && forall|j: int|
            0 <= j < 4 ==> -128 <= #[trigger] value[j] < 128 && d[p + j] as int == value[j] % 256,
    ensures
        (mode / 64) % 2 == 1 ==> rotation_component(d, off, pos, p, mode, k) == code_shows(
            value[k],
        ) && rotation_size(d, off, pos, p, mode) == 6,
        (mode / 64) % 2 == 0 ==> rotation_component(d, off, pos, p, mode, k) == 32 * value[k]
            && rotation_size(d, off, pos, p, mode) == 4,
{
    if (mode / 64) % 2 == 1 {
        fine_keys_read_back(d, p, seq![value], 0, k);
    } else {
        assert(-128 <= value[k] < 128);
    }
}

/// How many values a coordinate of a translation key of `size` bytes has.
pub open spec fn coordinate_unit(size: int) -> int {
    if size == 2 {
        32
    } else if size == 3 {
        256
    } else if size == 4 {
        1024
    } else {
        0x1_0000
    }
}

/// Whether a track of translation keys is written at `p`: a signed base per
/// coordinate, the bytes that a key takes, a byte, and the keys, each packing
/// three numbers.
pub open spec fn translation_track(
    d: Seq<u8>,
    p: int,
    base: Seq<int>,
    size: int,
    keys: Seq<Seq<int>>,
) -> bool {
    &&& 0 <= p
    &&& size == 2 || size == 3 || size == 4 || size == 6
    &&& base.len() == 3
    &&& p + 8 + keys.len() * size <= d.len()
    &&& d[p + 6] == size
    &&& forall|k: int|
        0 <= k < 3 ==> -0x8000 <= #[trigger] base[k] < 0x8000 && lies(
            d,
            p + 2 * k,
            bytes16(base[k]),
        )
    &&& forall|i: int|
        0 <= i < keys.len() ==> key_fits(#[trigger] keys[i], 3, coordinate_unit(size)) && held(
            d,
            p + 8 + i * size,
            size as nat,
        ) == packed(keys[i], coordinate_unit(size))
}

/// A translation key is read back.
pub proof fn translation_keys_read_back(
    d: Seq<u8>,
    p: int,
    base: Seq<int>,
    size: int,
    keys: Seq<Seq<int>>,
    i: int,
    k: int,
)
    requires
        translation_track(d, p, base, size, keys),
        0 <= i < keys.len(),
        0 <= k < 3,
    ensures
        translation_key(d, p, i, k) == keys[i][k],
{
    let key = keys[i];
    let o = p + 8 + i * size;
    assert(0 <= i * size && i * size + size <= keys.len() * size) by (nonlinear_arith)
        requires
            0 <= i,
            i + 1 <= keys.len(),
            1 <= size,
    ;
    assert(key_fits(keys[i], 3, coordinate_unit(size)));
    assert(0 <= key[0] < coordinate_unit(size) && 0 <= key[1] < coordinate_unit(size) && 0 <= key[2]
        < coordinate_unit(size));
    packed3(key, coordinate_unit(size));
    held_bytes(d, o);
    let w = word32(d, o);
    assert(w == byte(d, o) + 256 * byte(d, o + 1) + 0x1_0000 * byte(d, o + 2) + 0x100_0000 * byte(
        d,
        o + 3,
    ));
    if size == 6 {
        assert(i * size == 6 * i);
        halves_come_apart(d, o, key);
        if k == 0 {
        } else if k == 1 {
        } else {
        }
    } else {
        coordinates_come_apart(key[0], key[1], key[2], w, size);
        assert(field(w, coordinate_bits(size), k) == key[k]);
    }
}

/// A translation track moves from key to key, above its base.
pub proof fn translation_moves_from_key_to_key(
    d: Seq<u8>,
    off: int,
    pos: int,
    p: int,
    mode: int,
    bone: int,
    base: Seq<int>,
    size: int,
    keys: Seq<Seq<int>>,
    k: int,
)
    requires
        translation_track(d, p, base, size, keys),
        0 <= mode < 256,
        (mode / 8) % 8 < 6,
        0 <= k < 3,
        0 <= segment(d, off, (mode / 8) % 8, pos).key,
        segment(d, off, (mode / 8) % 8, pos).key + 1 < keys.len(),
        0 <= segment(d, off, (mode / 8) % 8, pos).way <= 256,
    ensures
        ({
            let s = segment(d, off, (mode / 8) % 8, pos);
            is_between(
                base[k] + keys[s.key][k],
                base[k] + keys[s.key + 1][k],
                s.way,
                translation_component(d, off, pos, p, mode, bone, k),
            )
        }),
        translation_size(d, off, pos, p, mode) == 8 + segment(d, off, (mode / 8) % 8, pos).keys
            * size,
{
    let s = segment(d, off, (mode / 8) % 8, pos);
    let (a, b) = (keys[s.key][k], keys[s.key + 1][k]);
    translation_keys_read_back(d, p, base, size, keys, s.key, k);
    translation_keys_read_back(d, p, base, size, keys, s.key + 1, k);
    assert(key_fits(keys[s.key], 3, coordinate_unit(size)) && key_fits(
        keys[s.key + 1],
        3,
        coordinate_unit(size),
    ));
    assert(0 <= a < 0x1_0000 && 0 <= b < 0x1_0000);
    assert(-0x8000 <= base[k] < 0x8000);
    short_reads_back(d, p + 2 * k, base[k]);
    reveal(lies);
    words_agree(d, p + 2 * k);
    between_is_between(a, b, s.way);
    assert((base[k] + b) - (base[k] + a) == b - a);
}

/// A translation without keys shows its one written value at every position, or
/// the bind coordinates of its bone.
pub proof fn single_translation_stays(
    d: Seq<u8>,
    off: int,
    pos: int,
    p: int,
    mode: int,
    bone: int,
    value: Seq<int>,
    k: int,
)
    requires
        0 <= mode < 256,
        (mode / 8) % 8 >= 6,
        0 <= bone,
        0 <= p,
        0 <= k < 3,
        value.len() == 3,
        forall|j: int|
            0 <= j < 3 ==> -0x8000 <= #[trigger] value[j] < 0x8000 && lies(
                d,
                2 * j + if (mode / 8) % 8 == 6 {
                    p
                } else {
                    bind_offset(bone_count(d)) + 6 * bone
                },
                bytes16(value[j]),
            ),
    ensures
        translation_component(d, off, pos, p, mode, bone, k) == value[k],
        (mode / 8) % 8 == 6 ==> translation_size(d, off, pos, p, mode) == 6,
        (mode / 8) % 8 == 7 ==> translation_size(d, off, pos, p, mode) == 0,
{
    assert(-0x8000 <= value[k] < 0x8000);
    let o = 2 * k + if (mode / 8) % 8 == 6 {
        p
    } else {
        bind_offset(bone_count(d)) + 6 * bone
    };
    short_reads_back(d, o, value[k]);
    reveal(lies);
    words_agree(d, o);
}

/// Tracks stand one behind the other: the rotation of a bone at its start, its
/// translation behind that, and the next bone behind its translation.
pub proof fn tracks_follow_each_other(d: Seq<u8>, off: int, pos: int, bone: int)
    requires
        0 <= bone,
        0 <= off,
    ensures
        ({
            let p = track_start(d, off, pos, bone);
            let t = p + rotation_size(d, off, pos, p, mode_of(d, off, bone));
            track_start(d, off, pos, bone + 1) == t + translation_size(
                d,
                off,
                pos,
                t,
                mode_of(d, off, bone),
            )
        }),
        track_start(d, off, pos, 0) % 2 == 0,
        off + 32 + bone_count(d) <= track_start(d, off, pos, 0) <= off + 33 + bone_count(d),
{
}

/// The front of a blob: counts, parents, padding to two, bind coordinates,
/// padding to four, clip offsets.
pub open spec fn front(parents: Seq<u8>, binds: Seq<Seq<u8>>, clips: Seq<Seq<u8>>) -> Seq<u8> {
    let a = bytes16(parents.len() as int) + bytes16(clips.len() as int) + parents;
    let b = if a.len() % 2 == 0 {
        a
    } else {
        a.push(0)
    } + crate::written::joined(binds);
    let c = if b.len() % 4 == 0 {
        b
    } else {
        b + seq![0u8, 0u8]
    };
    c + crate::written::joined(clips)
}

/// The front of a blob is read back: the parent of every bone, where its bind
/// coordinates stand, and where its clips start.
pub proof fn front_reads_back(
    d: Seq<u8>,
    parents: Seq<u8>,
    binds: Seq<Seq<u8>>,
    clips: Seq<Seq<u8>>,
)
    requires
        lies(d, 0, front(parents, binds, clips)),
        parents.len() < 0x1_0000,
        clips.len() < 0x1_0000,
        binds.len() == parents.len(),
        crate::written::even_rows(binds, 6),
        crate::written::even_rows(clips, 4),
    ensures
        bone_count(d) == parents.len(),
        clip_count(d) == clips.len(),
        forall|b: int| 0 <= b < parents.len() ==> parent_of(d, b) == #[trigger] parents[b],
        forall|b: int|
            0 <= b < parents.len() ==> lies(
                d,
                bind_offset(bone_count(d)) + 6 * b,
                #[trigger] binds[b],
            ),
        forall|c: int, start: int|
            0 <= c < clips.len() && 0 <= start < 0x1_0000_0000 && #[trigger] clips[c]
                == #[trigger] bytes32(start) ==> clip_offset(d, c) == start,
{
    let head = bytes16(parents.len() as int) + bytes16(clips.len() as int);
    let a = head + parents;
    let even = if a.len() % 2 == 0 {
        a
    } else {
        a.push(0)
    };
    let b = even + crate::written::joined(binds);
    let c = if b.len() % 4 == 0 {
        b
    } else {
        b + seq![0u8, 0u8]
    };
    let table = crate::written::joined(clips);
    crate::written::rows_are_even(binds, 6);
    parts_lie(d, 0, c, table);
    if b.len() % 4 != 0 {
        parts_lie(d, 0, b, seq![0u8, 0u8]);
    }
    parts_lie(d, 0, even, crate::written::joined(binds));
    if a.len() % 2 != 0 {
        assert(a.push(0) =~= a + seq![0u8]);
        parts_lie(d, 0, a, seq![0u8]);
    }
    parts_lie(d, 0, head, parents);
    parts_lie(d, 0, bytes16(parents.len() as int), bytes16(clips.len() as int));
    word_reads_back(d, 0, parents.len() as int);
    word_reads_back(d, 2, clips.len() as int);
    crate::written::rows_lie(d, even.len() as int, binds, 6);
    crate::written::rows_lie(d, c.len() as int, clips, 4);
    let n = parents.len() as int;
    assert(even.len() == bind_offset(n));
    assert(c.len() == clips_offset(n));
    assert forall|x: int| 0 <= x < parents.len() implies parent_of(d, x)
        == #[trigger] parents[x] by {
        reveal(lies);
        assert(parents[x] == d[4 + x]);
    }
    assert(bone_count(d) == n && clip_count(d) == clips.len()) by {
        reveal(lies);
        words_agree(d, 0);
        words_agree(d, 2);
    }
    assert forall|x: int, start: int|
        0 <= x < clips.len() && 0 <= start < 0x1_0000_0000 && #[trigger] clips[x]
            == #[trigger] bytes32(start) implies clip_offset(d, x) == start by {
        long_word_reads_back(d, c.len() + x * 4, start);
        reveal(lies);
        words_agree(d, c.len() + x * 4);
    }
}

} // verus!
