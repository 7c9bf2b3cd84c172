//! Heap-free hex label formatting for debug HUDs.
//!
//! [`u16_hex`] renders a `u16` as `0xABCD` into a [`HexU16`] whose
//! [`as_str`](HexU16::as_str) can be drawn as it is.

use vstd::prelude::*;
use vstd::string::*;
use vstd::utf8::*;

verus! {

/// The upper-case hexadecimal digit of a number below sixteen.
pub open spec fn hex_digit(n: int) -> u8 {
    if n < 10 {
        (0x30 + n) as u8
    } else {
        (0x41 + (n - 10)) as u8
    }
}

/// The text of `v`: `0x`, then four digits.
pub open spec fn hex_text(v: u16) -> Seq<u8> {
    seq![
        0x30u8,
        0x78u8,
        hex_digit((v / 0x1000) as int),
        hex_digit(((v / 0x100) % 0x10) as int),
        hex_digit(((v / 0x10) % 0x10) as int),
        hex_digit((v % 0x10) as int),
    ]
}

/// A `u16` formatted as `0xABCD`, ready to draw.
#[derive(Copy, Clone)]
pub struct HexU16([u8; 6]);

fn digit(n: u16) -> (d: u8)
    requires
        n < 16,
    ensures
        d == hex_digit(n as int),
{
    if n < 10 {
        0x30 + n as u8
    } else {
        0x41 + (n as u8 - 10)
    }
}

/// `core::str::from_utf8`: the bytes as text if they are valid UTF-8, and
/// nothing if they are not.
#[verifier::external_body]
fn text_of_utf8(bytes: &[u8]) -> (text: Option<&str>)
    ensures
        match text {
            Some(text) => valid_utf8(bytes@) && text.spec_bytes() == bytes@,
            None => !valid_utf8(bytes@),
        },
{
    core::str::from_utf8(bytes).ok()
}

/// ASCII is valid UTF-8.
proof fn ascii_is_valid(bytes: Seq<u8>)
    requires
        forall|i: int| 0 <= i < bytes.len() ==> (#[trigger] bytes[i]) < 0x80,
    ensures
        valid_utf8(bytes),
{
    let end = bytes.len() as int;
    assert forall|i: int| 0 <= i < end implies #[trigger] is_leading_byte_width_1(bytes[i]) by {
        utf8_byte_ranges_bitwise(bytes[i]);
    }
    assert(bytes.subrange(0, 0).len() == 0);
    assert(partial_valid_utf8(bytes, 0));
    partial_valid_utf8_extend_ascii_block(bytes, 0, end);
    assert(bytes.subrange(0, end) =~= bytes);
}

impl HexU16 {
    /// The characters of the label.
    pub closed spec fn bytes(self) -> Seq<u8> {
        self.0@
    }

    #[verifier::type_invariant]
    spec fn all_ascii(self) -> bool {
        forall|i: int| 0 <= i < 6 ==> (#[trigger] self.0@[i]) < 0x80
    }

    /// The formatted text, e.g. `"0x1F40"`.
    pub fn as_str(&self) -> (text: &str)
        ensures
            text.spec_bytes() == self.bytes(),
    {
        proof {
            use_type_invariant(self);
            ascii_is_valid(self.0@);
        }
        match text_of_utf8(self.0.as_slice()) {
            Some(text) => text,
            None => "",
        }
    }
}

/// Format a `u16` as a fixed-width `0xABCD` hex label.
pub fn u16_hex(v: u16) -> (label: HexU16)
    ensures
        label.bytes() == hex_text(v),
{
    let bytes: [u8; 6] = [
        0x30,
        0x78,
        digit(v / 0x1000),
        digit((v / 0x100) % 0x10),
        digit((v / 0x10) % 0x10),
        digit(v % 0x10),
    ];
    assert(bytes@ =~= hex_text(v));
    HexU16(bytes)
}

/// The number that an upper-case hexadecimal digit stands for.
pub open spec fn digit_value(d: u8) -> int {
    if d < 0x41 {
        d - 0x30
    } else {
        d - 0x41 + 10
    }
}

proof fn digit_spells_its_value(n: int)
    requires
        0 <= n < 16,
    ensures
        digit_value(hex_digit(n)) == n,
{
}

proof fn number_is_its_digits(v: int)
    requires
        0 <= v < 0x1_0000,
    ensures
        v == 0x1000 * (v / 0x1000) + 0x100 * ((v / 0x100) % 0x10) + 0x10 * ((v / 0x10) % 0x10) + v
            % 0x10,
{
    let (q, r) = (v / 0x10, v / 0x100);
    assert(v == 0x10 * q + v % 0x10);
    assert(r == q / 0x10);
    assert(q == 0x10 * r + q % 0x10);
    assert(v / 0x1000 == r / 0x10);
    assert(r == 0x10 * (r / 0x10) + r % 0x10);
}

/// The digits of a label spell its number.
pub proof fn label_spells_its_number(v: u16)
    ensures
        hex_text(v).len() == 6,
        v == 0x1000 * digit_value(hex_text(v)[2]) + 0x100 * digit_value(hex_text(v)[3]) + 0x10
            * digit_value(hex_text(v)[4]) + digit_value(hex_text(v)[5]),
{
    let (a, b, c, d) = (
        (v / 0x1000) as int,
        ((v / 0x100) % 0x10) as int,
        ((v / 0x10) % 0x10) as int,
        (v % 0x10) as int,
    );
    number_is_its_digits(v as int);
    digit_spells_its_value(a);
    digit_spells_its_value(b);
    digit_spells_its_value(c);
    digit_spells_its_value(d);
    let text = hex_text(v);
    assert(text[2] == hex_digit(a) && text[3] == hex_digit(b) && text[4] == hex_digit(c)
        && text[5] == hex_digit(d));
}

/// A label opens with `0x`, and its digits are decimal ones or capital letters.
pub proof fn label_is_hexadecimal(v: u16, k: int)
    requires
        2 <= k < 6,
    ensures
        hex_text(v)[0] == '0' as u8,
        hex_text(v)[1] == 'x' as u8,
        ('0' as u8 <= hex_text(v)[k] <= '9' as u8) || ('A' as u8 <= hex_text(v)[k] <= 'F' as u8),
{
}

} // verus!
