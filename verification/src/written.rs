//! Numbers and tables as bytes hold them.

use vstd::prelude::*;

use crate::bytes::{le16, le32, le_i16, le_i32};

verus! {

/// The two bytes of a 16-bit number, the lower one first. A negative number is
/// written as its two's complement.
pub open spec fn bytes16(x: int) -> Seq<u8> {
    seq![(x % 256) as u8, ((x / 256) % 256) as u8]
}

/// The four bytes of a 32-bit number: its lower half, then its upper half.
pub open spec fn bytes32(x: int) -> Seq<u8> {
    bytes16(x) + bytes16(x / 0x1_0000)
}

/// Whether `part` stands in `bytes` from `at` on.
#[verifier::opaque]
pub open spec fn lies(bytes: Seq<u8>, at: int, part: Seq<u8>) -> bool {
    &&& 0 <= at
    &&& at + part.len() <= bytes.len()
    &&& forall|j: int| 0 <= j < part.len() ==> #[trigger] part[j] == bytes[at + j]
}

/// Rows of bytes, one behind the other.
pub open spec fn joined(rows: Seq<Seq<u8>>) -> Seq<u8>
    decreases rows.len(),
{
    if rows.len() == 0 {
        Seq::empty()
    } else {
        joined(rows.drop_last()) + rows.last()
    }
}

/// Whether all rows take `size` bytes.
pub open spec fn even_rows(rows: Seq<Seq<u8>>, size: int) -> bool {
    forall|i: int| 0 <= i < rows.len() ==> (#[trigger] rows[i]).len() == size
}

/// What stands in a byte sequence stands there part by part.
pub proof fn parts_lie(bytes: Seq<u8>, at: int, a: Seq<u8>, b: Seq<u8>)
    ensures
        lies(bytes, at, a + b) <==> lies(bytes, at, a) && lies(bytes, at + a.len(), b),
{
    reveal(lies);
    let whole = a + b;
    if lies(bytes, at, whole) {
        assert forall|j: int| 0 <= j < a.len() implies #[trigger] a[j] == bytes[at + j] by {
            assert(whole[j] == a[j]);
        }
        assert forall|j: int| 0 <= j < b.len() implies #[trigger] b[j] == bytes[at + a.len()
            + j] by {
            assert(whole[a.len() + j] == b[j]);
            assert(at + (a.len() + j) == at + a.len() + j);
        }
    }
    if lies(bytes, at, a) && lies(bytes, at + a.len(), b) {
        assert forall|j: int| 0 <= j < whole.len() implies #[trigger] whole[j] == bytes[at
            + j] by {
            if j < a.len() {
                assert(a[j] == bytes[at + j]);
            } else {
                assert(b[j - a.len()] == bytes[at + a.len() + (j - a.len())]);
            }
        }
    }
}

/// A written number is read back: 16 bits without a sign.
pub proof fn word_reads_back(bytes: Seq<u8>, at: int, x: int)
    requires
        lies(bytes, at, bytes16(x)),
        0 <= x < 0x1_0000,
    ensures
        le16(bytes, at) == x,
{
    reveal(lies);
    let part = bytes16(x);
    assert(part[0] == bytes[at + 0] && part[1] == bytes[at + 1]);
}

/// A written number is read back: 16 bits with a sign.
pub proof fn short_reads_back(bytes: Seq<u8>, at: int, x: int)
    requires
        lies(bytes, at, bytes16(x)),
        -0x8000 <= x < 0x8000,
    ensures
        le_i16(bytes, at) == x,
{
    reveal(lies);
    let part = bytes16(x);
    assert(part[0] == bytes[at + 0] && part[1] == bytes[at + 1]);
}

/// A written number is read back: 32 bits without a sign.
pub proof fn long_word_reads_back(bytes: Seq<u8>, at: int, x: int)
    requires
        lies(bytes, at, bytes32(x)),
        0 <= x < 0x1_0000_0000,
    ensures
        le32(bytes, at) == x,
{
    reveal(lies);
    let part = bytes32(x);
    assert(part[0] == bytes[at + 0] && part[1] == bytes[at + 1] && part[2] == bytes[at + 2]
        && part[3] == bytes[at + 3]);
}

/// A written number is read back: 32 bits with a sign.
pub proof fn long_reads_back(bytes: Seq<u8>, at: int, x: int)
    requires
        lies(bytes, at, bytes32(x)),
        -0x8000_0000 <= x < 0x8000_0000,
    ensures
        le_i32(bytes, at) == x,
{
    reveal(lies);
    let part = bytes32(x);
    assert(part[0] == bytes[at + 0] && part[1] == bytes[at + 1] && part[2] == bytes[at + 2]
        && part[3] == bytes[at + 3]);
}

/// A row of a table stands behind the rows before it.
pub proof fn rows_lie(bytes: Seq<u8>, at: int, rows: Seq<Seq<u8>>, size: int)
    requires
        lies(bytes, at, joined(rows)),
        even_rows(rows, size),
    ensures
        joined(rows).len() == rows.len() * size,
        forall|i: int|
            0 <= i < rows.len() ==> lies(bytes, at + i * size, #[trigger] rows[i]),
    decreases rows.len(),
{
    reveal(lies);
    if rows.len() > 0 {
        let before = rows.drop_last();
        let n = before.len() as int;
        parts_lie(bytes, at, joined(before), rows.last());
        assert forall|i: int| 0 <= i < n implies (#[trigger] before[i]).len() == size by {
            assert(before[i] == rows[i]);
        }
        rows_lie(bytes, at, before, size);
        assert((n + 1) * size == n * size + size) by (nonlinear_arith);
        assert forall|i: int| 0 <= i < rows.len() implies lies(
            bytes,
            at + i * size,
            #[trigger] rows[i],
        ) by {
            if i < n {
                assert(before[i] == rows[i]);
            }
        }
    }
}

/// Without any bytes before it, a table of even rows is as long as its rows.
pub proof fn rows_are_even(rows: Seq<Seq<u8>>, size: int)
    requires
        even_rows(rows, size),
    ensures
        joined(rows).len() == rows.len() * size,
{
    reveal(lies);
    assert(lies(joined(rows), 0, joined(rows)));
    rows_lie(joined(rows), 0, rows, size);
}

/// A row stands in the table that is cut out of a blob.
pub proof fn table_rows_lie(bytes: Seq<u8>, from: int, to: int, rows: Seq<Seq<u8>>, size: int)
    requires
        lies(bytes, from, joined(rows)),
        even_rows(rows, size),
        0 <= size,
        to == from + rows.len() * size,
    ensures
        0 <= from <= to <= bytes.len(),
        forall|i: int|
            0 <= i < rows.len() ==> lies(bytes.subrange(from, to), i * size, #[trigger] rows[i]),
        forall|i: int|
            0 <= i < rows.len() ==> lies(bytes.subrange(from, to), size * i, #[trigger] rows[i]),
{
    let cut = bytes.subrange(from, to);
    rows_lie(bytes, from, rows, size);
    assert(0 <= rows.len() * size) by (nonlinear_arith)
        requires
            0 <= size,
    ;
    assert(0 <= from && from + joined(rows).len() <= bytes.len()) by {
        reveal(lies);
    }
    assert forall|i: int| 0 <= i < rows.len() implies lies(cut, i * size, #[trigger] rows[i])
        && lies(cut, size * i, rows[i]) by {
        reveal(lies);
        let row = rows[i];
        assert(0 <= i * size && i * size + size <= rows.len() * size && size * i == i * size)
            by (nonlinear_arith)
            requires
                0 <= i,
                i + 1 <= rows.len(),
                0 <= size,
        ;
        assert forall|j: int| 0 <= j < row.len() implies #[trigger] row[j] == cut[i * size
            + j] by {
            assert(row[j] == bytes[from + i * size + j]);
        }
    }
}

/// What is cut out where bytes were written is those bytes.
pub proof fn cut_is_what_was_written(bytes: Seq<u8>, at: int, part: Seq<u8>)
    requires
        lies(bytes, at, part),
    ensures
        0 <= at,
        at + part.len() <= bytes.len(),
        bytes.subrange(at, at + part.len()) == part,
{
    reveal(lies);
    let cut = bytes.subrange(at, at + part.len());
    assert forall|j: int| 0 <= j < part.len() implies cut[j] == part[j] by {
        assert(part[j] == bytes[at + j]);
    }
    assert(cut =~= part);
}

} // verus!
