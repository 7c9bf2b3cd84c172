//! Minimal ISO9660 lookup: find a file in the disc's root directory.
//!
//! Enough for a movie player to open `MOVIE.STR` by name instead of by a
//! baked LBA: read the primary volume descriptor (LBA 16), take the root
//! directory extent from it, then scan that directory's records.

use vstd::prelude::*;
use vstd::string::*;
use crate::bytes::{le32, read_le32};

verus! {

/// LBA of the primary volume descriptor.
pub const PVD_LBA: u32 = 16;

/// Whether `pvd` starts like a primary volume descriptor.
pub open spec fn is_pvd(pvd: Seq<u8>) -> bool {
    &&& pvd.len() >= 190
    &&& pvd[0] == 1
    &&& pvd[1] == 0x43  // 'C'
    &&& pvd[2] == 0x44  // 'D'
    &&& pvd[3] == 0x30  // '0'
    &&& pvd[4] == 0x30  // '0'
    &&& pvd[5] == 0x31  // '1'
}

/// The extent of the root directory that a primary volume descriptor names.
pub open spec fn root_of(pvd: Seq<u8>) -> Option<(u32, u32)> {
    if is_pvd(pvd) {
        Some((le32(pvd, 158), le32(pvd, 166)))
    } else {
        None
    }
}

/// Root directory `(lba, size_bytes)` from the primary volume descriptor.
pub fn root_directory(pvd: &[u8]) -> (extent: Option<(u32, u32)>)
    ensures
        extent == root_of(pvd@),
{
    if pvd.len() < 190 || pvd[0] != 1 || pvd[1] != 0x43 || pvd[2] != 0x44 || pvd[3] != 0x30
        || pvd[4] != 0x30 || pvd[5] != 0x31 {
        return None;
    }
    Some((read_le32(pvd, 158), read_le32(pvd, 166)))
}

/// The lower-case form of an ASCII letter; any other byte as it is.
pub open spec fn ascii_lower(b: u8) -> u8 {
    if 0x41 <= b <= 0x5A {
        (b + 0x20) as u8
    } else {
        b
    }
}

/// `a` and `b` are the same but for the case of ASCII letters.
pub open spec fn same_ignoring_case(a: Seq<u8>, b: Seq<u8>) -> bool {
    &&& a.len() == b.len()
    &&& forall|i: int|
        0 <= i < a.len() ==> ascii_lower(#[trigger] a[i]) == ascii_lower(b[i])
}

/// How many bytes of `raw` come before its version suffix, which a `;` begins.
pub open spec fn base_len(raw: Seq<u8>) -> int
    decreases raw.len(),
{
    if raw.len() == 0 || raw[0] == 0x3B {
        0
    } else {
        1 + base_len(raw.skip(1))
    }
}

/// A record lies at `at`: its length is not zero and it ends in the sector.
pub open spec fn record_at(sector: Seq<u8>, at: int) -> bool {
    &&& at + 33 <= sector.len()
    &&& sector[at] != 0
    &&& at + sector[at] <= sector.len()
}

/// The record at `at` is that of the file `name`.
pub open spec fn record_names(sector: Seq<u8>, at: int, name: Seq<u8>) -> bool {
    let raw = sector.subrange(at + 33, at + 33 + sector[at + 32]);
    33 + sector[at + 32] <= sector[at] && same_ignoring_case(raw.take(base_len(raw)), name)
}

/// The extent of the first record of `name` from `at` on.
pub open spec fn find_from(sector: Seq<u8>, name: Seq<u8>, at: int) -> Option<(u32, u32)>
    decreases sector.len() - at,
{
    if !record_at(sector, at) {
        None
    } else if record_names(sector, at, name) {
        Some((le32(sector, at + 2), le32(sector, at + 10)))
    } else {
        find_from(sector, name, at + sector[at])
    }
}

/// Every record that the search from `at` on meets holds the fixed fields of a
/// directory record.
pub open spec fn records_sound_from(sector: Seq<u8>, name: Seq<u8>, at: int) -> bool
    decreases sector.len() - at,
{
    record_at(sector, at) ==> {
        &&& sector[at] >= 33
        &&& record_names(sector, at, name) || records_sound_from(sector, name, at + sector[at])
    }
}

fn lower(b: u8) -> (l: u8)
    ensures
        l == ascii_lower(b),
{
    if 0x41 <= b && b <= 0x5A {
        b + 0x20
    } else {
        b
    }
}

fn equal_ignoring_case(a: &[u8], b: &[u8]) -> (equal: bool)
    ensures
        equal == same_ignoring_case(a@, b@),
{
    if a.len() != b.len() {
        return false;
    }
    let mut i: usize = 0;
    while i < a.len()
        invariant
            i <= a@.len(),
            a@.len() == b@.len(),
            forall|j: int| 0 <= j < i ==> ascii_lower(#[trigger] a@[j]) == ascii_lower(b@[j]),
        decreases a@.len() - i,
    {
        if lower(a[i]) != lower(b[i]) {
            return false;
        }
        i += 1;
    }
    true
}

pub(crate) proof fn base_len_is_first(raw: Seq<u8>, n: int)
    requires
        0 <= n <= raw.len(),
        forall|j: int| 0 <= j < n ==> #[trigger] raw[j] != 0x3B,
        n == raw.len() || raw[n] == 0x3B,
    ensures
        base_len(raw) == n,
    decreases n,
{
    if n > 0 {
        let rest = raw.skip(1);
        assert forall|j: int| 0 <= j < n - 1 implies #[trigger] rest[j] != 0x3B by {
            assert(raw[j + 1] != 0x3B);
        }
        base_len_is_first(rest, n - 1);
    }
}

/// Search one directory sector for `name` (compared without the `;1`
/// version suffix, ASCII case-insensitive). Returns `(lba, size_bytes)`.
pub fn find_in_directory(sector: &[u8], name: &str) -> (extent: Option<(u32, u32)>)
    requires
        records_sound_from(sector@, name.spec_bytes(), 0),
    ensures
        extent == find_from(sector@, name.spec_bytes(), 0),
{
    let wanted = name.as_bytes();
    let mut at: usize = 0;
    while sector.len() >= 33 && at <= sector.len() - 33
        invariant
            at <= sector@.len(),
            wanted@ == name.spec_bytes(),
            records_sound_from(sector@, wanted@, at as int),
            find_from(sector@, wanted@, at as int) == find_from(sector@, wanted@, 0),
        decreases sector@.len() - at,
    {
        let len = sector[at] as usize;
        if len == 0 || len > sector.len() - at {
            return None;
        }
        let name_len = sector[at + 32] as usize;
        if 33 + name_len <= len {
            let raw = &sector[at + 33..at + 33 + name_len];
            let mut p: usize = 0;
            while p < raw.len() && raw[p] != 0x3B
                invariant
                    p <= raw@.len(),
                    forall|j: int| 0 <= j < p ==> #[trigger] raw@[j] != 0x3B,
                decreases raw@.len() - p,
            {
                p += 1;
            }
            proof {
                base_len_is_first(raw@, p as int);
            }
            let base = &raw[0..p];
            assert(base@ =~= raw@.take(p as int));
            if equal_ignoring_case(base, wanted) {
                return Some((read_le32(sector, at + 2), read_le32(sector, at + 10)));
            }
        }
        at += len;
    }
    None
}

} // verus!
