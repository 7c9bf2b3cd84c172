//! Where a program's data sits on the disc that it was booted from.
//!
//! A loader that starts one of several programs on a disc hands over how far
//! the program's sectors and tracks are shifted. A program that was booted
//! alone has no shift.

use vstd::prelude::*;

verus! {

/// Marks a handover.
pub const HANDOFF_MAGIC: u32 = 0x5053_5844;

/// How far a program's sectors and tracks are shifted.
#[derive(Clone, Copy, Debug, PartialEq, Eq, Structural)]
pub struct DiscBase {
    pub lba_offset: u32,
    pub cdda_track_base: u8,
}

/// The sector on the disc of a sector of the program, modulo 2^32.
pub open spec fn sector_on_disc(base: DiscBase, lba: u32) -> int {
    (lba + base.lba_offset) % 0x1_0000_0000
}

/// The track on the disc of a track of the program, modulo 256.
pub open spec fn track_on_disc(base: DiscBase, track: u8) -> int {
    (track + base.cdda_track_base) % 256
}

impl DiscBase {
    /// No shift.
    pub fn new() -> (base: DiscBase)
        ensures
            base == (DiscBase { lba_offset: 0, cdda_track_base: 0 }),
    {
        DiscBase { lba_offset: 0, cdda_track_base: 0 }
    }

    /// Take a loader's handover over, if `magic` marks one. Of the track shift
    /// the low eight bits count.
    pub fn install(&mut self, magic: u32, lba_offset: u32, cdda_track_base: u32)
        ensures
            *final(self) == if magic == HANDOFF_MAGIC {
                DiscBase {
                    lba_offset,
                    cdda_track_base: (cdda_track_base as int % 256) as u8,
                }
            } else {
                *old(self)
            },
    {
        if magic != HANDOFF_MAGIC {
            return;
        }
        self.lba_offset = lba_offset;
        self.cdda_track_base = (cdda_track_base % 256) as u8;
    }

    /// Shift of the sectors.
    pub fn lba_offset(&self) -> (offset: u32)
        ensures
            offset == self.lba_offset,
    {
        self.lba_offset
    }

    /// Shift of the tracks.
    pub fn cdda_track_base(&self) -> (base: u8)
        ensures
            base == self.cdda_track_base,
    {
        self.cdda_track_base
    }

    /// The sector on the disc of a sector of the program, modulo 2^32.
    pub fn shift_lba(&self, lba: u32) -> (shifted: u32)
        ensures
            shifted == sector_on_disc(*self, lba),
    {
        lba.wrapping_add(self.lba_offset)
    }

    /// The track on the disc of a track of the program, modulo 256.
    pub fn shift_track(&self, track: u8) -> (shifted: u8)
        ensures
            shifted == track_on_disc(*self, track),
    {
        track.wrapping_add(self.cdda_track_base)
    }
}

/// Whatever stands in the argument registers of an ordinary boot, sectors and
/// tracks stay where they are.
pub proof fn ordinary_boot_shifts_nothing(base: DiscBase, lba: u32, track: u8)
    requires
        base == (DiscBase { lba_offset: 0, cdda_track_base: 0 }),
    ensures
        sector_on_disc(base, lba) == lba,
        track_on_disc(base, track) == track,
{
}

/// A program's first sector stands at the shift, and its sectors and tracks follow
/// each other on the disc.
pub proof fn shifts_keep_the_order(base: DiscBase, lba: u32, track: u8)
    requires
        base.lba_offset + lba < u32::MAX,
        base.cdda_track_base + track < u8::MAX,
    ensures
        sector_on_disc(base, 0) == base.lba_offset,
        track_on_disc(base, 0) == base.cdda_track_base,
        sector_on_disc(base, (lba + 1) as u32) == sector_on_disc(base, lba) + 1,
        track_on_disc(base, (track + 1) as u8) == track_on_disc(base, track) + 1,
{
}

} // verus!
