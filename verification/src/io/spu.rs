//! Registers of the sound unit.

use vstd::prelude::*;

verus! {

/// First register.
pub const SPU_BASE: u32 = 0x1F80_1C00;

/// Control register.
pub const SPUCNT: u32 = 0x1F80_1DAA;

/// Status register.
pub const SPUSTAT: u32 = 0x1F80_1DAE;

/// Address of a transfer, in units of eight bytes.
pub const TRANSFER_ADDR: u32 = 0x1F80_1DA6;

/// Data of a transfer.
pub const TRANSFER_DATA: u32 = 0x1F80_1DA8;

/// Kind of a transfer.
pub const TRANSFER_CTRL: u32 = 0x1F80_1DAC;

} // verus!
