//! FMV playback building blocks.
//!
//! A movie is a `.STR` file: 2048-byte sectors, each carrying a 32-byte chunk
//! header and 2016 bytes of one frame's compressed bitstream (the "BS" format).
//! Playing one is a pipeline:
//!
//! 1. CD sectors stream in (the caller owns the drive) and
//!    [`stream::FrameAssembler`] stitches a frame's chunks back together.
//! 2. [`bs::decode_frame`] runs the variable-length decode on the CPU, turning
//!    the bitstream into the MDEC's run-length halfwords.
//! 3. [`mdec`] decides what is fed to the MDEC and what is pulled back.
//!
//! Only bitstream version 2 is decoded; v3 differs in the DC coding and is
//! rejected with [`bs::BsError::Version`].

pub mod bs;
pub mod bs_laws;
pub mod codes;
pub mod disc_laws;

pub mod iso;
pub mod mdec;
pub mod stream;
