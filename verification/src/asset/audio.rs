//! Mono one-shot samples for the sound unit.

use vstd::prelude::*;

use crate::asset::header::{
    check_magic, check_payload, flags_of, magic_fault, payload_fault, version_of, viewed, ParseError,
};
use crate::bytes::{le32, read_le16, read_le32};

verus! {

/// The agreed numbers of the audio format.
#[derive(Clone, Copy, Debug)]
pub struct AudioFormat {
    pub magic: [u8; 4],
    pub version: u16,
    /// Codec byte of SPU ADPCM.
    pub codec: u8,
    /// Flag bit: one channel.
    pub mono: u16,
    /// Flag bit: played once.
    pub one_shot: u16,
    /// Loop-start block of a sample that does not loop.
    pub no_loop: u32,
}

/// Bytes in the audio header.
pub const AUDIO_HEADER_SIZE: usize = 20;

/// Samples that one ADPCM block decodes to.
pub const BLOCK_SAMPLES: u32 = 28;

/// Bytes in one ADPCM block.
pub const BLOCK_BYTES: usize = 16;

/// What an audio blob holds.
pub struct AudioView {
    pub sample_rate_hz: u32,
    pub sample_count: u32,
    pub block_count: u32,
    pub adpcm: Seq<u8>,
}

/// Whether the last of `blocks` blocks holds the last of `samples` samples.
pub open spec fn blocks_hold(blocks: u32, samples: u32) -> bool {
    (blocks - 1) * BLOCK_SAMPLES < samples <= blocks * BLOCK_SAMPLES
}

/// The sample in a blob.
pub open spec fn audio_of(bytes: Seq<u8>, format: AudioFormat) -> Result<AudioView, ParseError> {
    if let Some(error) = magic_fault(bytes, format.magic@) {
        Err(error)
    } else if version_of(bytes) != format.version {
        Err(ParseError::UnsupportedVersion(version_of(bytes)))
    } else if let Some(error) = payload_fault(bytes, AUDIO_HEADER_SIZE as int) {
        Err(error)
    } else {
        let flags = flags_of(bytes);
        let rate = le32(bytes, 16);
        let samples = le32(bytes, 20);
        let blocks = le32(bytes, 24);
        if blocks * BLOCK_SAMPLES > u32::MAX {
            Err(ParseError::TableOverflow)
        } else if bytes[12] == format.codec && bytes[13] == 1 && flags & format.mono != 0 && flags
            & format.one_shot != 0 && rate != 0 && samples != 0 && blocks != 0 && blocks_hold(
            blocks,
            samples,
        ) && le32(bytes, 28) == format.no_loop && 32 + blocks * BLOCK_BYTES == bytes.len() {
            Ok(
                AudioView {
                    sample_rate_hz: rate,
                    sample_count: samples,
                    block_count: blocks,
                    adpcm: bytes.subrange(32, bytes.len() as int),
                },
            )
        } else {
            Err(ParseError::InvalidAudioLayout)
        }
    }
}

/// A sample borrowed from its blob.
#[derive(Clone, Copy, Debug)]
pub struct Audio<'a> {
    adpcm: &'a [u8],
    sample_rate_hz: u32,
    sample_count: u32,
    adpcm_block_count: u32,
}

impl<'a> View for Audio<'a> {
    type V = AudioView;

    closed spec fn view(&self) -> AudioView {
        AudioView {
            sample_rate_hz: self.sample_rate_hz,
            sample_count: self.sample_count,
            block_count: self.adpcm_block_count,
            adpcm: self.adpcm@,
        }
    }
}

impl<'a> Audio<'a> {
    /// The blocks are whole, and hold the samples.
    #[verifier::type_invariant]
    pub closed spec fn wf(self) -> bool {
        &&& 0 < self.sample_rate_hz
        &&& blocks_hold(self.adpcm_block_count, self.sample_count)
        &&& self.adpcm@.len() == self.adpcm_block_count * BLOCK_BYTES
    }

    /// Parse a cooked sample.
    pub fn from_bytes(bytes: &'a [u8], format: &AudioFormat) -> (result: Result<Self, ParseError>)
        ensures
            viewed(result) == audio_of(bytes@, *format),
    {
        let version: u16 = check_magic(bytes, &format.magic)?;
        if version != format.version {
            return Err(ParseError::UnsupportedVersion(version));
        }
        check_payload(bytes, AUDIO_HEADER_SIZE)?;
        let flags: u16 = read_le16(bytes, 6);
        let codec: u8 = bytes[12];
        let channel_count: u8 = bytes[13];
        let sample_rate_hz: u32 = read_le32(bytes, 16);
        let sample_count: u32 = read_le32(bytes, 20);
        let adpcm_block_count: u32 = read_le32(bytes, 24);
        let loop_start_block: u32 = read_le32(bytes, 28);
        if adpcm_block_count > u32::MAX / BLOCK_SAMPLES {
            return Err(ParseError::TableOverflow);
        }
        let capacity: u32 = adpcm_block_count * BLOCK_SAMPLES;
        if codec != format.codec || channel_count != 1 || flags & format.mono == 0 || flags
            & format.one_shot == 0 || sample_rate_hz == 0 || sample_count == 0
            || adpcm_block_count == 0 || sample_count > capacity || sample_count <= capacity
            - BLOCK_SAMPLES || loop_start_block != format.no_loop {
            return Err(ParseError::InvalidAudioLayout);
        }
        let adpcm_bytes: u64 = adpcm_block_count as u64 * BLOCK_BYTES as u64;
        if adpcm_bytes + 32 != bytes.len() as u64 {
            return Err(ParseError::InvalidAudioLayout);
        }
        Ok(
            Audio {
                adpcm: &bytes[32..bytes.len()],
                sample_rate_hz,
                sample_count,
                adpcm_block_count,
            },
        )
    }

    /// Playback rate.
    pub fn sample_rate_hz(&self) -> (rate: u32)
        ensures
            rate == self@.sample_rate_hz,
            0 < rate,
    {
        proof {
            use_type_invariant(self);
        }
        self.sample_rate_hz
    }

    /// Number of audible samples.
    pub fn sample_count(&self) -> (count: u32)
        ensures
            count == self@.sample_count,
            blocks_hold(self@.block_count, count),
    {
        proof {
            use_type_invariant(self);
        }
        self.sample_count
    }

    /// Number of ADPCM blocks.
    pub fn adpcm_block_count(&self) -> (count: u32)
        ensures
            count == self@.block_count,
    {
        self.adpcm_block_count
    }

    /// The block at which a loop starts: none, as only one-shot samples are
    /// parsed.
    pub fn loop_start_block(&self) -> (block: Option<u32>)
        ensures
            block is None,
    {
        None
    }

    /// The ADPCM blocks.
    pub fn adpcm_bytes(&self) -> (bytes: &'a [u8])
        ensures
            bytes@ == self@.adpcm,
            bytes@.len() == self@.block_count * BLOCK_BYTES,
    {
        proof {
            use_type_invariant(self);
        }
        self.adpcm
    }

    /// Whether the sample plays once: always so for a parsed sample.
    pub fn is_one_shot(&self) -> (one_shot: bool)
        ensures
            one_shot,
    {
        true
    }
}

} // verus!
