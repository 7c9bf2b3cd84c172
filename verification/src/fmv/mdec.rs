//! What the MDEC driver sends, and what it decides.
//!
//! Decode protocol:
//!
//! 1. Reset once, then upload the quantization and IDCT tables ([`Upload`]).
//! 2. Per frame, write [`decode_command`] and kick DMA0 with the whole
//!    run-length buffer. The MDEC throttles DMA0 as its output FIFO fills.
//! 3. Pull one 16-pixel-wide column of decoded macroblocks at a time over DMA1.
//! 4. Confirm that DMA0 drained.
//!
//! The registers belong to the caller: [`Upload`] says what to do to them and is
//! told how it went.
//!
//! # Reset latency
//!
//! On some consoles the MDEC does not finish a reset within the next bus
//! access. Enabling the DMA requests right behind the reset can therefore be
//! lost, so after each command the upload checks that the MDEC raised its
//! data-in request, writes the enable again if it did not, and falls back to CPU
//! writes when DMA0 still will not take the table.

use vstd::prelude::*;

use crate::gpu::words::{pattern16, to_pattern16};

verus! {

/// Decode command, 15bpp output (bits 28..27 = 3).
pub const DECODE_15BPP: u32 = 0x3800_0000;

/// Decode command, 24bpp output (bits 28..27 = 2).
pub const DECODE_24BPP: u32 = 0x3000_0000;

/// Set bit 15 on every 15bpp pixel (mask/semi-transparency bit).
pub const DECODE_STP: u32 = 0x0200_0000;

/// DMA block size the MDEC channels use, in words.
pub const DMA_BLOCK_WORDS: usize = 32;

/// Spin budget for one table upload or column transfer.
pub const DMA_SPINS: u32 = 400_000;

/// Standard intra quantization matrix (row-major), DC entry 2.
pub const QUANT_ROW_MAJOR: [u8; 64] = [
    2, 16, 19, 22, 26, 27, 29, 34,
    16, 16, 22, 24, 27, 29, 34, 37,
    19, 22, 26, 27, 29, 34, 34, 38,
    22, 22, 26, 27, 29, 34, 37, 40,
    22, 26, 27, 29, 32, 35, 40, 48,
    26, 27, 29, 32, 35, 40, 48, 58,
    26, 27, 29, 34, 38, 46, 56, 69,
    27, 29, 35, 38, 46, 56, 69, 83,
];

/// Zigzag position `i` to its row-major index.
pub const ZIGZAG_TO_ROW_MAJOR: [u8; 64] = [
    0, 1, 8, 16, 9, 2, 3, 10, 17, 24, 32, 25, 18, 11, 4, 5,
    12, 19, 26, 33, 40, 48, 41, 34, 27, 20, 13, 6, 7, 14, 21, 28,
    35, 42, 49, 56, 57, 50, 43, 36, 29, 22, 15, 23, 30, 37, 44, 51,
    58, 59, 52, 45, 38, 31, 39, 46, 53, 60, 61, 54, 47, 55, 62, 63,
];

/// The quantization byte at zigzag position `i` of either table.
pub open spec fn quant_byte(i: int) -> u8 {
    QUANT_ROW_MAJOR[ZIGZAG_TO_ROW_MAJOR[i % 64] as int]
}

/// Four bytes as one little-endian word.
pub open spec fn word_of(a: u8, b: u8, c: u8, d: u8) -> u32 {
    (a + 0x100 * b + 0x1_0000 * c + 0x100_0000 * d) as u32
}

fn quant_at(i: usize) -> (q: u8)
    requires
        i < 128,
    ensures
        q == quant_byte(i as int),
{
    let k = ZIGZAG_TO_ROW_MAJOR[i % 64] as usize;
    proof {
        zigzag_is_in_range(i as int % 64);
    }
    QUANT_ROW_MAJOR[k]
}

proof fn zigzag_is_in_range(i: int)
    requires
        0 <= i < 64,
    ensures
        0 <= ZIGZAG_TO_ROW_MAJOR[i] < 64,
{
}

/// Luma then chroma table, zigzag order, as the 32 words that command 2 takes.
pub fn build_quant() -> (words: [u32; 32])
    ensures
        forall|w: int|
            0 <= w < 32 ==> #[trigger] words[w] == word_of(
                quant_byte(4 * w),
                quant_byte(4 * w + 1),
                quant_byte(4 * w + 2),
                quant_byte(4 * w + 3),
            ),
{
    let mut words: [u32; 32] = [0;32];
    let mut w: usize = 0;
    while w < 32
        invariant
            w <= 32,
            forall|v: int|
                0 <= v < w ==> #[trigger] words[v] == word_of(
                    quant_byte(4 * v),
                    quant_byte(4 * v + 1),
                    quant_byte(4 * v + 2),
                    quant_byte(4 * v + 3),
                ),
        decreases 32 - w,
    {
        words[w] = quant_at(4 * w) as u32 + 0x100 * (quant_at(4 * w + 1) as u32) + 0x1_0000 * (
        quant_at(4 * w + 2) as u32) + 0x100_0000 * (quant_at(4 * w + 3) as u32);
        w += 1;
    }
    words
}

/// The 8x8 IDCT basis that command 3 uploads: scaled cosines in Q14,
/// `cos(0) * sqrt(2)` in the first row and `cos(k*pi/16) * 2` in the others.
pub const SCALE: [i16; 64] = [
    0x5A82, 0x5A82, 0x5A82, 0x5A82, 0x5A82, 0x5A82, 0x5A82, 0x5A82,
    0x7D8A, 0x6A6D, 0x471C, 0x18F8, -0x18F8, -0x471C, -0x6A6D, -0x7D8A,
    0x7641, 0x30FB, -0x30FB, -0x7641, -0x7641, -0x30FB, 0x30FB, 0x7641,
    0x6A6D, -0x18F8, -0x7D8A, -0x471C, 0x471C, 0x7D8A, 0x18F8, -0x6A6D,
    0x5A82, -0x5A82, -0x5A82, 0x5A82, 0x5A82, -0x5A82, -0x5A82, 0x5A82,
    0x471C, -0x7D8A, 0x18F8, 0x6A6D, -0x6A6D, -0x18F8, 0x7D8A, -0x471C,
    0x30FB, -0x7641, 0x7641, -0x30FB, -0x30FB, 0x7641, -0x7641, 0x30FB,
    0x18F8, -0x471C, 0x6A6D, -0x7D8A, 0x7D8A, -0x6A6D, 0x471C, -0x18F8,
];

/// The IDCT basis as the 32 words that command 3 takes, two entries each.
pub fn build_scale() -> (words: [u32; 32])
    ensures
        forall|w: int|
            0 <= w < 32 ==> #[trigger] words[w] == pattern16(SCALE[2 * w]) + 0x1_0000 * pattern16(
                SCALE[2 * w + 1],
            ),
{
    let mut words: [u32; 32] = [0;32];
    let mut w: usize = 0;
    while w < 32
        invariant
            w <= 32,
            forall|v: int|
                0 <= v < w ==> #[trigger] words[v] == pattern16(SCALE[2 * v]) + 0x1_0000
                    * pattern16(SCALE[2 * v + 1]),
        decreases 32 - w,
    {
        words[w] = to_pattern16(SCALE[2 * w]) + 0x1_0000 * to_pattern16(SCALE[2 * w + 1]);
        w += 1;
    }
    words
}

/// MDEC1 status: data-out FIFO empty.
pub const STATUS_OUT_EMPTY: u32 = 0x8000_0000;

/// MDEC1 status: data-in FIFO full.
pub const STATUS_IN_FULL: u32 = 0x4000_0000;

/// MDEC1 status: a command is receiving or processing parameters.
pub const STATUS_BUSY: u32 = 0x2000_0000;

/// MDEC1 status: data-in request (DMA0 enabled and the MDEC wants data).
pub const STATUS_IN_REQUEST: u32 = 0x1000_0000;

/// MDEC1 status: data-out request.
pub const STATUS_OUT_REQUEST: u32 = 0x0800_0000;

/// MDEC1 control: abort everything and reset. Tables survive it.
pub const CONTROL_RESET: u32 = 0x8000_0000;

/// MDEC1 control: enable the DMA0 and DMA1 requests.
pub const CONTROL_ENABLE_DMA: u32 = 0x6000_0000;

/// Command 2 for luma and chroma: 32 parameter words follow.
pub const COMMAND_SET_QUANT: u32 = 0x4000_0001;

/// Command 3: 32 parameter words follow.
pub const COMMAND_SET_SCALE: u32 = 0x6000_0000;

/// Spin budget for one status wait (reset settle, request, FIFO room).
/// The console settles a reset in tens of cycles; this is a few ms.
pub const SETTLE_SPINS: u32 = 20_000;

/// Status reads to spend after a reset looks settled. A reset from an idle
/// MDEC can read idle before it has finished, so waiting for busy to drop
/// is not enough on its own.
pub const RESET_TAIL_READS: u32 = 64;

/// Enable writes to try before giving up on the data-in request.
pub const ENABLE_ATTEMPTS: u8 = 4;

/// How a wait for a status goes on after one more read of it.
#[derive(Clone, Copy, Debug, PartialEq, Eq, Structural)]
pub enum Wait {
    /// The status is as wanted.
    Ready,
    /// The spin budget is used up.
    TimedOut,
    /// Read it again; this many reads have been spent.
    Again(u32),
}

/// How a wait goes on after `spent` reads and one more.
pub open spec fn judged(ready: bool, spent: u32, spins: u32) -> Wait {
    if ready {
        Wait::Ready
    } else if spent >= spins {
        Wait::TimedOut
    } else {
        Wait::Again((spent + 1) as u32)
    }
}

/// Judge the status read after `spent` others: the wait is over when the masked
/// bits are as wanted, and given up once `spins` reads were in vain.
pub fn wait_status(status: u32, mask: u32, want: u32, spent: u32, spins: u32) -> (wait: Wait)
    ensures
        wait == judged(status & mask == want, spent, spins),
{
    if status & mask == want {
        Wait::Ready
    } else if spent >= spins {
        Wait::TimedOut
    } else {
        Wait::Again(spent + 1)
    }
}

/// A mode with a word count in its low half.
pub open spec fn decode_word(mode: u32, words: usize) -> u32 {
    mode | (words % 0x1_0000) as u32
}

/// The command that starts a decode of `words` 32-bit words (a multiple of 32)
/// in `mode`, which is [`DECODE_15BPP`] or [`DECODE_24BPP`], optionally with
/// [`DECODE_STP`]: the low half carries the word count.
pub fn decode_command(mode: u32, words: usize) -> (command: u32)
    ensures
        command == decode_word(mode, words),
{
    mode | ((words % 0x1_0000) as u32)
}

/// How many DMA blocks carry so many words, as far as the register holds them.
pub open spec fn blocks_of(words: usize) -> int {
    (words / DMA_BLOCK_WORDS) as int % 0x1_0000
}

/// How many DMA blocks carry `words` words.
pub fn dma_blocks(words: usize) -> (blocks: u16)
    ensures
        blocks == blocks_of(words),
{
    ((words / DMA_BLOCK_WORDS) % 0x1_0000) as u16
}

/// How the tables got in.
#[derive(Clone, Copy, Debug, PartialEq, Eq, Structural)]
pub struct Tables {
    /// Enable writes, summed over both commands, before the MDEC raised its
    /// data-in request: 2 when every first write held. 0 means it never
    /// asked for data, so DMA0 decodes will not run either.
    pub enable_writes: u8,
    /// Tables that went in over the CPU because the MDEC never asked for
    /// DMA0 data or DMA0 wedged part way (0, 1 or 2).
    pub cpu_uploads: u8,
}

impl Tables {
    /// The MDEC asked for data on both commands, so DMA0 feeds it.
    pub fn dma_ready(&self) -> (ready: bool)
        ensures
            ready == (self.enable_writes != 0 && self.cpu_uploads == 0),
    {
        self.enable_writes != 0 && self.cpu_uploads == 0
    }

    /// Sum up the uploads of both tables.
    pub fn of(quant: Uploaded, scale: Uploaded) -> (tables: Self)
        requires
            quant.enable_writes <= ENABLE_ATTEMPTS,
            scale.enable_writes <= ENABLE_ATTEMPTS,
        ensures
            tables == summed_up(quant, scale),
    {
        let quant_cpu: u8 = if quant.by_cpu {
            1
        } else {
            0
        };
        let scale_cpu: u8 = if scale.by_cpu {
            1
        } else {
            0
        };
        Tables {
            enable_writes: if quant.enable_writes == 0 || scale.enable_writes == 0 {
                0
            } else {
                quant.enable_writes + scale.enable_writes
            },
            cpu_uploads: quant_cpu + scale_cpu,
        }
    }
}

impl Default for Tables {
    fn default() -> (tables: Self)
        ensures
            tables == (Tables { enable_writes: 0, cpu_uploads: 0 }),
    {
        Tables { enable_writes: 0, cpu_uploads: 0 }
    }
}

/// How one table got in.
#[derive(Clone, Copy, Debug, PartialEq, Eq, Structural)]
pub struct Uploaded {
    /// Enable writes before the data-in request rose; 0 if it never did.
    pub enable_writes: u8,
    /// Whether the words went over the CPU.
    pub by_cpu: bool,
}

/// What an upload wants done.
#[derive(Clone, Copy, Debug, PartialEq, Eq, Structural)]
pub enum Action {
    /// Wait until the masked status bits are as wanted; answer whether they
    /// became so within [`SETTLE_SPINS`].
    AwaitStatus {
        /// Status bits to look at.
        mask: u32,
        /// What they should read.
        want: u32,
    },
    /// Write the upload's command word.
    WriteCommand,
    /// Write [`CONTROL_ENABLE_DMA`].
    EnableDma,
    /// Send all 32 words over DMA0; answer whether that finished within
    /// [`DMA_SPINS`].
    SendByDma,
    /// Abort DMA0 and reset the MDEC.
    Restart,
    /// Write parameter word `0` to `31`.
    WriteWord(u8),
    /// The upload is over: how the table got in, or that it did not.
    Finish(Option<Uploaded>),
}

/// Where the upload of one table stands: what was asked for last.
#[derive(Clone, Copy, Debug, PartialEq, Eq, Structural)]
pub enum Upload {
    /// Waiting for the MDEC to be free.
    Settling,
    /// Writing the command.
    Commanding,
    /// Waiting for the data-in request, after this many extra enable writes.
    Requesting(u8),
    /// Writing the enable again, for the given time.
    Enabling(u8),
    /// Sending over DMA0, after the given number of enable writes in all.
    Sending(u8),
    /// Starting over after DMA0 wedged part way.
    Restarting(u8),
    /// Waiting for the MDEC to be free before the CPU takes over.
    Resettling(u8),
    /// Writing the command before the CPU takes over.
    Recommanding(u8),
    /// Waiting for room for a word to be written by the CPU.
    Making {
        /// Enable writes to report.
        writes: u8,
        /// The word to be written.
        word: u8,
    },
    /// Writing a word by the CPU.
    Writing {
        /// Enable writes to report.
        writes: u8,
        /// The word being written.
        word: u8,
    },
    /// Done.
    Finished(Option<Uploaded>),
}

impl Upload {
    /// What is to be done in this state.
    pub open spec fn wants(self) -> Action {
        match self {
            Upload::Settling => Action::AwaitStatus { mask: STATUS_BUSY, want: 0 },
            Upload::Commanding => Action::WriteCommand,
            Upload::Requesting(_) => Action::AwaitStatus {
                mask: STATUS_IN_REQUEST,
                want: STATUS_IN_REQUEST,
            },
            Upload::Enabling(_) => Action::EnableDma,
            Upload::Sending(_) => Action::SendByDma,
            Upload::Restarting(_) => Action::Restart,
            Upload::Resettling(_) => Action::AwaitStatus { mask: STATUS_BUSY, want: 0 },
            Upload::Recommanding(_) => Action::WriteCommand,
            Upload::Making { .. } => Action::AwaitStatus { mask: STATUS_IN_FULL, want: 0 },
            Upload::Writing { writes, word } => Action::WriteWord(word),
            Upload::Finished(outcome) => Action::Finish(outcome),
        }
    }

    /// The state after what was wanted has been done, with answer `ok`.
    pub open spec fn then_state(self, ok: bool) -> Upload {
        match self {
            Upload::Settling => if ok {
                Upload::Commanding
            } else {
                Upload::Finished(None)
            },
            Upload::Commanding => Upload::Requesting(0),
            Upload::Requesting(n) => if ok {
                Upload::Sending((n + 1) as u8)
            } else if n + 1 < ENABLE_ATTEMPTS {
                Upload::Enabling((n + 1) as u8)
            } else {
                Upload::Making { writes: 0, word: 0 }
            },
            Upload::Enabling(n) => Upload::Requesting(n),
            Upload::Sending(writes) => if ok {
                Upload::Finished(Some(Uploaded { enable_writes: writes, by_cpu: false }))
            } else {
                Upload::Restarting(writes)
            },
            Upload::Restarting(writes) => Upload::Resettling(writes),
            Upload::Resettling(writes) => if ok {
                Upload::Recommanding(writes)
            } else {
                Upload::Finished(None)
            },
            Upload::Recommanding(writes) => Upload::Making { writes, word: 0 },
            Upload::Making { writes, word } => if ok {
                Upload::Writing { writes, word }
            } else {
                Upload::Finished(None)
            },
            Upload::Writing { writes, word } => if word < 31 {
                Upload::Making { writes, word: (word + 1) as u8 }
            } else {
                Upload::Finished(Some(Uploaded { enable_writes: writes, by_cpu: true }))
            },
            Upload::Finished(outcome) => self,
        }
    }

    /// Counts stay in range.
    pub open spec fn wf(self) -> bool {
        match self {
            Upload::Requesting(n) => n < ENABLE_ATTEMPTS,
            Upload::Enabling(n) => 0 < n < ENABLE_ATTEMPTS,
            Upload::Sending(n) => 0 < n <= ENABLE_ATTEMPTS,
            Upload::Restarting(n) => 0 < n <= ENABLE_ATTEMPTS,
            Upload::Resettling(n) => n <= ENABLE_ATTEMPTS,
            Upload::Recommanding(n) => n <= ENABLE_ATTEMPTS,
            Upload::Making { writes, word } => writes <= ENABLE_ATTEMPTS && word < 32,
            Upload::Writing { writes, word } => writes <= ENABLE_ATTEMPTS && word < 32,
            Upload::Finished(Some(uploaded)) => {
                &&& uploaded.enable_writes <= ENABLE_ATTEMPTS
                &&& uploaded.enable_writes == 0 ==> uploaded.by_cpu
            },
            _ => true,
        }
    }

    /// An upload that has yet to begin.
    pub fn start() -> (upload: Self)
        ensures
            upload == Upload::Settling,
            upload.wf(),
    {
        Upload::Settling
    }

    /// An upload over the CPU alone that has yet to begin.
    pub fn start_by_cpu() -> (upload: Self)
        ensures
            upload == Upload::Resettling(0),
            upload.wf(),
    {
        Upload::Resettling(0)
    }

    /// Whether only the CPU feeds the MDEC from here on.
    pub open spec fn spares_dma(self) -> bool {
        match self {
            Upload::Resettling(n) => n == 0,
            Upload::Recommanding(n) => n == 0,
            Upload::Making { writes, word } => writes == 0,
            Upload::Writing { writes, word } => writes == 0,
            Upload::Finished(Some(uploaded)) => uploaded.by_cpu,
            Upload::Finished(None) => true,
            _ => false,
        }
    }

    /// What is to be done now.
    pub fn action(self) -> (action: Action)
        ensures
            action == self.wants(),
    {
        match self {
            Upload::Settling => Action::AwaitStatus { mask: STATUS_BUSY, want: 0 },
            Upload::Commanding => Action::WriteCommand,
            Upload::Requesting(_) => Action::AwaitStatus {
                mask: STATUS_IN_REQUEST,
                want: STATUS_IN_REQUEST,
            },
            Upload::Enabling(_) => Action::EnableDma,
            Upload::Sending(_) => Action::SendByDma,
            Upload::Restarting(_) => Action::Restart,
            Upload::Resettling(_) => Action::AwaitStatus { mask: STATUS_BUSY, want: 0 },
            Upload::Recommanding(_) => Action::WriteCommand,
            Upload::Making { .. } => Action::AwaitStatus { mask: STATUS_IN_FULL, want: 0 },
            Upload::Writing { writes: _, word } => Action::WriteWord(word),
            Upload::Finished(outcome) => Action::Finish(outcome),
        }
    }

    /// Go on after the action has been done; `ok` is its answer, and does not
    /// matter where it has none.
    pub fn step(self, ok: bool) -> (next: Self)
        requires
            self.wf(),
        ensures
            next == self.then_state(ok),
            next.wf(),
    {
        match self {
            Upload::Settling => if ok {
                Upload::Commanding
            } else {
                Upload::Finished(None)
            },
            Upload::Commanding => Upload::Requesting(0),
            Upload::Requesting(n) => if ok {
                Upload::Sending(n + 1)
            } else if n + 1 < ENABLE_ATTEMPTS {
                Upload::Enabling(n + 1)
            } else {
                Upload::Making { writes: 0, word: 0 }
            },
            Upload::Enabling(n) => Upload::Requesting(n),
            Upload::Sending(writes) => if ok {
                Upload::Finished(Some(Uploaded { enable_writes: writes, by_cpu: false }))
            } else {
                Upload::Restarting(writes)
            },
            Upload::Restarting(writes) => Upload::Resettling(writes),
            Upload::Resettling(writes) => if ok {
                Upload::Recommanding(writes)
            } else {
                Upload::Finished(None)
            },
            Upload::Recommanding(writes) => Upload::Making { writes, word: 0 },
            Upload::Making { writes, word } => if ok {
                Upload::Writing { writes, word }
            } else {
                Upload::Finished(None)
            },
            Upload::Writing { writes, word } => if word < 31 {
                Upload::Making { writes, word: word + 1 }
            } else {
                Upload::Finished(Some(Uploaded { enable_writes: writes, by_cpu: true }))
            },
            Upload::Finished(outcome) => Upload::Finished(outcome),
        }
    }
}

/// How many steps an upload has left at most.
pub open spec fn steps_left(upload: Upload) -> nat {
    match upload {
        Upload::Settling => 78,
        Upload::Commanding => 77,
        Upload::Requesting(n) => (76 - 2 * n) as nat,
        Upload::Enabling(n) => (77 - 2 * n) as nat,
        Upload::Sending(_) => 68,
        Upload::Restarting(_) => 67,
        Upload::Resettling(_) => 66,
        Upload::Recommanding(_) => 65,
        Upload::Making { writes, word } => (64 - 2 * word) as nat,
        Upload::Writing { writes, word } => (63 - 2 * word) as nat,
        Upload::Finished(_) => 0,
    }
}

/// Every upload ends, whatever the hardware answers: each step brings it closer.
pub proof fn every_upload_ends(upload: Upload, ok: bool)
    requires
        upload.wf(),
        !(upload is Finished),
    ensures
        upload.then_state(ok).wf(),
        steps_left(upload.then_state(ok)) < steps_left(upload),
{
}

/// A word is written by the CPU only after room for it was confirmed, in order,
/// and nothing reports a CPU upload before the last of them.
pub proof fn words_wait_for_room(upload: Upload, ok: bool)
    requires
        upload.wf(),
    ensures
        upload.then_state(ok) matches Upload::Writing { writes, word } ==> upload == (
        Upload::Making { writes, word }) && ok,
        upload.then_state(ok) matches Upload::Making { writes, word } ==> (word > 0 ==> upload == (
        Upload::Writing { writes, word: (word - 1) as u8 })),
        upload.then_state(ok) matches Upload::Finished(Some(uploaded)) ==> (!(upload is Finished)
            && uploaded.by_cpu ==> upload == (Upload::Writing {
            writes: uploaded.enable_writes,
            word: 31,
        })),
{
}

/// What loading both tables wants done.
#[derive(Clone, Copy, Debug, PartialEq, Eq, Structural)]
pub enum LoadAction {
    /// A part of the upload that the command starts.
    Do {
        /// [`COMMAND_SET_QUANT`] or [`COMMAND_SET_SCALE`].
        command: u32,
        /// What to do.
        action: Action,
    },
    /// Loading is over: how the tables got in, or that they did not.
    Finish(Option<Tables>),
}

/// Where loading both tables stands.
#[derive(Clone, Copy, Debug, PartialEq, Eq, Structural)]
pub enum TableLoad {
    /// Uploading the quantization tables.
    Quant {
        /// Whether DMA0 is left alone.
        cpu_only: bool,
        /// The upload.
        upload: Upload,
    },
    /// Uploading the IDCT basis.
    Scale {
        /// Whether DMA0 is left alone.
        cpu_only: bool,
        /// How the quantization tables got in.
        quant: Uploaded,
        /// The upload.
        upload: Upload,
    },
    /// Waiting for the MDEC to take in the last words.
    Draining {
        /// How the quantization tables got in.
        quant: Uploaded,
        /// How the IDCT basis got in.
        scale: Uploaded,
    },
    /// Done.
    Loaded(Option<Tables>),
}

/// Where an upload starts.
pub open spec fn first_upload(cpu_only: bool) -> Upload {
    if cpu_only {
        Upload::Resettling(0)
    } else {
        Upload::Settling
    }
}

/// What two uploads come to.
pub open spec fn summed_up(quant: Uploaded, scale: Uploaded) -> Tables {
    Tables {
        enable_writes: if quant.enable_writes == 0 || scale.enable_writes == 0 {
            0
        } else {
            (quant.enable_writes + scale.enable_writes) as u8
        },
        cpu_uploads: ((if quant.by_cpu {
            1int
        } else {
            0
        }) + (if scale.by_cpu {
            1int
        } else {
            0
        })) as u8,
    }
}

/// Whether an upload is under way, over the CPU alone if it has to be.
pub open spec fn under_way(upload: Upload, cpu_only: bool) -> bool {
    &&& upload.wf()
    &&& !(upload is Finished)
    &&& cpu_only ==> upload.spares_dma()
}

/// Whether the report of an upload makes sense.
pub open spec fn report_sound(uploaded: Uploaded) -> bool {
    uploaded.enable_writes <= ENABLE_ATTEMPTS
}

impl TableLoad {
    /// Every upload is under way.
    pub open spec fn wf(self) -> bool {
        match self {
            TableLoad::Quant { cpu_only, upload } => under_way(upload, cpu_only),
            TableLoad::Scale { cpu_only, quant, upload } => {
                &&& under_way(upload, cpu_only)
                &&& report_sound(quant)
            },
            TableLoad::Draining { quant, scale } => report_sound(quant) && report_sound(scale),
            TableLoad::Loaded(_) => true,
        }
    }

    /// What is to be done in this state.
    pub open spec fn wants(self) -> LoadAction {
        match self {
            TableLoad::Quant { cpu_only, upload } => LoadAction::Do {
                command: COMMAND_SET_QUANT,
                action: upload.wants(),
            },
            TableLoad::Scale { cpu_only, quant, upload } => LoadAction::Do {
                command: COMMAND_SET_SCALE,
                action: upload.wants(),
            },
            TableLoad::Draining { quant, scale } => LoadAction::Do {
                command: COMMAND_SET_SCALE,
                action: Action::AwaitStatus { mask: STATUS_BUSY, want: 0 },
            },
            TableLoad::Loaded(outcome) => LoadAction::Finish(outcome),
        }
    }

    /// The state after what was wanted has been done, with answer `ok`.
    pub open spec fn then_state(self, ok: bool) -> TableLoad {
        match self {
            TableLoad::Quant { cpu_only, upload } => match upload.then_state(ok) {
                Upload::Finished(Some(quant)) => TableLoad::Scale {
                    cpu_only,
                    quant,
                    upload: first_upload(cpu_only),
                },
                Upload::Finished(None) => TableLoad::Loaded(None),
                next => TableLoad::Quant { cpu_only, upload: next },
            },
            TableLoad::Scale { cpu_only, quant, upload } => match upload.then_state(ok) {
                Upload::Finished(Some(scale)) => TableLoad::Draining { quant, scale },
                Upload::Finished(None) => TableLoad::Loaded(None),
                next => TableLoad::Scale { cpu_only, quant, upload: next },
            },
            TableLoad::Draining { quant, scale } => TableLoad::Loaded(
                if ok {
                    Some(summed_up(quant, scale))
                } else {
                    None
                },
            ),
            TableLoad::Loaded(outcome) => self,
        }
    }

    fn begin(cpu_only: bool) -> (upload: Upload)
        ensures
            upload == first_upload(cpu_only),
    {
        if cpu_only {
            Upload::start_by_cpu()
        } else {
            Upload::start()
        }
    }

    /// What is to be done now.
    pub fn action(self) -> (action: LoadAction)
        ensures
            action == self.wants(),
    {
        match self {
            TableLoad::Quant { cpu_only: _, upload } => LoadAction::Do {
                command: COMMAND_SET_QUANT,
                action: upload.action(),
            },
            TableLoad::Scale { cpu_only: _, quant: _, upload } => LoadAction::Do {
                command: COMMAND_SET_SCALE,
                action: upload.action(),
            },
            TableLoad::Draining { .. } => LoadAction::Do {
                command: COMMAND_SET_SCALE,
                action: Action::AwaitStatus { mask: STATUS_BUSY, want: 0 },
            },
            TableLoad::Loaded(outcome) => LoadAction::Finish(outcome),
        }
    }

    /// Go on after the action has been done; `ok` is its answer, and does not
    /// matter where it has none.
    pub fn step(self, ok: bool) -> (next: Self)
        requires
            self.wf(),
        ensures
            next == self.then_state(ok),
            next.wf(),
    {
        match self {
            TableLoad::Quant { cpu_only, upload } => match upload.step(ok) {
                Upload::Finished(Some(quant)) => TableLoad::Scale {
                    cpu_only,
                    quant,
                    upload: TableLoad::begin(cpu_only),
                },
                Upload::Finished(None) => TableLoad::Loaded(None),
                next => TableLoad::Quant { cpu_only, upload: next },
            },
            TableLoad::Scale { cpu_only, quant, upload } => match upload.step(ok) {
                Upload::Finished(Some(scale)) => TableLoad::Draining { quant, scale },
                Upload::Finished(None) => TableLoad::Loaded(None),
                next => TableLoad::Scale { cpu_only, quant, upload: next },
            },
            TableLoad::Draining { quant, scale } => if ok {
                TableLoad::Loaded(Some(Tables::of(quant, scale)))
            } else {
                TableLoad::Loaded(None)
            },
            TableLoad::Loaded(outcome) => TableLoad::Loaded(outcome),
        }
    }
}

/// Upload the standard quantization tables and the IDCT basis, each over DMA0
/// where the MDEC asks for data, else over the CPU.
pub fn load_tables() -> (load: TableLoad)
    ensures
        load == (TableLoad::Quant { cpu_only: false, upload: Upload::Settling }),
        load.wf(),
{
    TableLoad::Quant { cpu_only: false, upload: Upload::start() }
}

/// Upload both tables over the CPU alone, after a reset.
pub fn load_tables_cpu() -> (load: TableLoad)
    ensures
        load == (TableLoad::Quant { cpu_only: true, upload: Upload::Resettling(0) }),
        load.wf(),
{
    TableLoad::Quant { cpu_only: true, upload: Upload::start_by_cpu() }
}

/// How many steps loading has left at most.
pub open spec fn load_steps_left(load: TableLoad) -> nat {
    match load {
        TableLoad::Quant { cpu_only, upload } => 100 + steps_left(upload),
        TableLoad::Scale { cpu_only, quant, upload } => 1 + steps_left(upload),
        TableLoad::Draining { quant, scale } => 1,
        TableLoad::Loaded(_) => 0,
    }
}

/// Loading ends, whatever the hardware answers.
pub proof fn every_load_ends(load: TableLoad, ok: bool)
    requires
        load.wf(),
        !(load is Loaded),
    ensures
        load.then_state(ok).wf(),
        load_steps_left(load.then_state(ok)) < load_steps_left(load),
{
}

/// Loading over the CPU alone neither sends over DMA0 nor writes the enable nor
/// resets.
pub proof fn cpu_load_leaves_dma_alone(load: TableLoad)
    requires
        load.wf(),
        match load {
            TableLoad::Quant { cpu_only, upload } => cpu_only,
            TableLoad::Scale { cpu_only, quant, upload } => cpu_only,
            _ => true,
        },
    ensures
        load.wants() matches LoadAction::Do { command, action } ==> !(action is SendByDma) && !(
        action is EnableDma) && !(action is Restart),
{
}

/// Tables are reported as loaded only after the MDEC was found free at the end.
pub proof fn loaded_tables_were_taken_in(load: TableLoad, ok: bool)
    requires
        load.wf(),
        load.then_state(ok) matches TableLoad::Loaded(Some(_)),
        !(load is Loaded),
    ensures
        ok,
        load.wants() == (LoadAction::Do {
            command: COMMAND_SET_SCALE,
            action: Action::AwaitStatus { mask: STATUS_BUSY, want: 0 },
        }),
{
}

/// Whether an upload is over and the table went in over the CPU or over DMA0.
pub open spec fn ended_well(action: Action, by_cpu: bool) -> bool {
    action matches Action::Finish(Some(uploaded)) && uploaded.by_cpu == by_cpu
}

/// What is wanted follows from what was wanted before and how it went. The command
/// is written once the MDEC is free. Data go over DMA0 once they are asked for.
/// The enable is written again only while they are not. What DMA0 did not finish
/// starts over. Words go over the CPU in order as there is room for them.
pub proof fn uploads_follow_the_protocol(upload: Upload, ok: bool)
    requires
        upload.wf(),
    ensures
        ({
            let before = upload.wants();
            let after = upload.then_state(ok).wants();
            let free = Action::AwaitStatus { mask: 0x2000_0000, want: 0 };
            let asked = Action::AwaitStatus { mask: 0x1000_0000, want: 0x1000_0000 };
            let room = Action::AwaitStatus { mask: 0x4000_0000, want: 0 };
            &&& before == free ==> after == if ok {
                Action::WriteCommand
            } else {
                Action::Finish(None)
            }
            &&& before is WriteCommand ==> after == asked || after == room
            &&& before == asked && ok ==> after is SendByDma
            &&& before == asked && !ok ==> after is EnableDma || after == room
            &&& before is EnableDma ==> after == asked
            &&& before is SendByDma && ok ==> ended_well(after, false)
            &&& before is SendByDma && !ok ==> after is Restart
            &&& before is Restart ==> after == free
            &&& before == room && !ok ==> after == Action::Finish(None)
            &&& before == room && ok ==> after is WriteWord
            &&& before matches Action::WriteWord(word) ==> if word == 31 {
                ended_well(after, true)
            } else {
                after == room
            }
            &&& after matches Action::WriteWord(word) ==> upload.then_state(ok).then_state(
                true,
            ).then_state(true).wants() == if word == 31 {
                upload.then_state(ok).then_state(true).wants()
            } else {
                Action::WriteWord((word + 1) as u8)
            }
        }),
{
}

/// The state after so many requests in vain, from the command on.
pub open spec fn after_requests(n: nat) -> Upload
    decreases n,
{
    if n == 0 {
        Upload::Settling.then_state(true).then_state(true)
    } else {
        after_requests((n - 1) as nat).then_state(false).then_state(true)
    }
}

/// The enable is written up to three times more. A table that went over DMA0
/// reports how often it was written in all, the first time included; one that was
/// never asked for goes over the CPU from its first word and reports none.
pub proof fn enable_writes_are_counted(n: nat)
    requires
        n <= 3,
    ensures
        ({
            let answered = after_requests(n).then_state(true);
            &&& answered.wants() is SendByDma
            &&& answered.then_state(true).wants() == Action::Finish(
                Some(Uploaded { enable_writes: (n + 1) as u8, by_cpu: false }),
            )
        }),
        n < 3 ==> after_requests(n).then_state(false).wants() is EnableDma,
        n == 3 ==> after_requests(n).then_state(false).then_state(true).wants()
            == Action::WriteWord(0),
    decreases n,
{
    reveal_with_fuel(after_requests, 4);
    if n > 0 {
        enable_writes_are_counted((n - 1) as nat);
    }
}

/// Loading over DMA0 without a hitch reports two enable writes and no upload over
/// the CPU; a table that went over the CPU counts as one, and a table that was
/// never asked for makes the enable writes none.
pub proof fn reports_sum_up(quant: Uploaded, scale: Uploaded)
    requires
        report_sound(quant),
        report_sound(scale),
    ensures
        ({
            let tables = summed_up(quant, scale);
            let swapped = summed_up(scale, quant);
            &&& tables == swapped
            &&& quant.enable_writes == 0 ==> tables.enable_writes == 0
            &&& quant.enable_writes > 0 && scale.enable_writes > 0 ==> tables.enable_writes
                - quant.enable_writes == scale.enable_writes
            &&& quant.by_cpu && scale.by_cpu ==> tables.cpu_uploads == 2
            &&& quant.by_cpu != scale.by_cpu ==> tables.cpu_uploads == 1
            &&& !quant.by_cpu && !scale.by_cpu ==> tables.cpu_uploads == 0
        }),
{
}

/// Loading goes from one table to the next: the quantization tables first, then
/// the IDCT basis, both over the CPU alone or neither. Both reports are summed up.
pub proof fn tables_load_in_order(load: TableLoad, ok: bool)
    requires
        load.wf(),
    ensures
        load matches TableLoad::Quant { cpu_only, upload } ==> match upload.then_state(ok).wants() {
            Action::Finish(None) => load.then_state(ok).wants() == LoadAction::Finish(None),
            Action::Finish(Some(report)) => load.then_state(ok).wants() == (LoadAction::Do {
                command: 0x6000_0000,
                action: Action::AwaitStatus { mask: 0x2000_0000, want: 0 },
            }) && load.then_state(ok) == (TableLoad::Scale {
                cpu_only,
                quant: report,
                upload: if cpu_only {
                    Upload::Resettling(0)
                } else {
                    Upload::Settling
                },
            }),
            action => load.then_state(ok).wants() == (LoadAction::Do {
                command: 0x4000_0001,
                action,
            }),
        },
        load matches TableLoad::Scale { cpu_only, quant, upload } ==> match upload.then_state(
            ok,
        ).wants() {
            Action::Finish(None) => load.then_state(ok).wants() == LoadAction::Finish(None),
            Action::Finish(Some(report)) => load.then_state(ok).then_state(true).wants()
                == LoadAction::Finish(Some(summed_up(quant, report))) && load.then_state(
                ok,
            ).then_state(false).wants() == LoadAction::Finish(None),
            action => load.then_state(ok).wants() == (LoadAction::Do {
                command: 0x6000_0000,
                action,
            }),
        },
{
}

/// A wait in vain reads the status once more than its budget says, and counts
/// every read.
pub proof fn waits_spend_their_budget(spent: u32, spins: u32)
    ensures
        judged(true, spent, spins) is Ready,
        spent >= spins ==> judged(false, spent, spins) is TimedOut,
        spent < spins ==> judged(false, spent, spins) is Again,
        judged(false, spent, spins) matches Wait::Again(n) ==> n == spent + 1 && n <= spins,
{
}

/// A decode command holds its word count in the low half and leaves the mode
/// above it alone; the blocks carry exactly the words, where they come in whole
/// blocks.
pub proof fn decode_commands_read_back(mode: u32, words: usize)
    requires
        mode % 0x1_0000 == 0,
        words < 0x1_0000,
    ensures
        decode_word(mode, words) % 0x1_0000 == words,
        decode_word(mode, words) - words == mode,
        32 * blocks_of(words) <= words < 32 * blocks_of(words) + 32,
{
    let count = (words % 0x1_0000) as u32;
    assert(mode | count == mode + count) by (bit_vector)
        requires
            mode % 0x1_0000 == 0,
            count < 0x1_0000,
    ;
}

} // verus!
