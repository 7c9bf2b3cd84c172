//! The disc controller: commands, replies, and positions of the head.

use vstd::prelude::*;

verus! {

/// Registers of the controller.
pub const BASE: u32 = 0x1F80_1800;

/// Mode bit: play audio tracks.
pub const MODE_CDDA: u8 = 0x01;

/// Mode bit: pause at the end of a track.
pub const MODE_AUTO_PAUSE: u8 = 0x02;

/// Mode bit: report the position while playing.
pub const MODE_REPORT: u8 = 0x04;

/// Mode bit: read at double speed.
pub const MODE_DOUBLE_SPEED: u8 = 0x80;

/// Status bit: playing.
pub const STAT_PLAYING: u8 = 0x80;

/// Status bit: seeking.
pub const STAT_SEEKING: u8 = 0x40;

/// Play.
pub const CMD_PLAY: u8 = 0x03;

/// Get the drive status.
pub const CMD_GETSTAT: u8 = 0x01;

/// Stop the motor.
pub const CMD_STOP: u8 = 0x08;

/// Pause.
pub const CMD_PAUSE: u8 = 0x09;

/// Mute audio.
pub const CMD_MUTE: u8 = 0x0B;

/// Unmute audio.
pub const CMD_DEMUTE: u8 = 0x0C;

/// Set the mode.
pub const CMD_SETMODE: u8 = 0x0E;

/// Get the position of the head.
pub const CMD_GETLOCP: u8 = 0x11;

/// Interrupt: command acknowledged.
pub const IRQ_ACK: u8 = 3;

/// Interrupt: command complete.
pub const IRQ_COMPLETE: u8 = 2;

/// Interrupt: error.
pub const IRQ_ERROR: u8 = 5;

/// Controller status bit: there is room for a parameter.
pub const STATUS_PARAM_NOT_FULL: u8 = 0x10;

/// Controller status bit: there is a byte of a reply.
pub const STATUS_RESPONSE_NOT_EMPTY: u8 = 0x20;

/// Bytes that a reply has at most.
pub const RESPONSE_CAPACITY: usize = 16;

/// A number below one hundred as two decimal digits.
pub open spec fn bcd(n: int) -> int {
    16 * (n / 10) + n % 10
}

/// Two decimal digits as a number.
pub open spec fn from_bcd(b: int) -> int {
    10 * (b / 16) + b % 16
}

/// Turn a number into two decimal digits; numbers above 99 become 99.
pub fn bin_to_bcd(v: u8) -> (b: u8)
    ensures
        b == bcd(
            if v > 99 {
                99
            } else {
                v as int
            },
        ),
{
    let n: u8 = if v > 99 {
        99
    } else {
        v
    };
    16 * (n / 10) + n % 10
}

/// Turn two decimal digits into a number.
pub fn bcd_to_bin(v: u8) -> (n: u8)
    ensures
        n == from_bcd(v as int),
{
    10 * (v / 16) + v % 16
}

/// Digits give back the number that they came from.
pub proof fn bcd_round_trips(n: int)
    requires
        0 <= n <= 99,
    ensures
        0 <= bcd(n) <= 0x99,
        from_bcd(bcd(n)) == n,
{
}

/// A command and its parameter, if it has one.
#[derive(Clone, Copy, Debug, PartialEq, Eq, Structural)]
pub struct Command {
    pub code: u8,
    pub param: Option<u8>,
}

/// The command to get the drive status.
pub fn get_stat() -> (command: Command)
    ensures
        command == (Command { code: CMD_GETSTAT, param: None }),
{
    Command { code: CMD_GETSTAT, param: None }
}

/// The command to set the mode.
pub fn set_mode(mode: u8) -> (command: Command)
    ensures
        command == (Command { code: CMD_SETMODE, param: Some(mode) }),
{
    Command { code: CMD_SETMODE, param: Some(mode) }
}

/// The command to unmute audio.
pub fn demute() -> (command: Command)
    ensures
        command == (Command { code: CMD_DEMUTE, param: None }),
{
    Command { code: CMD_DEMUTE, param: None }
}

/// The command to mute audio.
pub fn mute() -> (command: Command)
    ensures
        command == (Command { code: CMD_MUTE, param: None }),
{
    Command { code: CMD_MUTE, param: None }
}

/// The command to play from a track on.
pub fn play_track(track: u8) -> (command: Command)
    ensures
        command.code == CMD_PLAY,
        command.param is Some,
        command.param->0 == bcd(
            if track > 99 {
                99
            } else {
                track as int
            },
        ),
{
    Command { code: CMD_PLAY, param: Some(bin_to_bcd(track)) }
}

/// The command to pause.
pub fn pause() -> (command: Command)
    ensures
        command == (Command { code: CMD_PAUSE, param: None }),
{
    Command { code: CMD_PAUSE, param: None }
}

/// The command to stop the motor.
pub fn stop() -> (command: Command)
    ensures
        command == (Command { code: CMD_STOP, param: None }),
{
    Command { code: CMD_STOP, param: None }
}

/// The command to get the position of the head.
pub fn get_loc_p() -> (command: Command)
    ensures
        command == (Command { code: CMD_GETLOCP, param: None }),
{
    Command { code: CMD_GETLOCP, param: None }
}

/// A reply.
#[derive(Clone, Copy, Debug, PartialEq, Eq)]
pub struct Response {
    bytes: [u8; 16],
    len: usize,
}

impl View for Response {
    type V = Seq<u8>;

    closed spec fn view(&self) -> Seq<u8> {
        self.bytes@.take(self.len as int)
    }
}

impl Response {
    #[verifier::type_invariant]
    closed spec fn wf(self) -> bool {
        self.len <= 16
    }

    /// An empty reply.
    pub fn new() -> (response: Response)
        ensures
            response@ == Seq::<u8>::empty(),
    {
        let response = Response {
            bytes: [0, 0, 0, 0, 0, 0, 0, 0, 0, 0, 0, 0, 0, 0, 0, 0],
            len: 0,
        };
        assert(response@ =~= Seq::<u8>::empty());
        response
    }

    /// Whether another byte is to be read, `status` being the controller's: it
    /// has one, and there is room for it.
    pub fn wants_more(&self, status: u8) -> (more: bool)
        ensures
            more == ((status as int / 32) % 2 == 1 && self@.len() < RESPONSE_CAPACITY),
    {
        proof {
            use_type_invariant(self);
        }
        (status / 32) % 2 == 1 && self.len < RESPONSE_CAPACITY
    }

    /// The reply with another byte at the end.
    pub fn with(self, byte: u8) -> (response: Response)
        requires
            self@.len() < RESPONSE_CAPACITY,
        ensures
            response@ == self@.push(byte),
    {
        proof {
            use_type_invariant(&self);
        }
        let mut bytes: [u8; 16] = self.bytes;
        bytes[self.len] = byte;
        let response = Response { bytes, len: self.len + 1 };
        assert(response@ =~= self@.push(byte));
        response
    }

    /// Number of bytes.
    pub fn len(&self) -> (len: usize)
        ensures
            len == self@.len(),
    {
        proof {
            use_type_invariant(self);
        }
        self.len
    }

    /// Whether there are no bytes.
    pub fn is_empty(&self) -> (empty: bool)
        ensures
            empty == (self@.len() == 0),
    {
        proof {
            use_type_invariant(self);
        }
        self.len == 0
    }

    /// The bytes.
    pub fn bytes(&self) -> (bytes: &[u8])
        ensures
            bytes@ == self@,
    {
        proof {
            use_type_invariant(self);
        }
        let all: &[u8] = self.bytes.as_slice();
        let bytes: &[u8] = &all[0..self.len];
        assert(bytes@ =~= self@);
        bytes
    }
}

/// Where the head is: in its track, and on the disc.
#[derive(Clone, Copy, Debug, PartialEq, Eq, Structural)]
pub struct PlayPosition {
    pub track: u8,
    pub index: u8,
    pub relative_min: u8,
    pub relative_sec: u8,
    pub relative_frame: u8,
    pub absolute_min: u8,
    pub absolute_sec: u8,
    pub absolute_frame: u8,
}

/// The position in a reply of at least eight bytes. All of them are decimal
/// digits but the index.
pub open spec fn position_of(reply: Seq<u8>) -> Option<PlayPosition> {
    if reply.len() < 8 {
        None
    } else {
        Some(
            PlayPosition {
                track: from_bcd(reply[0] as int) as u8,
                index: reply[1],
                relative_min: from_bcd(reply[2] as int) as u8,
                relative_sec: from_bcd(reply[3] as int) as u8,
                relative_frame: from_bcd(reply[4] as int) as u8,
                absolute_min: from_bcd(reply[5] as int) as u8,
                absolute_sec: from_bcd(reply[6] as int) as u8,
                absolute_frame: from_bcd(reply[7] as int) as u8,
            },
        )
    }
}

/// Sectors into the track: 75 in a second.
pub open spec fn sectors_into(position: PlayPosition) -> int {
    (60 * position.relative_min + position.relative_sec) * 75 + position.relative_frame
}

/// Milliseconds into the track.
pub open spec fn millis_into(position: PlayPosition) -> int {
    sectors_into(position) * 1000 / 75
}

impl PlayPosition {
    /// Read a position out of a reply.
    pub fn parse(resp: &Response) -> (position: Option<PlayPosition>)
        ensures
            position == position_of(resp@),
    {
        let b: &[u8] = resp.bytes();
        if b.len() < 8 {
            return None;
        }
        Some(
            PlayPosition {
                track: bcd_to_bin(b[0]),
                index: b[1],
                relative_min: bcd_to_bin(b[2]),
                relative_sec: bcd_to_bin(b[3]),
                relative_frame: bcd_to_bin(b[4]),
                absolute_min: bcd_to_bin(b[5]),
                absolute_sec: bcd_to_bin(b[6]),
                absolute_frame: bcd_to_bin(b[7]),
            },
        )
    }

    /// Sectors into the track.
    pub fn relative_sectors(&self) -> (sectors: u32)
        ensures
            sectors == sectors_into(*self),
            sectors <= 1_167_330,
    {
        (self.relative_min as u32 * 60 + self.relative_sec as u32) * 75
            + self.relative_frame as u32
    }

    /// Milliseconds into the track.
    pub fn relative_millis(&self) -> (millis: u32)
        ensures
            millis == millis_into(*self),
    {
        self.relative_sectors() * 1000 / 75
    }
}

} // verus!
