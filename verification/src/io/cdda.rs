//! Playing audio tracks: getting playback started, a clock that follows the
//! drive, and telling when a track has ended.

use vstd::prelude::*;

use crate::io::cdrom::{
    bcd, demute, play_track, set_mode, Command, CMD_DEMUTE, CMD_PLAY, CMD_SETMODE, MODE_CDDA,
};

verus! {

/// Ticks before the first command: a cold drive takes none.
pub const COLD_DRIVE_DELAY_TICKS: u32 = 45;

/// Looks for the reply to a command, unless said otherwise.
pub const DEFAULT_COMMAND_SPINS: u32 = 131_072;

/// Ticks between an accepted command and the next.
pub const RETRY_AFTER_OK_TICKS: u32 = 2;

/// Ticks between a refused command and the next try.
pub const RETRY_AFTER_NAK_TICKS: u32 = 4;

/// What is to be done next.
#[derive(Clone, Copy, Debug, PartialEq, Eq, Structural)]
pub enum StartStep {
    SetMode,
    Demute,
    Play,
    Done,
}

/// The way to playback: set the mode, unmute, play.
///
/// Ask for the command that is due, send it, drain the drive's status, and
/// report whether the command was accepted.
#[derive(Clone, Copy, Debug, PartialEq, Eq, Structural)]
pub struct CddaStarter {
    pub step: StartStep,
    pub next_try_tick: u32,
    pub spins: u32,
}

/// The tick `delay` ticks after `now`.
pub open spec fn later(now: u32, delay: u32) -> u32 {
    ((now + delay) % 0x1_0000_0000) as u32
}

/// Whether `now` is `due` or at most half the range of ticks past it.
pub open spec fn reached(now: u32, due: u32) -> bool {
    (now - due) % 0x1_0000_0000 <= 0x7FFF_FFFF
}

/// The step after an accepted one.
pub open spec fn step_after(step: StartStep) -> StartStep {
    match step {
        StartStep::SetMode => StartStep::Demute,
        StartStep::Demute => StartStep::Play,
        StartStep::Play | StartStep::Done => StartStep::Done,
    }
}

/// The command of a step.
pub open spec fn command_of(step: StartStep, track: u8) -> Option<Command> {
    match step {
        StartStep::SetMode => Some(Command { code: CMD_SETMODE, param: Some(MODE_CDDA) }),
        StartStep::Demute => Some(Command { code: CMD_DEMUTE, param: None }),
        StartStep::Play => Some(
            Command {
                code: CMD_PLAY,
                param: Some(
                    bcd(
                        if track > 99 {
                            99
                        } else {
                            track as int
                        },
                    ) as u8,
                ),
            },
        ),
        StartStep::Done => None,
    }
}

/// A starter that starts over at a tick.
pub open spec fn begun(starter: CddaStarter, now_tick: u32) -> CddaStarter {
    CddaStarter {
        step: StartStep::SetMode,
        next_try_tick: later(now_tick, COLD_DRIVE_DELAY_TICKS),
        spins: starter.spins,
    }
}

/// The command that is due at a tick, if any.
pub open spec fn due(starter: CddaStarter, now_tick: u32, track: u8) -> Option<Command> {
    if reached(now_tick, starter.next_try_tick) {
        command_of(starter.step, track)
    } else {
        None
    }
}

/// A starter whose command was accepted or refused at a tick.
pub open spec fn replied(starter: CddaStarter, now_tick: u32, accepted: bool) -> CddaStarter {
    if accepted {
        CddaStarter {
            step: step_after(starter.step),
            next_try_tick: later(now_tick, RETRY_AFTER_OK_TICKS),
            spins: starter.spins,
        }
    } else {
        CddaStarter { next_try_tick: later(now_tick, RETRY_AFTER_NAK_TICKS), ..starter }
    }
}

impl CddaStarter {
    /// Nothing to do.
    pub fn new() -> (starter: Self)
        ensures
            starter == (CddaStarter {
                step: StartStep::Done,
                next_try_tick: 0,
                spins: DEFAULT_COMMAND_SPINS,
            }),
    {
        CddaStarter { step: StartStep::Done, next_try_tick: 0, spins: DEFAULT_COMMAND_SPINS }
    }

    /// With another bound on the wait for a reply.
    pub fn with_spins(self, spins: u32) -> (starter: Self)
        ensures
            starter == (CddaStarter { spins, ..self }),
    {
        CddaStarter { step: self.step, next_try_tick: self.next_try_tick, spins }
    }

    /// Start over; the first command is due after the drive had time to warm
    /// up.
    pub fn begin(&mut self, now_tick: u32)
        ensures
            *final(self) == begun(*old(self), now_tick),
    {
        self.step = StartStep::SetMode;
        self.next_try_tick = now_tick.wrapping_add(COLD_DRIVE_DELAY_TICKS);
    }

    /// Whether playback was accepted.
    pub fn started(&self) -> (started: bool)
        ensures
            started == (self.step == StartStep::Done),
    {
        match self.step {
            StartStep::Done => true,
            _ => false,
        }
    }

    /// The pending step as a number.
    pub fn step_code(&self) -> (code: u8)
        ensures
            code == match self.step {
                StartStep::SetMode => 0int,
                StartStep::Demute => 1,
                StartStep::Play => 2,
                StartStep::Done => 3,
            },
    {
        match self.step {
            StartStep::SetMode => 0,
            StartStep::Demute => 1,
            StartStep::Play => 2,
            StartStep::Done => 3,
        }
    }

    /// The command that is due at a tick, if any.
    pub fn action(&self, now_tick: u32, track: u8) -> (command: Option<Command>)
        ensures
            command == due(*self, now_tick, track),
    {
        if now_tick.wrapping_sub(self.next_try_tick) > 0x7FFF_FFFF {
            return None;
        }
        match self.step {
            StartStep::SetMode => Some(set_mode(MODE_CDDA)),
            StartStep::Demute => Some(demute()),
            StartStep::Play => Some(play_track(track)),
            StartStep::Done => None,
        }
    }

    /// Report whether the command that was due was accepted. True when that was
    /// the command to play.
    pub fn answered(&mut self, now_tick: u32, accepted: bool) -> (playing: bool)
        ensures
            playing == (accepted && step_after(old(self).step) == StartStep::Done),
            *final(self) == replied(*old(self), now_tick, accepted),
    {
        if accepted {
            self.step = match self.step {
                StartStep::SetMode => StartStep::Demute,
                StartStep::Demute => StartStep::Play,
                StartStep::Play | StartStep::Done => StartStep::Done,
            };
            self.next_try_tick = now_tick.wrapping_add(RETRY_AFTER_OK_TICKS);
            self.started()
        } else {
            self.next_try_tick = now_tick.wrapping_add(RETRY_AFTER_NAK_TICKS);
            false
        }
    }
}

/// The commands come in order, three accepted ones lead to playback, and then
/// there is nothing more to send.
pub proof fn handshake_takes_three_commands(track: u8)
    ensures
        command_of(StartStep::SetMode, track) is Some,
        step_after(StartStep::SetMode) == StartStep::Demute,
        command_of(StartStep::Demute, track) is Some,
        step_after(step_after(StartStep::SetMode)) == StartStep::Play,
        command_of(StartStep::Play, track) is Some,
        step_after(step_after(step_after(StartStep::SetMode))) == StartStep::Done,
        command_of(StartStep::Done, track) is None,
{
}

/// Tells when a track has ended: the drive was seen playing, and then neither
/// playing nor seeking for a number of looks in a row.
#[derive(Clone, Copy, Debug, PartialEq, Eq, Structural)]
pub struct CddaEndDetector {
    pub armed: bool,
    pub quiet_polls: u8,
    pub threshold: u8,
}

/// Whether a drive status shows playing.
pub open spec fn shows_playing(status: u8) -> bool {
    status >= 0x80
}

/// Whether a drive status shows neither playing nor seeking.
pub open spec fn shows_quiet(status: u8) -> bool {
    status < 0x40
}

/// The detector after a look at the drive, none if the drive did not answer,
/// and whether the track has ended.
pub open spec fn polled(d: CddaEndDetector, status: Option<u8>) -> (CddaEndDetector, bool) {
    match status {
        None => (CddaEndDetector { quiet_polls: 0, ..d }, false),
        Some(status) => if shows_playing(status) {
            (CddaEndDetector { armed: true, quiet_polls: 0, ..d }, false)
        } else if !d.armed || !shows_quiet(status) {
            (CddaEndDetector { quiet_polls: 0, ..d }, false)
        } else if d.quiet_polls + 1 >= d.threshold {
            (CddaEndDetector { armed: false, quiet_polls: 0, ..d }, true)
        } else {
            (CddaEndDetector { quiet_polls: (d.quiet_polls + 1) as u8, ..d }, false)
        },
    }
}

impl CddaEndDetector {
    /// The count of quiet looks stays below the threshold.
    pub open spec fn wf(self) -> bool {
        self.quiet_polls == 0 || self.quiet_polls < self.threshold
    }

    /// A detector that takes `threshold` quiet looks for the end.
    pub fn new(threshold: u8) -> (detector: Self)
        ensures
            detector == (CddaEndDetector { armed: false, quiet_polls: 0, threshold }),
            detector.wf(),
    {
        CddaEndDetector { armed: false, quiet_polls: 0, threshold }
    }

    /// Playback starts anew: wait until the drive is seen playing.
    pub fn rearm(&mut self)
        ensures
            *final(self) == (CddaEndDetector { armed: false, quiet_polls: 0, ..*old(self) }),
            final(self).wf(),
    {
        self.armed = false;
        self.quiet_polls = 0;
    }

    /// Look at the drive status. True when the track has ended.
    pub fn poll(&mut self, status: Option<u8>) -> (ended: bool)
        requires
            old(self).wf(),
        ensures
            (*final(self), ended) == polled(*old(self), status),
            final(self).wf(),
    {
        let status: u8 = match status {
            Some(status) => status,
            None => {
                self.quiet_polls = 0;
                return false;
            },
        };
        if status >= 0x80 {
            self.armed = true;
            self.quiet_polls = 0;
            return false;
        }
        if !self.armed || status >= 0x40 {
            self.quiet_polls = 0;
            return false;
        }
        if self.quiet_polls as u16 + 1 >= self.threshold as u16 {
            self.rearm();
            return true;
        }
        self.quiet_polls = self.quiet_polls + 1;
        false
    }

    /// Whether the drive was seen playing.
    pub fn armed(&self) -> (armed: bool)
        ensures
            armed == self.armed,
    {
        self.armed
    }

    /// Quiet looks in a row.
    pub fn quiet_polls(&self) -> (polls: u8)
        ensures
            polls == self.quiet_polls,
    {
        self.quiet_polls
    }
}

/// The detector after a series of looks.
pub open spec fn polled_all(d: CddaEndDetector, looks: Seq<Option<u8>>) -> CddaEndDetector
    decreases looks.len(),
{
    if looks.len() == 0 {
        d
    } else {
        polled(polled_all(d, looks.drop_last()), looks.last()).0
    }
}

/// Whether a series of looks ended a track.
pub open spec fn ends_track(d: CddaEndDetector, looks: Seq<Option<u8>>) -> bool
    decreases looks.len(),
{
    looks.len() > 0 && (ends_track(d, looks.drop_last()) || polled(
        polled_all(d, looks.drop_last()),
        looks.last(),
    ).1)
}

/// Until the drive is seen playing, nothing it reports ends a track.
pub proof fn spin_up_ends_no_track(d: CddaEndDetector, looks: Seq<Option<u8>>)
    requires
        !d.armed,
        forall|i: int|
            0 <= i < looks.len() ==> match #[trigger] looks[i] {
                Some(status) => !shows_playing(status),
                None => true,
            },
    ensures
        !ends_track(d, looks),
        !polled_all(d, looks).armed,
    decreases looks.len(),
{
    if looks.len() > 0 {
        assert forall|i: int| 0 <= i < looks.drop_last().len() implies match
        #[trigger] looks.drop_last()[i] {
            Some(status) => !shows_playing(status),
            None => true,
        } by {
            assert(looks.drop_last()[i] == looks[i]);
        }
        spin_up_ends_no_track(d, looks.drop_last());
        let last = looks[looks.len() - 1];
        assert(looks.last() == last);
    }
}

/// After the drive was seen playing, the first `threshold` quiet looks in a row
/// end the track with the last of them, and disarm the detector.
pub proof fn quiet_drive_ends_the_track(d: CddaEndDetector, looks: Seq<Option<u8>>)
    requires
        d.armed,
        d.quiet_polls == 0,
        0 < looks.len() <= d.threshold,
        forall|i: int|
            0 <= i < looks.len() ==> (#[trigger] looks[i]) is Some && shows_quiet(looks[i]->0),
    ensures
        ends_track(d, looks) == (looks.len() == d.threshold),
        polled_all(d, looks) == if looks.len() == d.threshold {
            CddaEndDetector { armed: false, quiet_polls: 0, ..d }
        } else {
            CddaEndDetector { quiet_polls: looks.len() as u8, ..d }
        },
    decreases looks.len(),
{
    let before = looks.drop_last();
    assert(looks.last() == looks[looks.len() - 1]);
    if before.len() > 0 {
        assert forall|i: int| 0 <= i < before.len() implies (#[trigger] before[i]) is Some
            && shows_quiet(before[i]->0) by {
            assert(before[i] == looks[i]);
        }
        quiet_drive_ends_the_track(d, before);
    } else {
        assert(polled_all(d, before) == d);
        assert(!ends_track(d, before));
    }
}

/// Readings this close to the prediction are noise.
pub const DEADBAND_MS: u32 = 5;

/// A reading farther from the prediction than this needs a second one near it.
pub const SPIKE_MS: u32 = 150;

/// Ticks between readings.
pub const RESYNC_TICKS: u32 = 30;

/// A clock for the position in a track, in milliseconds. It counts ticks from
/// an anchor, and moves the anchor to readings of the drive.
#[derive(Clone, Copy, Debug, PartialEq, Eq, Structural)]
pub struct CddaClock {
    pub ticks_hz: u32,
    pub anchor_ms: u32,
    pub anchor_tick: u32,
    pub last_now_ms: u32,
    pub last_poll_tick: u32,
    pub pending_spike_ms: Option<u32>,
    pub playing: bool,
}

/// Ticks from one to another, modulo 2^32.
pub open spec fn ticks_since(now: u32, then: u32) -> int {
    (now - then) % 0x1_0000_0000
}

/// The position that a clock expects at a tick, modulo 2^32.
pub open spec fn predicted(c: CddaClock, now: u32) -> u32 {
    ((c.anchor_ms + ticks_since(now, c.anchor_tick) * 1000 / c.ticks_hz as int) % 0x1_0000_0000)
        as u32
}

/// How far two positions are apart.
pub open spec fn apart(a: u32, b: u32) -> int {
    if a >= b {
        a - b
    } else {
        b - a
    }
}

/// The clock after a reading of the drive.
pub open spec fn considered(c: CddaClock, now: u32, drive_ms: u32) -> CddaClock {
    let off = apart(drive_ms, predicted(c, now));
    let anchored = CddaClock {
        anchor_ms: drive_ms,
        anchor_tick: now,
        pending_spike_ms: None,
        ..c
    };
    if off <= DEADBAND_MS {
        CddaClock { pending_spike_ms: None, ..c }
    } else if off > SPIKE_MS {
        if c.pending_spike_ms is Some && apart(drive_ms, c.pending_spike_ms->0) <= SPIKE_MS {
            CddaClock { last_now_ms: drive_ms, ..anchored }
        } else {
            CddaClock { pending_spike_ms: Some(drive_ms), ..c }
        }
    } else if drive_ms >= c.last_now_ms {
        anchored
    } else {
        CddaClock { pending_spike_ms: None, ..c }
    }
}

/// Whether a reading is due.
pub open spec fn reading_due(c: CddaClock, now: u32) -> bool {
    c.playing && ticks_since(now, c.last_poll_tick) >= RESYNC_TICKS
}

/// The clock after a tick, with the reading of the drive, if there was one.
pub open spec fn ticked(c: CddaClock, now: u32, reading: Option<u32>) -> CddaClock {
    if !c.playing {
        c
    } else {
        let polled = if reading_due(c, now) {
            let looked = CddaClock { last_poll_tick: now, ..c };
            match reading {
                Some(drive_ms) => considered(looked, now, drive_ms),
                None => looked,
            }
        } else {
            c
        };
        CddaClock {
            last_now_ms: if predicted(polled, now) > polled.last_now_ms {
                predicted(polled, now)
            } else {
                polled.last_now_ms
            },
            ..polled
        }
    }
}

impl CddaClock {
    /// A stopped clock that counts `ticks_hz` ticks in a second.
    pub fn new(ticks_hz: u32) -> (clock: Self)
        ensures
            clock == (CddaClock {
                ticks_hz,
                anchor_ms: 0,
                anchor_tick: 0,
                last_now_ms: 0,
                last_poll_tick: 0,
                pending_spike_ms: None,
                playing: false,
            }),
    {
        CddaClock {
            ticks_hz,
            anchor_ms: 0,
            anchor_tick: 0,
            last_now_ms: 0,
            last_poll_tick: 0,
            pending_spike_ms: None,
            playing: false,
        }
    }

    /// Playback starts at this tick.
    pub fn start(&mut self, now_tick: u32)
        ensures
            *final(self) == (CddaClock {
                ticks_hz: old(self).ticks_hz,
                anchor_ms: 0,
                anchor_tick: now_tick,
                last_now_ms: 0,
                last_poll_tick: now_tick,
                pending_spike_ms: None,
                playing: true,
            }),
    {
        self.anchor_ms = 0;
        self.anchor_tick = now_tick;
        self.last_now_ms = 0;
        self.last_poll_tick = now_tick;
        self.pending_spike_ms = None;
        self.playing = true;
    }

    /// Whether playback has started.
    pub fn playing(&self) -> (playing: bool)
        ensures
            playing == self.playing,
    {
        self.playing
    }

    /// Whether the drive is to be asked for its position at this tick.
    pub fn wants_reading(&self, now_tick: u32) -> (wants: bool)
        ensures
            wants == reading_due(*self, now_tick),
    {
        self.playing && now_tick.wrapping_sub(self.last_poll_tick) >= RESYNC_TICKS
    }

    /// The position at a tick. `reading` is what the drive said, if it was to
    /// be asked and answered.
    pub fn tick(&mut self, now_tick: u32, reading: Option<u32>) -> (now_ms: u32)
        requires
            old(self).playing ==> old(self).ticks_hz > 0,
        ensures
            *final(self) == ticked(*old(self), now_tick, reading),
            now_ms == if old(self).playing {
                final(self).last_now_ms
            } else {
                0
            },
    {
        if !self.playing {
            return 0;
        }
        if self.wants_reading(now_tick) {
            self.last_poll_tick = now_tick;
            if let Some(drive_ms) = reading {
                self.consider_anchor(now_tick, drive_ms);
            }
        }
        let now: u32 = self.predict(now_tick);
        if now > self.last_now_ms {
            self.last_now_ms = now;
        }
        self.last_now_ms
    }

    /// The position that the clock expects at a tick.
    pub fn predict(&self, now_tick: u32) -> (ms: u32)
        requires
            self.ticks_hz > 0,
        ensures
            ms == predicted(*self, now_tick),
    {
        let elapsed: u64 = now_tick.wrapping_sub(self.anchor_tick) as u64;
        let passed: u64 = elapsed * 1000 / self.ticks_hz as u64;
        assert(passed <= elapsed * 1000) by (nonlinear_arith)
            requires
                passed == (elapsed * 1000) / (self.ticks_hz as int),
                self.ticks_hz > 0,
                elapsed >= 0,
        ;
        ((self.anchor_ms as u64 + passed) % 0x1_0000_0000) as u32
    }

    /// Take a reading of the drive in.
    pub fn consider_anchor(&mut self, now_tick: u32, drive_ms: u32)
        requires
            old(self).ticks_hz > 0,
        ensures
            *final(self) == considered(*old(self), now_tick, drive_ms),
    {
        let off: u32 = gap(drive_ms, self.predict(now_tick));
        if off <= DEADBAND_MS {
            self.pending_spike_ms = None;
            return;
        }
        if off > SPIKE_MS {
            let confirmed: bool = match self.pending_spike_ms {
                Some(held) => gap(drive_ms, held) <= SPIKE_MS,
                None => false,
            };
            if confirmed {
                self.set_anchor(now_tick, drive_ms);
                self.last_now_ms = drive_ms;
                self.pending_spike_ms = None;
            } else {
                self.pending_spike_ms = Some(drive_ms);
            }
            return;
        }
        self.pending_spike_ms = None;
        if drive_ms >= self.last_now_ms {
            self.set_anchor(now_tick, drive_ms);
        }
    }

    /// Count from a position at a tick.
    pub fn set_anchor(&mut self, now_tick: u32, drive_ms: u32)
        ensures
            *final(self) == (CddaClock {
                anchor_ms: drive_ms,
                anchor_tick: now_tick,
                ..*old(self)
            }),
    {
        self.anchor_ms = drive_ms;
        self.anchor_tick = now_tick;
    }
}

fn gap(a: u32, b: u32) -> (g: u32)
    ensures
        g == apart(a, b),
{
    if a >= b {
        a - b
    } else {
        b - a
    }
}

/// The clock goes back only on a reading that confirms the one before it, both
/// of them far from the prediction.
pub proof fn clock_goes_back_only_when_confirmed(c: CddaClock, now: u32, reading: Option<u32>)
    requires
        c.playing,
        ticked(c, now, reading).last_now_ms < c.last_now_ms,
    ensures
        reading_due(c, now),
        reading is Some,
        c.pending_spike_ms is Some,
        apart(reading->0, c.pending_spike_ms->0) <= SPIKE_MS,
        apart(reading->0, predicted(c, now)) > SPIKE_MS,
{
}

/// A lone far reading changes nothing but what the next one is held against.
pub proof fn lone_spike_is_held(c: CddaClock, now: u32, drive_ms: u32)
    requires
        apart(drive_ms, predicted(c, now)) > SPIKE_MS,
        c.pending_spike_ms is None,
    ensures
        considered(c, now, drive_ms) == (CddaClock { pending_spike_ms: Some(drive_ms), ..c }),
{
}

/// A drive that agrees with the prediction leaves the anchor where it is.
pub proof fn agreement_keeps_the_anchor(c: CddaClock, now: u32, drive_ms: u32)
    requires
        apart(drive_ms, predicted(c, now)) <= DEADBAND_MS,
    ensures
        considered(c, now, drive_ms).anchor_ms == c.anchor_ms,
        considered(c, now, drive_ms).anchor_tick == c.anchor_tick,
        considered(c, now, drive_ms).last_now_ms == c.last_now_ms,
{
}

} // verus!
