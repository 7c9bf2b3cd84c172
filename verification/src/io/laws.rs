//! What digits, positions, ticks and the clock mean.

use vstd::prelude::*;

use crate::io::cdda::{
    apart, begun, command_of, considered, due, later, polled, predicted, reached, reading_due,
    replied, shows_playing, shows_quiet, step_after, ticked, ticks_since, CddaClock,
    CddaEndDetector, CddaStarter, StartStep,
};
use crate::io::cdrom::{
    bcd, from_bcd, millis_into, position_of, sectors_into, Command, PlayPosition,
};

verus! {

/// Two decimal digits: a number below ten is its own digit, and ten more is one
/// more in the upper half.
pub proof fn digits_are_decimal(n: int, tens: int, ones: int)
    requires
        0 <= n <= 89,
        0 <= tens <= 9,
        0 <= ones <= 9,
    ensures
        n <= 9 ==> bcd(n) == n,
        bcd(n + 10) == bcd(n) + 16,
        bcd(10 * tens + ones) == 16 * tens + ones,
        from_bcd(16 * tens + ones) == 10 * tens + ones,
{
}

proof fn digits_read_back(n: u8)
    requires
        n <= 99,
    ensures
        from_bcd(16 * (n as int / 10) + n as int % 10) == n,
{
    let (tens, ones) = (n as int / 10, n as int % 10);
    assert(n == 10 * tens + ones && 0 <= tens <= 9 && 0 <= ones <= 9);
    digits_are_decimal(0, tens, ones);
}

/// A reply holds the track, the index, and two times of three numbers each: in
/// the track and on the disc. All but the index are decimal digits.
pub proof fn positions_read_back(reply: Seq<u8>, p: PlayPosition)
    requires
        reply.len() >= 8,
        p.track <= 99,
        p.relative_min <= 99,
        p.relative_sec <= 99,
        p.relative_frame <= 99,
        p.absolute_min <= 99,
        p.absolute_sec <= 99,
        p.absolute_frame <= 99,
        reply[0] == 16 * (p.track / 10) + p.track % 10,
        reply[1] == p.index,
        reply[2] == 16 * (p.relative_min / 10) + p.relative_min % 10,
        reply[3] == 16 * (p.relative_sec / 10) + p.relative_sec % 10,
        reply[4] == 16 * (p.relative_frame / 10) + p.relative_frame % 10,
        reply[5] == 16 * (p.absolute_min / 10) + p.absolute_min % 10,
        reply[6] == 16 * (p.absolute_sec / 10) + p.absolute_sec % 10,
        reply[7] == 16 * (p.absolute_frame / 10) + p.absolute_frame % 10,
    ensures
        position_of(reply) == Some(p),
{
    digits_read_back(p.track);
    digits_read_back(p.relative_min);
    digits_read_back(p.relative_sec);
    digits_read_back(p.relative_frame);
    digits_read_back(p.absolute_min);
    digits_read_back(p.absolute_sec);
    digits_read_back(p.absolute_frame);
}

/// Sectors count up by one with the frame, by 75 with the second and by 60
/// seconds with the minute. A second of sectors takes a thousand milliseconds.
pub proof fn sectors_count_time(p: PlayPosition)
    requires
        p.relative_min < 255,
        p.relative_sec < 255,
        p.relative_frame < 255,
    ensures
        p.relative_min == 0 && p.relative_sec == 0 ==> sectors_into(p) == p.relative_frame,
        sectors_into(PlayPosition { relative_frame: (p.relative_frame + 1) as u8, ..p })
            == sectors_into(p) + 1,
        sectors_into(PlayPosition { relative_sec: (p.relative_sec + 1) as u8, ..p })
            == sectors_into(p) + 75,
        sectors_into(PlayPosition { relative_min: (p.relative_min + 1) as u8, ..p })
            == sectors_into(p) + 60 * 75,
        millis_into(PlayPosition { relative_sec: (p.relative_sec + 1) as u8, ..p })
            == millis_into(p) + 1000,
        75 * millis_into(p) <= 1000 * sectors_into(p) < 75 * millis_into(p) + 75,
{
}

/// A time is not reached before it comes, is reached when it comes, and stays so
/// for half of the range of ticks.
pub proof fn times_come(now: u32, delay: u32, after: u32)
    requires
        0 < delay <= 0x8000_0000,
        after <= 0x7FFF_FFFF,
    ensures
        !reached(now, later(now, delay)),
        reached(later(now, delay), later(now, delay)),
        reached(later(later(now, delay), after), later(now, delay)),
        ticks_since(later(now, delay), now) == delay,
{
}

/// The way to playback: set the mode to audio, unmute, play the track.
pub proof fn playback_starts_in_order(track: u8)
    requires
        track <= 99,
    ensures
        command_of(StartStep::SetMode, track) == Some(Command { code: 0x0E, param: Some(0x01) }),
        command_of(StartStep::Demute, track) == Some(Command { code: 0x0C, param: None }),
        command_of(StartStep::Play, track) is Some,
        (command_of(StartStep::Play, track)->0).code == 0x03,
        (command_of(StartStep::Play, track)->0).param is Some,
        ({
            let digits = (command_of(StartStep::Play, track)->0).param->0;
            digits / 16 == track / 10 && digits % 16 == track % 10
        }),
        step_after(StartStep::SetMode) == StartStep::Demute,
        step_after(StartStep::Demute) == StartStep::Play,
        step_after(StartStep::Play) == StartStep::Done,
{
}

/// A status shows playing by its highest bit, and quiet by neither that nor the
/// seeking bit below it.
pub proof fn status_bits_tell(status: u8)
    ensures
        shows_playing(status) <==> status & 0x80 != 0,
        shows_quiet(status) <==> status & 0x80 == 0 && status & 0x40 == 0,
{
    assert(status >= 0x80 <==> status & 0x80 != 0) by (bit_vector);
    assert(status < 0x40 <==> status & 0x80 == 0 && status & 0x40 == 0) by (bit_vector);
}

/// A look that shows playing arms the detector; one that shows seeking, or none,
/// begins the count of quiet looks again; neither ends a track.
pub proof fn only_quiet_looks_count(d: CddaEndDetector, status: u8)
    ensures
        polled(d, None).1 == false,
        polled(d, None).0.quiet_polls == 0,
        polled(d, None).0.armed == d.armed,
        status & 0x80 != 0 ==> polled(d, Some(status)).0.armed && !polled(d, Some(status)).1,
        status & 0xC0 != 0 ==> polled(d, Some(status)).0.quiet_polls == 0 && !polled(
            d,
            Some(status),
        ).1,
        status & 0x80 == 0 && status & 0x40 != 0 ==> polled(d, Some(status)).0.armed == d.armed,
{
    status_bits_tell(status);
    assert(status & 0xC0 != 0 <==> status & 0x80 != 0 || status & 0x40 != 0) by (bit_vector);
}

/// The clock stands at its anchor where it was set, and gains the milliseconds of
/// the ticks since, rounded down, until it runs over 32 bits.
pub proof fn clock_counts_from_its_anchor(c: CddaClock, now: u32)
    requires
        c.ticks_hz > 0,
        c.anchor_ms + ticks_since(now, c.anchor_tick) * 1000 / c.ticks_hz as int <= u32::MAX,
    ensures
        predicted(c, c.anchor_tick) == c.anchor_ms,
        ({
            let gained = predicted(c, now) - c.anchor_ms;
            let ticks = ticks_since(now, c.anchor_tick);
            &&& gained * c.ticks_hz <= 1000 * ticks
            &&& 1000 * ticks < gained * c.ticks_hz + c.ticks_hz
        }),
{
    let hz = c.ticks_hz as int;
    let x = ticks_since(now, c.anchor_tick) * 1000;
    vstd::arithmetic::div_mod::lemma_fundamental_div_mod(x, hz);
    vstd::arithmetic::div_mod::lemma_mod_bound(x, hz);
    vstd::arithmetic::div_mod::lemma_div_pos_is_pos(x, hz);
    assert(hz * (x / hz) == (x / hz) * hz) by (nonlinear_arith);
    assert(ticks_since(c.anchor_tick, c.anchor_tick) * 1000 == 0);
    vstd::arithmetic::div_mod::lemma_basic_div(0, hz);
}

/// A reading that drifted by more than 5 and no more than 150 milliseconds, and
/// does not go back, is where the clock goes on from; so is one farther off that
/// comes within 150 milliseconds of the far reading before it.
pub proof fn drift_moves_the_anchor(c: CddaClock, now: u32, drive_ms: u32)
    requires
        c.ticks_hz > 0,
    ensures
        ({
            let off = apart(drive_ms, predicted(c, now));
            let next = considered(c, now, drive_ms);
            &&& 5 < off <= 150 && drive_ms >= c.last_now_ms ==> predicted(next, now) == drive_ms
                && next.anchor_tick == now && next.pending_spike_ms is None
            &&& 5 < off <= 150 && drive_ms < c.last_now_ms ==> predicted(next, now) == predicted(
                c,
                now,
            )
            &&& off > 150 && c.pending_spike_ms is Some && apart(drive_ms, c.pending_spike_ms->0)
                <= 150 ==> predicted(next, now) == drive_ms && next.last_now_ms == drive_ms
            &&& off <= 5 ==> predicted(next, now) == predicted(c, now)
        }),
{
    let next = considered(c, now, drive_ms);
    let hz = c.ticks_hz as int;
    assert(ticks_since(now, now) * 1000 == 0);
    vstd::arithmetic::div_mod::lemma_basic_div(0, hz);
}

/// Distance between positions does not depend on which comes first.
pub proof fn distance_is_symmetric(a: u32, b: u32)
    ensures
        apart(a, b) == apart(b, a),
        apart(a, b) >= 0,
        a <= b ==> a + apart(a, b) == b,
{
}

/// Between readings the clock shows what it predicts, and never less than it has
/// shown. A reading is due 30 ticks after the last.
pub proof fn clock_shows_the_prediction(c: CddaClock, now: u32)
    requires
        c.playing,
    ensures
        ticked(c, now, None).last_now_ms >= c.last_now_ms,
        ticked(c, now, None).last_now_ms >= predicted(c, now),
        ticked(c, now, None).last_now_ms == c.last_now_ms || ticked(c, now, None).last_now_ms
            == predicted(c, now),
        reading_due(c, now) <==> ticks_since(now, c.last_poll_tick) >= 30,
        reading_due(c, now) ==> !reading_due(ticked(c, now, None), now),
{
}

proof fn pauses_end_on_time(now: u32, delay: u32, ticks: u32)
    requires
        delay < 0x100,
        ticks <= 0x7FFF_FFFF,
    ensures
        reached(later(now, ticks), later(now, delay)) <==> ticks >= delay,
{
}

/// Nothing is sent while the drive warms up, and then the mode is set first. An
/// accepted command is followed by the next one, a refused one comes again, each
/// after its own pause and not before.
pub proof fn commands_wait_for_their_time(
    starter: CddaStarter,
    now: u32,
    track: u8,
    ticks: u32,
)
    requires
        ticks <= 0x7FFF_FFFF,
    ensures
        ({
            let fresh = begun(starter, now);
            let next = replied(starter, now, true);
            let again = replied(starter, now, false);
            &&& ticks < 45 ==> due(fresh, later(now, ticks), track) is None
            &&& ticks >= 45 ==> due(fresh, later(now, ticks), track) == Some(
                Command { code: 0x0E, param: Some(0x01) },
            )
            &&& ticks < 2 ==> due(next, later(now, ticks), track) is None
            &&& ticks >= 2 && starter.step == StartStep::SetMode ==> due(
                next,
                later(now, ticks),
                track,
            ) == Some(Command { code: 0x0C, param: None })
            &&& ticks >= 2 && starter.step == StartStep::Demute ==> due(
                next,
                later(now, ticks),
                track,
            ) is Some && (due(next, later(now, ticks), track)->0).code == 0x03
            &&& starter.step == StartStep::Play ==> due(next, later(now, ticks), track) is None
            &&& ticks < 4 ==> due(again, later(now, ticks), track) is None
            &&& ticks >= 4 && reached(now, starter.next_try_tick) ==> due(
                again,
                later(now, ticks),
                track,
            ) == due(starter, now, track)
            &&& fresh.spins == starter.spins && next.spins == starter.spins && again.spins
                == starter.spins
        }),
{
    pauses_end_on_time(now, 45, ticks);
    pauses_end_on_time(now, 2, ticks);
    pauses_end_on_time(now, 4, ticks);
}

} // verus!
