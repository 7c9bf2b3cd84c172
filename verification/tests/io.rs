use psx_sdk::io::cdda::{CddaClock, CddaEndDetector, CddaStarter, COLD_DRIVE_DELAY_TICKS};
use psx_sdk::io::cdrom::{
    bcd_to_bin, bin_to_bcd, demute, get_loc_p, get_stat, mute, pause, play_track, set_mode, stop,
    Command, PlayPosition, Response, CMD_GETLOCP, CMD_PLAY, IRQ_ACK, IRQ_COMPLETE, IRQ_ERROR,
    MODE_CDDA,
};
use psx_sdk::io::disc_base::{DiscBase, HANDOFF_MAGIC};
use psx_sdk::io::polled::{Access, CommandRun, Patience, Phase};
use psx_sdk::io::spu::{SPUCNT, SPU_BASE};

fn started() -> CddaClock {
    let mut c = CddaClock::new(60);
    c.start(0);
    c
}

#[test]
fn interpolates_between_anchors() {
    let mut c = started();
    c.set_anchor(0, 1000);
    assert_eq!(c.predict(30), 1500); // 30 ticks at 60 Hz = 500 ms
    assert_eq!(c.predict(60), 2000);
}

#[test]
fn deadband_readings_are_ignored() {
    let mut c = started();
    c.set_anchor(0, 1000);
    c.consider_anchor(30, 1503); // predicted 1500, within 5 ms
    assert_eq!(c.anchor_ms, 1000); // unmoved
}

#[test]
fn moderate_drift_reanchors_forward_only() {
    let mut c = started();
    c.set_anchor(0, 1000);
    c.last_now_ms = 1500;
    c.consider_anchor(30, 1540); // +40 ms: genuine drift
    assert_eq!((c.anchor_ms, c.anchor_tick), (1540, 30));
    // A drift reading BELOW the emitted floor must not rewind.
    c.last_now_ms = 1600;
    c.consider_anchor(33, 1560);
    assert_eq!(c.anchor_ms, 1540); // rejected
}

#[test]
fn spike_needs_confirmation() {
    let mut c = started();
    c.set_anchor(0, 1000);
    c.consider_anchor(30, 9000); // wild jump: held
    assert_eq!(c.anchor_ms, 1000);
    c.consider_anchor(60, 9010); // confirmed near the same spot
    assert_eq!(c.anchor_ms, 9010);
}

#[test]
fn confirmed_loop_resets_the_monotonic_floor() {
    let mut c = started();
    c.set_anchor(0, 60_000);
    c.last_now_ms = 60_000;
    c.consider_anchor(30, 100); // track looped: held
    c.consider_anchor(60, 120); // confirmed
    assert_eq!(c.anchor_ms, 120);
    assert_eq!(c.last_now_ms, 120); // floor reset, clock free to move
}

#[test]
fn stopped_clock_reads_zero() {
    let mut c = CddaClock::new(60);
    assert_eq!(c.tick(100, None), 0);
}

#[test]
fn clock_follows_the_drive_only_when_a_reading_is_due() {
    let mut c = started();
    assert!(c.playing());
    assert!(!c.wants_reading(29));
    assert!(c.wants_reading(30));
    // Not due: the reading is not looked at.
    assert_eq!(c.tick(6, Some(5_000)), 100);
    // Due, and 20 ms ahead of the prediction of 500.
    assert_eq!(c.tick(30, Some(520)), 520);
    assert!(!c.wants_reading(59));
    assert_eq!(c.tick(60, None), 1020);
}

/// After a skip the drive reports 00 00 (motor transition), then seeks, then
/// plays. An unarmed detector must sit through all of it.
#[test]
fn spin_up_window_is_not_an_end_of_track() {
    let mut d = CddaEndDetector::new(3);
    d.rearm();
    for s in [0x00, 0x00, 0x00, 0x00, 0x42, 0x42, 0x82] {
        assert!(!d.poll(Some(s)), "advanced on status {s:#04x}");
    }
    assert!(d.armed());
}

#[test]
fn a_real_end_fires_once_after_the_threshold() {
    let mut d = CddaEndDetector::new(3);
    d.rearm();
    assert!(!d.poll(Some(0x82)));
    assert!(!d.poll(Some(0x02)));
    assert!(!d.poll(Some(0x02)));
    assert!(d.poll(Some(0x02)), "third quiet poll after playing");
    // Disarmed for the restart: more quiet polls stay silent.
    assert!(!d.poll(Some(0x02)));
    assert!(!d.poll(Some(0x02)));
    assert!(!d.poll(Some(0x02)));
}

#[test]
fn timeouts_and_seeks_reset_the_quiet_streak() {
    let mut d = CddaEndDetector::new(2);
    d.rearm();
    assert!(!d.poll(Some(0x82)));
    assert!(!d.poll(Some(0x02)));
    assert!(!d.poll(None), "timeout must not count as quiet");
    assert!(!d.poll(Some(0x02)));
    assert!(!d.poll(Some(0x42)), "a seek is activity, not quiet");
    assert!(!d.poll(Some(0x02)));
    assert_eq!(d.quiet_polls(), 1);
    assert!(d.poll(Some(0x02)));
}

#[test]
fn starter_waits_for_the_drive_and_sends_three_commands() {
    let mut s = CddaStarter::new();
    assert!(s.started());
    assert_eq!(s.action(0, 2), None);
    s.begin(u32::MAX - 10);
    assert_eq!(s.step_code(), 0);
    // 45 ticks after the start, across the wrap of the tick counter.
    assert_eq!(s.action(33, 2), None);
    assert_eq!(s.action(34, 2), Some(set_mode(MODE_CDDA)));
    assert!(!s.answered(34, false));
    assert_eq!(s.action(37, 2), None);
    assert_eq!(s.action(38, 2), Some(set_mode(MODE_CDDA)));
    assert!(!s.answered(38, true));
    assert_eq!(s.step_code(), 1);
    assert_eq!(s.action(39, 2), None);
    assert_eq!(s.action(40, 2), Some(demute()));
    assert!(!s.answered(40, true));
    assert_eq!(s.action(42, 12), Some(play_track(12)));
    assert!(s.answered(42, true));
    assert!(s.started());
    assert_eq!(s.step_code(), 3);
    assert_eq!(s.action(100, 2), None);
    assert_eq!(CddaStarter::new().with_spins(7).spins, 7);
    assert_eq!(COLD_DRIVE_DELAY_TICKS, 45);
}

#[test]
fn bcd_clamps_to_two_digits() {
    assert_eq!(bin_to_bcd(2), 0x02);
    assert_eq!(bin_to_bcd(42), 0x42);
    assert_eq!(bin_to_bcd(100), 0x99);
}

#[test]
fn bcd_to_bin_roundtrips() {
    for v in 0u8..=99 {
        assert_eq!(bcd_to_bin(bin_to_bcd(v)), v);
    }
}

fn response_from(bytes: &[u8]) -> Response {
    let mut response = Response::new();
    for &byte in bytes {
        response = response.with(byte);
    }
    response
}

#[test]
fn play_position_parses_and_converts() {
    // Track 2, index 1, relative 01:23:45 (min:sec:frame), absolute 04:56:00.
    let resp = response_from(&[
        bin_to_bcd(2),
        0x01,
        bin_to_bcd(1),
        bin_to_bcd(23),
        bin_to_bcd(45),
        bin_to_bcd(4),
        bin_to_bcd(56),
        bin_to_bcd(0),
    ]);
    let p = PlayPosition::parse(&resp).unwrap();
    assert_eq!(p.track, 2);
    assert_eq!(p.index, 1);
    assert_eq!((p.relative_min, p.relative_sec, p.relative_frame), (1, 23, 45));
    // (1*60 + 23) * 75 + 45 = 6270 sectors.
    assert_eq!(p.relative_sectors(), 6270);
    // 6270 * 1000 / 75 = 83600 ms.
    assert_eq!(p.relative_millis(), 83_600);
    assert_eq!((p.absolute_min, p.absolute_sec, p.absolute_frame), (4, 56, 0));
}

#[test]
fn play_position_rejects_short_response() {
    assert!(PlayPosition::parse(&response_from(&[0x02, 0x01, 0x00])).is_none());
}

#[test]
fn responses_hold_sixteen_bytes() {
    let mut r = Response::new();
    assert!(r.is_empty());
    for k in 0..16u8 {
        assert!(r.wants_more(0x20));
        assert!(!r.wants_more(0xDF));
        r = r.with(k);
    }
    assert_eq!(r.len(), 16);
    assert!(!r.wants_more(0xFF));
    assert_eq!(r.bytes()[15], 15);
}

#[test]
fn commands_carry_their_parameters() {
    assert_eq!(get_stat(), Command { code: 0x01, param: None });
    assert_eq!(mute().code, 0x0B);
    assert_eq!(pause().code, 0x09);
    assert_eq!(stop().code, 0x08);
    assert_eq!(get_loc_p().code, CMD_GETLOCP);
    assert_eq!(play_track(42), Command { code: CMD_PLAY, param: Some(0x42) });
}

/// A controller that answers reads from a script and keeps what was written.
struct Drive {
    room_after: u32,
    flags: Vec<u8>,
    reply: Vec<u8>,
    log: Vec<Access>,
}

fn run(drive: &mut Drive, patience: Patience, code: u8, params: &[u8], limit: u32) -> CommandRun {
    let mut run = CommandRun::new(patience, code, limit);
    for _ in 0..10_000 {
        let access = run.access(params);
        drive.log.push(access);
        let byte = match access {
            Access::Nothing => return run,
            Access::ReadIrqEnable => 0xF5,
            Access::ReadIrqFlag => {
                if drive.flags.is_empty() {
                    0xE0
                } else {
                    drive.flags.remove(0)
                }
            }
            Access::ReadStatus => {
                let room = if drive.room_after == 0 { 0x10 } else { 0 };
                drive.room_after = drive.room_after.saturating_sub(1);
                room | if drive.reply.is_empty() { 0 } else { 0x20 }
            }
            Access::ReadResponse => drive.reply.remove(0),
            _ => 0,
        };
        run.step(params, byte);
    }
    panic!("the run does not end");
}

#[test]
fn polled_command_collects_its_reply_and_restores_the_mask() {
    // The leftover byte 9 is dropped; then 0x02 comes with the acknowledgement.
    let mut drive = Drive {
        room_after: 0,
        flags: vec![0, IRQ_ACK],
        reply: vec![9],
        log: vec![],
    };
    let mut run = CommandRun::new(Patience::Bounded, 0x0E, 10);
    let params = [0x01u8];
    loop {
        let access = run.access(&params);
        drive.log.push(access);
        let byte = match access {
            Access::Nothing => break,
            Access::ReadIrqEnable => 0xF5,
            Access::ReadIrqFlag => drive.flags.remove(0),
            Access::ReadStatus => 0x10 | if drive.reply.is_empty() { 0 } else { 0x20 },
            Access::ReadResponse => drive.reply.remove(0),
            Access::WriteCommand(_) => {
                drive.reply.push(0x02);
                0
            }
            _ => 0,
        };
        run.step(&params, byte);
    }
    assert_eq!(run.reply().unwrap().bytes(), &[0x02]);
    assert_eq!(
        drive.log,
        vec![
            Access::ReadIrqEnable,
            Access::WriteIrqEnable(0),
            Access::AckIrq(0x1F),
            Access::ReadStatus,
            Access::ReadResponse,
            Access::ReadStatus,
            Access::ClearParameters,
            Access::ReadStatus,
            Access::WriteParameter(0x01),
            Access::WriteCommand(0x0E),
            Access::ReadIrqFlag,
            Access::ReadIrqFlag,
            Access::ReadStatus,
            Access::ReadResponse,
            Access::ReadStatus,
            Access::AckIrq(IRQ_ACK),
            Access::WriteIrqEnable(0x15),
            Access::Nothing,
        ]
    );
}

#[test]
fn silent_drive_times_out_with_interrupts_masked() {
    let mut drive = Drive { room_after: 0, flags: vec![], reply: vec![], log: vec![] };
    let run = run(&mut drive, Patience::Bounded, 0x01, &[], 3);
    assert!(run.reply().is_none());
    assert_eq!(run.phase, Phase::Over(false));
    let looks = drive.log.iter().filter(|a| **a == Access::ReadIrqFlag).count();
    assert_eq!(looks, 4);
    assert!(!drive.log.contains(&Access::WriteIrqEnable(0x15)));
}

#[test]
fn full_parameters_time_out_and_restore_the_mask() {
    let mut drive = Drive { room_after: 100, flags: vec![], reply: vec![], log: vec![] };
    let run = run(&mut drive, Patience::Bounded, 0x0E, &[1], 2);
    assert_eq!(run.phase, Phase::Over(false));
    assert!(drive.log.contains(&Access::WriteIrqEnable(0x15)));
    assert!(!drive.log.contains(&Access::WriteCommand(0x0E)));
}

#[test]
fn errors_fail_bounded_runs_and_answer_endless_ones() {
    let mut drive = Drive { room_after: 0, flags: vec![IRQ_ERROR], reply: vec![], log: vec![] };
    assert!(run(&mut drive, Patience::Bounded, 0x09, &[], 5).reply().is_none());
    let mut drive = Drive { room_after: 0, flags: vec![0, IRQ_ERROR], reply: vec![], log: vec![] };
    let done = run(&mut drive, Patience::Endless, 0x09, &[], 0);
    assert!(done.reply().is_some());
    assert!(drive.log.contains(&Access::AckIrq(IRQ_ERROR)));
}

#[test]
fn completion_is_waited_for_after_the_acknowledgement() {
    let mut drive = Drive {
        room_after: 0,
        flags: vec![1, IRQ_ACK, 0, IRQ_COMPLETE],
        reply: vec![],
        log: vec![],
    };
    let done = run(&mut drive, Patience::UntilComplete, 0x09, &[], 5);
    assert_eq!(done.phase, Phase::Over(true));
    assert!(drive.log.contains(&Access::AckIrq(1)));
    assert!(drive.log.contains(&Access::AckIrq(IRQ_COMPLETE)));
    assert!(drive.log.contains(&Access::WriteIrqEnable(0x15)));
    let mut drive = Drive { room_after: 0, flags: vec![IRQ_ACK], reply: vec![], log: vec![] };
    let done = run(&mut drive, Patience::UntilComplete, 0x09, &[], 5);
    assert_eq!(done.phase, Phase::Over(false));
    assert!(drive.log.contains(&Access::WriteIrqEnable(0x15)));
}

#[test]
fn handover_shifts_sectors_and_tracks() {
    let mut base = DiscBase::new();
    base.install(0x1234_5678, 1000, 3);
    assert_eq!((base.shift_lba(16), base.shift_track(2)), (16, 2));
    base.install(HANDOFF_MAGIC, 1000, 0x103);
    assert_eq!((base.lba_offset(), base.cdda_track_base()), (1000, 3));
    assert_eq!((base.shift_lba(16), base.shift_track(2)), (1016, 5));
    assert_eq!(base.shift_lba(u32::MAX), 999);
    assert_eq!(SPUCNT - SPU_BASE, 0x1AA);
}
