//! Movie sectors, disc directories and the MDEC driver's decisions.

use psx_sdk::fmv::iso::{find_in_directory, root_directory};
use psx_sdk::fmv::mdec::{
    build_quant, build_scale, decode_command, dma_blocks, load_tables, load_tables_cpu, wait_status,
    Action, LoadAction, TableLoad, Tables, Upload, Uploaded, Wait, COMMAND_SET_QUANT,
    COMMAND_SET_SCALE, DECODE_15BPP, DECODE_STP,
};
use psx_sdk::fmv::stream::{Chunk, FrameAssembler, CHUNK_PAYLOAD_BYTES};

fn sector(index: u16, count: u16, frame: u32, fill: u8) -> [u8; 2048] {
    let mut s = [fill; 2048];
    s[0..2].copy_from_slice(&0x0160u16.to_le_bytes());
    s[2..4].copy_from_slice(&0x8001u16.to_le_bytes());
    s[4..6].copy_from_slice(&index.to_le_bytes());
    s[6..8].copy_from_slice(&count.to_le_bytes());
    s[8..12].copy_from_slice(&frame.to_le_bytes());
    s[12..16].copy_from_slice(&5000u32.to_le_bytes());
    s[16..18].copy_from_slice(&320u16.to_le_bytes());
    s[18..20].copy_from_slice(&240u16.to_le_bytes());
    s
}

#[test]
fn assembles_out_of_order_and_counts_drops() {
    let mut a = FrameAssembler::new();
    let mut buf = [0u8; 3 * CHUNK_PAYLOAD_BYTES];
    assert_eq!(a.add(&sector(2, 3, 1, 0xC2), &mut buf), None);
    assert_eq!(a.add(&sector(0, 3, 1, 0xC0), &mut buf), None);
    let f = a.add(&sector(1, 3, 1, 0xC1), &mut buf).unwrap();
    assert_eq!((f.number, f.size, f.width, f.height), (1, 5000, 320, 240));
    assert_eq!(buf[0], 0xC0);
    assert_eq!(buf[CHUNK_PAYLOAD_BYTES], 0xC1);
    assert_eq!(buf[2 * CHUNK_PAYLOAD_BYTES + 5], 0xC2);
    // Frame 2 loses a chunk; frame 3 completes and 2 counts as dropped.
    assert_eq!(a.add(&sector(0, 3, 2, 0), &mut buf), None);
    assert_eq!(a.add(&sector(0, 3, 3, 0), &mut buf), None);
    assert_eq!(a.add(&sector(1, 3, 3, 0), &mut buf), None);
    assert!(a.add(&sector(2, 3, 3, 0), &mut buf).is_some());
    assert_eq!(a.dropped, 1);
}

#[test]
fn ignores_non_video_sectors() {
    let mut a = FrameAssembler::new();
    let mut buf = [0u8; CHUNK_PAYLOAD_BYTES];
    assert_eq!(a.add(&[0u8; 2048], &mut buf), None);
    assert_eq!(Chunk::parse(&sector(3, 3, 1, 0)), None);
}

fn record(name: &[u8], lba: u32, size: u32) -> [u8; 48] {
    let mut r = [0u8; 48];
    let len = 33 + name.len() + (name.len() + 1) % 2;
    r[0] = len as u8;
    r[2..6].copy_from_slice(&lba.to_le_bytes());
    r[10..14].copy_from_slice(&size.to_le_bytes());
    r[32] = name.len() as u8;
    r[33..33 + name.len()].copy_from_slice(name);
    r
}

#[test]
fn finds_file_by_name() {
    let mut dir = [0u8; 2048];
    let mut at = 0;
    for (name, lba, size) in [
        (&b"\0"[..], 20, 2048),
        (b"PSX.EXE;1", 22, 90000),
        (b"MOVIE.STR;1", 70, 81920),
    ] {
        let r = record(name, lba, size);
        let len = r[0] as usize;
        dir[at..at + len].copy_from_slice(&r[..len]);
        at += len;
    }
    assert_eq!(find_in_directory(&dir, "movie.str"), Some((70, 81920)));
    assert_eq!(find_in_directory(&dir, "NOPE.STR"), None);
}

#[test]
fn reads_root_from_pvd() {
    let mut pvd = [0u8; 2048];
    pvd[0] = 1;
    pvd[1..6].copy_from_slice(b"CD001");
    pvd[156 + 2..156 + 6].copy_from_slice(&20u32.to_le_bytes());
    pvd[156 + 10..156 + 14].copy_from_slice(&2048u32.to_le_bytes());
    assert_eq!(root_directory(&pvd), Some((20, 2048)));
}

#[test]
fn a_sector_too_short_for_its_payload_is_not_stored() {
    let mut a = FrameAssembler::new();
    let mut buf = [7u8; CHUNK_PAYLOAD_BYTES];
    assert_eq!(a.add(&sector(0, 1, 5, 9)[..1000], &mut buf), None);
    assert_eq!(buf[0], 7);
    // The same chunk whole completes the frame.
    let frame = a.add(&sector(0, 1, 5, 9), &mut buf).unwrap();
    assert_eq!(frame.number, 5);
    assert_eq!(buf[CHUNK_PAYLOAD_BYTES - 1], 9);
    assert_eq!(a.dropped, 0);
}

#[test]
fn a_frame_of_the_most_chunks_completes() {
    let mut a = FrameAssembler::default();
    let mut buf = vec![0u8; 32 * CHUNK_PAYLOAD_BYTES];
    for index in (1..32).rev() {
        assert_eq!(a.add(&sector(index, 32, 3, index as u8), &mut buf), None);
    }
    assert!(a.add(&sector(0, 32, 3, 0xAA), &mut buf).is_some());
    assert_eq!(buf[0], 0xAA);
    assert_eq!(buf[31 * CHUNK_PAYLOAD_BYTES], 31);
    assert_eq!(Chunk::parse(&sector(0, 33, 3, 0)), None);
}

#[test]
fn names_are_compared_up_to_their_version() {
    let mut dir = [0u8; 256];
    let r = record(b"A.B;12", 5, 6);
    let len = r[0] as usize;
    dir[..len].copy_from_slice(&r[..len]);
    assert_eq!(find_in_directory(&dir, "a.b"), Some((5, 6)));
    assert_eq!(find_in_directory(&dir, "a.b;12"), None);
    assert_eq!(find_in_directory(&dir[..20], "a.b"), None);
    assert_eq!(root_directory(&dir), None);
}

#[test]
fn mdec_tables_have_their_words() {
    let quant = build_quant();
    // 2, 16, 16, 19 in zigzag order, and again for chroma.
    assert_eq!(quant[0], 0x1310_1002);
    assert_eq!(quant[16], quant[0]);
    assert_eq!(quant[31], 0x5345_453A);
    let scale = build_scale();
    assert_eq!(scale[0], 0x5A82_5A82);
    assert_eq!(scale[4], 0x6A6D_7D8A);
    assert_eq!(scale[6], 0xB8E4_E708);
}

#[test]
fn mdec_commands_carry_the_word_count() {
    assert_eq!(decode_command(DECODE_15BPP, 0x60), 0x3800_0060);
    assert_eq!(decode_command(DECODE_15BPP | DECODE_STP, 0x1_0020), 0x3A00_0020);
    assert_eq!(dma_blocks(0x60), 3);
    assert_eq!(wait_status(0x30, 0x10, 0x10, 0, 5), Wait::Ready);
    assert_eq!(wait_status(0x20, 0x10, 0x10, 4, 5), Wait::Again(5));
    assert_eq!(wait_status(0x20, 0x10, 0x10, 5, 5), Wait::TimedOut);
}

fn run_upload(mut answer: impl FnMut(Action) -> bool) -> (Option<Uploaded>, Vec<Action>) {
    let mut upload = Upload::start();
    let mut log = Vec::new();
    loop {
        let action = upload.action();
        if let Action::Finish(outcome) = action {
            return (outcome, log);
        }
        log.push(action);
        upload = upload.step(answer(action));
    }
}

#[test]
fn uploads_prefer_dma_and_fall_back_to_the_cpu() {
    let (outcome, log) = run_upload(|_| true);
    assert_eq!(
        outcome,
        Some(Uploaded {
            enable_writes: 1,
            by_cpu: false
        })
    );
    assert_eq!(log.len(), 4);

    // The request never rises: three more enables, then 32 words by the CPU.
    let request = 0x1000_0000;
    let (outcome, log) = run_upload(
        |action| !matches!(action, Action::AwaitStatus { mask, .. } if mask == request),
    );
    let quant = outcome.unwrap();
    assert_eq!(
        quant,
        Uploaded {
            enable_writes: 0,
            by_cpu: true
        }
    );
    assert_eq!(log.iter().filter(|a| **a == Action::EnableDma).count(), 3);
    assert_eq!(
        log.iter()
            .filter(|a| matches!(a, Action::WriteWord(_)))
            .count(),
        32
    );

    // DMA0 wedges: restart, and the words by the CPU.
    let (outcome, log) = run_upload(|action| action != Action::SendByDma);
    let scale = outcome.unwrap();
    assert_eq!(scale.enable_writes, 1);
    assert!(scale.by_cpu);
    assert!(log.contains(&Action::Restart));

    // Nothing is ever free.
    assert_eq!(run_upload(|_| false).0, None);

    let tables = Tables::of(quant, scale);
    assert_eq!(
        tables,
        Tables {
            enable_writes: 0,
            cpu_uploads: 2
        }
    );
    assert!(!tables.dma_ready());
    let good = Uploaded {
        enable_writes: 1,
        by_cpu: false,
    };
    assert!(Tables::of(good, good).dma_ready());
    assert_eq!(Tables::default(), Tables { enable_writes: 0, cpu_uploads: 0 });
}

fn run_load(
    mut load: TableLoad,
    mut answer: impl FnMut(u32, Action) -> bool,
) -> (Option<Tables>, Vec<(u32, Action)>) {
    let mut log = Vec::new();
    loop {
        match load.action() {
            LoadAction::Finish(outcome) => return (outcome, log),
            LoadAction::Do { command, action } => {
                log.push((command, action));
                load = load.step(answer(command, action));
            }
        }
    }
}

#[test]
fn both_tables_are_loaded_in_turn() {
    let (tables, log) = run_load(load_tables(), |_, _| true);
    assert_eq!(tables, Some(Tables { enable_writes: 2, cpu_uploads: 0 }));
    // Settle, command, request, send; twice; and a last look.
    assert_eq!(log.len(), 9);
    assert!(log[..4].iter().all(|(command, _)| *command == COMMAND_SET_QUANT));
    assert!(log[4..].iter().all(|(command, _)| *command == COMMAND_SET_SCALE));
    // The transfer of the second table wedges, and the CPU takes over.
    let (tables, _) = run_load(load_tables(), |command, action| {
        command == COMMAND_SET_QUANT || action != Action::SendByDma
    });
    assert_eq!(tables, Some(Tables { enable_writes: 2, cpu_uploads: 1 }));
    assert!(!tables.unwrap().dma_ready());
    // The MDEC is never free.
    assert_eq!(run_load(load_tables(), |_, _| false).0, None);
}

#[test]
fn tables_go_in_over_the_cpu_alone() {
    let (tables, log) = run_load(load_tables_cpu(), |_, _| true);
    assert_eq!(tables, Some(Tables { enable_writes: 0, cpu_uploads: 2 }));
    assert!(!log.iter().any(|(_, a)| *a == Action::SendByDma || *a == Action::EnableDma));
    assert_eq!(log.iter().filter(|(_, a)| matches!(a, Action::WriteWord(_))).count(), 64);
    assert_eq!(log.len(), 2 * (2 + 64) + 1);
    // No room for the last word.
    let mut waits = 0;
    let (tables, _) = run_load(load_tables_cpu(), |_, action| {
        waits += matches!(action, Action::AwaitStatus { .. }) as u32;
        waits < 66
    });
    assert_eq!(tables, None);
}
