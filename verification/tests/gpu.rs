use psx_sdk::gpu::framebuf::FrameBuffer;
use psx_sdk::gpu::material::{TextureMaterial, TexturedGouraudPacketMaterial, TexturedPacketMaterial};
use psx_sdk::gpu::ot::{
    OrderingTable, PackedCommand, OT_END, TAG_SCOPED_TEXTURE_WINDOW,
};
use psx_sdk::gpu::prim::{
    LineMono, QuadFlat, QuadGouraud, QuadTextured, QuadTexturedGouraud, QuadTexturedMaterial,
    RectFlat, Sprite, TriFlat, TriGouraud, TriTextured, TriTexturedGouraud,
};
use psx_sdk::gpu::windows::{
    coalesce_scoped_texture_window_chain, ScopedTextureWindowCoalesce, GP0_TEXTURE_WINDOW,
};
use psx_sdk::gpu::words::{pack_color, pack_vertex};

const OT_ADDR_MASK: u32 = 0x00FF_FFFF;

/// A memory with an empty table of `N` slots at word 4, and packets from word
/// 32 on.
fn memory<const N: usize>() -> (Vec<u32>, OrderingTable<N>) {
    let mut ram = vec![0u32; 64];
    let ot = OrderingTable::<N>::new(&mut ram, 4);
    ot.clear(&mut ram);
    (ram, ot)
}

#[test]
fn packed_reverse_insert_preserves_submission_order_within_slots() {
    let (mut ram, ot) = memory::<8>();
    let (a, b, c) = (32, 34, 36);
    let commands = [
        PackedCommand {
            packet: a,
            slot_words: 4 | (1 << 24),
        },
        PackedCommand {
            packet: b,
            slot_words: 4 | (1 << 24),
        },
        PackedCommand {
            packet: c,
            slot_words: 2 | (1 << 24),
        },
    ];

    ot.insert_packed_commands_reverse_unchecked(&mut ram, &commands);

    let mut iter = ot.iter_packets(&ram);
    assert_eq!(iter.next(&ram).unwrap().0, a);
    assert_eq!(iter.next(&ram).unwrap().0, b);
    assert_eq!(iter.next(&ram).unwrap().0, c);
    assert!(iter.next(&ram).is_none());
}

#[test]
fn packed_forward_insert_matches_repeated_prepend_semantics() {
    let (mut ram, ot) = memory::<8>();
    let (a, b) = (32, 34);
    let commands = [
        PackedCommand {
            packet: a,
            slot_words: 4 | (1 << 24),
        },
        PackedCommand {
            packet: b,
            slot_words: 4 | (1 << 24),
        },
    ];

    ot.insert_packed_commands_unchecked(&mut ram, &commands);

    let mut iter = ot.iter_packets(&ram);
    assert_eq!(iter.next(&ram).unwrap().0, b);
    assert_eq!(iter.next(&ram).unwrap().0, a);
    assert!(iter.next(&ram).is_none());
}

#[test]
fn tagged_packet_stream_matches_prepend_and_skips_sentinel_packets() {
    let (mut ram, ot) = memory::<8>();
    let packets = [
        (1 << 24) | 4,
        0xAAAA_AAAA,
        (2 << 24) | u16::MAX as u32,
        0xBBBB_BBBB,
        0xCCCC_CCCC,
        (1 << 24) | 4,
        0xDDDD_DDDD,
    ];
    ram[32..39].copy_from_slice(&packets);

    ot.insert_tagged_packet_stream_unchecked(&mut ram, 32, 39);

    let mut iter = ot.iter_packets(&ram);
    assert_eq!(iter.next(&ram).unwrap().0, 32 + 5);
    assert_eq!(iter.next(&ram).unwrap().0, 32);
    assert!(iter.next(&ram).is_none());
    assert_eq!(ram[32 + 2] & 0x00ff_ffff, u16::MAX as u32);
}

#[test]
fn tagged_insert_coalesces_same_slot_scoped_window_packets() {
    const WINDOW: u32 = 0xe200_0123;
    const RESET: u32 = 0xe200_0000;
    let packets = [
        (4 << 24) | TAG_SCOPED_TEXTURE_WINDOW | 3,
        WINDOW,
        0x3400_0001,
        0x0002_0003,
        RESET,
        (4 << 24) | TAG_SCOPED_TEXTURE_WINDOW | 3,
        WINDOW,
        0x3400_0004,
        0x0005_0006,
        RESET,
    ];
    let (mut ram, ot) = memory::<8>();
    ram[32..42].copy_from_slice(&packets);
    ot.insert_tagged_packet_stream_sharing_windows(&mut ram, 32, 42);

    assert_eq!(ram[32 + 5] >> 24, 3, "new head omits its reset");
    assert_eq!(ram[32 + 5] & OT_ADDR_MASK, 4 * 33);
    assert_eq!(ram[32 + 1] >> 24, 3, "old selector becomes a tail tag");
    assert_eq!(ram[32 + 2], 0x3400_0001);
    assert_eq!(ram[32 + 4], RESET, "oldest packet retains the run reset");
}

#[test]
fn shifted_tagged_stream_quantises_slots_after_the_sentinel_test() {
    let (mut ram, ot) = memory::<4>();
    let packets = [
        (1 << 24) | 31,
        0xAAAA_AAAA,
        (1 << 24) | u16::MAX as u32,
        0xBBBB_BBBB,
        (1 << 24) | 24,
        0xCCCC_CCCC,
    ];
    ram[32..38].copy_from_slice(&packets);

    ot.insert_tagged_packet_stream_shifted_unchecked::<3>(&mut ram, 32, 38);

    let mut iter = ot.iter_packets(&ram);
    assert_eq!(iter.next(&ram).unwrap().0, 32 + 4);
    assert_eq!(iter.next(&ram).unwrap().0, 32);
    assert!(iter.next(&ram).is_none());
    assert_eq!(ram[32 + 2] & OT_ADDR_MASK, u16::MAX as u32);
}

#[test]
fn scoped_window_runs_keep_only_boundary_state_commands() {
    let mut chain = [0u32; 15];
    let address = |word: usize| (word * 4) as u32;
    chain[0] = address(1);
    chain[1] = (4 << 24) | address(6);
    chain[2] = 0xE234_0012;
    chain[3] = 0x3400_0000;
    chain[4] = 0x1111_1111;
    chain[5] = GP0_TEXTURE_WINDOW;
    chain[6] = address(7);
    chain[7] = (4 << 24) | address(12);
    chain[8] = 0xE234_0012;
    chain[9] = 0x3400_0000;
    chain[10] = 0x2222_2222;
    chain[11] = GP0_TEXTURE_WINDOW;
    chain[12] = (1 << 24) | OT_END;
    chain[13] = 0x2000_0000;

    let len = chain.len();
    let result = coalesce_scoped_texture_window_chain(&mut chain, address(0), 0, len);
    assert_eq!(
        result,
        ScopedTextureWindowCoalesce {
            window_packets: 2,
            runs: 1,
            selectors_removed: 1,
            resets_removed: 1,
        }
    );
    assert_eq!(chain[1] >> 24, 3);
    assert_eq!(chain[6] & OT_ADDR_MASK, address(8));
    assert_eq!(chain[8] >> 24, 3);
    assert_eq!(chain[8] & OT_ADDR_MASK, address(12));
    assert_eq!(chain[11], GP0_TEXTURE_WINDOW);
}

#[test]
fn scoped_window_coalescing_stops_at_plain_gpu_work() {
    let mut chain = [0u32; 16];
    let address = |word: usize| (word * 4) as u32;
    chain[0] = address(1);
    chain[1] = (3 << 24) | address(5);
    chain[2] = 0xE200_1234;
    chain[3] = 0x3400_0000;
    chain[4] = GP0_TEXTURE_WINDOW;
    chain[5] = (1 << 24) | address(7);
    chain[6] = 0x2000_0000;
    chain[7] = (3 << 24) | OT_END;
    chain[8] = 0xE200_1234;
    chain[9] = 0x3400_0000;
    chain[10] = GP0_TEXTURE_WINDOW;

    let len = chain.len();
    let result = coalesce_scoped_texture_window_chain(&mut chain, address(0), 0, len);
    assert_eq!(result.window_packets, 2);
    assert_eq!(result.runs, 2);
    assert_eq!(result.selectors_removed, 0);
    assert_eq!(result.resets_removed, 0);
}

#[test]
fn table_shares_windows_across_slots() {
    let (mut ram, ot) = memory::<4>();
    for at in [32usize, 40] {
        ram[at + 1] = 0xE200_0077;
        ram[at + 2] = 0x3400_0000 + at as u32;
        ram[at + 3] = GP0_TEXTURE_WINDOW;
    }
    ot.insert(&mut ram, 1, 32, 3);
    ot.insert(&mut ram, 3, 40, 3);
    let result = ot.coalesce_scoped_texture_windows(&mut ram);
    assert_eq!((result.window_packets, result.runs, result.selectors_removed), (2, 1, 1));
    // The walk sends the selector, both primitives and one reset.
    let mut sent = Vec::new();
    let mut iter = ot.iter_packets(&ram);
    while let Some((at, words)) = iter.next(&ram) {
        sent.extend_from_slice(&ram[at + 1..at + 1 + words as usize]);
    }
    assert_eq!(sent, [0xE200_0077, 0x3400_0028, 0x3400_0020, GP0_TEXTURE_WINDOW]);
}

/// Build a primitive packet by hand (one tag word + N data words),
/// insert it, and walk the chain. The iterator must report the
/// same `(packet, words)` pair we inserted.
#[test]
fn iter_packets_walks_a_single_inserted_primitive() {
    let (mut ram, ot) = memory::<8>();
    // Packet layout: [tag, w0, w1, w2] -- 3 data words after the tag.
    let packet = 32;
    ram[packet + 1] = 0xAAAA_BBBB;
    ram[packet + 2] = 0xCCCC_DDDD;
    ram[packet + 3] = 0xEEEE_FFFF;
    ot.insert(&mut ram, 2, packet, 3);

    let mut iter = ot.iter_packets(&ram);
    let entry = iter.next(&ram).expect("one entry");
    assert_eq!(entry.0, packet);
    assert_eq!(entry.1, 3);
    assert!(iter.next(&ram).is_none());
}

/// Two primitives in different slots -- chain walks both; later
/// inserts (lower slot) come first because `clear()` chains
/// high-to-low and the DMA head is `[N-1]`.
#[test]
fn iter_packets_walks_multiple_slots_in_dma_order() {
    let (mut ram, ot) = memory::<8>();
    let (a, b) = (32, 34);
    // a is in a deeper (further from camera) slot than b, so b
    // should appear first when walking from the head.
    ot.insert(&mut ram, 2, a, 1);
    ot.insert(&mut ram, 5, b, 1);

    let mut iter = ot.iter_packets(&ram);
    // DMA walker starts at [N-1] = [7] and chains down to [0].
    // b lives in slot 5, a in slot 2 -- both should appear, b first.
    let first = iter.next(&ram).expect("first entry").0;
    let second = iter.next(&ram).expect("second entry").0;
    assert!(iter.next(&ram).is_none());
    assert_eq!(first, b);
    assert_eq!(second, a);
}

/// Multiple primitives in the same slot chain via the most-
/// recently-inserted-first rule.
#[test]
fn iter_packets_chains_primitives_within_one_slot() {
    let (mut ram, ot) = memory::<4>();
    let (first, second) = (32, 34);
    ot.insert(&mut ram, 1, first, 1);
    ot.insert(&mut ram, 1, second, 1);

    let mut iter = ot.iter_packets(&ram);
    // `second` was inserted last and prepends to the chain head;
    // it walks first.
    let head = iter.next(&ram).expect("first").0;
    let tail = iter.next(&ram).expect("second").0;
    assert!(iter.next(&ram).is_none());
    assert_eq!(head, second);
    assert_eq!(tail, first);
}

/// Re-inserting the same packet is an invalid OT chain because
/// the packet only has one tag word to store its next pointer.
/// The host iterator should fail closed instead of spinning
/// forever while previewing a malformed frame.
#[test]
fn iter_packets_stops_on_duplicate_packet_in_same_slot() {
    let (mut ram, ot) = memory::<4>();
    let packet = 32;
    ot.insert(&mut ram, 1, packet, 1);
    ot.insert(&mut ram, 1, packet, 1);

    let mut iter = ot.iter_packets(&ram);
    let entry = iter.next(&ram).expect("first duplicate packet");
    assert_eq!(entry.0, packet);
    assert_eq!(entry.1, 1);
    assert!(iter.next(&ram).is_none());
}

/// A duplicate packet can also form a two-hop cycle through an
/// empty OT slot when it is inserted into different slots. This
/// catches the editor-preview failure mode where the cmd-log walk
/// could peg the host thread.
#[test]
fn iter_packets_stops_on_duplicate_packet_through_empty_slot() {
    let (mut ram, ot) = memory::<4>();
    let packet = 32;
    ot.insert(&mut ram, 1, packet, 1);
    ot.insert(&mut ram, 2, packet, 1);

    let mut iter = ot.iter_packets(&ram);
    let entry = iter.next(&ram).expect("first duplicate packet");
    assert_eq!(entry.0, packet);
    assert_eq!(entry.1, 1);
    assert!(iter.next(&ram).is_none());
}

#[test]
fn table_words_and_depth_clamp() {
    let mut ram = vec![7u32; 16];
    let ot = OrderingTable::<3>::new(&mut ram, 2);
    assert_eq!(ram[1..6], [7, OT_END, OT_END, OT_END, 7]);
    ot.clear(&mut ram);
    assert_eq!(ram[1..6], [7, OT_END, 8, 12, 7]);
    assert_eq!(ot.submit_head(), 4);
    ot.insert_unchecked_tag_high(&mut ram, 1, 8, 2 << 24);
    assert_eq!((ram[8], ram[3]), ((2 << 24) | 8, 32));
    // No slot 99: the highest one takes the packet.
    ot.add(&mut ram, 99, 12, 1);
    assert_eq!((ram[12], ram[4]), ((1 << 24) | 12, 48));
}

#[test]
fn default_layout_stacks_buffers_at_visible_height() {
    let framebuffer = FrameBuffer::new(320, 240);
    assert_eq!(framebuffer.buffer_y(0), 0);
    assert_eq!(framebuffer.buffer_y(1), 240);
}

#[test]
fn strided_layout_preserves_reserved_vram_rows() {
    let framebuffer = FrameBuffer::new_strided(320, 240, 256);
    assert_eq!(framebuffer.buffer_y(0), 0);
    assert_eq!(framebuffer.buffer_y(1), 256);
    assert_eq!(framebuffer.height, 240);
}

#[test]
fn deferred_swap_selects_the_opposite_buffer_without_gpu_state() {
    let mut framebuffer = FrameBuffer::new_strided(320, 240, 256);

    let first_display = framebuffer.begin_deferred_swap();
    assert_eq!(first_display, 0x0500_0000);
    assert_eq!(framebuffer.drawing, 1);

    let second_display = framebuffer.begin_deferred_swap();
    assert_eq!(second_display, 0x0500_0000 | (256 << 10));
    assert_eq!(framebuffer.drawing, 0);
}

#[test]
fn strided_layout_prevents_buffer_overlap() {
    let framebuffer = FrameBuffer::new_strided(320, 240, 128);
    assert_eq!(framebuffer.stride, 240);
}

#[test]
fn swap_shows_one_buffer_and_draws_to_the_other() {
    let mut framebuffer = FrameBuffer::new(320, 240);
    let (display, target) = framebuffer.swap();
    assert_eq!(display, 0x0500_0000);
    assert_eq!(
        target,
        [
            0xE300_0000 | (240 << 10),
            0xE400_0000 | 319 | (479 << 10),
            0xE500_0000 | (240 << 11),
        ]
    );
    assert_eq!(framebuffer.clear(1, 2, 3), [0x0203_0201, 240 << 16, 320 | (240 << 16)]);
    let (display, target) = framebuffer.begin_swap();
    assert_eq!(display, 0x0500_0000 | (240 << 10));
    assert_eq!(target, framebuffer.apply_draw_target());
    assert_eq!(target[1], 0xE400_0000 | 319 | (239 << 10));
}

/// The Gouraud-textured quad packet must serialize to the exact GP0
/// 0x3C word stream: a GP0(E2) texture-window prefix, then
/// `[0x3C|c0, v0, uv0|clut, c1, v1, uv1|tpage, c2, v2, uv2, c3, v3, uv3]`.
/// This guards the on-wire layout the DMA walker and emulator decode.
#[test]
fn quad_textured_gouraud_serializes_to_gp0_3c_stream() {
    let material =
        TexturedGouraudPacketMaterial::from_texture(TextureMaterial::new(0x1234, 0x0105));
    let uvw = [0x0201u16, 0x3C04, 0x3C42, 0x0240];
    let cols = [
        (0x11u8, 0x22u8, 0x33u8),
        (0x44, 0x55, 0x66),
        (0x77, 0x88, 0x99),
        (0xAA, 0xBB, 0xCC),
    ];
    let verts = [(10i16, 20i16), (110, 20), (110, 90), (10, 90)];
    let quad =
        QuadTexturedGouraud::with_packet_material_packed_uv_words(verts, uvw, cols, material);

    assert_eq!(core::mem::size_of::<QuadTexturedGouraud>(), 14 * 4);
    assert_eq!(QuadTexturedGouraud::WORDS, 13);

    let mut words = vec![quad.tag];
    words.extend_from_slice(&quad.words());
    assert_eq!(words[0], 0, "tag zero until OT insert");
    assert_eq!(words[1], material.tex_window_word, "E2 window prefix");
    assert_eq!(words[2] >> 24, 0x3C, "Gouraud+textured+quad opcode");
    assert_eq!(words[2] & 0x00FF_FFFF, pack_color(0x11, 0x22, 0x33));
    assert_eq!(words[3], pack_vertex(10, 20));
    assert_eq!(words[4], 0x0201 | material.clut_high_word);
    assert_eq!(words[5], pack_color(0x44, 0x55, 0x66));
    assert_eq!(words[6], pack_vertex(110, 20));
    assert_eq!(words[7], 0x3C04 | material.tpage_high_word);
    assert_eq!(words[8], pack_color(0x77, 0x88, 0x99));
    assert_eq!(words[9], pack_vertex(110, 90));
    assert_eq!(words[10], 0x3C42);
    assert_eq!(words[11], pack_color(0xAA, 0xBB, 0xCC));
    assert_eq!(words[12], pack_vertex(10, 90));
    assert_eq!(words[13], 0x0240);
}

#[test]
fn flat_and_shaded_packets_have_their_words() {
    let v3 = [(1i16, 2i16), (3, 4), (-1, -2)];
    let v4 = [(1i16, 2i16), (3, 4), (-1, -2), (5, 6)];
    let c3 = [(1u8, 2u8, 3u8), (4, 5, 6), (7, 8, 9)];
    let c4 = [(1u8, 2u8, 3u8), (4, 5, 6), (7, 8, 9), (10, 11, 12)];
    assert_eq!(
        TriFlat::new(v3, 1, 2, 3).words(),
        [0x2003_0201, 0x0002_0001, 0x0004_0003, 0xFFFE_FFFF]
    );
    assert_eq!(QuadFlat::new(v4, 1, 2, 3).words()[0], 0x2803_0201);
    assert_eq!(QuadFlat::WORDS, 5);
    assert_eq!(
        TriGouraud::new(v3, c3).words(),
        [0x3003_0201, 0x0002_0001, 0x0006_0504, 0x0004_0003, 0x0009_0807, 0xFFFE_FFFF]
    );
    assert_eq!(QuadGouraud::new(v4, c4).words()[0], 0x3803_0201);
    assert_eq!(QuadGouraud::new(v4, c4).words()[6], 0x000C_0B0A);
    assert_eq!(
        RectFlat::new(-1, 2, 3, 4, 1, 2, 3).words(),
        [0x6003_0201, 0x0002_FFFF, 0x0004_0003]
    );
    assert_eq!(
        LineMono::new(1, 2, 3, 4, 1, 2, 3).words(),
        [0x4003_0201, 0x0002_0001, 0x0004_0003]
    );
    assert_eq!(
        Sprite::new(1, 2, 3, 4, (5, 6), 0x7788, 1, 2, 3).words(),
        [0x6403_0201, 0x0002_0001, 0x7788_0605, 0x0004_0003]
    );
}

#[test]
fn textured_packets_agree_however_they_are_built() {
    let v3 = [(1i16, 2i16), (3, 4), (-1, -2)];
    let v4 = [(1i16, 2i16), (3, 4), (-1, -2), (5, 6)];
    let uv = [(1u8, 2u8), (3, 4), (5, 6)];
    let uw = [0x0201u16, 0x0403, 0x0605];
    let tint = (9, 8, 7);
    let material = TextureMaterial::opaque(0xAAAA, 0xBBBB, tint);
    let tri = TriTextured::new(v3, uv, 0xAAAA, 0xBBBB, tint);
    assert_eq!(
        tri.words(),
        [
            0xE200_0000,
            0x2407_0809,
            0x0002_0001,
            0xAAAA_0201,
            0x0004_0003,
            0xBBBB_0403,
            0xFFFE_FFFF,
            0x0000_0605,
        ]
    );
    assert_eq!(tri, TriTextured::with_material(v3, uv, material));
    assert_eq!(tri, TriTextured::with_material_packet_texcoords(v3, uv, material));
    assert_eq!(tri, TriTextured::with_material_packed_uv_words(v3, uw, material));
    assert_eq!(
        tri,
        TriTextured::with_packet_material_packed_uv_words(
            v3,
            uw,
            TexturedPacketMaterial::from_texture(material)
        )
    );
    let colors = [(1u8, 2u8, 3u8), (4, 5, 6), (7, 8, 9)];
    let shaded = TriTexturedGouraud::new(v3, uv, colors, 0xAAAA, 0xBBBB);
    assert_eq!(shaded.color0_cmd, 0x3403_0201);
    let glass = TextureMaterial { semi_transparent: true, raw: true, ..material };
    assert_eq!(
        shaded,
        TriTexturedGouraud::with_material_packet_texcoords(v3, uv, colors, material)
    );
    assert_eq!(
        TriTexturedGouraud::with_material(v3, uv, colors, glass),
        TriTexturedGouraud::with_material_packed_uv_words(v3, uw, colors, glass)
    );
    assert_eq!(
        TriTexturedGouraud::with_material(v3, uv, colors, glass),
        TriTexturedGouraud::with_packet_material_packed_uv_words(
            v3,
            uw,
            colors,
            TexturedGouraudPacketMaterial::from_texture(glass)
        )
    );
    let uv4 = [(1u8, 2u8), (3, 4), (5, 6), (7, 8)];
    let quad = QuadTextured::new(v4, uv4, 0xAAAA, 0xBBBB, tint);
    assert_eq!(quad.color_cmd, 0x2C07_0809);
    assert_eq!(quad.uv3, 0x0807);
    let windowed = QuadTexturedMaterial::with_material(
        v4,
        uv4,
        TextureMaterial { window: 0xE200_1234, ..material },
    );
    assert_eq!(windowed.tex_window, 0xE200_1234);
    assert_eq!(windowed.words()[1..], quad.words());
    assert_eq!(Sprite::with_material(0, 0, 1, 1, (0, 0), glass).color_cmd, 0x6707_0809);
}
