//! Bitmap fonts, atlases and text commands.

use psx_sdk::font::atlas::{
    blended_draw_mode_word, glyph_quad_uvs, round_q8_to_i16, scale_q8_i16, FontAtlas, TextBlend,
    SEMI_TRANSPARENT_FLAT_RECT_CMD, SEMI_TRANSPARENT_RECT_CMD,
};
use psx_sdk::font::bitmap::{BitOrder, BitmapFont};
use psx_sdk::font::hex::u16_hex;
use psx_sdk::font::pack::{
    cell_width, font_atlas_dims, font_pack_metrics, placements_overlap, plan_font_pack,
    AtlasPlacement, MAX_PACKED_FONT_ATLASES,
};
use psx_sdk::font::sink::TextSink;
use psx_sdk::font::texels::pack_font_bits;
use psx_sdk::font::upload::{install_font_set, plan_font_set};
use psx_sdk::gpu::words::{pack_color, pack_texcoord, pack_vertex, Clut, TexDepth, Tpage};

static TEST_FONT: BitmapFont = BitmapFont {
    glyph_w: 8,
    glyph_h: 2,
    first_char: b'A' as u16,
    glyph_count: 2,
    bitmap: &[
        // 'A': row 0 = all pixels, row 1 = leftmost only
        0xFF, 0x01, // 'B': row 0 = alternating, row 1 = rightmost
        0x55, 0x80,
    ],
    glyph_advances: None,
    advance_x: 8,
    line_height: 2,
    bit_order: BitOrder::Lsb,
};

const TEST_PROPORTIONAL_ADVANCES: [u8; 2] = [3, 7];
static TEST_PROPORTIONAL_FONT: BitmapFont = BitmapFont {
    glyph_w: 8,
    glyph_h: 2,
    first_char: b'A' as u16,
    glyph_count: 2,
    bitmap: &[0xFF, 0x01, 0x55, 0x80],
    glyph_advances: Some(&TEST_PROPORTIONAL_ADVANCES),
    advance_x: 8,
    line_height: 2,
    bit_order: BitOrder::Lsb,
};

static TOO_TALL_FONT: BitmapFont = BitmapFont {
    glyph_w: 255,
    glyph_h: 255,
    first_char: b'A' as u16,
    glyph_count: 2,
    bitmap: &[],
    glyph_advances: None,
    advance_x: 8,
    line_height: 2,
    bit_order: BitOrder::Lsb,
};

#[test]
fn formats_fixed_width_uppercase() {
    assert_eq!(u16_hex(0).as_str(), "0x0000");
    assert_eq!(u16_hex(0x1F40).as_str(), "0x1F40");
    assert_eq!(u16_hex(u16::MAX).as_str(), "0xFFFF");
}

#[test]
fn text_blend_maps_to_the_hardware_abr_field() {
    assert_eq!(TextBlend::Average.abr(), 0);
    assert_eq!(TextBlend::Add.abr(), 1);
    assert_eq!(TextBlend::Subtract.abr(), 2);
    assert_eq!(TextBlend::AddQuarter.abr(), 3);
}

#[test]
fn blended_draw_mode_only_moves_the_abr_bits() {
    for tpage in [
        Tpage::new(0, 0, TexDepth::Bit4),
        Tpage::new(640, 256, TexDepth::Bit4),
        Tpage::new(896, 0, TexDepth::Bit8),
    ] {
        let opaque = blended_draw_mode_word(tpage, TextBlend::Average);
        for blend in [
            TextBlend::Average,
            TextBlend::Add,
            TextBlend::Subtract,
            TextBlend::AddQuarter,
        ] {
            let word = blended_draw_mode_word(tpage, blend);
            assert_eq!(
                (word >> 5) & 3,
                u32::from(blend.abr()),
                "{blend:?} ABR field"
            );
            assert_eq!(
                word & !(3 << 5),
                opaque & !(3 << 5),
                "{blend:?} changed something other than ABR"
            );
        }
        for blend in [TextBlend::Average, TextBlend::Add, TextBlend::Subtract] {
            assert_eq!(
                blended_draw_mode_word(tpage, blend) & 0x1FF,
                u32::from(tpage.uv_tpage_word(blend.abr())),
                "{blend:?} page/blend/depth encoding"
            );
        }
    }
}

#[test]
fn blended_rect_command_is_the_opaque_one_plus_bit_25() {
    const OPAQUE_RECT_CMD: u32 = 0x6400_0000;
    assert_eq!(SEMI_TRANSPARENT_RECT_CMD, OPAQUE_RECT_CMD | (1 << 25));
}

#[test]
fn blended_backdrop_command_is_the_flat_rect_plus_bit_25() {
    const OPAQUE_FLAT_RECT_CMD: u32 = 0x6000_0000;
    assert_eq!(
        SEMI_TRANSPARENT_FLAT_RECT_CMD,
        OPAQUE_FLAT_RECT_CMD | (1 << 25)
    );
    assert_ne!(SEMI_TRANSPARENT_FLAT_RECT_CMD, SEMI_TRANSPARENT_RECT_CMD);
}

#[test]
fn text_width_is_the_saturating_fold_of_glyph_advance() {
    const BITMAP: [u8; 8] = [0; 8];
    const ADVANCES: [u8; 4] = [3, 9, 0, 255];
    let proportional = BitmapFont {
        glyph_w: 8,
        glyph_h: 8,
        first_char: b'a' as u16,
        glyph_count: 4,
        bitmap: &BITMAP,
        glyph_advances: Some(&ADVANCES),
        advance_x: 7,
        line_height: 8,
        bit_order: BitOrder::Lsb,
    };
    let fixed = BitmapFont {
        glyph_advances: None,
        ..proportional
    };

    assert_eq!(proportional.glyph_advance('a'), 3);
    assert_eq!(proportional.glyph_advance('d'), 255);
    // Outside the covered range: falls back to `advance_x`.
    assert_eq!(proportional.glyph_advance('z'), 7);
    assert_eq!(fixed.glyph_advance('a'), 7);

    let long = String::from("d").repeat(263);
    for font in [&proportional, &fixed] {
        for text in ["", "a", "ad", "abcd", "abcdz", long.as_str()] {
            let folded = text
                .chars()
                .map(|ch| u16::from(font.glyph_advance(ch)))
                .fold(0u16, u16::saturating_add);
            assert_eq!(font.text_width(text), folded, "text_width({text:?})");
        }
    }
    // The long run really does saturate, so the case above is load-bearing.
    assert_eq!(
        proportional.text_width(&String::from("d").repeat(258)),
        u16::MAX
    );
}

#[test]
fn centered_text_is_symmetric_about_the_anchor() {
    struct Fixed(i16);
    impl TextSink for Fixed {
        fn draw(&self, _x: i16, _y: i16, _t: &str, _c: (u8, u8, u8)) -> Vec<u32> {
            Vec::new()
        }
        fn width(&self, text: &str) -> i16 {
            self.0 * text.len() as i16
        }
        fn line_height(&self) -> i16 {
            8
        }
    }
    struct Spy;
    impl TextSink for Spy {
        fn draw(&self, x: i16, _y: i16, _t: &str, _c: (u8, u8, u8)) -> Vec<u32> {
            vec![x as u32]
        }
        fn width(&self, text: &str) -> i16 {
            4 * text.len() as i16
        }
        fn line_height(&self) -> i16 {
            8
        }
    }
    let f = Fixed(4);
    assert_eq!(TextSink::width(&f, "abcd"), 16);
    let spy = Spy;
    // 4 glyphs * 4 px = 16 wide, so centred on 160 starts at 152.
    assert_eq!(spy.draw_centered(160, 0, "abcd", (0, 0, 0)), vec![152]);
}

#[test]
fn row_bytes_handles_widths_under_and_over_8() {
    let mut f = TEST_FONT;
    assert_eq!(f.row_bytes(), 1);
    f.glyph_w = 12;
    assert_eq!(f.row_bytes(), 2);
    f.glyph_w = 16;
    assert_eq!(f.row_bytes(), 2);
    f.glyph_w = 24;
    assert_eq!(f.row_bytes(), 3);
}

#[test]
fn lsb_row_unpacks_as_expected() {
    let row_a0 = TEST_FONT.glyph_row_packed(0, 0);
    assert_eq!(row_a0, 0xFF);
    let row_a1 = TEST_FONT.glyph_row_packed(0, 1);
    assert_eq!(row_a1, 0x01);
    let row_b0 = TEST_FONT.glyph_row_packed(1, 0);
    assert_eq!(row_b0, 0x55);
    let row_b1 = TEST_FONT.glyph_row_packed(1, 1);
    assert_eq!(row_b1, 0x80);
}

#[test]
fn msb_order_mirrors_the_byte() {
    let msb_font = BitmapFont {
        bit_order: BitOrder::Msb,
        ..TEST_FONT
    };
    // 0xFF mirrors to 0xFF.
    assert_eq!(msb_font.glyph_row_packed(0, 0), 0xFF);
    // 0x01 in MSB-first becomes 0x80 after reversing.
    assert_eq!(msb_font.glyph_row_packed(0, 1), 0x80);
    // 0x55 (0b01010101) mirrors to 0xAA (0b10101010).
    assert_eq!(msb_font.glyph_row_packed(1, 0), 0xAA);
}

#[test]
fn wide_rows_read_their_bytes_left_to_right() {
    let wide = BitmapFont {
        glyph_w: 20,
        glyph_h: 1,
        glyph_count: 1,
        bitmap: &[0x12, 0x34, 0x56],
        ..TEST_FONT
    };
    assert_eq!(wide.glyph_stride(), 3);
    assert_eq!(wide.glyph_row_packed(0, 0), 0x56_3412);
    assert_eq!(wide.glyph_index('A'), Some(0));
    assert_eq!(wide.glyph_index('B'), None);
}

#[test]
fn glyph_advances_override_fixed_advance_when_present() {
    assert_eq!(TEST_PROPORTIONAL_FONT.glyph_advance('A'), 3);
    assert_eq!(TEST_PROPORTIONAL_FONT.glyph_advance('B'), 7);
    assert_eq!(TEST_PROPORTIONAL_FONT.glyph_advance('Z'), 8);
    assert_eq!(TEST_PROPORTIONAL_FONT.text_width("ABA"), 13);
}

#[test]
fn text_width_with_spacing_inserts_gaps_between_glyphs_only() {
    assert_eq!(TEST_PROPORTIONAL_FONT.text_width_with_spacing("", 5), 0);
    assert_eq!(TEST_PROPORTIONAL_FONT.text_width_with_spacing("A", 5), 3);
    assert_eq!(TEST_PROPORTIONAL_FONT.text_width_with_spacing("ABA", 2), 17);
    assert_eq!(TEST_PROPORTIONAL_FONT.text_width_with_spacing("ABA", -2), 9);
}

#[test]
fn q8_scale_helpers_round_to_screen_pixels() {
    assert_eq!(scale_q8_i16(8, 256), 8);
    assert_eq!(scale_q8_i16(8, 384), 12);
    assert_eq!(scale_q8_i16(17, 384), 26);
    assert_eq!(round_q8_to_i16(384), 2);
    assert_eq!(round_q8_to_i16(-384), -2);
}

#[test]
fn q8_helpers_hold_their_bounds() {
    assert_eq!(scale_q8_i16(0, 256), 1);
    assert_eq!(scale_q8_i16(-5, 256), 1);
    assert_eq!(scale_q8_i16(i16::MAX, u16::MAX), i16::MAX);
    assert_eq!(round_q8_to_i16(i32::MAX), i16::MAX);
    assert_eq!(round_q8_to_i16(i32::MIN), i16::MIN);
    assert_eq!(round_q8_to_i16(-127), 0);
}

#[test]
fn glyph_quad_uvs_saturate_the_rightmost_atlas_column() {
    let edge = glyph_quad_uvs(240, 0, 16, 14);
    assert_eq!(edge[1].0, 255, "far U must saturate, not wrap to 0");
    assert_eq!(edge[3].0, 255);
    // Interior columns stay exact (no clamping kicks in).
    assert_eq!(
        glyph_quad_uvs(224, 0, 16, 14),
        [(224, 0), (240, 0), (224, 14), (240, 14)]
    );
    // V saturates the same way near the bottom edge of a tall atlas.
    let tall = glyph_quad_uvs(0, 248, 16, 14);
    assert_eq!(tall[2].1, 255);
    assert_eq!(tall[3].1, 255);
}

#[test]
fn packed_origins_feed_exact_rect_and_quad_packet_uvs() {
    let fonts = [&TEST_FONT, &TEST_FONT];
    let mut placements = [None; MAX_PACKED_FONT_ATLASES];
    let metrics = plan_font_pack(&fonts, &mut placements).unwrap();
    assert_eq!(metrics.pages, 1);
    assert_eq!(placements[0].unwrap().x_halfwords, 0);
    assert_eq!(placements[1].unwrap().x_halfwords, 4);

    let clut = Clut::new(960, 500);
    for (index, &font) in fonts.iter().enumerate() {
        let placement = placements[index].unwrap();
        let (glyphs_per_row, _, _, _) = font_atlas_dims(font);
        let atlas = FontAtlas {
            font,
            tpage: Tpage::new(placement.page * 64, 0, TexDepth::Bit4),
            clut_word: clut.uv_clut_word(),
            glyphs_per_row,
            uv_origin: ((placement.x_halfwords * 4) as u8, placement.y as u8),
        };
        for glyph_index in 0..font.glyph_count {
            let ch = char::from_u32(u32::from(font.first_char + glyph_index)).unwrap();
            let (u, v) = atlas.glyph_uv(ch).unwrap();
            let expected_u = u16::from(atlas.uv_origin.0)
                + (glyph_index % glyphs_per_row) * cell_width(font);
            let expected_v = u16::from(atlas.uv_origin.1)
                + (glyph_index / glyphs_per_row) * u16::from(font.glyph_h);
            assert_eq!((u16::from(u), u16::from(v)), (expected_u, expected_v));

            let rect_uv_word = pack_texcoord(u, v, atlas.clut_word);
            assert_eq!(rect_uv_word & 0xFFFF, u32::from(u) | (u32::from(v) << 8));
            assert_eq!((rect_uv_word >> 16) as u16, atlas.clut_word);
            let quad = glyph_quad_uvs(u, v, font.glyph_w, font.glyph_h);
            assert_eq!(quad[0], (u, v));
            assert_eq!(quad[3].0, u.saturating_add(font.glyph_w));
            assert_eq!(quad[3].1, v.saturating_add(font.glyph_h));
        }
    }
}

#[test]
fn font_pack_planner_fails_closed_outside_its_bound() {
    assert_eq!(font_pack_metrics(&[]), None);
    let too_many = [&TEST_FONT; MAX_PACKED_FONT_ATLASES + 1];
    assert_eq!(font_pack_metrics(&too_many), None);

    assert_eq!(font_pack_metrics(&[&TOO_TALL_FONT]), None);
}

#[test]
fn every_pre_upload_failure_clears_stale_atlas_outputs() {
    let stale = FontAtlas {
        font: &TEST_FONT,
        tpage: Tpage::new(0, 0, TexDepth::Bit4),
        clut_word: Clut::new(0, 480).uv_clut_word(),
        glyphs_per_row: 2,
        uv_origin: (0, 0),
    };

    let mut out = [Some(stale); 2];
    assert!(plan_font_set(&[], 0, &mut out).is_none());
    assert!(out.iter().all(Option::is_none));

    out.fill(Some(stale));
    assert!(plan_font_set(&[&TEST_FONT, &TEST_FONT, &TEST_FONT], 0, &mut out).is_none());
    assert!(out.iter().all(Option::is_none));

    out.fill(Some(stale));
    assert!(plan_font_set(&[&TEST_FONT], 0, &mut out).is_none());
    assert!(out.iter().all(Option::is_none));
}

static TALL_FONT: BitmapFont = BitmapFont {
    glyph_w: 5,
    glyph_h: 3,
    first_char: b'0' as u16,
    glyph_count: 70,
    bitmap: &[0x15; 210],
    glyph_advances: None,
    advance_x: 6,
    line_height: 4,
    bit_order: BitOrder::Msb,
};

#[test]
fn packed_fonts_preserve_every_glyph_and_padding_texel() {
    let fonts: [&'static BitmapFont; 3] = [&TEST_FONT, &TALL_FONT, &TEST_FONT];
    let mut placements = [None; MAX_PACKED_FONT_ATLASES];
    let metrics = plan_font_pack(&fonts, &mut placements).unwrap();
    assert_eq!(font_pack_metrics(&fonts), Some(metrics));
    // The tall one goes first, the others fill the row below it.
    assert_eq!(
        placements[1],
        Some(AtlasPlacement {
            page: 0,
            x_halfwords: 0,
            y: 0
        })
    );
    assert_eq!(
        placements[0],
        Some(AtlasPlacement {
            page: 0,
            x_halfwords: 0,
            y: 9
        })
    );
    assert_eq!(metrics.upload_rows, 11);
    assert_eq!(metrics.scratch_halfwords, 64 * 11);
    let mut scratch = vec![0xFFFF; metrics.scratch_halfwords + 3];
    pack_font_bits(&fonts, &placements, metrics, &mut scratch).unwrap();
    assert_eq!(scratch[metrics.scratch_halfwords..], [0xFFFF; 3]);
    let stride = usize::from(metrics.pages) * 64;
    for (font_index, &font) in fonts.iter().enumerate() {
        let placement = placements[font_index].unwrap();
        let (glyphs_per_row, atlas_w, atlas_h, _) = font_atlas_dims(font);
        let cell_w = cell_width(font);
        for local_y in 0..atlas_h {
            let glyph_row = local_y / u16::from(font.glyph_h);
            let glyph_y = (local_y % u16::from(font.glyph_h)) as u8;
            for local_x in 0..atlas_w {
                let glyph_col = local_x / cell_w;
                let glyph_x = local_x % cell_w;
                let glyph_index = glyph_row * glyphs_per_row + glyph_col;
                let expected =
                    if glyph_index < font.glyph_count && glyph_x < u16::from(font.glyph_w) {
                        ((font.glyph_row_packed(glyph_index, glyph_y) >> glyph_x) & 1) as u16
                    } else {
                        0
                    };
                let global_halfword = usize::from(placement.page) * 64
                    + usize::from(placement.x_halfwords)
                    + usize::from(local_x / 4);
                let word = scratch[usize::from(placement.y + local_y) * stride + global_halfword];
                let actual = (word >> ((local_x & 3) * 4)) & 0xF;
                assert_eq!(
                    actual, expected,
                    "font {font_index} texel ({local_x},{local_y})"
                );
            }
        }
    }
    let mut short = vec![7u16; 5];
    assert!(pack_font_bits(&fonts, &placements, metrics, &mut short).is_none());
    assert_eq!(short, vec![7u16; 5]);
}

#[test]
fn overlap_needs_a_common_page() {
    let a = AtlasPlacement {
        page: 0,
        x_halfwords: 0,
        y: 0,
    };
    let b = AtlasPlacement {
        page: 1,
        x_halfwords: 0,
        y: 0,
    };
    assert!(placements_overlap(a, 4, 4, a, 1, 1));
    assert!(!placements_overlap(a, 4, 4, b, 4, 4));
}

#[test]
fn an_installed_set_draws_from_its_places() {
    let fonts: [&'static BitmapFont; 2] = [&TEST_FONT, &TALL_FONT];
    let mut out = [None; 3];
    let plan = plan_font_set(&fonts, 64 * 11, &mut out).unwrap();
    let mut scratch = vec![0u16; 64 * 11];
    let base = Tpage::new(640, 256, TexDepth::Bit4);
    install_font_set(&plan, &fonts, base, 0x1234, &mut scratch, &mut out);
    let first = out[0].unwrap();
    assert_eq!(first.uv_origin, (0, 9));
    assert_eq!(first.tpage(), base);
    assert_eq!(first.glyph_uv('B'), Some((8, 9)));
    assert!(out[2].is_none());
    // Row 0 of 'A' is all lit.
    assert_eq!(scratch[9 * 64], 0x1111);
    let second = out[1].unwrap();
    assert_eq!(second.glyphs_per_row, 32);
    assert_eq!(second.glyph_uv('q'), Some((8, 6)));
    assert_eq!(second.font().glyph_count, 70);
}

#[test]
fn a_single_atlas_is_laid_out_and_drawn() {
    let (atlas, image) = FontAtlas::upload(
        &TEST_FONT,
        Tpage::new(768, 0, TexDepth::Bit4),
        Clut::new(768, 480),
    );
    assert_eq!((image.width, image.height), (4, 2));
    assert_eq!(
        image.halfwords,
        vec![0x1111, 0x1111, 0x0101, 0x0101, 0x0001, 0, 0, 0x1000]
    );
    assert_eq!(atlas.clut_word, 0x7830);
    let tint = (0x80, 0x70, 0x60);
    let color = pack_color(0x80, 0x70, 0x60);
    assert_eq!(color, 0x60_7080);
    assert_eq!(
        atlas.draw_text(3, -1, "AzB", tint),
        vec![
            0xE100_040C,
            0x6400_0000 | color,
            pack_vertex(3, -1),
            pack_texcoord(0, 0, 0x7830),
            0x0002_0008,
            0x6400_0000 | color,
            pack_vertex(19, -1),
            pack_texcoord(8, 0, 0x7830),
            0x0002_0008,
        ]
    );
    assert_eq!(pack_vertex(3, -1), 0xFFFF_0003);
    let blended = atlas.draw_text_blended(0, 0, "A", tint, TextBlend::Subtract);
    assert_eq!(blended[0], 0xE100_044C);
    assert_eq!(blended[1], 0xE200_0000);
    assert_eq!(blended[2], 0x6600_0000 | color);
    assert_eq!(blended[6..], [0xE100_040C]);
    assert_eq!(atlas.draw_text(0, 0, "", tint), vec![0xE100_040C]);
    let plate = atlas.draw_backdrop_blended(1, 2, 3, 4, tint, TextBlend::Add);
    assert_eq!(
        plate,
        vec![0xE100_042C, 0x6200_0000 | color, 0x0002_0001, 0x0004_0003, 0xE100_040C]
    );
    assert!(atlas
        .draw_backdrop_blended(1, 2, 0, 4, tint, TextBlend::Add)
        .is_empty());
    assert_eq!(atlas.text_width("AB"), 16);
    assert_eq!(atlas.text_width_with_spacing("AB", 1), 17);
    assert_eq!(TextSink::line_height(&atlas), 2);
    assert_eq!(
        TextSink::draw_centered(&atlas, 8, 0, "AB", tint),
        atlas.draw_text(0, 0, "AB", tint)
    );
}

#[test]
fn quads_scale_rotate_and_shade() {
    let atlas = FontAtlas {
        font: &TEST_FONT,
        tpage: Tpage::new(64, 256, TexDepth::Bit4),
        clut_word: 0x55,
        glyphs_per_row: 2,
        uv_origin: (0, 0),
    };
    let tint = (1, 2, 3);
    let scaled = atlas.draw_text_scaled(10, 20, "AB", 2, 3, tint);
    assert_eq!(scaled.len(), 1 + 2 * 9);
    assert_eq!(scaled[0], 0xE200_0000);
    assert_eq!(scaled[1], 0x2C03_0201);
    assert_eq!(scaled[2], pack_vertex(10, 20));
    assert_eq!(scaled[5], pack_texcoord(8, 0, 0x11));
    assert_eq!(scaled[8], pack_vertex(26, 26));
    assert_eq!(scaled[11], pack_vertex(26, 20));
    assert!(atlas.draw_text_scaled(10, 20, "", 2, 3, tint).is_empty());
    assert_eq!(
        atlas.draw_text_scaled_q8(10, 20, "AB", 512, 768, tint),
        scaled
    );
    // Half again as large, with a pixel between: the second starts at 12 + 1.
    let fractional = atlas.draw_text_scaled_with_spacing_q8(0, 0, "AB", 384, 384, 1, tint);
    assert_eq!(fractional[11], pack_vertex(13, 0));

    let turned = atlas.draw_text_rotated(100, 100, "A", 1024, tint);
    // A quarter turn: (lx, ly) to (-ly, lx).
    assert_eq!(turned[2], pack_vertex(101, 96));
    assert_eq!(turned[4], pack_vertex(101, 104));
    assert_eq!(atlas.draw_text_rotated(100, 100, "A", 1024 + 4096 + 15, tint), turned);
    let level = atlas.draw_text_rotated(100, 100, "A", 0, tint);
    assert_eq!(level, atlas.draw_text_affine((96, 99), "A", [[4096, 0], [0, 4096]], tint));
    let upright = atlas.draw_text_affine((5, 6), "A", [[4096, 0], [0, 4096]], tint);
    assert_eq!(upright[2], pack_vertex(5, 6));
    assert_eq!(upright[8], pack_vertex(13, 8));
    let skewed = atlas.draw_text_affine((0, 0), "A", [[4096, 2365], [0, 4096]], tint);
    assert_eq!(skewed[6], pack_vertex(1, 2));

    let gradient = atlas.draw_text_gradient(0, 0, "A", (9, 9, 9), (7, 7, 7));
    assert_eq!(gradient.len(), 13);
    assert_eq!(gradient[1], 0x3C09_0909);
    assert_eq!(gradient[4], 0x09_0909);
    assert_eq!(gradient[7], 0x07_0707);
    assert_eq!(gradient[10], 0x07_0707);
    let shaded = atlas.draw_text_scaled_gouraud_with_spacing_q8(
        0,
        0,
        "A",
        256,
        256,
        0,
        [(9, 9, 9), (9, 9, 9), (7, 7, 7), (7, 7, 7)],
    );
    assert_eq!(shaded, gradient);
}
