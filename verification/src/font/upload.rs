//! What is sent to VRAM to install fonts.
//!
//! The VRAM allocator and the transfer belong to the caller: [`FontAtlas::upload`]
//! and [`install_font_set`] make the images, and [`plan_font_set`] says how many
//! pages to reserve for the latter.

use vstd::prelude::*;
use crate::font::atlas::FontAtlas;
use crate::font::bitmap::BitmapFont;
use crate::font::pack::{
    AtlasPlacement, FontPackMetrics, can_pack, dims_are_bounded, dims_of, fits_page, font_atlas_dims,
    is_page_count, is_row_count, is_sound, plan_after, plan_font_pack, sizes_of,
};
use crate::font::texels::{
    draw_font, font_texel, is_packable, left_edge, lit_by, pack_font_bits, shade, texel,
    zero_is_dark,
};
use crate::gpu::words::{Clut, TexDepth, Tpage};

verus! {

/// The two colours of every font: transparent, and the white that a tint
/// recolours.
pub const FONT_CLUT: [u16; 2] = [0, 0x7FFF];

/// Most halfwords of an atlas that [`FontAtlas::upload`] lays out: 128 glyphs at
/// 16x16. Larger fonts go through a font set, with caller-owned scratch.
pub const MAX_PACK_HALFWORDS: usize = 8192;

/// An image to be sent to VRAM: its width in halfwords, its rows, and its
/// halfwords row by row.
pub struct AtlasImage {
    pub width: u16,
    pub height: u16,
    pub halfwords: Vec<u16>,
}

impl FontAtlas {
    /// Lay `font` out as a 4bpp texture for `tpage`, with a 2-entry CLUT
    /// ([`FONT_CLUT`]) at `clut`.
    ///
    /// The caller picks the page / CLUT locations, sends the image to the
    /// page's corner and the colours to the table. Both must live inside VRAM
    /// and not overlap the active framebuffer.
    ///
    /// The layout picks `glyphs_per_row` so the texture's pixel width stays
    /// within a page. For 8-wide fonts that's 32 glyphs per row; 16-wide fonts
    /// get 16 per row.
    pub fn upload(font: &'static BitmapFont, tpage: Tpage, clut: Clut) -> (installed: (
        Self,
        AtlasImage,
    ))
        requires
            tpage.depth == TexDepth::Bit4,
            clut.wf(),
            font.wf(),
            font.glyph_w > 0,
            font.glyph_count > 0,
            dims_of(*font).height <= u16::MAX,
            dims_of(*font).halfwords * dims_of(*font).height <= MAX_PACK_HALFWORDS,
        ensures
            installed.0 == (FontAtlas {
                font,
                tpage,
                clut_word: clut.table_bits() as u16,
                glyphs_per_row: dims_of(*font).glyphs_per_row as u16,
                uv_origin: (0u8, 0u8),
            }),
            installed.1.width == dims_of(*font).halfwords,
            installed.1.height == dims_of(*font).height,
            installed.1.halfwords@.len() == dims_of(*font).halfwords * dims_of(*font).height,
            forall|x: int, y: int|
                0 <= x < 4 * dims_of(*font).halfwords && 0 <= y < dims_of(*font).height
                    ==> #[trigger] texel(
                    installed.1.halfwords@,
                    dims_of(*font).halfwords,
                    x,
                    y,
                ) == shade(font_texel(*font, x, y)),
    {
        let (glyphs_per_row, width, height, halfwords_per_row) = font_atlas_dims(font);
        proof {
            dims_are_bounded(*font);
        }
        assert(0 <= halfwords_per_row * height);
        let total = halfwords_per_row as usize * height as usize;
        let mut packed: Vec<u16> = Vec::new();
        let mut k: usize = 0;
        while k < total
            invariant
                k <= total,
                packed@.len() == k,
                forall|j: int| 0 <= j < k ==> #[trigger] packed@[j] == 0,
            decreases total - k,
        {
            packed.push(0);
            k += 1;
        }
        let ghost dark = packed@;
        let ghost stride = halfwords_per_row as int;
        proof {
            zero_is_dark(0);
            assert(height * stride == stride * height) by (nonlinear_arith);
        }
        draw_font(packed.as_mut_slice(), halfwords_per_row as usize, 0, 0, font);
        proof {
            assert forall|x: int, y: int|
                0 <= x < 4 * stride && 0 <= y < height implies #[trigger] texel(
                packed@,
                stride,
                x,
                y,
            ) == shade(font_texel(*font, x, y)) by {
                assert(0 <= y * stride && (y + 1) * stride <= height * stride) by (nonlinear_arith)
                    requires
                        0 <= y,
                        y + 1 <= height,
                        0 <= stride,
                ;
                assert((y + 1) * stride == y * stride + stride) by (nonlinear_arith);
                zero_is_dark((x % 4) as u16);
                assert(texel(dark, stride, x, y) == 0);
            }
        }
        let atlas = FontAtlas {
            font,
            tpage,
            clut_word: clut.uv_clut_word(),
            glyphs_per_row,
            uv_origin: (0, 0),
        };
        (atlas, AtlasImage { width: halfwords_per_row, height, halfwords: packed })
    }
}

/// Where the fonts of a set go, and what that takes.
#[derive(Copy, Clone, Debug)]
pub struct FontSetPlan {
    pub placements: [Option<AtlasPlacement>; 16],
    pub metrics: FontPackMetrics,
}

/// Check that a set of fonts can be uploaded together in a **single** image
/// transfer, and plan it.
///
/// Repeated per-font VRAM uploads desync the GPU command stream on some targets;
/// packing every glyph atlas into one reserved page run and emitting one
/// transfer avoids that entirely. Multiple atlas rectangles share each 256x256
/// 4bpp page through page-local UV origins; all fonts share one 2-entry CLUT.
///
/// `None` if there is no font, a font does not fit a page, `out` is too short or
/// `scratch_len` halfwords are too few. Either way all of `out` is cleared, so a
/// caller can never mistake stale handles for the set.
pub fn plan_font_set(
    fonts: &[&'static BitmapFont],
    scratch_len: usize,
    out: &mut [Option<FontAtlas>],
) -> (plan: Option<FontSetPlan>)
    ensures
        final(out)@.len() == old(out)@.len(),
        forall|i: int| 0 <= i < final(out)@.len() ==> (#[trigger] final(out)@[i]) is None,
        match plan {
            Some(plan) => {
                let sizes = sizes_of(fonts@);
                &&& can_pack(sizes)
                &&& fonts@.len() <= old(out)@.len()
                &&& plan.metrics.scratch_halfwords <= scratch_len
                &&& plan.placements@.take(fonts@.len() as int) == plan_after(sizes, fonts@.len())
                &&& is_sound(sizes, plan_after(sizes, fonts@.len()))
                &&& is_page_count(plan_after(sizes, fonts@.len()), plan.metrics.pages as int)
                &&& is_row_count(
                    sizes,
                    plan_after(sizes, fonts@.len()),
                    plan.metrics.upload_rows as int,
                )
                &&& plan.metrics.scratch_halfwords == plan.metrics.pages * 64
                    * plan.metrics.upload_rows
                &&& plan.metrics.pages <= 16
                &&& (forall|i: int| 0 <= i < fonts@.len() ==> (#[trigger] fonts@[i]).wf())
                    ==> is_packable(fonts@, plan.placements@, plan.metrics)
            },
            None => {
                ||| !can_pack(sizes_of(fonts@))
                ||| fonts@.len() > old(out)@.len()
                ||| exists|pages: int, rows: int|
                    #[trigger] is_page_count(plan_after(sizes_of(fonts@), fonts@.len()), pages)
                        && #[trigger] is_row_count(
                        sizes_of(fonts@),
                        plan_after(sizes_of(fonts@), fonts@.len()),
                        rows,
                    ) && pages * 64 * rows > scratch_len
            },
        },
{
    let n = fonts.len();
    let mut k: usize = 0;
    while k < out.len()
        invariant
            k <= out@.len(),
            out@.len() == old(out)@.len(),
            forall|j: int| 0 <= j < k ==> (#[trigger] out@[j]) is None,
        decreases out@.len() - k,
    {
        out[k] = None;
        k += 1;
    }
    if n == 0 || n > out.len() {
        return None;
    }
    let mut placements: [Option<AtlasPlacement>; 16] = [None;16];
    let metrics = plan_font_pack(fonts, &mut placements)?;
    if metrics.scratch_halfwords > scratch_len {
        return None;
    }
    proof {
        let sizes = sizes_of(fonts@);
        let plan = plan_after(sizes, n as nat);
        assert forall|i: int| 0 <= i < n implies {
            &&& (#[trigger] placements@[i]) is Some
            &&& dims_of(*fonts@[i]).height > 0
            &&& placements@[i]->0.page < metrics.pages
            &&& placements@[i]->0.x_halfwords + dims_of(*fonts@[i]).halfwords <= 64
            &&& placements@[i]->0.y + dims_of(*fonts@[i]).height <= metrics.upload_rows
        } by {
            assert(plan[i] == placements@[i]);
            assert(plan[i] is Some);
            assert(fits_page(sizes[i]));
        }
    }
    Some(FontSetPlan { placements, metrics })
}

/// The handle of a font of a set, placed in a run of pages from `base` on.
pub open spec fn handle_in(
    font: &'static BitmapFont,
    at: AtlasPlacement,
    base: Tpage,
    clut_word: u16,
) -> FontAtlas {
    FontAtlas {
        font,
        tpage: Tpage {
            x: (base.x + 64 * at.page) as u16,
            y: base.y,
            depth: TexDepth::Bit4,
        },
        clut_word,
        glyphs_per_row: dims_of(*font).glyphs_per_row as u16,
        uv_origin: ((at.x_halfwords * 4) as u8, at.y as u8),
    }
}

/// A handle leads to where its atlas lies in the image of the set: its page and
/// its origin on that page together are the left edge of the atlas, and the
/// origin's row is its first row.
pub proof fn handles_lead_into_the_image(
    font: &'static BitmapFont,
    at: AtlasPlacement,
    base: Tpage,
    clut_word: u16,
)
    requires
        at.x_halfwords < 64,
        at.y < 256,
        base.x + 64 * (at.page + 1) <= 1024,
    ensures
        ({
            let handle = handle_in(font, at, base, clut_word);
            &&& 4 * (handle.tpage.x - base.x) + handle.uv_origin.0 == 4 * left_edge(at)
            &&& (handle.tpage.x - base.x) % 64 == 0
            &&& handle.uv_origin.1 == at.y
            &&& handle.tpage.y == base.y
            &&& handle.tpage.depth == TexDepth::Bit4
            &&& handle.font == font
            &&& handle.clut_word == clut_word
            &&& handle.glyphs_per_row == dims_of(*font).glyphs_per_row as u16
        }),
{
}

/// Make the image of a planned font set and the handles of its fonts.
///
/// `base` is the first of the reserved pages, `clut_word` names the shared
/// colours. The first `plan.metrics.scratch_halfwords` of `scratch` become the
/// image of the whole run of pages, to be sent in one transfer; `out` receives
/// one handle per font, and `None` behind them.
pub fn install_font_set(
    plan: &FontSetPlan,
    fonts: &[&'static BitmapFont],
    base: Tpage,
    clut_word: u16,
    scratch: &mut [u16],
    out: &mut [Option<FontAtlas>],
)
    requires
        is_packable(fonts@, plan.placements@, plan.metrics),
        plan.metrics.scratch_halfwords <= old(scratch)@.len(),
        fonts@.len() <= old(out)@.len(),
        plan.metrics.upload_rows <= 256,
        base.wf(),
        base.depth == TexDepth::Bit4,
        base.x + 64 * plan.metrics.pages <= 1024,
    ensures
        final(out)@.len() == old(out)@.len(),
        forall|i: int|
            0 <= i < fonts@.len() ==> (#[trigger] final(out)@[i]) == Some(
                handle_in(fonts@[i], plan.placements@[i]->0, base, clut_word),
            ),
        forall|i: int|
            fonts@.len() <= i < final(out)@.len() ==> (#[trigger] final(out)@[i]) is None,
        final(scratch)@.len() == old(scratch)@.len(),
        final(scratch)@.skip(plan.metrics.scratch_halfwords as int) == old(scratch)@.skip(
            plan.metrics.scratch_halfwords as int,
        ),
        forall|x: int, y: int|
            0 <= x < 4 * (plan.metrics.pages * 64) && 0 <= y < plan.metrics.upload_rows
                ==> #[trigger] texel(final(scratch)@, plan.metrics.pages * 64, x, y) == shade(
                exists|i: int|
                    0 <= i < fonts@.len() && #[trigger] lit_by(
                        fonts@,
                        plan.placements@,
                        i,
                        x,
                        y,
                    ),
            ),
{
    let packed = pack_font_bits(fonts, &plan.placements, plan.metrics, scratch);
    let mut i: usize = 0;
    while i < out.len()
        invariant
            i <= out@.len(),
            out@.len() == old(out)@.len(),
            is_packable(fonts@, plan.placements@, plan.metrics),
            fonts@.len() <= out@.len(),
            plan.metrics.upload_rows <= 256,
            base.wf(),
            base.depth == TexDepth::Bit4,
            base.x + 64 * plan.metrics.pages <= 1024,
            forall|j: int|
                0 <= j < i && j < fonts@.len() ==> (#[trigger] out@[j]) == Some(
                    handle_in(fonts@[j], plan.placements@[j]->0, base, clut_word),
                ),
            forall|j: int| fonts@.len() <= j < i ==> (#[trigger] out@[j]) is None,
        decreases out@.len() - i,
    {
        if i < fonts.len() {
            let font = fonts[i];
            assert(fonts@[i as int].wf());
            let at = plan.placements[i].unwrap();
            proof {
                dims_are_bounded(*font);
            }
            let (glyphs_per_row, width, height, halfwords) = font_atlas_dims(font);
            out[i] = Some(
                FontAtlas {
                    font,
                    tpage: Tpage::new(base.x + 64 * at.page, base.y, TexDepth::Bit4),
                    clut_word,
                    glyphs_per_row,
                    uv_origin: ((at.x_halfwords * 4) as u8, at.y as u8),
                },
            );
        } else {
            out[i] = None;
        }
        i += 1;
    }
}

} // verus!
