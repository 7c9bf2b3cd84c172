//! Laying several font atlases out on shared texture pages.

use vstd::prelude::*;
use crate::font::bitmap::BitmapFont;

verus! {

/// Maximum texels a 4bpp page covers horizontally: 64 VRAM halfwords of four
/// texels each.
pub const MAX_ATLAS_W_TEXELS: u16 = 256;

/// Halfwords spanned by one 4bpp texture page (64 halfwords = 256 texels).
pub const FONT_PAGE_HALFWORDS: usize = 64;

/// Maximum number of font atlases accepted by one packed upload; also the number
/// of 4bpp page columns in 1024-wide VRAM.
pub const MAX_PACKED_FONT_ATLASES: usize = 16;

/// The glyph width rounded up to a whole halfword (4 texels at 4bpp).
pub open spec fn cell_width_of(font: BitmapFont) -> int {
    let w = if font.glyph_w == 0 {
        1
    } else {
        font.glyph_w as int
    };
    (w + 3) / 4 * 4
}

/// How an atlas lies in texels: how many glyphs stand in a row, its width and
/// height, and how many halfwords a row of it takes.
pub struct Dims {
    pub glyphs_per_row: int,
    pub width: int,
    pub height: int,
    pub halfwords: int,
}

/// The layout of `font`: as many columns of cells as a page is wide, but no more
/// than there are glyphs, and no fewer than one. Rows of halfwords are even.
pub open spec fn dims_of(font: BitmapFont) -> Dims {
    let cell = cell_width_of(font);
    let count = font.glyph_count as int;
    let most = if 256int / cell < 1 {
        1
    } else {
        256int / cell
    };
    let columns = if count < most {
        if count < 1 {
            1
        } else {
            count
        }
    } else {
        most
    };
    let rows = (count + columns - 1) / columns;
    Dims {
        glyphs_per_row: columns,
        width: columns * cell,
        height: rows * font.glyph_h,
        halfwords: (columns * cell / 4 + 1) / 2 * 2,
    }
}

/// Atlas cell width: the glyph width rounded up to a whole halfword (4
/// texels at 4bpp), so every glyph starts on a halfword boundary. A glyph that
/// starts at an arbitrary nibble is not drawn whole by every console.
pub fn cell_width(font: &BitmapFont) -> (width: u16)
    ensures
        width == cell_width_of(*font),
        4 <= width <= 256,
        width % 4 == 0,
        font.glyph_w <= width,
{
    let w: u16 = if font.glyph_w == 0 {
        1
    } else {
        font.glyph_w as u16
    };
    (w + 3) / 4 * 4
}

pub proof fn dims_are_bounded(font: BitmapFont)
    ensures
        ({
            let d = dims_of(font);
            let cell = cell_width_of(font);
            &&& 4 <= cell <= 256
            &&& cell % 4 == 0
            &&& 1 <= d.glyphs_per_row <= 256int / cell
            &&& d.glyphs_per_row * cell <= 256
            &&& 4 <= d.width <= 256
            &&& d.width % 4 == 0
            &&& d.width / 4 <= d.halfwords <= 64
            &&& 0 <= d.height
        }),
{
    let d = dims_of(font);
    let cell = cell_width_of(font);
    let columns = d.glyphs_per_row;
    assert(1 <= 256int / cell && 256int / cell * cell <= 256) by (nonlinear_arith)
        requires
            4 <= cell <= 256,
    ;
    assert(cell <= columns * cell <= 256int / cell * cell) by (nonlinear_arith)
        requires
            1 <= columns <= 256int / cell,
            4 <= cell,
    ;
    let quarter = cell / 4;
    assert(columns * cell == 4 * (columns * quarter)) by (nonlinear_arith)
        requires
            cell == 4 * quarter,
    ;
    assert(0 <= (font.glyph_count + columns - 1) / columns) by (nonlinear_arith)
        requires
            1 <= columns,
            0 <= font.glyph_count,
    ;
    assert(0 <= d.height) by (nonlinear_arith)
        requires
            0 <= (font.glyph_count + columns - 1) / columns,
            d.height == (font.glyph_count + columns - 1) / columns * font.glyph_h,
            0 <= font.glyph_h,
    ;
}

/// Atlas height as it would be without a bound.
fn atlas_height(font: &BitmapFont, glyphs_per_row: u16) -> (height: u32)
    requires
        glyphs_per_row == dims_of(*font).glyphs_per_row,
    ensures
        height == dims_of(*font).height,
{
    proof {
        dims_are_bounded(*font);
    }
    let columns = glyphs_per_row as u32;
    let rows = (font.glyph_count as u32 + columns - 1) / columns;
    assert(0 <= rows <= 0x1_0100) by (nonlinear_arith)
        requires
            1 <= columns <= 256,
            rows == (font.glyph_count + columns - 1) / columns as int,
            0 <= font.glyph_count <= 0xFFFF,
    ;
    assert(rows * font.glyph_h <= 0x1_0100 * 255) by (nonlinear_arith)
        requires
            0 <= rows <= 0x1_0100,
            0 <= font.glyph_h <= 255,
    ;
    rows * font.glyph_h as u32
}

pub(crate) fn atlas_columns(font: &BitmapFont) -> (columns: u16)
    ensures
        columns == dims_of(*font).glyphs_per_row,
        1 <= columns <= 64,
{
    let cell = cell_width(font);
    proof {
        dims_are_bounded(*font);
        assert(256int / cell as int <= 64) by (nonlinear_arith)
            requires
                4 <= cell,
        ;
    }
    let fit = 256 / cell;
    let most = if fit < 1 {
        1
    } else {
        fit
    };
    if font.glyph_count < most {
        if font.glyph_count < 1 {
            1
        } else {
            font.glyph_count
        }
    } else {
        most
    }
}

/// Atlas layout for `font`: `(glyphs_per_row, atlas_w_texels, atlas_h_texels,
/// halfwords_per_row)`. The stride is even because an upload moves whole words
/// and cell padding can leave an odd halfword row; the spare column stays zero.
pub fn font_atlas_dims(font: &BitmapFont) -> (dims: (u16, u16, u16, u16))
    requires
        dims_of(*font).height <= u16::MAX,
    ensures
        dims.0 == dims_of(*font).glyphs_per_row,
        dims.1 == dims_of(*font).width,
        dims.2 == dims_of(*font).height,
        dims.3 == dims_of(*font).halfwords,
{
    let cell = cell_width(font);
    let columns = atlas_columns(font);
    let height = atlas_height(font, columns);
    proof {
        dims_are_bounded(*font);
    }
    let width = columns * cell;
    (columns, width, height as u16, (width / 4 + 1) / 2 * 2)
}

/// Where one atlas lies: on which page, and where on it.
#[derive(Copy, Clone, Debug, PartialEq, Eq, Structural)]
pub struct AtlasPlacement {
    pub page: u16,
    pub x_halfwords: u16,
    pub y: u16,
}

/// VRAM and scratch requirements for one packed font-set upload.
#[derive(Copy, Clone, Debug, PartialEq, Eq, Structural)]
pub struct FontPackMetrics {
    /// Minimum contiguous page run requested by the bounded packer.
    pub pages: u16,
    /// Rows transferred by the single combined upload.
    pub upload_rows: u16,
    /// Caller-owned scratch halfwords required for that upload.
    pub scratch_halfwords: usize,
}

/// Two rectangles on the same page share a halfword.
pub open spec fn overlap(
    a: AtlasPlacement,
    a_w: int,
    a_h: int,
    b: AtlasPlacement,
    b_w: int,
    b_h: int,
) -> bool {
    &&& a.page == b.page
    &&& a.x_halfwords < b.x_halfwords + b_w
    &&& b.x_halfwords < a.x_halfwords + a_w
    &&& a.y < b.y + b_h
    &&& b.y < a.y + a_h
}

/// Whether two placed rectangles overlap.
pub fn placements_overlap(
    a: AtlasPlacement,
    a_w: u16,
    a_h: u16,
    b: AtlasPlacement,
    b_w: u16,
    b_h: u16,
) -> (shared: bool)
    requires
        a.x_halfwords + a_w <= u16::MAX,
        a.y + a_h <= u16::MAX,
        b.x_halfwords + b_w <= u16::MAX,
        b.y + b_h <= u16::MAX,
    ensures
        shared == overlap(a, a_w as int, a_h as int, b, b_w as int, b_h as int),
{
    a.page == b.page && a.x_halfwords < b.x_halfwords + b_w && b.x_halfwords < a.x_halfwords + a_w
        && a.y < b.y + b_h && b.y < a.y + a_h
}

/// The size of an atlas on its page, in halfwords and rows.
pub struct Size {
    pub w: int,
    pub h: int,
}

/// The sizes of the atlases of `fonts`.
pub open spec fn sizes_of(fonts: Seq<&'static BitmapFont>) -> Seq<Size> {
    Seq::new(
        fonts.len(),
        |i: int| Size { w: dims_of(*fonts[i]).halfwords, h: dims_of(*fonts[i]).height },
    )
}

/// An atlas that fits a page.
pub open spec fn fits_page(size: Size) -> bool {
    0 < size.w <= 64 && 0 < size.h <= 256
}

/// Atlas `i` is the next to be placed: the tallest of those without a place, the
/// widest of the tallest, the first of those.
pub open spec fn is_next(
    sizes: Seq<Size>,
    placed: Seq<Option<AtlasPlacement>>,
    i: int,
) -> bool {
    &&& 0 <= i < sizes.len()
    &&& placed[i] is None
    &&& forall|j: int|
        0 <= j < sizes.len() && (#[trigger] placed[j]) is None ==> {
            ||| sizes[j].h < sizes[i].h
            ||| sizes[j].h == sizes[i].h && sizes[j].w < sizes[i].w
            ||| sizes[j].h == sizes[i].h && sizes[j].w == sizes[i].w && i <= j
        }
}

/// `x` is the page's left edge or the right edge of an atlas on it.
pub open spec fn is_left_edge(
    sizes: Seq<Size>,
    placed: Seq<Option<AtlasPlacement>>,
    page: int,
    x: int,
) -> bool {
    x == 0 || exists|i: int|
        0 <= i < sizes.len() && (#[trigger] placed[i]) is Some && placed[i]->0.page == page && x
            == placed[i]->0.x_halfwords + sizes[i].w
}

/// `y` is the page's first row or the row behind an atlas on it.
pub open spec fn is_first_row(
    sizes: Seq<Size>,
    placed: Seq<Option<AtlasPlacement>>,
    page: int,
    y: int,
) -> bool {
    y == 0 || exists|i: int|
        0 <= i < sizes.len() && (#[trigger] placed[i]) is Some && placed[i]->0.page == page && y
            == placed[i]->0.y + sizes[i].h
}

/// An atlas of this size could lie at `at`: in a corner of page edges and edges
/// of placed atlases, inside the page, over nothing.
pub open spec fn is_corner(
    sizes: Seq<Size>,
    placed: Seq<Option<AtlasPlacement>>,
    size: Size,
    at: AtlasPlacement,
) -> bool {
    &&& is_left_edge(sizes, placed, at.page as int, at.x_halfwords as int)
    &&& is_first_row(sizes, placed, at.page as int, at.y as int)
    &&& at.x_halfwords + size.w <= 64
    &&& at.y + size.h <= 256
    &&& forall|i: int|
        0 <= i < sizes.len() && (#[trigger] placed[i]) is Some ==> !overlap(
            at,
            size.w,
            size.h,
            placed[i]->0,
            sizes[i].w,
            sizes[i].h,
        )
}

/// `a` comes before `b` or is as good: it is on an earlier page, or higher up on
/// the same, or as high and further left.
pub open spec fn no_later(a: AtlasPlacement, b: AtlasPlacement) -> bool {
    ||| a.page < b.page
    ||| a.page == b.page && a.y < b.y
    ||| a.page == b.page && a.y == b.y && a.x_halfwords <= b.x_halfwords
}

/// `at` is the best corner for an atlas of this size.
pub open spec fn is_best_corner(
    sizes: Seq<Size>,
    placed: Seq<Option<AtlasPlacement>>,
    size: Size,
    at: AtlasPlacement,
) -> bool {
    &&& is_corner(sizes, placed, size, at)
    &&& forall|other: AtlasPlacement|
        #[trigger] is_corner(sizes, placed, size, other) ==> no_later(at, other)
}

/// The places after `k` atlases have been placed, each in its turn in the best
/// corner there is.
pub open spec fn plan_after(sizes: Seq<Size>, k: nat) -> Seq<Option<AtlasPlacement>>
    decreases k,
{
    if k == 0 {
        Seq::new(sizes.len(), |i: int| None)
    } else {
        let placed = plan_after(sizes, (k - 1) as nat);
        let i = choose|i: int| is_next(sizes, placed, i);
        let at = choose|at: AtlasPlacement| is_best_corner(sizes, placed, sizes[i], at);
        placed.update(i, Some(at))
    }
}

/// How many pages the placed atlases use.
pub open spec fn is_page_count(placed: Seq<Option<AtlasPlacement>>, pages: int) -> bool {
    &&& 0 <= pages
    &&& forall|i: int|
        0 <= i < placed.len() && (#[trigger] placed[i]) is Some ==> placed[i]->0.page < pages
    &&& forall|page: int|
        0 <= page < pages ==> #[trigger] page_is_used(placed, page)
}

/// Some atlas lies on this page.
pub open spec fn page_is_used(placed: Seq<Option<AtlasPlacement>>, page: int) -> bool {
    exists|i: int|
        0 <= i < placed.len() && (#[trigger] placed[i]) is Some && placed[i]->0.page == page
}

/// The last row that any atlas reaches.
pub open spec fn is_row_count(
    sizes: Seq<Size>,
    placed: Seq<Option<AtlasPlacement>>,
    rows: int,
) -> bool {
    &&& forall|i: int|
        0 <= i < placed.len() && (#[trigger] placed[i]) is Some ==> placed[i]->0.y + sizes[i].h
            <= rows
    &&& exists|i: int|
        0 <= i < placed.len() && (#[trigger] placed[i]) is Some && placed[i]->0.y + sizes[i].h
            == rows
}

/// Every font can be placed: there is at least one, not too many, and each fits
/// a page.
pub open spec fn can_pack(sizes: Seq<Size>) -> bool {
    &&& 0 < sizes.len() <= 16
    &&& forall|i: int| 0 <= i < sizes.len() ==> fits_page(#[trigger] sizes[i])
}

/// Every atlas has a place inside a page, and no two overlap.
pub open spec fn is_sound(sizes: Seq<Size>, placed: Seq<Option<AtlasPlacement>>) -> bool {
    &&& placed.len() == sizes.len()
    &&& forall|i: int|
        0 <= i < placed.len() && (#[trigger] placed[i]) is Some ==> placed[i]->0.x_halfwords
            + sizes[i].w <= 64 && placed[i]->0.y + sizes[i].h <= 256
    &&& forall|i: int, j: int|
        #![trigger placed[i], placed[j]]
        0 <= i < placed.len() && 0 <= j < placed.len() && i != j && placed[i] is Some
            && placed[j] is Some ==> !overlap(
            placed[i]->0,
            sizes[i].w,
            sizes[i].h,
            placed[j]->0,
            sizes[j].w,
            sizes[j].h,
        )
}

/// The row that edge `source` gives: 0 for the page's own, `i + 1` for the one
/// behind atlas `i`.
spec fn row_from(
    sizes: Seq<Size>,
    placed: Seq<Option<AtlasPlacement>>,
    page: int,
    source: int,
) -> Option<int> {
    if source == 0 {
        Some(0)
    } else if placed[source - 1] is Some && placed[source - 1]->0.page == page {
        Some(placed[source - 1]->0.y + sizes[source - 1].h)
    } else {
        None
    }
}

/// The column that edge `source` gives.
spec fn column_from(
    sizes: Seq<Size>,
    placed: Seq<Option<AtlasPlacement>>,
    page: int,
    source: int,
) -> Option<int> {
    if source == 0 {
        Some(0)
    } else if placed[source - 1] is Some && placed[source - 1]->0.page == page {
        Some(placed[source - 1]->0.x_halfwords + sizes[source - 1].w)
    } else {
        None
    }
}

/// What is known of the sizes and places while atlases are being placed.
spec fn placing(
    sizes: Seq<Size>,
    placements: Seq<Option<AtlasPlacement>>,
    ws: Seq<u16>,
    hs: Seq<u16>,
) -> bool {
    let n = sizes.len() as int;
    &&& n <= 16
    &&& ws.len() == 16
    &&& hs.len() == 16
    &&& placements.len() == 16
    &&& is_sound(sizes, placements.take(n))
    &&& forall|i: int|
        0 <= i < n ==> {
            &&& fits_page(#[trigger] sizes[i])
            &&& sizes[i].w == ws[i]
            &&& sizes[i].h == hs[i]
        }
}

/// No corner of the given edges has been passed over for a later one.
spec fn considered(
    sizes: Seq<Size>,
    placed: Seq<Option<AtlasPlacement>>,
    size: Size,
    best: Option<AtlasPlacement>,
    page: int,
    y_source: int,
    x_source: int,
) -> bool {
    forall|other: AtlasPlacement|
        other.page == page && row_from(sizes, placed, page, y_source) == Some(other.y as int)
            && column_from(sizes, placed, page, x_source) == Some(other.x_halfwords as int)
            && #[trigger] is_corner(sizes, placed, size, other) ==> best is Some && no_later(
            best->0,
            other,
        )
}

fn is_free(
    ws: &[u16; 16],
    hs: &[u16; 16],
    n: usize,
    placements: &[Option<AtlasPlacement>; 16],
    at: AtlasPlacement,
    w: u16,
    h: u16,
    Ghost(sizes): Ghost<Seq<Size>>,
) -> (free: bool)
    requires
        n == sizes.len(),
        placing(sizes, placements@, ws@, hs@),
        at.x_halfwords + w <= 64,
        at.y + h <= 256,
    ensures
        free == (forall|i: int|
            0 <= i < n && (#[trigger] placements@[i]) is Some ==> !overlap(
                at,
                w as int,
                h as int,
                placements@[i]->0,
                sizes[i].w,
                sizes[i].h,
            )),
{
    let mut i: usize = 0;
    while i < n
        invariant
            i <= n <= 16,
            n == sizes.len(),
            placing(sizes, placements@, ws@, hs@),
            at.x_halfwords + w <= 64,
            at.y + h <= 256,
            forall|j: int|
                0 <= j < i && (#[trigger] placements@[j]) is Some ==> !overlap(
                    at,
                    w as int,
                    h as int,
                    placements@[j]->0,
                    sizes[j].w,
                    sizes[j].h,
                ),
        decreases n - i,
    {
        assert(placements@.take(n as int)[i as int] == placements@[i as int]);
        assert(fits_page(sizes[i as int]));
        if let Some(prior) = placements[i] {
            if placements_overlap(at, w, h, prior, ws[i], hs[i]) {
                assert(placements@[i as int] is Some);
                return false;
            }
        }
        i += 1;
    }
    true
}

/// The best corner on one page.
fn best_on_page(
    ws: &[u16; 16],
    hs: &[u16; 16],
    n: usize,
    placements: &[Option<AtlasPlacement>; 16],
    page: u16,
    w: u16,
    h: u16,
    Ghost(sizes): Ghost<Seq<Size>>,
) -> (best: Option<AtlasPlacement>)
    requires
        n == sizes.len(),
        placing(sizes, placements@, ws@, hs@),
        0 < w <= 64,
        0 < h <= 256,
    ensures
        ({
            let placed = placements@.take(n as int);
            let size = Size { w: w as int, h: h as int };
            match best {
                Some(at) => {
                    &&& at.page == page
                    &&& is_corner(sizes, placed, size, at)
                    &&& forall|other: AtlasPlacement|
                        other.page == page && #[trigger] is_corner(sizes, placed, size, other)
                            ==> no_later(at, other)
                },
                None => forall|other: AtlasPlacement|
                    other.page == page ==> !#[trigger] is_corner(sizes, placed, size, other),
            }
        }),
{
    let ghost placed = placements@.take(n as int);
    let ghost size = Size { w: w as int, h: h as int };
    let mut best: Option<AtlasPlacement> = None;
    let mut y_source: usize = 0;
    while y_source <= n
        invariant
            y_source <= n + 1,
            n <= 16,
            n == sizes.len(),
            placed == placements@.take(n as int),
            size == (Size { w: w as int, h: h as int }),
            placing(sizes, placements@, ws@, hs@),
            0 < w <= 64,
            0 < h <= 256,
            best matches Some(at) ==> at.page == page && is_corner(sizes, placed, size, at),
            forall|ys: int, xs: int|
                0 <= ys < y_source && 0 <= xs <= n ==> #[trigger] considered(
                    sizes,
                    placed,
                    size,
                    best,
                    page as int,
                    ys,
                    xs,
                ),
        decreases n + 1 - y_source,
    {
        let y = match edge(ws, hs, n, placements, page, y_source, Ghost(sizes)) {
            Some((x, y)) => Some(y),
            None => None,
        };
        if y.is_some() && y.unwrap() + h <= 256 {
            let y = y.unwrap();
            let mut x_source: usize = 0;
            while x_source <= n
                invariant
                    x_source <= n + 1,
                    y_source <= n,
                    n <= 16,
                    n == sizes.len(),
                    placed == placements@.take(n as int),
                    size == (Size { w: w as int, h: h as int }),
                    placing(sizes, placements@, ws@, hs@),
                    0 < w <= 64,
                    0 < h <= 256,
                    y + h <= 256,
                    row_from(sizes, placed, page as int, y_source as int) == Some(y as int),
                    best matches Some(at) ==> at.page == page && is_corner(
                        sizes,
                        placed,
                        size,
                        at,
                    ),
                    forall|ys: int, xs: int|
                        0 <= ys < y_source && 0 <= xs <= n ==> #[trigger] considered(
                            sizes,
                            placed,
                            size,
                            best,
                            page as int,
                            ys,
                            xs,
                        ),
                    forall|xs: int|
                        0 <= xs < x_source ==> #[trigger] considered(
                            sizes,
                            placed,
                            size,
                            best,
                            page as int,
                            y_source as int,
                            xs,
                        ),
                decreases n + 1 - x_source,
            {
                let ghost before = best;
                if let Some((x, unused)) = edge(
                    ws,
                    hs,
                    n,
                    placements,
                    page,
                    x_source,
                    Ghost(sizes),
                ) {
                    if x + w <= 64 {
                        let candidate = AtlasPlacement { page, x_halfwords: x, y };
                        if is_free(ws, hs, n, placements, candidate, w, h, Ghost(sizes)) {
                            proof {
                                edges_make_a_corner(
                                    sizes,
                                    placements@,
                                    placed,
                                    size,
                                    candidate,
                                    y_source as int,
                                    x_source as int,
                                );
                            }
                            let better = match best {
                                None => true,
                                Some(b) => y < b.y || y == b.y && x < b.x_halfwords,
                            };
                            if better {
                                best = Some(candidate);
                            }
                        } else {
                            proof {
                                assert(!is_corner(sizes, placed, size, candidate)) by {
                                    let i = choose|i: int|
                                        0 <= i < n && (#[trigger] placements@[i]) is Some
                                            && overlap(
                                            candidate,
                                            w as int,
                                            h as int,
                                            placements@[i]->0,
                                            sizes[i].w,
                                            sizes[i].h,
                                        );
                                    assert(placed[i] == placements@[i]);
                                }
                            }
                        }
                    }
                }
                proof {
                    assert(before is Some ==> best is Some && no_later(best->0, before->0));
                    assert forall|ys: int, xs: int|
                        0 <= ys < y_source && 0 <= xs <= n implies #[trigger] considered(
                        sizes,
                        placed,
                        size,
                        best,
                        page as int,
                        ys,
                        xs,
                    ) by {
                        assert(considered(sizes, placed, size, before, page as int, ys, xs));
                    }
                    assert forall|xs: int| 0 <= xs < x_source implies #[trigger] considered(
                        sizes,
                        placed,
                        size,
                        best,
                        page as int,
                        y_source as int,
                        xs,
                    ) by {
                        assert(considered(
                            sizes,
                            placed,
                            size,
                            before,
                            page as int,
                            y_source as int,
                            xs,
                        ));
                    }
                }
                x_source += 1;
            }
        }
        y_source += 1;
    }
    proof {
        assert forall|other: AtlasPlacement|
            other.page == page && #[trigger] is_corner(sizes, placed, size, other) implies best
            is Some && no_later(best->0, other) by {
            let ys = choose_source(
                sizes,
                placed,
                page as int,
                other.y as int,
                other.x_halfwords as int,
            );
            assert(considered(sizes, placed, size, best, page as int, ys.0, ys.1));
        }
    }
    best
}

/// The edges that put a corner where it is.
proof fn choose_source(
    sizes: Seq<Size>,
    placed: Seq<Option<AtlasPlacement>>,
    page: int,
    y: int,
    x: int,
) -> (sources: (int, int))
    requires
        is_first_row(sizes, placed, page, y),
        is_left_edge(sizes, placed, page, x),
        placed.len() == sizes.len(),
    ensures
        0 <= sources.0 <= sizes.len(),
        0 <= sources.1 <= sizes.len(),
        row_from(sizes, placed, page, sources.0) == Some(y),
        column_from(sizes, placed, page, sources.1) == Some(x),
{
    let ys = if y == 0 {
        0
    } else {
        1 + choose|i: int|
            0 <= i < sizes.len() && (#[trigger] placed[i]) is Some && placed[i]->0.page == page
                && y == placed[i]->0.y + sizes[i].h
    };
    let xs = if x == 0 {
        0
    } else {
        1 + choose|i: int|
            0 <= i < sizes.len() && (#[trigger] placed[i]) is Some && placed[i]->0.page == page
                && x == placed[i]->0.x_halfwords + sizes[i].w
    };
    (ys, xs)
}

proof fn edges_make_a_corner(
    sizes: Seq<Size>,
    placements: Seq<Option<AtlasPlacement>>,
    placed: Seq<Option<AtlasPlacement>>,
    size: Size,
    at: AtlasPlacement,
    y_source: int,
    x_source: int,
)
    requires
        placements.len() == 16,
        sizes.len() <= 16,
        placed == placements.take(sizes.len() as int),
        0 <= y_source <= sizes.len(),
        0 <= x_source <= sizes.len(),
        row_from(sizes, placed, at.page as int, y_source) == Some(at.y as int),
        column_from(sizes, placed, at.page as int, x_source) == Some(at.x_halfwords as int),
        at.x_halfwords + size.w <= 64,
        at.y + size.h <= 256,
        forall|i: int|
            0 <= i < sizes.len() && (#[trigger] placements[i]) is Some ==> !overlap(
                at,
                size.w,
                size.h,
                placements[i]->0,
                sizes[i].w,
                sizes[i].h,
            ),
    ensures
        is_corner(sizes, placed, size, at),
{
    assert forall|i: int| 0 <= i < sizes.len() && (#[trigger] placed[i]) is Some implies !overlap(
        at,
        size.w,
        size.h,
        placed[i]->0,
        sizes[i].w,
        sizes[i].h,
    ) by {
        assert(placements[i] is Some);
    }
    if y_source > 0 {
        assert(placed[y_source - 1] is Some);
    }
    if x_source > 0 {
        assert(placed[x_source - 1] is Some);
    }
}

/// The column and the row that edge `source` gives on a page.
fn edge(
    ws: &[u16; 16],
    hs: &[u16; 16],
    n: usize,
    placements: &[Option<AtlasPlacement>; 16],
    page: u16,
    source: usize,
    Ghost(sizes): Ghost<Seq<Size>>,
) -> (edge: Option<(u16, u16)>)
    requires
        n == sizes.len(),
        placing(sizes, placements@, ws@, hs@),
        source <= n,
    ensures
        ({
            let placed = placements@.take(n as int);
            match edge {
                Some((x, y)) => {
                    &&& column_from(sizes, placed, page as int, source as int) == Some(x as int)
                    &&& row_from(sizes, placed, page as int, source as int) == Some(y as int)
                    &&& x <= 64
                    &&& y <= 256
                },
                None => {
                    &&& column_from(sizes, placed, page as int, source as int) is None
                    &&& row_from(sizes, placed, page as int, source as int) is None
                },
            }
        }),
{
    if source == 0 {
        return Some((0, 0));
    }
    let i = source - 1;
    assert(placements@.take(n as int)[i as int] == placements@[i as int]);
    assert(fits_page(sizes[i as int]));
    match placements[i] {
        Some(prior) => if prior.page == page {
            Some((prior.x_halfwords + ws[i], prior.y + hs[i]))
        } else {
            None
        },
        None => None,
    }
}

/// How many atlases have a place.
pub open spec fn placed_count(placed: Seq<Option<AtlasPlacement>>) -> nat
    decreases placed.len(),
{
    if placed.len() == 0 {
        0
    } else {
        placed_count(placed.drop_last()) + if placed.last() is Some {
            1nat
        } else {
            0
        }
    }
}

proof fn nothing_placed(placed: Seq<Option<AtlasPlacement>>)
    requires
        forall|i: int| 0 <= i < placed.len() ==> (#[trigger] placed[i]) is None,
    ensures
        placed_count(placed) == 0,
    decreases placed.len(),
{
    if placed.len() > 0 {
        nothing_placed(placed.drop_last());
    }
}

proof fn everything_placed(placed: Seq<Option<AtlasPlacement>>)
    requires
        forall|i: int| 0 <= i < placed.len() ==> (#[trigger] placed[i]) is Some,
    ensures
        placed_count(placed) == placed.len(),
    decreases placed.len(),
{
    if placed.len() > 0 {
        everything_placed(placed.drop_last());
    }
}

proof fn all_have_places(placed: Seq<Option<AtlasPlacement>>)
    requires
        placed_count(placed) >= placed.len(),
    ensures
        forall|i: int| 0 <= i < placed.len() ==> (#[trigger] placed[i]) is Some,
    decreases placed.len(),
{
    if placed.len() > 0 {
        let front = placed.drop_last();
        placed_count_is_bounded(front);
        all_have_places(front);
        assert forall|i: int| 0 <= i < placed.len() implies (#[trigger] placed[i]) is Some by {
            if i < front.len() {
                assert(front[i] is Some);
            }
        }
    }
}

proof fn placed_count_is_bounded(placed: Seq<Option<AtlasPlacement>>)
    ensures
        placed_count(placed) <= placed.len(),
    decreases placed.len(),
{
    if placed.len() > 0 {
        placed_count_is_bounded(placed.drop_last());
    }
}

proof fn one_more_placed(placed: Seq<Option<AtlasPlacement>>, i: int, at: AtlasPlacement)
    requires
        0 <= i < placed.len(),
        placed[i] is None,
    ensures
        placed_count(placed.update(i, Some(at))) == placed_count(placed) + 1,
    decreases placed.len(),
{
    let after = placed.update(i, Some(at));
    if i == placed.len() - 1 {
        assert(after.drop_last() =~= placed.drop_last());
    } else {
        assert(after.drop_last() =~= placed.drop_last().update(i, Some(at)));
        one_more_placed(placed.drop_last(), i, at);
    }
}

/// The next atlas, if any is without a place.
fn next_to_place(
    ws: &[u16; 16],
    hs: &[u16; 16],
    n: usize,
    placements: &[Option<AtlasPlacement>; 16],
    Ghost(sizes): Ghost<Seq<Size>>,
) -> (next: Option<usize>)
    requires
        n == sizes.len(),
        placing(sizes, placements@, ws@, hs@),
    ensures
        match next {
            Some(i) => i < n && is_next(sizes, placements@.take(n as int), i as int),
            None => forall|i: int|
                0 <= i < n ==> (#[trigger] placements@.take(n as int)[i]) is Some,
        },
{
    let ghost placed = placements@.take(n as int);
    let mut next: Option<usize> = None;
    let mut i: usize = 0;
    while i < n
        invariant
            i <= n <= 16,
            n == sizes.len(),
            placed == placements@.take(n as int),
            placing(sizes, placements@, ws@, hs@),
            match next {
                Some(s) => {
                    &&& s < i
                    &&& placed[s as int] is None
                    &&& forall|j: int|
                        0 <= j < i && (#[trigger] placed[j]) is None ==> {
                            ||| sizes[j].h < sizes[s as int].h
                            ||| sizes[j].h == sizes[s as int].h && sizes[j].w < sizes[s as int].w
                            ||| sizes[j].h == sizes[s as int].h && sizes[j].w == sizes[s as int].w
                                && s <= j
                        }
                },
                None => forall|j: int| 0 <= j < i ==> (#[trigger] placed[j]) is Some,
            },
        decreases n - i,
    {
        assert(placed[i as int] == placements@[i as int]);
        assert(fits_page(sizes[i as int]));
        if placements[i].is_none() {
            let better = match next {
                None => true,
                Some(s) => {
                    assert(fits_page(sizes[s as int]));
                    hs[i] > hs[s] || hs[i] == hs[s] && ws[i] > ws[s]
                },
            };
            if better {
                next = Some(i);
            }
        }
        i += 1;
    }
    next
}

/// What placing one more atlas keeps.
proof fn placed_one_more(
    sizes: Seq<Size>,
    placed: Seq<Option<AtlasPlacement>>,
    i: int,
    at: AtlasPlacement,
    pages: int,
)
    requires
        is_sound(sizes, placed),
        is_page_count(placed, pages),
        0 <= i < sizes.len(),
        placed[i] is None,
        is_corner(sizes, placed, sizes[i], at),
        at.page <= pages,
    ensures
        is_sound(sizes, placed.update(i, Some(at))),
        is_page_count(
            placed.update(i, Some(at)),
            if at.page == pages {
                pages + 1
            } else {
                pages
            },
        ),
        placed_count(placed.update(i, Some(at))) == placed_count(placed) + 1,
{
    let after = placed.update(i, Some(at));
    one_more_placed(placed, i, at);
    assert forall|a: int, b: int|
        #![trigger after[a], after[b]]
        0 <= a < after.len() && 0 <= b < after.len() && a != b && after[a] is Some && after[b]
            is Some implies !overlap(
        after[a]->0,
        sizes[a].w,
        sizes[a].h,
        after[b]->0,
        sizes[b].w,
        sizes[b].h,
    ) by {
        if a == i {
            assert(placed[b] is Some);
        } else if b == i {
            assert(placed[a] is Some);
        } else {
            assert(placed[a] is Some && placed[b] is Some);
        }
    }
    let more = if at.page == pages {
        pages + 1
    } else {
        pages
    };
    assert forall|k: int| 0 <= k < after.len() && (#[trigger] after[k]) is Some implies
        after[k]->0.page < more by {
        if k != i {
            assert(placed[k] is Some);
        }
    }
    assert forall|page: int| 0 <= page < more implies #[trigger] page_is_used(after, page) by {
        if page == at.page {
            assert(after[i] is Some && after[i]->0.page == page);
        } else {
            assert(page_is_used(placed, page));
            let k = choose|k: int|
                0 <= k < placed.len() && (#[trigger] placed[k]) is Some && placed[k]->0.page
                    == page;
            assert(after[k] is Some && after[k]->0.page == page);
        }
    }
}

/// Plan page-local atlas rectangles with a deterministic, bounded
/// bottom-left bin layout. Tall atlases are placed first; candidate corners
/// come only from page edges and already-placed rectangle edges, avoiding a
/// texel-by-texel search.
#[verifier::rlimit(40)]
pub fn plan_font_pack(
    fonts: &[&'static BitmapFont],
    placements: &mut [Option<AtlasPlacement>; 16],
) -> (metrics: Option<FontPackMetrics>)
    ensures
        ({
            let sizes = sizes_of(fonts@);
            let n = fonts@.len();
            match metrics {
                None => {
                    &&& !can_pack(sizes)
                    &&& if n == 0 || n > 16 {
                        final(placements)@ == old(placements)@
                    } else {
                        forall|i: int|
                            0 <= i < 16 ==> (#[trigger] final(placements)@[i]) is None
                    }
                },
                Some(metrics) => {
                    let plan = plan_after(sizes, n);
                    &&& can_pack(sizes)
                    &&& final(placements)@.take(n as int) == plan
                    &&& forall|i: int|
                        n <= i < 16 ==> (#[trigger] final(placements)@[i]) is None
                    &&& forall|i: int| 0 <= i < n ==> (#[trigger] plan[i]) is Some
                    &&& is_sound(sizes, plan)
                    &&& is_page_count(plan, metrics.pages as int)
                    &&& 0 < metrics.pages <= 16
                    &&& is_row_count(sizes, plan, metrics.upload_rows as int)
                    &&& 0 < metrics.upload_rows <= 256
                    &&& metrics.scratch_halfwords == metrics.pages * 64 * metrics.upload_rows
                },
            }
        }),
{
    let ghost sizes = sizes_of(fonts@);
    let n = fonts.len();
    if n == 0 || n > MAX_PACKED_FONT_ATLASES {
        return None;
    }
    *placements = [None;16];
    let mut ws: [u16; 16] = [0;16];
    let mut hs: [u16; 16] = [0;16];
    let mut i: usize = 0;
    while i < n
        invariant
            i <= n <= 16,
            n == fonts@.len(),
            sizes == sizes_of(fonts@),
            forall|j: int| 0 <= j < 16 ==> (#[trigger] placements@[j]) is None,
            forall|j: int|
                0 <= j < i ==> {
                    &&& fits_page(#[trigger] sizes[j])
                    &&& sizes[j].w == ws@[j]
                    &&& sizes[j].h == hs@[j]
                },
        decreases n - i,
    {
        let font = fonts[i];
        let columns = atlas_columns(font);
        let height = atlas_height(font, columns);
        proof {
            dims_are_bounded(*font);
        }
        if height == 0 || height > 256 {
            assert(!fits_page(sizes[i as int]));
            return None;
        }
        let (glyphs_per_row, width, rows, halfwords) = font_atlas_dims(font);
        ws[i] = halfwords;
        hs[i] = rows;
        assert(fits_page(sizes[i as int]));
        i += 1;
    }
    let ghost empty = placements@.take(n as int);
    proof {
        assert(empty =~= plan_after(sizes, 0));
        nothing_placed(empty);
    }
    let mut page_count: u16 = 0;
    let mut k: usize = 0;
    while k < n
        invariant
            k <= n <= 16,
            n == sizes.len(),
            placing(sizes, placements@, ws@, hs@),
            placements@.take(n as int) == plan_after(sizes, k as nat),
            placed_count(plan_after(sizes, k as nat)) == k,
            is_page_count(plan_after(sizes, k as nat), page_count as int),
            page_count <= k,
            k > 0 ==> page_count > 0,
            forall|j: int| n <= j < 16 ==> (#[trigger] placements@[j]) is None,
        decreases n - k,
    {
        let ghost placed = placements@.take(n as int);
        let next = next_to_place(&ws, &hs, n, placements, Ghost(sizes));
        proof {
            if next is None {
                everything_placed(placed);
            }
        }
        let index = next.unwrap();
        let (w, h) = (ws[index], hs[index]);
        let ghost size = sizes[index as int];
        assert(fits_page(size));
        assert(size == (Size { w: w as int, h: h as int }));
        let mut chosen: Option<AtlasPlacement> = None;
        let mut page: u16 = 0;
        while chosen.is_none() && page <= page_count
            invariant
                page <= page_count + 1,
                page_count <= 16,
                n == sizes.len(),
                n <= 16,
                placed == placements@.take(n as int),
                placing(sizes, placements@, ws@, hs@),
                size == (Size { w: w as int, h: h as int }),
                fits_page(size),
                match chosen {
                    Some(at) => is_best_corner(sizes, placed, size, at) && at.page <= page_count,
                    None => forall|other: AtlasPlacement|
                        other.page < page ==> !#[trigger] is_corner(sizes, placed, size, other),
                },
            decreases page_count + 1 - page,
        {
            chosen = best_on_page(&ws, &hs, n, placements, page, w, h, Ghost(sizes));
            page += 1;
        }
        proof {
            if chosen is None {
                let fresh = AtlasPlacement { page: page_count, x_halfwords: 0, y: 0 };
                assert forall|j: int| 0 <= j < n && (#[trigger] placed[j]) is Some implies !overlap(
                    fresh,
                    size.w,
                    size.h,
                    placed[j]->0,
                    sizes[j].w,
                    sizes[j].h,
                ) by {}
                assert(is_corner(sizes, placed, size, fresh));
            }
        }
        let at = chosen.unwrap();
        proof {
            let i = choose|i: int| is_next(sizes, placed, i);
            assert(is_next(sizes, placed, index as int));
            assert(i == index);
            let best = choose|best: AtlasPlacement|
                is_best_corner(sizes, placed, sizes[i], best);
            assert(best == at);
            placed_one_more(sizes, placed, index as int, at, page_count as int);
            assert(placements@.update(index as int, Some(at)).take(n as int) =~= placed.update(
                index as int,
                Some(at),
            ));
        }
        placements[index] = Some(at);
        if at.page == page_count {
            page_count += 1;
        }
        k += 1;
    }
    let ghost plan = plan_after(sizes, n as nat);
    proof {
        all_have_places(plan);
    }
    let mut rows: u16 = 0;
    let mut r: usize = 0;
    while r < n
        invariant
            r <= n <= 16,
            n == sizes.len(),
            placing(sizes, placements@, ws@, hs@),
            plan == placements@.take(n as int),
            forall|j: int| 0 <= j < n ==> (#[trigger] plan[j]) is Some,
            rows <= 256,
            forall|j: int|
                0 <= j < r ==> (#[trigger] plan[j])->0.y + sizes[j].h <= rows,
            r > 0 ==> exists|j: int|
                0 <= j < r && (#[trigger] plan[j]) is Some && plan[j]->0.y + sizes[j].h == rows,
            r > 0 <==> rows > 0,
        decreases n - r,
    {
        assert(plan[r as int] is Some);
        assert(fits_page(sizes[r as int]));
        let at = placements[r].unwrap();
        let end = at.y + hs[r];
        assert(plan[r as int]->0.y + sizes[r as int].h == end);
        if end > rows {
            rows = end;
            assert(plan[r as int] is Some && plan[r as int]->0.y + sizes[r as int].h == rows);
        }
        r += 1;
    }
    assert(page_count * 64 * rows <= 16 * 64 * 256) by (nonlinear_arith)
        requires
            0 <= page_count <= 16,
            0 <= rows <= 256,
    ;
    let stride = page_count as usize * FONT_PAGE_HALFWORDS;
    assert(stride * rows == page_count * 64 * rows);
    Some(
        FontPackMetrics {
            pages: page_count,
            upload_rows: rows,
            scratch_halfwords: stride * rows as usize,
        },
    )
}

/// Return the page-run and scratch requirements of a packed upload without
/// reserving VRAM or touching the GPU.
pub fn font_pack_metrics(fonts: &[&'static BitmapFont]) -> (metrics: Option<FontPackMetrics>)
    ensures
        ({
            let sizes = sizes_of(fonts@);
            match metrics {
                None => !can_pack(sizes),
                Some(metrics) => {
                    let plan = plan_after(sizes, fonts@.len());
                    &&& can_pack(sizes)
                    &&& is_page_count(plan, metrics.pages as int)
                    &&& is_row_count(sizes, plan, metrics.upload_rows as int)
                    &&& metrics.scratch_halfwords == metrics.pages * 64 * metrics.upload_rows
                },
            }
        }),
{
    let mut placements: [Option<AtlasPlacement>; 16] = [None;16];
    plan_font_pack(fonts, &mut placements)
}

/// Atlases are placed the tallest first and, of those, the widest: no other that
/// waits is taller, or as tall and wider.
pub proof fn large_atlases_go_first(
    sizes: Seq<Size>,
    placed: Seq<Option<AtlasPlacement>>,
    i: int,
    j: int,
)
    requires
        is_next(sizes, placed, i),
        0 <= j < sizes.len(),
        placed[j] is None,
    ensures
        !(sizes[j].h > sizes[i].h),
        !(sizes[j].h == sizes[i].h && sizes[j].w > sizes[i].w),
        !(sizes[j] == sizes[i] && j < i),
{
}

/// An atlas goes to the first page that has room for it, as high up as it can and
/// then as far left.
pub proof fn atlases_go_up_and_left(
    sizes: Seq<Size>,
    placed: Seq<Option<AtlasPlacement>>,
    size: Size,
    at: AtlasPlacement,
    other: AtlasPlacement,
)
    requires
        is_best_corner(sizes, placed, size, at),
        is_corner(sizes, placed, size, other),
    ensures
        at.page <= other.page,
        at.page == other.page ==> at.y <= other.y,
        at.page == other.page && at.y == other.y ==> at.x_halfwords <= other.x_halfwords,
{
}

/// Two placed rectangles overlap if and only if they are on one page and share a
/// halfword there.
pub proof fn overlapping_is_sharing(
    a: AtlasPlacement,
    a_w: int,
    a_h: int,
    b: AtlasPlacement,
    b_w: int,
    b_h: int,
)
    requires
        0 < a_w,
        0 < a_h,
        0 < b_w,
        0 < b_h,
    ensures
        overlap(a, a_w, a_h, b, b_w, b_h) <==> a.page == b.page && exists|x: int, y: int|
            #[trigger] holds_halfword(a, a_w, a_h, x, y) && holds_halfword(b, b_w, b_h, x, y),
{
    let x = if a.x_halfwords > b.x_halfwords {
        a.x_halfwords as int
    } else {
        b.x_halfwords as int
    };
    let y = if a.y > b.y {
        a.y as int
    } else {
        b.y as int
    };
    if overlap(a, a_w, a_h, b, b_w, b_h) {
        assert(holds_halfword(a, a_w, a_h, x, y) && holds_halfword(b, b_w, b_h, x, y));
    }
}

/// Whether a placed rectangle holds a halfword of its page.
pub open spec fn holds_halfword(at: AtlasPlacement, w: int, h: int, x: int, y: int) -> bool {
    at.x_halfwords <= x < at.x_halfwords + w && at.y <= y < at.y + h
}

} // verus!
