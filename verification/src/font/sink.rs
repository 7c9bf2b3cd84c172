//! One text interface for UI code.

use vstd::prelude::*;
use vstd::string::*;
use crate::font::atlas::{FontAtlas, measured, plain_text};
use crate::gpu::words::{to_wrapped16, wrapped16};

verus! {

/// The minimum a widget needs from a text renderer: draw a run at a position
/// in a colour, and measure it.
///
/// UI code written against this works with any renderer -- [`FontAtlas`], a
/// scaled bitmap font, or a game's own atlas.
///
/// Coordinates are screen pixels with the origin top-left.
///
/// A renderer can say what it draws and measures; one that does not leaves that
/// open.
pub trait TextSink {
    /// Whether the renderer can be used.
    open spec fn usable(&self) -> bool {
        true
    }

    /// The commands that draw a run.
    open spec fn drawn(&self, x: i16, y: i16, text: Seq<char>, tint: (u8, u8, u8)) -> Seq<u32> {
        arbitrary()
    }

    /// How wide a run is.
    open spec fn wide(&self, text: Seq<char>) -> i16 {
        arbitrary()
    }

    /// How far apart rows are.
    open spec fn row_step(&self) -> i16 {
        arbitrary()
    }

    /// The commands that draw `text` with its top-left corner at `(x, y)`.
    fn draw(&self, x: i16, y: i16, text: &str, tint: (u8, u8, u8)) -> (words: Vec<u32>)
        requires
            self.usable(),
        ensures
            words@ == self.drawn(x, y, text@, tint),
    ;

    /// Width of `text` in screen pixels, using the same metrics `draw` will.
    fn width(&self, text: &str) -> (width: i16)
        requires
            self.usable(),
        ensures
            width == self.wide(text@),
    ;

    /// Baseline-to-baseline distance for stacked rows.
    fn line_height(&self) -> (height: i16)
        ensures
            height == self.row_step(),
    ;

    /// Draw `text` centred on `x`. Provided so every caller does not repeat the
    /// half-width arithmetic, and so a renderer with non-integer metrics can
    /// override the rounding.
    fn draw_centered(&self, x: i16, y: i16, text: &str, tint: (u8, u8, u8)) -> (words: Vec<u32>)
        requires
            self.usable(),
        default_ensures
            words@ == self.drawn(
                wrapped16(x - half_width(self.wide(text@))),
                y,
                text@,
                tint,
            ),
    {
        let width = self.width(text);
        self.draw(to_wrapped16(x as i32 - half(width) as i32), y, text, tint)
    }
}

/// Half of a width, without its fraction.
pub open spec fn half_width(width: i16) -> int {
    if width >= 0 {
        width as int / 2
    } else {
        -((-width) / 2)
    }
}

fn half(width: i16) -> (h: i16)
    ensures
        h == half_width(width),
{
    if width >= 0 {
        (width as u16 / 2) as i16
    } else {
        let magnitude = ((-(width as i32)) as u32 / 2) as i32;
        (-magnitude) as i16
    }
}

impl TextSink for FontAtlas {
    open spec fn usable(&self) -> bool {
        self.wf()
    }

    open spec fn drawn(&self, x: i16, y: i16, text: Seq<char>, tint: (u8, u8, u8)) -> Seq<u32> {
        plain_text(*self, text, x, y, 0, tint)
    }

    open spec fn wide(&self, text: Seq<char>) -> i16 {
        wrapped16(measured(*self.font, text))
    }

    open spec fn row_step(&self) -> i16 {
        self.font.line_height as i16
    }

    fn draw(&self, x: i16, y: i16, text: &str, tint: (u8, u8, u8)) -> (words: Vec<u32>) {
        self.draw_text(x, y, text, tint)
    }

    fn width(&self, text: &str) -> (width: i16) {
        to_wrapped16(self.text_width(text) as i32)
    }

    fn line_height(&self) -> (height: i16) {
        self.font.line_height as i16
    }
}

} // verus!
