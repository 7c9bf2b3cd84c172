//! Two frame buffers, one above the other in video memory: one is shown while
//! the other is drawn.
//!
//! Coordinates are reduced to the fields of the commands that carry them. Video
//! memory has 1024 columns and 512 rows, and all of those fit; how coordinates
//! outside it are reduced is a choice made here.

use vstd::prelude::*;

use crate::gpu::words::{color_word, pack_color, pack_xy, size_word};
use crate::gpu::words_laws::color_reads_back;

verus! {

/// The two buffers, and which of them is drawn to.
#[derive(Clone, Copy, Debug, PartialEq, Eq, Structural)]
pub struct FrameBuffer {
    /// Width in pixels.
    pub width: u16,
    /// Height in pixels.
    pub height: u16,
    /// Rows between the tops of the buffers.
    pub stride: u16,
    /// Index of the buffer that is drawn to.
    pub drawing: u8,
}

/// The row at which a buffer starts.
pub open spec fn row_of(buffer: FrameBuffer, index: u8) -> u16 {
    if index == 0 {
        0
    } else {
        buffer.stride
    }
}

/// The command that shows video memory from a position on.
pub open spec fn display_start_word(x: int, y: int) -> int {
    0x0500_0000 + x % 0x400 + 0x400 * (y % 0x200)
}

/// The command that sets the top-left corner of the drawing area.
pub open spec fn area_top_left_word(x: int, y: int) -> int {
    0xE300_0000 + x % 0x400 + 0x400 * (y % 0x400)
}

/// The command that sets the bottom-right corner of the drawing area.
pub open spec fn area_bottom_right_word(x: int, y: int) -> int {
    0xE400_0000 + x % 0x400 + 0x400 * (y % 0x400)
}

/// The command that sets the drawing offset.
pub open spec fn offset_word(x: int, y: int) -> int {
    0xE500_0000 + x % 0x800 + 0x800 * (y % 0x800)
}

/// The commands that direct drawing to the current buffer.
pub open spec fn target_words(buffer: FrameBuffer) -> Seq<u32> {
    let top = row_of(buffer, buffer.drawing) as int;
    seq![
        area_top_left_word(0, top) as u32,
        area_bottom_right_word(buffer.width - 1, top + buffer.height - 1) as u32,
        offset_word(0, top) as u32,
    ]
}

/// The commands that fill the current buffer with a colour.
pub open spec fn fill_words(buffer: FrameBuffer, r: u8, g: u8, b: u8) -> Seq<u32> {
    seq![
        (0x0200_0000 + color_word(r, g, b)) as u32,
        size_word(0, row_of(buffer, buffer.drawing)),
        size_word(buffer.width, buffer.height),
    ]
}

/// The buffers with the roles exchanged.
pub open spec fn swapped(buffer: FrameBuffer) -> FrameBuffer {
    FrameBuffer { drawing: buffer.drawing ^ 1, ..buffer }
}

impl FrameBuffer {
    /// Whether the buffer that is drawn to has columns and a last row, and 16
    /// bits count its rows.
    pub open spec fn has_target(self) -> bool {
        &&& 0 < self.width
        &&& 1 <= row_of(self, self.drawing) + self.height <= 0xFFFF
    }

    /// Whether both buffers have pixels and share none, and 16 bits count their
    /// rows.
    pub open spec fn wf(self) -> bool {
        &&& 0 < self.width
        &&& 0 < self.height
        &&& self.height <= self.stride
        &&& self.stride + self.height <= 0xFFFF
        &&& self.drawing < 2
    }

    /// Buffers without rows between them.
    pub fn new(width: u16, height: u16) -> (buffer: FrameBuffer)
        ensures
            buffer == (FrameBuffer { width, height, stride: height, drawing: 0 }),
            0 < width && 0 < height && 2 * height <= 0xFFFF ==> buffer.wf(),
    {
        FrameBuffer { width, height, stride: height, drawing: 0 }
    }

    /// Buffers whose tops are `stride` rows apart, or as far as it takes for
    /// them not to overlap.
    pub fn new_strided(width: u16, height: u16, stride: u16) -> (buffer: FrameBuffer)
        ensures
            buffer == (FrameBuffer {
                width,
                height,
                stride: if stride < height {
                    height
                } else {
                    stride
                },
                drawing: 0,
            }),
            0 < width && 0 < height && buffer.stride + height <= 0xFFFF ==> buffer.wf(),
    {
        FrameBuffer {
            width,
            height,
            stride: if stride < height {
                height
            } else {
                stride
            },
            drawing: 0,
        }
    }

    /// The row at which a buffer starts.
    pub fn buffer_y(&self, idx: u8) -> (y: u16)
        ensures
            y == row_of(*self, idx),
    {
        if idx == 0 {
            0
        } else {
            self.stride
        }
    }

    /// Exchange the roles. Returns the display command that shows what was
    /// drawn, then the commands that direct drawing to the other buffer.
    pub fn swap(&mut self) -> (words: (u32, Vec<u32>))
        requires
            swapped(*old(self)).has_target(),
        ensures
            *final(self) == swapped(*old(self)),
            words.0 == display_start_word(0, row_of(*old(self), old(self).drawing) as int),
            words.1@ == target_words(*final(self)),
    {
        let display: u32 = self.begin_deferred_swap();
        (display, self.apply_draw_target())
    }

    /// As [`swap`](Self::swap); the caller holds the display command back until
    /// the screen is blank.
    pub fn begin_swap(&mut self) -> (words: (u32, Vec<u32>))
        requires
            swapped(*old(self)).has_target(),
        ensures
            *final(self) == swapped(*old(self)),
            words.0 == display_start_word(0, row_of(*old(self), old(self).drawing) as int),
            words.1@ == target_words(*final(self)),
    {
        let display: u32 = self.begin_deferred_swap();
        (display, self.apply_draw_target())
    }

    /// Exchange the roles without touching the drawing area. Returns the
    /// display command that shows what was drawn.
    pub fn begin_deferred_swap(&mut self) -> (word: u32)
        ensures
            *final(self) == swapped(*old(self)),
            word == display_start_word(0, row_of(*old(self), old(self).drawing) as int),
    {
        let show: u16 = self.buffer_y(self.drawing);
        self.drawing = self.drawing ^ 1;
        0x0500_0000 + 0x400 * (show as u32 % 0x200)
    }

    /// The commands that direct drawing to the current buffer.
    pub fn apply_draw_target(&self) -> (words: Vec<u32>)
        requires
            self.has_target(),
        ensures
            words@ == target_words(*self),
    {
        let top: u32 = self.buffer_y(self.drawing) as u32;
        let right: u32 = self.width as u32 - 1;
        let bottom: u32 = top + self.height as u32 - 1;
        let words: Vec<u32> = vec![
            0xE300_0000 + 0x400 * (top % 0x400),
            0xE400_0000 + right % 0x400 + 0x400 * (bottom % 0x400),
            0xE500_0000 + 0x800 * (top % 0x800),
        ];
        assert(words@ =~= target_words(*self));
        words
    }

    /// The commands that fill the current buffer with a colour.
    pub fn clear(&self, r: u8, g: u8, b: u8) -> (words: [u32; 3])
        ensures
            words@ == fill_words(*self, r, g, b),
    {
        let words: [u32; 3] = [
            0x0200_0000 + pack_color(r, g, b),
            pack_xy(0, self.buffer_y(self.drawing)),
            pack_xy(self.width, self.height),
        ];
        assert(words@ =~= fill_words(*self, r, g, b));
        words
    }
}

/// The buffer that is shown is never the one that is drawn to, two swaps bring
/// the roles back, and the buffers share no rows.
pub proof fn buffers_take_turns(buffer: FrameBuffer)
    requires
        buffer.wf(),
    ensures
        swapped(buffer).wf(),
        buffer.has_target(),
        swapped(buffer).has_target(),
        swapped(swapped(buffer)) == buffer,
        row_of(buffer, buffer.drawing) != row_of(swapped(buffer), swapped(buffer).drawing),
        ({
            let a = row_of(buffer, buffer.drawing);
            let b = row_of(swapped(buffer), swapped(buffer).drawing);
            a + buffer.height <= b || b + buffer.height <= a
        }),
{
    let d = buffer.drawing;
    assert(d < 2 ==> d ^ 1 == 1 - d) by (bit_vector);
    assert((d ^ 1) ^ 1 == d) by (bit_vector);
}

/// The commands name positions in video memory: ten bits of column, and the row
/// above them.
pub proof fn positions_read_back(x: int, y: int)
    requires
        0 <= x < 1024,
        0 <= y < 512,
    ensures
        display_start_word(x, y) / 0x100_0000 == 5,
        display_start_word(x, y) % 1024 == x,
        display_start_word(x, y) / 1024 % 512 == y,
        area_top_left_word(x, y) / 0x100_0000 == 0xE3,
        area_top_left_word(x, y) % 1024 == x,
        area_top_left_word(x, y) / 1024 % 1024 == y,
        area_bottom_right_word(x, y) / 0x100_0000 == 0xE4,
        area_bottom_right_word(x, y) % 1024 == x,
        area_bottom_right_word(x, y) / 1024 % 1024 == y,
        offset_word(x, y) / 0x100_0000 == 0xE5,
        offset_word(x, y) % 2048 == x,
        offset_word(x, y) / 2048 % 2048 == y,
{
}

/// Drawing goes to the current buffer and nowhere else: its area spans the width
/// and the height of the buffer from the buffer's first row on, and coordinates
/// count from there.
pub proof fn drawing_keeps_to_its_buffer(buffer: FrameBuffer)
    requires
        buffer.wf(),
        buffer.width <= 1024,
        buffer.stride + buffer.height <= 512,
    ensures
        ({
            let w = target_words(buffer);
            let (left, top) = (w[0] % 1024, w[0] / 1024 % 1024);
            let (right, bottom) = (w[1] % 1024, w[1] / 1024 % 1024);
            &&& w.len() == 3
            &&& left == 0
            &&& top == if buffer.drawing == 0 {
                0
            } else {
                buffer.stride as int
            }
            &&& right - left + 1 == buffer.width
            &&& bottom - top + 1 == buffer.height
            &&& w[2] % 2048 == left
            &&& w[2] / 2048 % 2048 == top
        }),
{
}

/// Clearing fills the buffer that is drawn to, all of it and nothing else, and the
/// shown one once the roles are exchanged.
pub proof fn clearing_fills_the_drawn_buffer(buffer: FrameBuffer, r: u8, g: u8, b: u8)
    requires
        buffer.wf(),
    ensures
        ({
            let words = fill_words(buffer, r, g, b);
            let other = fill_words(swapped(buffer), r, g, b);
            &&& words.len() == 3
            &&& words[0] / 0x100_0000 == 0x02
            &&& words[0] % 0x100 == r
            &&& words[0] / 0x100 % 0x100 == g
            &&& words[0] / 0x1_0000 % 0x100 == b
            &&& words[1] % 0x1_0000 == 0
            &&& words[1] / 0x1_0000 == if buffer.drawing == 0 {
                0
            } else {
                buffer.stride
            }
            &&& words[2] % 0x1_0000 == buffer.width
            &&& words[2] / 0x1_0000 == buffer.height
            &&& other[1] / 0x1_0000 + words[1] / 0x1_0000 == buffer.stride
        }),
{
    let d = buffer.drawing;
    assert(d < 2 ==> (d ^ 1 == 1 - d)) by (bit_vector);
    let color = color_word(r, g, b) as int;
    color_reads_back(r, g, b);
    let word = 0x200_0000 + color;
    assert(color < 0x100_0000);
    assert(word / 0x100 == 0x2_0000 + color / 0x100);
    assert(word / 0x1_0000 == 0x200 + color / 0x1_0000);
}

} // verus!
