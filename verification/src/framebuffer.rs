//! The linear framebuffer: pixels of four bytes each, in rows of `stride`
//! pixels, of which `width` are shown.

use vstd::prelude::*;
use crate::psfparser::{glyph_bytes, glyph_present, pixel_set, psffont, FontView};

verus! {

/// The order of the colour bytes in a pixel.
#[derive(Clone, Copy, Debug, PartialEq, Eq, Structural)]
pub enum PixelFormat {
    /// Red, green, blue, one byte unused.
    Rgb,
    /// Blue, green, red, one byte unused.
    Bgr,
    /// Colours at bit positions that a mask gives; written as `Bgr`.
    Bitmask,
    /// No pixel access through memory; written as `Bgr`.
    BltOnly,
}

/// What the firmware says of the framebuffer, with its memory.
pub struct FrameBufferInfo {
    pub buffer: Vec<u8>,
    pub width: usize,
    pub height: usize,
    pub stride: usize,
    pub pixel_format: PixelFormat,
}

/// What a framebuffer stands for: its bytes and its shape.
pub struct ScreenView {
    pub bytes: Seq<u8>,
    pub width: nat,
    pub height: nat,
    pub stride: nat,
    pub format: PixelFormat,
}

/// Index of the first byte of the pixel in column `x` of row `y`.
pub open spec fn pixel_offset(v: ScreenView, x: int, y: int) -> int {
    4 * (y * v.stride + x)
}

/// The pixel in column `x` of row `y` is shown and its four bytes lie in the
/// buffer.
pub open spec fn pixel_in_reach(v: ScreenView, x: int, y: int) -> bool {
    &&& 0 <= x < v.width
    &&& 0 <= y < v.height
    &&& pixel_offset(v, x, y) + 3 < v.bytes.len()
}

/// The four bytes of a pixel of colour `color`, which holds red in bits 16
/// to 23, green in bits 8 to 15 and blue in bits 0 to 7.
pub open spec fn pixel_bytes(format: PixelFormat, color: u32) -> Seq<u8> {
    let r = ((color >> 16) & 0xFF) as u8;
    let g = ((color >> 8) & 0xFF) as u8;
    let b = (color & 0xFF) as u8;
    match format {
        PixelFormat::Rgb => seq![r, g, b, 0u8],
        _ => seq![b, g, r, 0u8],
    }
}

/// The colour of the pixel whose bytes stand in `bytes` from `at` on.
pub open spec fn pixel_color(format: PixelFormat, bytes: Seq<u8>, at: int) -> u32 {
    match format {
        PixelFormat::Rgb => ((bytes[at] as u32) << 16) | ((bytes[at + 1] as u32) << 8) | (bytes[at
            + 2] as u32),
        _ => ((bytes[at + 2] as u32) << 16) | ((bytes[at + 1] as u32) << 8) | (bytes[at] as u32),
    }
}

/// The screen after the pixel in column `x` of row `y` was set to `color`.
/// A pixel out of reach changes nothing.
pub open spec fn with_pixel(v: ScreenView, x: int, y: int, color: u32) -> ScreenView {
    if pixel_in_reach(v, x, y) {
        let at = pixel_offset(v, x, y);
        let px = pixel_bytes(v.format, color);
        ScreenView {
            bytes: v.bytes.update(at, px[0]).update(at + 1, px[1]).update(at + 2, px[2]).update(
                at + 3,
                px[3],
            ),
            ..v
        }
    } else {
        v
    }
}

/// The colour of the pixel in column `x` of row `y`; 0 for one out of reach.
pub open spec fn pixel_at(v: ScreenView, x: int, y: int) -> u32 {
    if pixel_in_reach(v, x, y) {
        pixel_color(v.format, v.bytes, pixel_offset(v, x, y))
    } else {
        0
    }
}

/// The screen after the first `n` pixels from column `x` on in row `y` were
/// set to `color`, from left to right.
pub open spec fn row_filled(v: ScreenView, x: int, y: int, n: int, color: u32) -> ScreenView
    decreases n,
{
    if n <= 0 {
        v
    } else {
        with_pixel(row_filled(v, x, y, n - 1, color), x + n - 1, y, color)
    }
}

/// The screen after the rectangle of `w` by `h` pixels with its corner in
/// column `x` of row `y` was set to `color`, row by row from the top.
pub open spec fn rect_filled(v: ScreenView, x: int, y: int, w: int, h: int, color: u32) -> ScreenView
    decreases h,
{
    if h <= 0 {
        v
    } else {
        row_filled(rect_filled(v, x, y, w, h - 1, color), x, y + h - 1, w, color)
    }
}

/// The screen after the set pixels among the first `n` of row `row` of
/// `glyph` were drawn in `color`, the glyph's corner in column `x` of row `y`.
pub open spec fn glyph_row_drawn(
    v: ScreenView,
    font: FontView,
    glyph: Seq<u8>,
    x: int,
    y: int,
    row: int,
    n: int,
    color: u32,
) -> ScreenView
    decreases n,
{
    if n <= 0 {
        v
    } else {
        let before = glyph_row_drawn(v, font, glyph, x, y, row, n - 1, color);
        if pixel_set(font, glyph, n - 1, row) {
            with_pixel(before, x + n - 1, y + row, color)
        } else {
            before
        }
    }
}

/// The screen after the first `rows` rows of `glyph` were drawn.
pub open spec fn glyph_drawn(
    v: ScreenView,
    font: FontView,
    glyph: Seq<u8>,
    x: int,
    y: int,
    rows: int,
    color: u32,
) -> ScreenView
    decreases rows,
{
    if rows <= 0 {
        v
    } else {
        glyph_row_drawn(
            glyph_drawn(v, font, glyph, x, y, rows - 1, color),
            font,
            glyph,
            x,
            y,
            rows - 1,
            font.width as int,
            color,
        )
    }
}

/// The screen after the glyph for `ch` was drawn with its corner in column
/// `x` of row `y`.
pub open spec fn char_drawn(v: ScreenView, font: FontView, ch: char, x: int, y: int, color: u32) -> ScreenView {
    glyph_drawn(v, font, glyph_bytes(font, ch), x, y, font.height as int, color)
}

/// Characters of `text` that take a place on the screen: all but line feeds.
pub open spec fn shown_chars(text: Seq<char>) -> int
    decreases text.len(),
{
    if text.len() == 0 {
        0
    } else {
        shown_chars(text.drop_last()) + if text.last() == '\n' {
            0int
        } else {
            1int
        }
    }
}

/// The screen after `text` was written from column `x` of row `y` on, each
/// character one glyph's width to the right of the one before. Line feeds
/// are passed over.
pub open spec fn text_drawn(
    v: ScreenView,
    font: FontView,
    text: Seq<char>,
    x: int,
    y: int,
    color: u32,
) -> ScreenView
    decreases text.len(),
{
    if text.len() == 0 {
        v
    } else {
        let before = text_drawn(v, font, text.drop_last(), x, y, color);
        if text.last() == '\n' {
            before
        } else {
            char_drawn(
                before,
                font,
                text.last(),
                x + font.width * shown_chars(text.drop_last()),
                y,
                color,
            )
        }
    }
}

/// The framebuffer and its shape.
pub struct FrameBuffer {
    buffer: Vec<u8>,
    width: usize,
    height: usize,
    stride: usize,
    pixel_format: PixelFormat,
    size_per_pixel: usize,
}

impl View for FrameBuffer {
    type V = ScreenView;

    closed spec fn view(&self) -> ScreenView {
        ScreenView {
            bytes: self.buffer@,
            width: self.width as nat,
            height: self.height as nat,
            stride: self.stride as nat,
            format: self.pixel_format,
        }
    }
}

impl FrameBuffer {
    #[verifier::type_invariant]
    spec fn four_bytes_per_pixel(&self) -> bool {
        self.size_per_pixel == 4
    }

    /// The framebuffer that `info` tells of.
    pub fn new(info: FrameBufferInfo) -> (r: Self)
        ensures
            r@ == (ScreenView {
                bytes: info.buffer@,
                width: info.width as nat,
                height: info.height as nat,
                stride: info.stride as nat,
                format: info.pixel_format,
            }),
    {
        let pix_size: usize = 4;
        Self {
            buffer: info.buffer,
            width: info.width,
            height: info.height,
            stride: info.stride,
            pixel_format: info.pixel_format,
            size_per_pixel: pix_size,
        }
    }

    /// Pixels shown in a row.
    pub fn width(&self) -> (r: usize)
        ensures
            r == self@.width,
    {
        self.width
    }

    /// Rows shown.
    pub fn height(&self) -> (r: usize)
        ensures
            r == self@.height,
    {
        self.height
    }

    /// The framebuffer's bytes.
    pub fn bytes(&self) -> (r: &Vec<u8>)
        ensures
            r@ == self@.bytes,
    {
        &self.buffer
    }

    /// Index of the first byte of the pixel in column `x` of row `y`, if the
    /// pixel is in reach.
    fn offset_of(&self, x: usize, y: usize) -> (r: Option<usize>)
        ensures
            match r {
                Some(offset) => pixel_in_reach(self@, x as int, y as int) && offset
                    == pixel_offset(self@, x as int, y as int),
                None => !pixel_in_reach(self@, x as int, y as int),
            },
    {
        proof {
            use_type_invariant(self);
        }
        if x >= self.width || y >= self.height {
            return None;
        }
        let ghost exact = pixel_offset(self@, x as int, y as int);
        assert(self.buffer.len() == self.buffer@.len());
        assert(exact == 4 * (y * self.stride) + 4 * x) by (nonlinear_arith)
            requires
                exact == 4 * (y * self.stride + x),
        ;
        assert(y * self.stride >= 0) by (nonlinear_arith)
            requires
                y >= 0,
                self.stride >= 0,
        ;
        let row = match y.checked_mul(self.stride) {
            Some(v) => v,
            None => {
                return None;
            },
        };
        let pixel = match row.checked_add(x) {
            Some(v) => v,
            None => {
                return None;
            },
        };
        let offset = match self.size_per_pixel.checked_mul(pixel) {
            Some(v) => v,
            None => {
                return None;
            },
        };
        let last = match offset.checked_add(3) {
            Some(v) => v,
            None => {
                return None;
            },
        };
        if last >= self.buffer.len() {
            return None;
        }
        Some(offset)
    }

    /// Sets the pixel in column `x` of row `y` to `color`. A pixel out of
    /// reach is passed over.
    pub fn put_pixel(&mut self, x: usize, y: usize, color: u32)
        ensures
            final(self)@ == with_pixel(old(self)@, x as int, y as int, color),
    {
        proof {
            use_type_invariant(&*self);
        }
        let offset = match self.offset_of(x, y) {
            Some(offset) => offset,
            None => {
                return ;
            },
        };
        let (r, g, b) = (
            ((color >> 16) & 0xFF) as u8,
            ((color >> 8) & 0xFF) as u8,
            (color & 0xFF) as u8,
        );
        match self.pixel_format {
            PixelFormat::Rgb => {
                self.buffer[offset] = r;
                self.buffer[offset + 1] = g;
                self.buffer[offset + 2] = b;
                self.buffer[offset + 3] = 0;
            },
            PixelFormat::Bgr => {
                self.buffer[offset] = b;
                self.buffer[offset + 1] = g;
                self.buffer[offset + 2] = r;
                self.buffer[offset + 3] = 0;
            },
            _ => {
                self.buffer[offset] = b;
                self.buffer[offset + 1] = g;
                self.buffer[offset + 2] = r;
                self.buffer[offset + 3] = 0;
            },
        }
    }

    /// The colour of the pixel in column `x` of row `y`; 0 for a pixel out of
    /// reach.
    pub fn get_pixel(&self, x: usize, y: usize) -> (r: u32)
        ensures
            r == pixel_at(self@, x as int, y as int),
    {
        let byte_offset = match self.offset_of(x, y) {
            Some(offset) => offset,
            None => {
                return 0;
            },
        };
        match self.pixel_format {
            PixelFormat::Rgb => {
                let r = self.buffer[byte_offset] as u32;
                let g = self.buffer[byte_offset + 1] as u32;
                let b = self.buffer[byte_offset + 2] as u32;
                (r << 16) | (g << 8) | b
            },
            PixelFormat::Bgr => {
                let b = self.buffer[byte_offset] as u32;
                let g = self.buffer[byte_offset + 1] as u32;
                let r = self.buffer[byte_offset + 2] as u32;
                (r << 16) | (g << 8) | b
            },
            _ => {
                let b = self.buffer[byte_offset] as u32;
                let g = self.buffer[byte_offset + 1] as u32;
                let r = self.buffer[byte_offset + 2] as u32;
                (r << 16) | (g << 8) | b
            },
        }
    }

    /// Gives each of the `count` rows from row `top` on the colours of the
    /// row `dist` rows below it, from the top down.
    pub fn move_rows_up(&mut self, top: usize, dist: usize, count: usize)
        requires
            top + count + dist <= usize::MAX,
        ensures
            final(self)@ == rows_moved(old(self)@, top as int, dist as int, count as int),
    {
        let width = self.width;
        for k in 0..count
            invariant
                top + count + dist <= usize::MAX,
                width == old(self)@.width,
                self@ == rows_moved(old(self)@, top as int, dist as int, k as int),
        {
            let ghost above = self@;
            for x in 0..width
                invariant
                    top + count + dist <= usize::MAX,
                    k < count,
                    self@ == row_moved(above, top + k, dist as int, x as int),
            {
                let color = self.get_pixel(x, top + k + dist);
                self.put_pixel(x, top + k, color);
            }
        }
    }

    /// Sets every pixel shown to `color`.
    pub fn clear_screen(&mut self, color: u32)
        ensures
            final(self)@ == rect_filled(
                old(self)@,
                0,
                0,
                old(self)@.width as int,
                old(self)@.height as int,
                color,
            ),
    {
        let width = self.width;
        let height = self.height;
        self.draw_rect(0, 0, width, height, color);
    }

    /// Sets the rectangle of `width` by `height` pixels with its corner in
    /// column `x` of row `y` to `color`, as far as it is in reach.
    pub fn draw_rect(&mut self, x: usize, y: usize, width: usize, height: usize, color: u32)
        requires
            x + width <= usize::MAX,
            y + height <= usize::MAX,
        ensures
            final(self)@ == rect_filled(
                old(self)@,
                x as int,
                y as int,
                width as int,
                height as int,
                color,
            ),
    {
        for dy in 0..height
            invariant
                x + width <= usize::MAX,
                y + height <= usize::MAX,
                self@ == rect_filled(old(self)@, x as int, y as int, width as int, dy as int, color),
        {
            let ghost above = self@;
            for dx in 0..width
                invariant
                    x + width <= usize::MAX,
                    y + height <= usize::MAX,
                    dy < height,
                    self@ == row_filled(above, x as int, y + dy, dx as int, color),
            {
                self.put_pixel(x + dx, y + dy, color);
            }
        }
    }

    /// Draws the glyph for `ch` in `color` with its corner in column `x` of
    /// row `y`. Only the glyph's set pixels are written.
    pub fn draw_char(&mut self, ch: char, x: usize, y: usize, color: u32, font: &psffont)
        requires
            glyph_present(font@, ch),
            x + font@.width <= usize::MAX,
            y + font@.height <= usize::MAX,
        ensures
            final(self)@ == char_drawn(old(self)@, font@, ch, x as int, y as int, color),
    {
        match font.get_char(ch) {
            Some(glyph) => {
                let rows = font.height();
                let cols = font.width();
                for row in 0..rows
                    invariant
                        rows == font@.height,
                        cols == font@.width,
                        x + cols <= usize::MAX,
                        y + rows <= usize::MAX,
                        glyph@ == glyph_bytes(font@, ch),
                        self@ == glyph_drawn(
                            old(self)@,
                            font@,
                            glyph@,
                            x as int,
                            y as int,
                            row as int,
                            color,
                        ),
                {
                    let ghost above = self@;
                    for col in 0..cols
                        invariant
                            cols == font@.width,
                            x + cols <= usize::MAX,
                            y + rows <= usize::MAX,
                            row < rows,
                            self@ == glyph_row_drawn(
                                above,
                                font@,
                                glyph@,
                                x as int,
                                y as int,
                                row as int,
                                col as int,
                                color,
                            ),
                    {
                        if font.is_pixel_set(glyph, col, row) {
                            self.put_pixel(x + col, y + row, color);
                        }
                    }
                }
            },
            None => {},
        }
    }

    /// Writes `text` in `color` from column `x` of row `y` on, in one row.
    /// Line feeds are passed over.
    pub fn write_string(&mut self, text: &str, x: usize, y: usize, color: u32, font: &psffont)
        requires
            forall|i: int| 0 <= i < text@.len() ==> glyph_present(font@, #[trigger] text@[i]),
            x + font@.width * shown_chars(text@) <= usize::MAX,
            y + font@.height <= usize::MAX,
        ensures
            final(self)@ == text_drawn(old(self)@, font@, text@, x as int, y as int, color),
    {
        let mut x = x;
        let ghost x0 = x;
        for ch in iter: text.chars()
            invariant
                iter.seq() == text@,
                forall|i: int| 0 <= i < text@.len() ==> glyph_present(font@, #[trigger] text@[i]),
                x0 + font@.width * shown_chars(text@) <= usize::MAX,
                y + font@.height <= usize::MAX,
                x == x0 + font@.width * shown_chars(text@.take(iter.index() as int)),
                self@ == text_drawn(
                    old(self)@,
                    font@,
                    text@.take(iter.index() as int),
                    x0 as int,
                    y as int,
                    color,
                ),
        {
            proof {
                let k = iter.index() as int;
                assert(text@.take(k + 1).drop_last() =~= text@.take(k));
                assert(text@.take(k + 1).last() == ch);
                lemma_shown_chars_prefix(text@, k);
                lemma_shown_chars_prefix(text@, k + 1);
                lemma_mul_step(font@.width as int, shown_chars(text@.take(k)), shown_chars(text@));
                lemma_mul_step(
                    font@.width as int,
                    shown_chars(text@.take(k + 1)),
                    shown_chars(text@),
                );
            }
            if ch != '\n' {
                self.draw_char(ch, x, y, color, font);
                x += font.width();
            }
        }
        assert(text@.take(text@.len() as int) =~= text@);
    }
}

proof fn lemma_shown_chars_prefix(text: Seq<char>, k: int)
    requires
        0 <= k <= text.len(),
    ensures
        0 <= shown_chars(text.take(k)) <= shown_chars(text),
    decreases text.len() - k,
{
    if k < text.len() {
        assert(text.take(k + 1).drop_last() =~= text.take(k));
        lemma_shown_chars_prefix(text, k + 1);
    } else {
        assert(text.take(k) =~= text);
    }
    lemma_shown_chars_nonneg(text.take(k));
}

proof fn lemma_shown_chars_nonneg(text: Seq<char>)
    ensures
        shown_chars(text) >= 0,
    decreases text.len(),
{
    if text.len() > 0 {
        lemma_shown_chars_nonneg(text.drop_last());
    }
}

proof fn lemma_mul_step(w: int, a: int, b: int)
    by (nonlinear_arith)
    requires
        0 <= w,
        0 <= a <= b,
    ensures
        w * a <= w * b,
        w * (a + 1) == w * a + w,
        w * (b + 1) == w * b + w,
        w * a >= 0,
{
}

/// Two screens of one shape: as wide, as high, with rows as long, pixels in
/// the same order, and as many bytes.
pub open spec fn same_shape(a: ScreenView, b: ScreenView) -> bool {
    &&& a.width == b.width
    &&& a.height == b.height
    &&& a.stride == b.stride
    &&& a.format == b.format
    &&& a.bytes.len() == b.bytes.len()
}

/// The screen after the first `n` pixels of row `y` took the colours of the
/// pixels `dist` rows below them, from left to right.
pub open spec fn row_moved(v: ScreenView, y: int, dist: int, n: int) -> ScreenView
    decreases n,
{
    if n <= 0 {
        v
    } else {
        let before = row_moved(v, y, dist, n - 1);
        with_pixel(before, n - 1, y, pixel_at(before, n - 1, y + dist))
    }
}

/// The screen after each of the `k` rows from row `top` on took the colours
/// of the row `dist` rows below it, from the top down.
pub open spec fn rows_moved(v: ScreenView, top: int, dist: int, k: int) -> ScreenView
    decreases k,
{
    if k <= 0 {
        v
    } else {
        row_moved(rows_moved(v, top, dist, k - 1), top + k - 1, dist, v.width as int)
    }
}

/// Filling a row leaves the screen's shape as it is.
pub proof fn lemma_row_filled_shape(v: ScreenView, x: int, y: int, n: int, color: u32)
    ensures
        same_shape(v, row_filled(v, x, y, n, color)),
    decreases n,
{
    if n > 0 {
        lemma_row_filled_shape(v, x, y, n - 1, color);
    }
}

/// Filling a rectangle leaves the screen's shape as it is.
pub proof fn lemma_rect_filled_shape(v: ScreenView, x: int, y: int, w: int, h: int, color: u32)
    ensures
        same_shape(v, rect_filled(v, x, y, w, h, color)),
    decreases h,
{
    if h > 0 {
        lemma_rect_filled_shape(v, x, y, w, h - 1, color);
        lemma_row_filled_shape(rect_filled(v, x, y, w, h - 1, color), x, y + h - 1, w, color);
    }
}

proof fn lemma_glyph_row_drawn_shape(
    v: ScreenView,
    font: FontView,
    glyph: Seq<u8>,
    x: int,
    y: int,
    row: int,
    n: int,
    color: u32,
)
    ensures
        same_shape(v, glyph_row_drawn(v, font, glyph, x, y, row, n, color)),
    decreases n,
{
    if n > 0 {
        lemma_glyph_row_drawn_shape(v, font, glyph, x, y, row, n - 1, color);
    }
}

proof fn lemma_glyph_drawn_shape(
    v: ScreenView,
    font: FontView,
    glyph: Seq<u8>,
    x: int,
    y: int,
    rows: int,
    color: u32,
)
    ensures
        same_shape(v, glyph_drawn(v, font, glyph, x, y, rows, color)),
    decreases rows,
{
    if rows > 0 {
        lemma_glyph_drawn_shape(v, font, glyph, x, y, rows - 1, color);
        lemma_glyph_row_drawn_shape(
            glyph_drawn(v, font, glyph, x, y, rows - 1, color),
            font,
            glyph,
            x,
            y,
            rows - 1,
            font.width as int,
            color,
        );
    }
}

/// Drawing a character leaves the screen's shape as it is.
pub proof fn lemma_char_drawn_shape(
    v: ScreenView,
    font: FontView,
    ch: char,
    x: int,
    y: int,
    color: u32,
)
    ensures
        same_shape(v, char_drawn(v, font, ch, x, y, color)),
{
    lemma_glyph_drawn_shape(v, font, glyph_bytes(font, ch), x, y, font.height as int, color);
}

proof fn lemma_row_moved_shape(v: ScreenView, y: int, dist: int, n: int)
    ensures
        same_shape(v, row_moved(v, y, dist, n)),
    decreases n,
{
    if n > 0 {
        lemma_row_moved_shape(v, y, dist, n - 1);
    }
}

/// Moving rows up leaves the screen's shape as it is.
pub proof fn lemma_rows_moved_shape(v: ScreenView, top: int, dist: int, k: int)
    ensures
        same_shape(v, rows_moved(v, top, dist, k)),
    decreases k,
{
    if k > 0 {
        lemma_rows_moved_shape(v, top, dist, k - 1);
        lemma_row_moved_shape(rows_moved(v, top, dist, k - 1), top + k - 1, dist, v.width as int);
    }
}

} // verus!
