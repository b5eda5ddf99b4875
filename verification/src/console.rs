//! The text console: a cursor that walks over a grid of character cells on
//! the framebuffer, wraps at the right margin and scrolls at the bottom.

use vstd::prelude::*;
use crate::framebuffer::{
    char_drawn, lemma_char_drawn_shape, lemma_rect_filled_shape, lemma_rows_moved_shape,
    rect_filled, rows_moved, same_shape, FrameBuffer, ScreenView,
};
use crate::psfparser::{font_complete, lemma_complete_font_has_every_glyph, psffont, FontView};

verus! {

/// Pixels left free at the left and right edge, and at the top and bottom.
pub const MARGIN: usize = 10;

/// Colour of the text on a fresh console.
pub const DEFAULT_FG: u32 = 0x008000;

/// Colour of the background on a fresh console.
pub const DEFAULT_BG: u32 = 0x000000;

/// What a console stands for: the screen, the font, the cell in which the
/// next character goes, and the colours.
pub struct ConsoleView {
    pub screen: ScreenView,
    pub font: FontView,
    pub x: nat,
    pub y: nat,
    pub fg_color: u32,
    pub bg_color: u32,
}

/// Whether a console can be set up on `screen` with `font`: the font holds
/// every glyph that it declares, its glyphs are not empty, and one of them
/// fits between the margins.
pub open spec fn console_fits(screen: ScreenView, font: FontView) -> bool {
    &&& font_complete(font)
    &&& font.width >= 1
    &&& font.height >= 1
    &&& screen.width >= 2 * MARGIN + font.width
    &&& screen.height >= 2 * MARGIN + font.height
}

/// Rows of character cells between the margins.
pub open spec fn max_rows(c: ConsoleView) -> int {
    (c.screen.height - 2 * MARGIN) / c.font.height as int
}

/// Character cells in a row between the margins.
pub open spec fn max_cols(c: ConsoleView) -> int {
    (c.screen.width - 2 * MARGIN) / c.font.width as int
}

/// The screen after it scrolled by one row of cells: the rows of pixels
/// below the top margin move up by a glyph's height, and the rows at the
/// bottom, a glyph's height and the margin, take the background colour.
pub open spec fn scrolled(v: ScreenView, char_height: int, bg_color: u32) -> ScreenView {
    let moved = rows_moved(v, MARGIN as int, char_height, v.height - char_height - MARGIN);
    rect_filled(
        moved,
        0,
        v.height - char_height - MARGIN,
        v.width as int,
        char_height + MARGIN,
        bg_color,
    )
}

/// The console after a line feed: the cursor stands at the start of the next
/// row, or of the last row after a scroll if there is no next row.
pub open spec fn line_fed(c: ConsoleView) -> ConsoleView {
    if c.y + 1 >= max_rows(c) {
        ConsoleView {
            screen: scrolled(c.screen, c.font.height as int, c.bg_color),
            x: 0,
            y: (max_rows(c) - 1) as nat,
            ..c
        }
    } else {
        ConsoleView { x: 0, y: c.y + 1, ..c }
    }
}

/// The cursor's cell does not fit before the right margin.
pub open spec fn at_right_margin(c: ConsoleView) -> bool {
    MARGIN + c.font.width * c.x + c.font.width > c.screen.width - MARGIN
}

/// The console after the glyph for `ch` was put at the cursor: on the next
/// row if the cursor stood at the right margin, and the cursor one cell on.
pub open spec fn glyph_written(c: ConsoleView, ch: char) -> ConsoleView {
    let at = if at_right_margin(c) {
        line_fed(c)
    } else {
        c
    };
    ConsoleView {
        screen: char_drawn(
            at.screen,
            at.font,
            ch,
            MARGIN + at.font.width * at.x,
            MARGIN + at.font.height * at.y,
            at.fg_color,
        ),
        x: at.x + 1,
        ..at
    }
}

/// The console after the character `ch` was written: a line feed moves to
/// the next row, a carriage return to the start of the row, a tab writes four
/// blanks, and any other character puts its glyph.
pub open spec fn char_written(c: ConsoleView, ch: char) -> ConsoleView {
    if ch == '\n' {
        line_fed(c)
    } else if ch == '\r' {
        ConsoleView { x: 0, ..c }
    } else if ch == '\t' {
        glyph_written(glyph_written(glyph_written(glyph_written(c, ' '), ' '), ' '), ' ')
    } else {
        glyph_written(c, ch)
    }
}

/// The console after the last character of the row was taken back: the
/// cursor stands one cell to the left, and that cell shows the background
/// colour. At the start of a row nothing changes.
pub open spec fn taken_back(c: ConsoleView) -> ConsoleView {
    if c.x == 0 {
        c
    } else {
        ConsoleView {
            screen: rect_filled(
                c.screen,
                MARGIN + c.font.width * (c.x - 1),
                MARGIN + c.font.height * c.y,
                c.font.width as int,
                c.font.height as int,
                c.bg_color,
            ),
            x: (c.x - 1) as nat,
            ..c
        }
    }
}

/// The console after the characters of `text` were written in their order.
pub open spec fn string_written(c: ConsoleView, text: Seq<char>) -> ConsoleView
    decreases text.len(),
{
    if text.len() == 0 {
        c
    } else {
        char_written(string_written(c, text.drop_last()), text.last())
    }
}

/// The cursor lies within the grid of cells, and the console fits its
/// screen.
pub open spec fn view_wf(c: ConsoleView) -> bool {
    &&& console_fits(c.screen, c.font)
    &&& c.x <= max_cols(c)
    &&& c.y < max_rows(c)
}

/// The text console.
pub struct Console {
    framebuffer: FrameBuffer,
    font: &'static psffont,
    x: usize,
    y: usize,
    fg_color: u32,
    bg_color: u32,
    char_width: usize,
    char_height: usize,
    screen_width: usize,
    screen_height: usize,
    margin_l: usize,
    margin_t: usize,
}

impl View for Console {
    type V = ConsoleView;

    closed spec fn view(&self) -> ConsoleView {
        ConsoleView {
            screen: self.framebuffer@,
            font: self.font@,
            x: self.x as nat,
            y: self.y as nat,
            fg_color: self.fg_color,
            bg_color: self.bg_color,
        }
    }
}

proof fn lemma_grid(c: ConsoleView)
    requires
        console_fits(c.screen, c.font),
    ensures
        max_rows(c) >= 1,
        max_cols(c) >= 1,
        c.font.height * max_rows(c) <= c.screen.height - 2 * MARGIN,
        c.font.width * max_cols(c) <= c.screen.width - 2 * MARGIN,
        forall|y: int| 0 <= y < max_rows(c) ==> 0 <= #[trigger] (c.font.height * y) && c.font.height * y + c.font.height <= c.screen.height - 2 * MARGIN,
        forall|x: int| 0 <= x <= max_cols(c) ==> 0 <= #[trigger] (c.font.width * x) <= c.screen.width - 2 * MARGIN,
        forall|x: int| 0 <= x ==> (x < max_cols(c) <==> #[trigger] (c.font.width * x) + c.font.width <= c.screen.width - 2 * MARGIN),
{
    let h = c.font.height as int;
    let w = c.font.width as int;
    let sh = c.screen.height - 2 * MARGIN;
    let sw = c.screen.width - 2 * MARGIN;
    assert(sh / h >= 1 && h * (sh / h) <= sh && h * (sh / h) + h > sh) by (nonlinear_arith)
        requires
            h >= 1,
            sh >= h,
    ;
    assert(sw / w >= 1 && w * (sw / w) <= sw && w * (sw / w) + w > sw) by (nonlinear_arith)
        requires
            w >= 1,
            sw >= w,
    ;
    assert forall|y: int| 0 <= y < max_rows(c) implies 0 <= #[trigger] (h * y) && h * y + h
        <= sh by {
        assert(0 <= h * y && h * y + h <= h * (sh / h)) by (nonlinear_arith)
            requires
                h >= 1,
                0 <= y < sh / h,
        ;
    }
    assert forall|x: int| 0 <= x <= max_cols(c) implies 0 <= #[trigger] (w * x) <= sw by {
        assert(0 <= w * x <= w * (sw / w)) by (nonlinear_arith)
            requires
                w >= 1,
                0 <= x <= sw / w,
        ;
    }
    assert forall|x: int| 0 <= x implies (x < max_cols(c) <==> #[trigger] (w * x) + w <= sw) by {
        if x < sw / w {
            assert(w * x + w <= w * (sw / w)) by (nonlinear_arith)
                requires
                    w >= 1,
                    0 <= x < sw / w,
            ;
        } else {
            assert(w * x + w >= w * (sw / w) + w) by (nonlinear_arith)
                requires
                    w >= 1,
                    x >= sw / w,
            ;
        }
    }
}

impl Console {
    /// The console's own copies of the sizes agree with the screen and the
    /// font.
    pub closed spec fn sizes_agree(&self) -> bool {
        &&& self.char_width == self.font@.width
        &&& self.char_height == self.font@.height
        &&& self.screen_width == self.framebuffer@.width
        &&& self.screen_height == self.framebuffer@.height
        &&& self.margin_l == MARGIN
        &&& self.margin_t == MARGIN
    }

    /// The console's invariant.
    pub open spec fn wf(&self) -> bool {
        self.sizes_agree() && view_wf(self@)
    }

    /// A console on `framebuffer` that writes with `font` in the colours
    /// given, its cursor in the first cell.
    pub fn new(framebuffer: FrameBuffer, font: &'static psffont, fg_color: u32, bg_color: u32) -> (r:
        Self)
        requires
            console_fits(framebuffer@, font@),
        ensures
            r.wf(),
            r@ == (ConsoleView {
                screen: framebuffer@,
                font: font@,
                x: 0,
                y: 0,
                fg_color,
                bg_color,
            }),
    {
        let screen_width = framebuffer.width();
        let screen_height = framebuffer.height();
        let char_width = font.width();
        let char_height = font.height();
        let r = Self {
            framebuffer,
            font,
            x: 0,
            y: 0,
            fg_color,
            bg_color,
            char_width,
            char_height,
            screen_width,
            screen_height,
            margin_l: 10,
            margin_t: 10,
        };
        proof {
            lemma_grid(r@);
        }
        r
    }

    /// Puts a fresh, cleared console in the default colours into `slot`.
    pub fn init(slot: &mut Option<Console>, framebuffer: FrameBuffer, font: &'static psffont)
        requires
            console_fits(framebuffer@, font@),
        ensures
            *final(slot) matches Some(c) && c.wf() && c@ == (ConsoleView {
                screen: rect_filled(
                    framebuffer@,
                    0,
                    0,
                    framebuffer@.width as int,
                    framebuffer@.height as int,
                    DEFAULT_BG,
                ),
                font: font@,
                x: 0,
                y: 0,
                fg_color: DEFAULT_FG,
                bg_color: DEFAULT_BG,
            }),
    {
        let mut console = Self::new(framebuffer, font, DEFAULT_FG, DEFAULT_BG);
        console.clear();
        *slot = Some(console);
    }

    /// Fills the screen with the background colour and moves the cursor to
    /// the first cell.
    pub fn clear(&mut self)
        requires
            old(self).wf(),
        ensures
            final(self).wf(),
            final(self)@ == (ConsoleView {
                screen: rect_filled(
                    old(self)@.screen,
                    0,
                    0,
                    old(self)@.screen.width as int,
                    old(self)@.screen.height as int,
                    old(self)@.bg_color,
                ),
                x: 0,
                y: 0,
                ..old(self)@
            }),
    {
        proof {
            lemma_rect_filled_shape(
                self@.screen,
                0,
                0,
                self@.screen.width as int,
                self@.screen.height as int,
                self@.bg_color,
            );
        }
        self.framebuffer.clear_screen(self.bg_color);
        self.x = 0;
        self.y = 0;
        proof {
            lemma_grid(self@);
        }
    }

    /// Column and row of the cell in which the next character goes.
    pub fn cursor(&self) -> (r: (usize, usize))
        ensures
            r.0 == self@.x,
            r.1 == self@.y,
    {
        (self.x, self.y)
    }

    /// The screen that the console writes on.
    pub fn framebuffer(&self) -> (r: &FrameBuffer)
        ensures
            r@ == self@.screen,
    {
        &self.framebuffer
    }

    pub fn set_fg_color(&mut self, color: u32)
        requires
            old(self).wf(),
        ensures
            final(self).wf(),
            final(self)@ == (ConsoleView { fg_color: color, ..old(self)@ }),
    {
        self.fg_color = color;
    }

    pub fn set_bg_color(&mut self, color: u32)
        requires
            old(self).wf(),
        ensures
            final(self).wf(),
            final(self)@ == (ConsoleView { bg_color: color, ..old(self)@ }),
    {
        self.bg_color = color;
    }

    /// Whether a console can be set up on `framebuffer` with `font`.
    pub fn fits(framebuffer: &FrameBuffer, font: &psffont) -> (r: bool)
        ensures
            r == console_fits(framebuffer@, font@),
    {
        if !font.is_complete() {
            return false;
        }
        let width = font.width();
        let height = font.height();
        if width < 1 || height < 1 {
            return false;
        }
        let screen_width = framebuffer.width();
        let screen_height = framebuffer.height();
        if screen_width < 20 || screen_height < 20 {
            return false;
        }
        screen_width - 20 >= width && screen_height - 20 >= height
    }

    /// Moves what is shown up by one row of cells and clears the bottom.
    fn scroll(&mut self)
        requires
            old(self).sizes_agree(),
            console_fits(old(self)@.screen, old(self)@.font),
        ensures
            final(self).sizes_agree(),
            final(self)@ == (ConsoleView {
                screen: scrolled(
                    old(self)@.screen,
                    old(self)@.font.height as int,
                    old(self)@.bg_color,
                ),
                ..old(self)@
            }),
            same_shape(old(self)@.screen, final(self)@.screen),
    {
        let width = self.screen_width;
        let height = self.screen_height;
        let rows = height - self.char_height - self.margin_t;
        proof {
            lemma_rows_moved_shape(
                self@.screen,
                MARGIN as int,
                self.char_height as int,
                rows as int,
            );
            lemma_rect_filled_shape(
                rows_moved(self@.screen, MARGIN as int, self.char_height as int, rows as int),
                0,
                rows as int,
                width as int,
                self.char_height + MARGIN,
                self.bg_color,
            );
        }
        self.framebuffer.move_rows_up(self.margin_t, self.char_height, rows);
        let clear_y_start = height - self.char_height - self.margin_t;
        self.framebuffer.draw_rect(
            0,
            clear_y_start,
            width,
            self.char_height + self.margin_t,
            self.bg_color,
        );
    }

    /// Moves the cursor to the start of the next row, scrolling if there is
    /// none.
    fn newline(&mut self)
        requires
            old(self).wf(),
        ensures
            final(self).wf(),
            final(self)@ == line_fed(old(self)@),
    {
        proof {
            lemma_grid(self@);
        }
        self.y += 1;
        self.x = 0;
        let max_rows = (self.screen_height - self.margin_t * 2) / self.char_height;
        if self.y >= max_rows {
            self.scroll();
            self.y = max_rows - 1;
        }
        proof {
            lemma_grid(self@);
        }
    }

    /// Puts the glyph for `ch` at the cursor, on the next row if the cursor
    /// stands at the right margin, and moves the cursor one cell on.
    fn write_glyph(&mut self, ch: char)
        requires
            old(self).wf(),
        ensures
            final(self).wf(),
            final(self)@ == glyph_written(old(self)@, ch),
    {
        proof {
            lemma_grid(self@);
        }
        let screen_x = self.margin_l + self.char_width * self.x;
        if self.char_width > self.screen_width - self.margin_l - screen_x {
            self.newline();
        }
        proof {
            lemma_grid(self@);
            assert(self@.font.width * 0 == 0);
        }
        let screen_x = self.margin_l + self.char_width * self.x;
        let screen_y = self.margin_t + self.char_height * self.y;
        proof {
            lemma_complete_font_has_every_glyph(self@.font);
            lemma_char_drawn_shape(
                self@.screen,
                self@.font,
                ch,
                screen_x as int,
                screen_y as int,
                self.fg_color,
            );
        }
        self.framebuffer.draw_char(ch, screen_x, screen_y, self.fg_color, self.font);
        self.x += 1;
        proof {
            lemma_grid(self@);
        }
    }

    /// Takes back the last character of the row.
    pub fn backspace(&mut self)
        requires
            old(self).wf(),
        ensures
            final(self).wf(),
            final(self)@ == taken_back(old(self)@),
    {
        if self.x == 0 {
            return ;
        }
        proof {
            lemma_grid(self@);
            assert(self@.font.width * (self.x - 1) >= 0 && self@.font.width * (self.x - 1)
                + self@.font.width == self@.font.width * self.x) by (nonlinear_arith)
                requires
                    self.x >= 1,
                    self@.font.width >= 1,
            ;
        }
        self.x -= 1;
        let screen_x = self.margin_l + self.char_width * self.x;
        let screen_y = self.margin_t + self.char_height * self.y;
        proof {
            lemma_rect_filled_shape(
                self@.screen,
                screen_x as int,
                screen_y as int,
                self.char_width as int,
                self.char_height as int,
                self.bg_color,
            );
        }
        self.framebuffer.draw_rect(
            screen_x,
            screen_y,
            self.char_width,
            self.char_height,
            self.bg_color,
        );
        proof {
            lemma_grid(self@);
        }
    }

    /// Writes one character at the cursor.
    pub fn write_char(&mut self, ch: char)
        requires
            old(self).wf(),
        ensures
            final(self).wf(),
            final(self)@ == char_written(old(self)@, ch),
    {
        if ch == '\n' {
            self.newline();
        } else if ch == '\r' {
            self.x = 0;
            proof {
                lemma_grid(self@);
            }
        } else if ch == '\t' {
            self.write_glyph(' ');
            self.write_glyph(' ');
            self.write_glyph(' ');
            self.write_glyph(' ');
        } else {
            self.write_glyph(ch);
        }
    }

    /// Writes the characters of `s` at the cursor, one after another.
    pub fn write_string(&mut self, s: &str)
        requires
            old(self).wf(),
        ensures
            final(self).wf(),
            final(self)@ == string_written(old(self)@, s@),
    {
        for ch in iter: s.chars()
            invariant
                iter.seq() == s@,
                self.wf(),
                self@ == string_written(old(self)@, s@.take(iter.index() as int)),
        {
            proof {
                let k = iter.index() as int;
                assert(s@.take(k + 1).drop_last() =~= s@.take(k));
                assert(s@.take(k + 1).last() == ch);
            }
            self.write_char(ch);
        }
        assert(s@.take(s@.len() as int) =~= s@);
    }
}

} // verus!
