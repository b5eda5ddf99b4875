use kitsune_kernel::console::{Console, DEFAULT_BG, DEFAULT_FG, MARGIN};
use kitsune_kernel::framebuffer::{FrameBuffer, FrameBufferInfo, PixelFormat};
use kitsune_kernel::psfparser::psffont;

const INK: u32 = 0xFFFFFF;
const PAPER: u32 = 0x000040;

fn font(glyphs: u32) -> &'static psffont {
    let mut d = vec![0x72, 0xb5, 0x4a, 0x86];
    d.extend(0u32.to_le_bytes());
    d.extend(32u32.to_le_bytes());
    d.extend(0u32.to_le_bytes());
    d.extend(glyphs.to_le_bytes());
    d.extend(4u32.to_le_bytes());
    d.extend(4u32.to_le_bytes());
    d.extend(8u32.to_le_bytes());
    for i in 0..glyphs {
        if i == b' ' as u32 {
            d.extend([0, 0, 0, 0]);
        } else {
            d.extend([0x80, 0, 0, (i & 0x7F) as u8]);
        }
    }
    let data: &'static [u8] = Box::leak(d.into_boxed_slice());
    Box::leak(Box::new(psffont::parse(data).ok().unwrap()))
}

fn screen(width: usize, height: usize) -> FrameBuffer {
    FrameBuffer::new(FrameBufferInfo {
        buffer: vec![0x77; width * height * 4],
        width,
        height,
        stride: width,
        pixel_format: PixelFormat::Bgr,
    })
}

fn console(cols: usize, rows: usize) -> Console {
    let fb = screen(20 + 8 * cols + 3, 20 + 4 * rows + 1);
    let f = font(128);
    assert!(Console::fits(&fb, f));
    let mut c = Console::new(fb, f, INK, PAPER);
    c.clear();
    c
}

fn cell_corner(c: &Console, col: usize, row: usize) -> u32 {
    c.framebuffer().get_pixel(MARGIN + 8 * col, MARGIN + 4 * row)
}

fn cell_code(c: &Console, col: usize, row: usize) -> u8 {
    let mut code = 0u8;
    for bit in 0..8 {
        if c.framebuffer().get_pixel(MARGIN + 8 * col + bit, MARGIN + 4 * row + 3) == INK {
            code |= 0x80 >> bit;
        }
    }
    code
}

fn row_text(c: &Console, row: usize, cols: usize) -> String {
    (0..cols)
        .map(|col| if cell_corner(c, col, row) == INK { cell_code(c, col, row) as char } else { ' ' })
        .collect()
}

#[test]
fn console_needs_room_for_one_cell_and_a_whole_font() {
    let f = font(128);
    assert!(Console::fits(&screen(28, 24), f));
    assert!(!Console::fits(&screen(27, 24), f));
    assert!(!Console::fits(&screen(28, 23), f));
    assert!(!Console::fits(&screen(5, 5), f));
    assert!(!Console::fits(&screen(100, 100), font(0)));
    let mut d = vec![0x36, 0x04, 0, 16];
    d.extend([0u8; 100]);
    let data: &'static [u8] = Box::leak(d.into_boxed_slice());
    let truncated: &'static psffont = Box::leak(Box::new(psffont::parse(data).ok().unwrap()));
    assert!(!truncated.is_complete());
    assert!(!Console::fits(&screen(100, 100), truncated));
}

#[test]
fn fresh_console_starts_in_the_first_cell() {
    let c = Console::new(screen(60, 40), font(128), INK, PAPER);
    assert_eq!(c.cursor(), (0, 0));
    assert_eq!(c.framebuffer().get_pixel(0, 0), 0x777777);
    let mut slot = None;
    Console::init(&mut slot, screen(60, 40), font(128));
    let c = slot.unwrap();
    assert_eq!(c.cursor(), (0, 0));
    assert_eq!(DEFAULT_BG, 0);
    assert_eq!(DEFAULT_FG, 0x008000);
    for (x, y) in [(0, 0), (59, 39), (30, 20)] {
        assert_eq!(c.framebuffer().get_pixel(x, y), DEFAULT_BG);
    }
    let mut c = c;
    c.write_char('x');
    assert_eq!(cell_corner(&c, 0, 0), DEFAULT_FG);
}

#[test]
fn characters_go_in_cells_from_left_to_right() {
    let mut c = console(4, 3);
    c.write_string("ab");
    assert_eq!(c.cursor(), (2, 0));
    assert_eq!(row_text(&c, 0, 4), "ab  ");
    c.write_char('c');
    assert_eq!(c.cursor(), (3, 0));
    assert_eq!(row_text(&c, 0, 4), "abc ");
    assert_eq!(row_text(&c, 1, 4), "    ");
}

#[test]
fn line_wraps_when_the_next_cell_would_cross_the_margin() {
    let mut c = console(4, 3);
    c.write_string("abcd");
    assert_eq!(c.cursor(), (4, 0));
    c.write_char('e');
    assert_eq!(c.cursor(), (1, 1));
    assert_eq!(row_text(&c, 0, 4), "abcd");
    assert_eq!(row_text(&c, 1, 4), "e   ");
}

#[test]
fn line_feed_and_carriage_return_move_the_cursor_only() {
    let mut c = console(4, 3);
    c.write_string("ab\n");
    assert_eq!(c.cursor(), (0, 1));
    c.write_string("cd\r");
    assert_eq!(c.cursor(), (0, 1));
    c.write_char('e');
    assert_eq!(row_text(&c, 0, 4), "ab  ");
    assert_eq!(cell_corner(&c, 0, 1), INK);
    assert_eq!(cell_corner(&c, 1, 1), INK);
    assert_eq!(c.cursor(), (1, 1));
}

#[test]
fn tab_writes_four_blanks() {
    let mut c = console(6, 3);
    c.write_string("a\tb");
    assert_eq!(c.cursor(), (6, 0));
    assert_eq!(row_text(&c, 0, 6), "a    b");
    c.write_char('\t');
    assert_eq!(c.cursor(), (4, 1));
    c.write_string("xy\t");
    assert_eq!(c.cursor(), (4, 2));
    assert_eq!(row_text(&c, 1, 6), "    xy");
}

#[test]
fn screen_scrolls_when_the_last_row_is_left() {
    let mut c = console(4, 3);
    c.write_string("a\nb\nc");
    assert_eq!(c.cursor(), (1, 2));
    assert_eq!(row_text(&c, 0, 4), "a   ");
    assert_eq!(row_text(&c, 2, 4), "c   ");
    c.write_char('\n');
    assert_eq!(c.cursor(), (0, 2));
    assert_eq!(row_text(&c, 0, 4), "b   ");
    assert_eq!(row_text(&c, 1, 4), "c   ");
    assert_eq!(row_text(&c, 2, 4), "    ");
    let height = c.framebuffer().height();
    let width = c.framebuffer().width();
    for y in height - 14..height {
        for x in 0..width {
            assert_eq!(c.framebuffer().get_pixel(x, y), PAPER);
        }
    }
    c.write_string("d\ne");
    assert_eq!(row_text(&c, 0, 4), "c   ");
    assert_eq!(row_text(&c, 1, 4), "d   ");
    assert_eq!(row_text(&c, 2, 4), "e   ");
}

#[test]
fn wrap_on_the_last_row_scrolls() {
    let mut c = console(2, 2);
    c.write_string("ab\ncd");
    assert_eq!(c.cursor(), (2, 1));
    c.write_char('e');
    assert_eq!(c.cursor(), (1, 1));
    assert_eq!(row_text(&c, 0, 2), "cd");
    assert_eq!(row_text(&c, 1, 2), "e ");
}

#[test]
fn colours_apply_to_what_is_written_next() {
    let mut c = console(4, 2);
    c.write_char('a');
    c.set_fg_color(0x00FF00);
    c.write_char('b');
    assert_eq!(cell_corner(&c, 0, 0), INK);
    assert_eq!(cell_corner(&c, 1, 0), 0x00FF00);
    c.set_bg_color(0x330000);
    assert_eq!(c.framebuffer().get_pixel(0, 0), PAPER);
    c.clear();
    assert_eq!(c.cursor(), (0, 0));
    assert_eq!(c.framebuffer().get_pixel(0, 0), 0x330000);
    assert_eq!(cell_corner(&c, 0, 0), 0x330000);
}

#[test]
fn backspace_clears_the_cell_before_the_cursor() {
    let mut c = console(4, 2);
    c.backspace();
    assert_eq!(c.cursor(), (0, 0));
    c.write_string("ab");
    c.backspace();
    assert_eq!(c.cursor(), (1, 0));
    assert_eq!(row_text(&c, 0, 4), "a   ");
    for y in 0..4 {
        for x in 0..8 {
            assert_eq!(c.framebuffer().get_pixel(MARGIN + 8 + x, MARGIN + y), PAPER);
        }
    }
    c.write_char('c');
    assert_eq!(row_text(&c, 0, 4), "ac  ");
    c.write_string("\nd");
    c.backspace();
    c.backspace();
    assert_eq!(c.cursor(), (0, 1));
    assert_eq!(row_text(&c, 0, 4), "ac  ");
    assert_eq!(row_text(&c, 1, 4), "    ");
}
