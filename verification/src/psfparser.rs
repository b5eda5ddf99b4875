//! Reader for PC Screen Font files, versions 1 and 2: fixed-size bitmap
//! glyphs behind a short header.

use vstd::prelude::*;
use vstd::slice::slice_subrange;

verus! {

/// What a font holds: the size of a glyph in pixels and in bytes, the number
/// of glyphs, and the glyphs' bytes one after another.
pub struct FontView {
    pub width: nat,
    pub height: nat,
    pub char_size: nat,
    pub number_of_char: nat,
    pub char_data: Seq<u8>,
}

/// The 32-bit number whose four bytes stand in `d` from `at` on, the lowest
/// first.
pub open spec fn le_u32(d: Seq<u8>, at: int) -> int {
    d[at] + 256 * d[at + 1] + 65536 * d[at + 2] + 16777216 * d[at + 3]
}

/// The data starts with the four magic bytes of version 2 and reaches to the
/// end of that version's header.
pub open spec fn is_psf2(d: Seq<u8>) -> bool {
    d.len() >= 32 && d[0] == 0x72 && d[1] == 0xb5 && d[2] == 0x4a && d[3] == 0x86
}

/// The data starts with the two magic bytes of version 1 and reaches to the
/// end of that version's header.
pub open spec fn is_psf1(d: Seq<u8>) -> bool {
    d.len() >= 4 && d[0] == 0x36 && d[1] == 0x04
}

/// The font in version 1 data: glyphs of 8 pixels' width and one byte per
/// row, 512 of them if the lowest bit of the mode byte is set and 256 if not.
pub open spec fn psf1_font(d: Seq<u8>) -> FontView {
    FontView {
        width: 8,
        height: d[3] as nat,
        char_size: d[3] as nat,
        number_of_char: if d[2] & 0x01 != 0 {
            512
        } else {
            256
        },
        char_data: d.skip(4),
    }
}

/// The font in version 2 data, as its header declares it.
pub open spec fn psf2_font(d: Seq<u8>) -> FontView {
    FontView {
        width: le_u32(d, 28) as nat,
        height: le_u32(d, 24) as nat,
        char_size: le_u32(d, 20) as nat,
        number_of_char: le_u32(d, 16) as nat,
        char_data: d.skip(le_u32(d, 8)),
    }
}

/// Whether version 2 data holds the header and all the glyphs that the
/// header declares.
pub open spec fn psf2_complete(d: Seq<u8>) -> bool {
    d.len() >= le_u32(d, 8) + le_u32(d, 16) * le_u32(d, 20)
}

/// What reading the data `d` gives: the font, or why there is none. Data of
/// less than four bytes is too small to tell. Data with the magic bytes of
/// version 2 gives the font of its header if it holds all the glyphs that
/// the header declares. Other data with the magic bytes of version 1 gives a
/// font whatever follows. Anything else has no header that is known.
pub open spec fn parsed(d: Seq<u8>) -> Result<FontView, Seq<char>> {
    if d.len() < 4 {
        Err("Too Small"@)
    } else if is_psf2(d) {
        if psf2_complete(d) {
            Ok(psf2_font(d))
        } else {
            Err("PSF2 data too small for declared glyphs"@)
        }
    } else if is_psf1(d) {
        Ok(psf1_font(d))
    } else {
        Err("Invalid header"@)
    }
}

/// A bitmap font.
#[allow(non_camel_case_types)]
pub struct psffont {
    width: usize,
    height: usize,
    char_size: usize,
    number_of_char: usize,
    char_data: &'static [u8],
}

impl View for psffont {
    type V = FontView;

    closed spec fn view(&self) -> FontView {
        FontView {
            width: self.width as nat,
            height: self.height as nat,
            char_size: self.char_size as nat,
            number_of_char: self.number_of_char as nat,
            char_data: self.char_data@,
        }
    }
}

fn read_le_u32(data: &[u8], at: usize) -> (r: u32)
    requires
        at + 4 <= data@.len(),
    ensures
        r == le_u32(data@, at as int),
{
    let b0 = data[at] as u32;
    let b1 = data[at + 1] as u32;
    let b2 = data[at + 2] as u32;
    let b3 = data[at + 3] as u32;
    b0 + 256 * b1 + 65536 * b2 + 16777216 * b3
}

impl psffont {
    #[verifier::type_invariant]
    spec fn sizes_fit(&self) -> bool {
        &&& self.width <= u32::MAX
        &&& self.height <= u32::MAX
        &&& self.char_size <= u32::MAX
        &&& self.number_of_char <= u32::MAX
    }

    /// Reads a font. Data that starts with the magic bytes of version 2 is
    /// read as version 2, other data that starts with those of version 1 as
    /// version 1.
    pub fn parse(data: &'static [u8]) -> (r: Result<Self, &'static str>)
        ensures
            match r {
                Ok(font) => parsed(data@) == Ok::<FontView, Seq<char>>(font@),
                Err(msg) => parsed(data@) == Err::<FontView, Seq<char>>(msg@),
            },
    {
        if data.len() < 4 {
            return Err("Too Small");
        }
        if data.len() >= 32 && data[0] == 0x72 && data[1] == 0xb5 && data[2] == 0x4a && data[3]
            == 0x86 {
            return Self::parsepsf2(data);
        }
        if data[0] == 0x36 && data[1] == 0x04 {
            return Self::parsepsf1(data);
        }
        Err("Invalid header")
    }

    fn parsepsf1(data: &'static [u8]) -> (r: Result<Self, &'static str>)
        requires
            data@.len() >= 4,
        ensures
            r matches Ok(font) && font@ == psf1_font(data@),
    {
        let mode = data[2];
        let char_size = data[3] as usize;
        let width: usize = 8;
        let height = char_size;
        let num_of_chars: usize = if mode & 0x01 != 0 {
            512
        } else {
            256
        };
        let header_size: usize = 4;
        Ok(
            psffont {
                width,
                height,
                char_size,
                number_of_char: num_of_chars,
                char_data: slice_subrange(data, header_size, data.len()),
            },
        )
    }

    fn parsepsf2(data: &'static [u8]) -> (r: Result<Self, &'static str>)
        ensures
            match r {
                Ok(font) => data@.len() >= 32 && psf2_complete(data@) && font@ == psf2_font(data@),
                Err(msg) => {
                    ||| data@.len() < 32 && msg@ == "Header too small"@
                    ||| data@.len() >= 32 && !psf2_complete(data@) && msg@
                        == "PSF2 data too small for declared glyphs"@
                },
            },
    {
        if data.len() < 32 {
            return Err("Header too small");
        }
        let header_size = read_le_u32(data, 8);
        let num_glyphs = read_le_u32(data, 16);
        let glyph_size = read_le_u32(data, 20);
        let height = read_le_u32(data, 24);
        let width = read_le_u32(data, 28);

        assert(num_glyphs * glyph_size <= 0xffff_ffff * 0xffff_ffff) by (nonlinear_arith)
            requires
                0 <= num_glyphs <= 0xffff_ffff,
                0 <= glyph_size <= 0xffff_ffff,
        ;
        let needed: u64 = header_size as u64 + (num_glyphs as u64) * (glyph_size as u64);
        if (data.len() as u64) < needed {
            return Err("PSF2 data too small for declared glyphs");
        }
        Ok(
            psffont {
                width: width as usize,
                height: height as usize,
                char_size: glyph_size as usize,
                number_of_char: num_glyphs as usize,
                char_data: slice_subrange(data, header_size as usize, data.len()),
            },
        )
    }

    /// Pixels in a glyph's row.
    pub fn width(&self) -> (r: usize)
        ensures
            r == self@.width,
    {
        self.width
    }

    /// Rows in a glyph.
    pub fn height(&self) -> (r: usize)
        ensures
            r == self@.height,
    {
        self.height
    }

    /// Whether the font has a glyph, and its data holds every glyph that it
    /// declares. Such a font has a glyph to show for every character.
    pub fn is_complete(&self) -> (r: bool)
        ensures
            r == font_complete(self@),
            r ==> forall|ch: char| glyph_present(self@, ch),
    {
        proof {
            use_type_invariant(self);
        }
        assert(self.number_of_char * self.char_size <= 0xffff_ffff * 0xffff_ffff)
            by (nonlinear_arith)
            requires
                0 <= self.number_of_char <= 0xffff_ffff,
                0 <= self.char_size <= 0xffff_ffff,
        ;
        let r = self.number_of_char >= 1 && (self.number_of_char as u64) * (self.char_size as u64)
            <= self.char_data.len() as u64;
        proof {
            if r {
                lemma_complete_font_has_every_glyph(self@);
            }
        }
        r
    }

    /// Whether the font's data reaches to the end of the glyph that stands
    /// for `ch`.
    pub fn has_glyph(&self, ch: char) -> (r: bool)
        ensures
            r == glyph_present(self@, ch),
    {
        proof {
            use_type_invariant(self);
        }
        let index = ch as u32 as usize;
        let shown: u64 = if index >= self.number_of_char {
            if self.number_of_char > 63 {
                63
            } else {
                0
            }
        } else {
            index as u64
        };
        assert((shown + 1) * self.char_size <= 0x1_0000_0000 * 0xffff_ffff) by (nonlinear_arith)
            requires
                0 <= shown + 1 <= 0x1_0000_0000,
                0 <= self.char_size <= 0xffff_ffff,
        ;
        (shown + 1) * (self.char_size as u64) <= self.char_data.len() as u64
    }

    /// The bytes of the glyph for `ch`. A character beyond the font's glyphs
    /// is shown as `?`, or as glyph 0 in a font too small to hold a `?`.
    pub fn get_char(&self, ch: char) -> (r: Option<&[u8]>)
        requires
            glyph_present(self@, ch),
        ensures
            r matches Some(glyph) && glyph@ == glyph_bytes(self@, ch),
    {
        proof {
            use_type_invariant(self);
        }
        let index = ch as u32 as usize;
        let shown = if index >= self.number_of_char {
            if self.number_of_char > 63 {
                63
            } else {
                0
            }
        } else {
            index
        };
        assert(shown == glyph_index(self@, ch));
        assert(self.char_data.len() == self.char_data@.len());
        assert(shown * self.char_size <= (shown + 1) * self.char_size) by (nonlinear_arith);
        assert(shown * self.char_size + self.char_size == (shown + 1) * self.char_size)
            by (nonlinear_arith);
        let start = shown * self.char_size;
        let end = start + self.char_size;
        Some(slice_subrange(self.char_data, start, end))
    }

    /// Whether the pixel in column `x` of row `y` of `glyph` is set. Rows are
    /// whole bytes, the leftmost pixel in the highest bit. Pixels outside the
    /// glyph, or beyond its bytes, are not set.
    pub fn is_pixel_set(&self, glyph: &[u8], x: usize, y: usize) -> (r: bool)
        ensures
            r == pixel_set(self@, glyph@, x as int, y as int),
    {
        proof {
            use_type_invariant(self);
        }
        if y >= self.height || x >= self.width {
            return false;
        }
        let bytes_per_row: u64 = (self.width as u64 + 7) / 8;
        assert(y * bytes_per_row <= 0xffff_ffff * 0x2000_0000) by (nonlinear_arith)
            requires
                0 <= y <= 0xffff_ffff,
                0 <= bytes_per_row <= 0x2000_0000,
        ;
        let byte_index: u64 = (y as u64) * bytes_per_row + (x as u64 / 8);
        if byte_index >= glyph.len() as u64 {
            return false;
        }
        let bit_index: u8 = 7 - (x % 8) as u8;
        (glyph[byte_index as usize] >> bit_index) & 1 != 0
    }
}

/// Number of the glyph that stands for `ch`: its code point, or that of `?`
/// (or 0, in a font of 63 glyphs or fewer) if the font has no glyph of that
/// number.
pub open spec fn glyph_index(font: FontView, ch: char) -> int {
    if ch as u32 >= font.number_of_char {
        if font.number_of_char > 63 {
            63
        } else {
            0
        }
    } else {
        ch as u32 as int
    }
}

/// The font has a glyph, and its data holds every glyph that it declares.
pub open spec fn font_complete(font: FontView) -> bool {
    font.number_of_char >= 1 && font.number_of_char * font.char_size <= font.char_data.len()
}

/// A complete font has a glyph to show for every character.
pub proof fn lemma_complete_font_has_every_glyph(font: FontView)
    requires
        font_complete(font),
    ensures
        forall|ch: char| glyph_present(font, ch),
{
    assert forall|ch: char| glyph_present(font, ch) by {
        let i = glyph_index(font, ch);
        assert((i + 1) * font.char_size <= font.number_of_char * font.char_size)
            by (nonlinear_arith)
            requires
                0 <= i + 1 <= font.number_of_char,
                font.char_size >= 0,
        ;
    }
}

/// The font's data reaches to the end of the glyph that stands for `ch`.
pub open spec fn glyph_present(font: FontView, ch: char) -> bool {
    (glyph_index(font, ch) + 1) * font.char_size <= font.char_data.len()
}

/// The bytes of the glyph that stands for `ch`.
pub open spec fn glyph_bytes(font: FontView, ch: char) -> Seq<u8> {
    font.char_data.subrange(
        glyph_index(font, ch) * font.char_size,
        (glyph_index(font, ch) + 1) * font.char_size,
    )
}

/// Index in a glyph of the byte that holds the pixel in column `x` of row `y`.
pub open spec fn pixel_byte(font: FontView, x: int, y: int) -> int {
    y * ((font.width + 7) / 8) + x / 8
}

/// Whether the pixel in column `x` of row `y` of `glyph` is set.
pub open spec fn pixel_set(font: FontView, glyph: Seq<u8>, x: int, y: int) -> bool {
    &&& y < font.height
    &&& x < font.width
    &&& pixel_byte(font, x, y) < glyph.len()
    &&& (glyph[pixel_byte(font, x, y)] >> ((7 - x % 8) as u8)) & 1 != 0
}

} // verus!
