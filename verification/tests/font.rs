use kitsune_kernel::psfparser::psffont;

fn leak(data: Vec<u8>) -> &'static [u8] {
    Box::leak(data.into_boxed_slice())
}

fn psf1(mode: u8, char_size: u8, glyph_bytes: usize) -> Vec<u8> {
    let mut d = vec![0x36, 0x04, mode, char_size];
    d.extend((0..glyph_bytes).map(|i| (i % 251) as u8));
    d
}

fn psf2(header_size: u32, glyphs: u32, glyph_size: u32, height: u32, width: u32, body: usize) -> Vec<u8> {
    let mut d = vec![0x72, 0xb5, 0x4a, 0x86];
    d.extend(0u32.to_le_bytes());
    d.extend(header_size.to_le_bytes());
    d.extend(0u32.to_le_bytes());
    d.extend(glyphs.to_le_bytes());
    d.extend(glyph_size.to_le_bytes());
    d.extend(height.to_le_bytes());
    d.extend(width.to_le_bytes());
    d.extend((0..body).map(|i| (i % 253) as u8));
    d
}

#[test]
fn short_data_is_too_small() {
    assert_eq!(psffont::parse(leak(vec![])).err(), Some("Too Small"));
    assert_eq!(psffont::parse(leak(vec![0x36, 0x04, 0])).err(), Some("Too Small"));
}

#[test]
fn unknown_magic_is_an_invalid_header() {
    assert_eq!(psffont::parse(leak(vec![1, 2, 3, 4])).err(), Some("Invalid header"));
    assert_eq!(psffont::parse(leak(vec![0x36, 0x05, 0, 16])).err(), Some("Invalid header"));
    let mut short_v2 = vec![0x72, 0xb5, 0x4a, 0x86];
    short_v2.extend([0u8; 27]);
    assert_eq!(psffont::parse(leak(short_v2)).err(), Some("Invalid header"));
}

#[test]
fn version_1_font() {
    let data = psf1(0, 16, 256 * 16);
    let font = psffont::parse(leak(data.clone())).ok().unwrap();
    assert_eq!(font.width(), 8);
    assert_eq!(font.height(), 16);
    assert_eq!(font.get_char('\0'), Some(&data[4..20]));
    assert_eq!(font.get_char('A'), Some(&data[4 + 65 * 16..4 + 66 * 16]));
    assert_eq!(font.get_char('\u{ff}'), Some(&data[4 + 255 * 16..4 + 256 * 16]));
    assert_eq!(font.get_char('\u{100}'), Some(&data[4 + 63 * 16..4 + 64 * 16]));
    assert_eq!(font.get_char('\u{1F600}'), font.get_char('?'));
}

#[test]
fn version_1_font_with_512_glyphs() {
    let data = psf1(1, 8, 512 * 8);
    let font = psffont::parse(leak(data.clone())).ok().unwrap();
    assert_eq!(font.height(), 8);
    assert_eq!(font.get_char('\u{100}'), Some(&data[4 + 256 * 8..4 + 257 * 8]));
    assert_eq!(font.get_char('\u{1ff}'), Some(&data[4 + 511 * 8..4 + 512 * 8]));
    assert_eq!(font.get_char('\u{200}'), Some(&data[4 + 63 * 8..4 + 64 * 8]));
    let odd_mode = psffont::parse(leak(psf1(3, 8, 512 * 8))).ok().unwrap();
    assert_eq!(odd_mode.get_char('\u{1ff}'), Some(&data[4 + 511 * 8..4 + 512 * 8]));
    let even_mode = psffont::parse(leak(psf1(2, 8, 512 * 8))).ok().unwrap();
    assert_eq!(even_mode.get_char('\u{1ff}'), even_mode.get_char('?'));
}

#[test]
fn version_2_font() {
    let data = psf2(32, 128, 36, 18, 12, 128 * 36);
    let font = psffont::parse(leak(data.clone())).ok().unwrap();
    assert_eq!(font.width(), 12);
    assert_eq!(font.height(), 18);
    assert_eq!(font.get_char('a'), Some(&data[32 + 97 * 36..32 + 98 * 36]));
    assert_eq!(font.get_char('\u{80}'), Some(&data[32 + 63 * 36..32 + 64 * 36]));
}

#[test]
fn version_2_header_may_be_longer_than_32_bytes() {
    let data = psf2(40, 4, 2, 2, 8, 8 + 4 * 2);
    let font = psffont::parse(leak(data.clone())).ok().unwrap();
    assert_eq!(font.get_char('\u{3}'), Some(&data[46..48]));
    assert_eq!(font.get_char('z'), Some(&data[40..42]));
}

#[test]
fn version_2_font_with_glyphs_missing() {
    let data = psf2(32, 128, 36, 18, 12, 128 * 36 - 1);
    assert_eq!(
        psffont::parse(leak(data)).err(),
        Some("PSF2 data too small for declared glyphs")
    );
    let data = psf2(33, 1, 1, 1, 1, 1);
    assert_eq!(
        psffont::parse(leak(data)).err(),
        Some("PSF2 data too small for declared glyphs")
    );
    let data = psf2(u32::MAX, u32::MAX, u32::MAX, 1, 1, 64);
    assert_eq!(
        psffont::parse(leak(data)).err(),
        Some("PSF2 data too small for declared glyphs")
    );
}

#[test]
fn version_2_wins_over_version_1() {
    let mut data = psf2(32, 1, 1, 1, 1, 1);
    data[0] = 0x36;
    data[1] = 0x04;
    let font = psffont::parse(leak(data)).ok().unwrap();
    assert_eq!(font.width(), 8);
    assert_eq!(font.height(), 0x86);
}

#[test]
fn glyphs_are_present_only_within_the_data() {
    let font = psffont::parse(leak(psf1(0, 16, 100 * 16))).ok().unwrap();
    assert!(font.has_glyph('a'));
    assert!(font.has_glyph('\u{150}'));
    assert!(!font.has_glyph('d'));
    assert!(!font.has_glyph('\u{ff}'));
    let tiny = psffont::parse(leak(psf2(32, 2, 4, 4, 8, 8))).ok().unwrap();
    assert!(tiny.has_glyph('\u{1}'));
    assert!(tiny.has_glyph('x'));
    let none = psffont::parse(leak(psf2(32, 0, 4, 4, 8, 0))).ok().unwrap();
    assert!(!none.has_glyph('x'));
}

#[test]
fn pixels_are_read_from_the_highest_bit_down() {
    let font = psffont::parse(leak(psf2(32, 1, 4, 2, 12, 4))).ok().unwrap();
    let glyph = [0b1000_0001u8, 0b0100_0000, 0b0000_0000, 0b1111_0000];
    assert!(font.is_pixel_set(&glyph, 0, 0));
    assert!(!font.is_pixel_set(&glyph, 1, 0));
    assert!(font.is_pixel_set(&glyph, 7, 0));
    assert!(!font.is_pixel_set(&glyph, 8, 0));
    assert!(font.is_pixel_set(&glyph, 9, 0));
    assert!(!font.is_pixel_set(&glyph, 0, 1));
    assert!(font.is_pixel_set(&glyph, 8, 1));
    assert!(font.is_pixel_set(&glyph, 11, 1));
    assert!(!font.is_pixel_set(&glyph, 12, 1));
    assert!(!font.is_pixel_set(&glyph, 0, 2));
    assert!(!font.is_pixel_set(&glyph[..3], 8, 1));
    assert!(!font.is_pixel_set(&[], 0, 0));
    assert!(!font.is_pixel_set(&glyph, usize::MAX, usize::MAX));
}
