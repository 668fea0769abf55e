use planet::color::{Color, ColorTable};
use planet::file::bitmap::{
    bitmap_data, get_bitmap_info, get_color_mode, get_padded_width, validate_size,
};
use planet::file::heightfield::heightfield_data;
use planet::file::ppm::ppm_data;
use planet::file::xpm::{get_chars, get_chars_per_pixel, xpm_data};
use planet::file::png::png_data;
use planet::file::ColorMode;
use planet::render::slicing::Slicing;

const XPM_CHARS: &[u8] = b"@$.,:;-+=#*&ABCDEFGHIJKLMNOPQRSTUVWXYZabcdefghijklmnopqrstuvwxyz";

fn small_table() -> ColorTable {
    let mut t = ColorTable::new(3);
    t.set(0, Color::from_colors(1, 2, 3));
    t.set(1, Color::from_colors(150, 200, 250));
    t.set(2, Color::from_colors(9, 8, 7));
    t
}

#[test]
fn test_chars_per_pixel() {
    let chars = XPM_CHARS;
    assert_eq!(get_chars_per_pixel(63, chars), 1);
    assert_eq!(get_chars_per_pixel(255, chars), 2);
    assert_eq!(get_chars_per_pixel(5000, chars), 3);
    assert_eq!(get_chars_per_pixel(65535, chars), 3);
}

#[test]
fn chars_per_pixel_at_the_boundaries() {
    assert_eq!(get_chars_per_pixel(1, XPM_CHARS), 0);
    assert_eq!(get_chars_per_pixel(2, XPM_CHARS), 1);
    assert_eq!(get_chars_per_pixel(64, XPM_CHARS), 1);
    assert_eq!(get_chars_per_pixel(65, XPM_CHARS), 2);
    assert_eq!(get_chars_per_pixel(4096, XPM_CHARS), 2);
    assert_eq!(get_chars_per_pixel(4097, XPM_CHARS), 3);
    assert_eq!(get_chars_per_pixel(262144, XPM_CHARS), 3);
    assert_eq!(get_chars_per_pixel(262145, XPM_CHARS), 4);
}

#[test]
fn chars_spell_base_64_digits() {
    assert_eq!(get_chars(XPM_CHARS, 0, 1), b"@".to_vec());
    assert_eq!(get_chars(XPM_CHARS, 1, 1), b"$".to_vec());
    // 130 = 2 + 2 * 64: low digit first.
    assert_eq!(get_chars(XPM_CHARS, 130, 2), b"..".to_vec());
    assert_eq!(get_chars(XPM_CHARS, 64, 2), b"@$".to_vec());
}

#[test]
fn heightfield_is_big_endian_row_major() {
    let slicing = Slicing::new(2, 2, 1);
    let heightfield = vec![vec![vec![1i32, -1], vec![0x01020304, 0]]];
    let out = heightfield_data(&heightfield, &slicing);
    assert_eq!(out.len(), 4 * 2 * 2);
    assert_eq!(
        out,
        vec![
            0, 0, 0, 1, 0xff, 0xff, 0xff, 0xff, 1, 2, 3, 4, 0, 0, 0, 0,
        ]
    );
}

#[test]
fn ppm_writes_rows_bottom_up() {
    let slicing = Slicing::new(2, 1, 1);
    let table = small_table();
    let canvas = vec![vec![vec![0u16], vec![1u16]]];
    let shading: Vec<Vec<Vec<u8>>> = Vec::new();
    let out = ppm_data(&canvas, &shading, &table, &slicing, 0, b"CMD");
    let mut expected = b"P6\n1\n2\n255\n".to_vec();
    expected.extend_from_slice(&[150, 200, 250]); // bottom row first
    expected.extend_from_slice(&[1, 2, 3]);
    expected.extend_from_slice(b"#fractal planet image\n#CMD\n");
    assert_eq!(out, expected);
}

#[test]
fn ppm_applies_shading() {
    let slicing = Slicing::new(1, 1, 1);
    let table = small_table();
    let canvas = vec![vec![vec![1u16]]];
    let shading = vec![vec![vec![75u8]]];
    let out = ppm_data(&canvas, &shading, &table, &slicing, 2, b"X");
    // shade 75 halves each channel: 75 * c / 150.
    let mut expected = b"P6\n1\n1\n255\n".to_vec();
    expected.extend_from_slice(&[75, 100, 125]);
    expected.extend_from_slice(b"#fractal planet image\n#X\n");
    assert_eq!(out, expected);
}

#[test]
fn padded_width_rounds_to_boundaries() {
    assert_eq!(get_padded_width(1000, &ColorMode::Color), 1000);
    assert_eq!(get_padded_width(1001, &ColorMode::Color), 1004);
    assert_eq!(get_padded_width(1003, &ColorMode::Color), 1004);
    assert_eq!(get_padded_width(1000, &ColorMode::Monochrome), 1024);
    assert_eq!(get_padded_width(1024, &ColorMode::Monochrome), 1024);
    assert_eq!(get_padded_width(1025, &ColorMode::Monochrome), 1056);
    // Widths beyond 16 bits round up like any other.
    assert_eq!(get_padded_width(70000, &ColorMode::Color), 70000);
    assert_eq!(get_padded_width(70001, &ColorMode::Color), 70004);
    assert_eq!(get_padded_width(70000, &ColorMode::Monochrome), 70016);
}

#[test]
fn bitmap_info_per_mode() {
    assert_eq!(get_bitmap_info(&ColorMode::Color), (24, 0, 54));
    assert_eq!(get_bitmap_info(&ColorMode::Monochrome), (1, 2, 62));
}

#[test]
fn size_validation_against_the_format_limit() {
    assert!(validate_size(1000, 1000, &ColorMode::Color, 20));
    assert!(!validate_size(65000, 4_000_000, &ColorMode::Color, 20));
    // The limit is exact: a projected size of 2^32 - 1 bytes still fits,
    // one more byte does not. 62 + 32 * 1073741800 / 8 + 33 = 2^32 - 1.
    assert!(validate_size(1, 1073741800, &ColorMode::Monochrome, 33));
    assert!(!validate_size(1, 1073741800, &ColorMode::Monochrome, 34));
}

#[test]
fn color_bitmap_layout() {
    let slicing = Slicing::new(1, 1, 1);
    let table = small_table();
    let canvas = vec![vec![vec![0u16]]];
    let shading: Vec<Vec<Vec<u8>>> = Vec::new();
    let out = bitmap_data(&canvas, &shading, &table, &slicing, 0, b"CMD");
    // 54-byte header, one BGR pixel, three padding bytes, the footer.
    assert_eq!(out.len(), 54 + 3 + 3 + 3);
    assert_eq!(&out[0..2], b"BM");
    // file-size field: 3 (footer) + 54 + 4 * 1 / 8 = 57.
    assert_eq!(&out[2..6], &57u32.to_le_bytes());
    assert_eq!(out[10], 54); // pixel data offset
    assert_eq!(out[14], 40); // info header size
    assert_eq!(&out[18..22], &1u32.to_le_bytes()); // width
    assert_eq!(&out[22..26], &1u32.to_le_bytes()); // height
    assert_eq!(out[28], 24); // bits per pixel
    assert_eq!(&out[54..60], &[3, 2, 1, 0, 0, 0]); // BGR then padding
    assert_eq!(&out[60..63], b"CMD");
}

#[test]
fn monochrome_bitmap_packs_bits() {
    let slicing = Slicing::new(2, 2, 1);
    let mut table = ColorTable::new(2);
    table.set(1, Color::from_colors(255, 255, 255));
    assert!(matches!(
        get_color_mode(&table),
        ColorMode::Monochrome
    ));
    // top row: white black; bottom row: black white.
    let canvas = vec![vec![vec![1u16, 0], vec![0u16, 1]]];
    let shading: Vec<Vec<Vec<u8>>> = Vec::new();
    let out = bitmap_data(&canvas, &shading, &table, &slicing, 0, b"");
    assert_eq!(out.len(), 62 + 4 + 4);
    assert_eq!(out[28], 1); // bits per pixel
    assert_eq!(&out[54..62], &[0, 0, 0, 0, 255, 255, 255, 255]); // palette
    // Bottom row first: pixel 1 white -> bit 30; then top row: bit 31.
    assert_eq!(&out[62..66], &0x4000_0000u32.to_le_bytes());
    assert_eq!(&out[66..70], &0x8000_0000u32.to_le_bytes());
}

#[test]
fn xpm_document_for_one_pixel() {
    let slicing = Slicing::new(1, 1, 1);
    let mut table = ColorTable::new(2);
    table.set(0, Color::from_colors(0, 0, 0));
    table.set(1, Color::from_colors(255, 170, 3));
    let canvas = vec![vec![vec![1u16]]];
    let out = xpm_data(&canvas, &table, &slicing, b"CMD ");
    let expected = "/* XPM */\n/* Command line: */\n/* CMD */\nstatic char *xpmdata[] = {\n/* width height ncolors chars_per_pixel */\n\"1 1 2 1\",\n/* colors */\n\"@ c # 0 0 0\",\n\"$ c #ffaa 3\",\n/* pixels */\n\"\n$\n\",\n};\n";
    assert_eq!(String::from_utf8(out).unwrap(), expected);
}

#[test]
fn png_output_carries_the_signature() {
    let slicing = Slicing::new(2, 2, 1);
    let table = small_table();
    let canvas = vec![vec![vec![0u16, 1], vec![2u16, 0]]];
    let out = png_data(&canvas, &table, &slicing).unwrap();
    assert_eq!(&out[0..8], &[137, 80, 78, 71, 13, 10, 26, 10]);
    assert!(out.len() > 8);
}
