//! Uncompressed BMP: a 54-byte header for 24-bit color (62 bytes with the
//! two-entry palette of the 1-bit monochrome form), pixel rows bottom-up and
//! padded to four-byte boundaries, and the command line appended after the
//! pixel data.

use crate::color::{Color, ColorTable};
use crate::file::ColorMode;
use crate::file::ppm::{canvas_in_range, spec_shaded_channel, shaded_channel};
use crate::file::push_bytes;
use crate::render::slicing::Slicing;
use crate::render::{slices_at, slices_view, slices_wf};
use vstd::prelude::*;

verus! {

/// The four little-endian bytes of a 32-bit value.
pub open spec fn spec_le_u32(v: u32) -> Seq<u8> {
    seq![(v & 0xff) as u8, ((v >> 8) & 0xff) as u8, ((v >> 16) & 0xff) as u8, ((v >> 24)
        & 0xff) as u8]
}

pub fn push_le_u32(out: &mut Vec<u8>, v: u32)
    ensures
        final(out)@ == old(out)@ + spec_le_u32(v),
{
    out.push((v & 0xff) as u8);
    out.push(((v >> 8) & 0xff) as u8);
    out.push(((v >> 16) & 0xff) as u8);
    out.push(((v >> 24) & 0xff) as u8);
    proof {
        assert(final(out)@ =~= old(out)@ + spec_le_u32(v));
    }
}

/// Bits per pixel, palette entries, and the pixel data offset of each mode.
pub open spec fn spec_bitmap_info(mode: ColorMode) -> (u8, u8, u8) {
    match mode {
        ColorMode::Color => (24u8, 0u8, 54u8),
        ColorMode::Monochrome => (1u8, 2u8, 62u8),
    }
}

pub fn get_bitmap_info(mode: &ColorMode) -> (r: (u8, u8, u8))
    ensures
        r == spec_bitmap_info(*mode),
{
    match mode {
        ColorMode::Color => (24, 0, 54),
        ColorMode::Monochrome => (1, 2, 62),
    }
}

/// A row's width padded to its four-byte boundary: pixels rounded up to a
/// multiple of 4 in color mode, bits to a multiple of 32 in monochrome.
pub open spec fn spec_padded_width(width: int, mode: ColorMode) -> int {
    match mode {
        ColorMode::Color => (width + 3) / 4 * 4,
        ColorMode::Monochrome => (width + 31) / 32 * 32,
    }
}

pub fn get_padded_width(width: u32, mode: &ColorMode) -> (r: u32)
    requires
        width <= u32::MAX - 31,
    ensures
        r == spec_padded_width(width as int, *mode),
{
    match mode {
        ColorMode::Color => {
            let r = (width + 3) & 0xffff_fffc;
            proof {
                assert(r == ((width + 3) as u32 as int) / 4 * 4) by (bit_vector)
                    requires
                        r == ((width + 3) as u32) & 0xffff_fffc,
                ;
            }
            r
        },
        ColorMode::Monochrome => {
            let r = (width + 31) & 0xffff_ffe0;
            proof {
                assert(r == ((width + 31) as u32 as int) / 32 * 32) by (bit_vector)
                    requires
                        r == ((width + 31) as u32) & 0xffff_ffe0,
                ;
            }
            r
        },
    }
}

/// The padding rounds up to the next boundary: the padded width is the
/// least multiple of the boundary at or above the width.
pub proof fn lemma_padded_width_rounds_up(width: int)
    requires
        0 <= width,
    ensures
        spec_padded_width(width, ColorMode::Color) % 4 == 0,
        width <= spec_padded_width(width, ColorMode::Color) < width + 4,
        spec_padded_width(width, ColorMode::Monochrome) % 32 == 0,
        width <= spec_padded_width(width, ColorMode::Monochrome) < width + 32,
{
    let c = spec_padded_width(width, ColorMode::Color);
    let m = spec_padded_width(width, ColorMode::Monochrome);
    assert(width + 3 == 4 * ((width + 3) / 4) + (width + 3) % 4) by {
        vstd::arithmetic::div_mod::lemma_fundamental_div_mod(width + 3, 4);
    };
    assert(0 <= (width + 3) % 4 < 4) by {
        vstd::arithmetic::div_mod::lemma_mod_bound(width + 3, 4);
    };
    assert(width + 31 == 32 * ((width + 31) / 32) + (width + 31) % 32) by {
        vstd::arithmetic::div_mod::lemma_fundamental_div_mod(width + 31, 32);
    };
    assert(0 <= (width + 31) % 32 < 32) by {
        vstd::arithmetic::div_mod::lemma_mod_bound(width + 31, 32);
    };
    assert(c % 4 == 0) by (nonlinear_arith)
        requires
            c == (width + 3) / 4 * 4,
            0 <= (width + 3) / 4,
    ;
    assert(m % 32 == 0) by (nonlinear_arith)
        requires
            m == (width + 31) / 32 * 32,
            0 <= (width + 31) / 32,
    ;
}

/// The projected size of the whole file: footer, header, and pixel data
/// reckoned from the 32-bit-aligned row width.
pub open spec fn spec_file_size(width: int, height: int, mode: ColorMode, footer_len: int) -> int {
    let (bpp, colors, start) = spec_bitmap_info(mode);
    footer_len + start + spec_padded_width(width, ColorMode::Monochrome) * height * bpp / 8
}

pub fn get_file_size(width: u32, height: u32, mode: &ColorMode, footer_len: u64) -> (r: u128)
    requires
        width <= u32::MAX - 31,
    ensures
        r == spec_file_size(width as int, height as int, *mode, footer_len as int),
{
    let (bpp, _, pixel_data_start) = get_bitmap_info(mode);
    let padded_width = get_padded_width(width, &ColorMode::Monochrome) as u128;
    proof {
        assert(padded_width * (height as u128) <= 0x1_0000_0000 * 0x1_0000_0000)
            by (nonlinear_arith)
            requires
                padded_width <= 0x1_0000_0000,
                height <= 0x1_0000_0000,
        ;
        assert(padded_width * (height as u128) * (bpp as u128) <= 0x1_0000_0000 * 0x1_0000_0000
            * 24) by (nonlinear_arith)
            requires
                padded_width * (height as u128) <= 0x1_0000_0000 * 0x1_0000_0000,
                bpp <= 24,
                0 <= padded_width * (height as u128),
        ;
    }
    footer_len as u128 + pixel_data_start as u128 + (padded_width * height as u128
        * bpp as u128) / 8
}

/// Whether the projected file size stays under the format's 32-bit limit:
/// sizes of 2^32 bytes or more are refused, anything below fits the header.
pub fn validate_size(width: u32, height: u32, mode: &ColorMode, footer_len: u64) -> (r: bool)
    requires
        width <= u32::MAX - 31,
    ensures
        r == (spec_file_size(width as int, height as int, *mode, footer_len as int)
            < 0x1_0000_0000),
{
    get_file_size(width, height, mode, footer_len) < 0x1_0000_0000u128
}

/// The size the header's file-size field reports. It reckons pixel bytes as
/// `padded_width * height / 8` whatever the depth, so in color mode it
/// understates the data that follows.
pub open spec fn spec_bmp_filesize_field(
    width: int,
    height: int,
    mode: ColorMode,
    footer_len: int,
) -> int {
    let (bpp, colors, start) = spec_bitmap_info(mode);
    footer_len + start + spec_padded_width(width, mode) * height / 8
}

/// The file header, information header, and (in monochrome) the two-entry
/// palette.
pub open spec fn spec_bmp_header(
    width: int,
    height: int,
    mode: ColorMode,
    footer_len: int,
) -> Seq<u8> {
    let (bpp, colors, start) = spec_bitmap_info(mode);
    let field = spec_bmp_filesize_field(width, height, mode, footer_len) as u32;
    seq![66u8, 77u8] + spec_le_u32(field) + seq![
        0u8,
        0u8,
        0u8,
        0u8,
        start,
        0u8,
        0u8,
        0u8,
        40u8,
        0u8,
        0u8,
        0u8,
    ] + spec_le_u32(width as u32) + spec_le_u32(height as u32) + seq![
        1u8,
        0u8,
        bpp,
        0u8,
        0u8,
        0u8,
        0u8,
        0u8,
        0u8,
        0u8,
        0u8,
        0u8,
        0u8,
        32u8,
        0u8,
        0u8,
        0u8,
        32u8,
        0u8,
        0u8,
        colors,
        0u8,
        0u8,
        0u8,
        colors,
        0u8,
        0u8,
        0u8,
    ] + if mode is Monochrome {
        seq![0u8, 0u8, 0u8, 0u8, 255u8, 255u8, 255u8, 255u8]
    } else {
        Seq::empty()
    }
}

// ---------------------------------------------------------------------------
// Color pixel data.
// ---------------------------------------------------------------------------

/// One color pixel: blue, green, red, under the pixel's shade (150, the
/// neutral shade, when the render kept none).
pub open spec fn spec_bmp_pixel(
    canvas: Seq<Seq<Seq<u16>>>,
    shading: Seq<Seq<Seq<u8>>>,
    colors: Seq<Color>,
    s: Slicing,
    shaded: bool,
    r: int,
    c: int,
) -> Seq<u8> {
    let color = colors[slices_at(canvas, s, r, c) as int];
    let shade = if shaded {
        slices_at(shading, s, r, c)
    } else {
        150u8
    };
    seq![
        spec_shaded_channel(shade, color.blue),
        spec_shaded_channel(shade, color.green),
        spec_shaded_channel(shade, color.red),
    ]
}

pub open spec fn spec_bmp_cells(
    canvas: Seq<Seq<Seq<u16>>>,
    shading: Seq<Seq<Seq<u8>>>,
    colors: Seq<Color>,
    s: Slicing,
    shaded: bool,
    r: int,
    n: int,
) -> Seq<u8>
    decreases n,
{
    if n <= 0 {
        Seq::empty()
    } else {
        spec_bmp_cells(canvas, shading, colors, s, shaded, r, n - 1) + spec_bmp_pixel(
            canvas,
            shading,
            colors,
            s,
            shaded,
            r,
            n - 1,
        )
    }
}

/// The first `n` color rows, bottom of the image first, each padded with
/// zero bytes to the aligned width.
pub open spec fn spec_bmp_color_rows(
    canvas: Seq<Seq<Seq<u16>>>,
    shading: Seq<Seq<Seq<u8>>>,
    colors: Seq<Color>,
    s: Slicing,
    shaded: bool,
    n: int,
) -> Seq<u8>
    decreases n,
{
    if n <= 0 {
        Seq::empty()
    } else {
        spec_bmp_color_rows(canvas, shading, colors, s, shaded, n - 1) + spec_bmp_cells(
            canvas,
            shading,
            colors,
            s,
            shaded,
            s.height - n,
            s.width as int,
        ) + Seq::new(
            (spec_padded_width(s.width as int, ColorMode::Color) - s.width) as nat,
            |i: int| 0u8,
        )
    }
}

// ---------------------------------------------------------------------------
// Monochrome pixel data.
// ---------------------------------------------------------------------------

/// Whether a pixel prints white: any red in its palette entry.
pub open spec fn spec_mono_bit(
    canvas: Seq<Seq<Seq<u16>>>,
    colors: Seq<Color>,
    s: Slicing,
    r: int,
    c: int,
) -> bool {
    colors[slices_at(canvas, s, r, c) as int].red != 0
}

/// The first `k` bits of the 32-pixel group at column `base` of row `r`,
/// packed from bit 31 downward; columns past the width stay zero.
pub open spec fn spec_mono_quad(
    canvas: Seq<Seq<Seq<u16>>>,
    colors: Seq<Color>,
    s: Slicing,
    r: int,
    base: int,
    k: int,
) -> u32
    decreases k,
{
    if k <= 0 {
        0u32
    } else {
        spec_mono_quad(canvas, colors, s, r, base, k - 1) | (if base + (k - 1) < s.width
            && spec_mono_bit(canvas, colors, s, r, base + (k - 1)) {
            1u32 << (31 - (k - 1)) as u32
        } else {
            0u32
        })
    }
}

/// The first `n` monochrome rows, bottom of the image first, each a run of
/// 32-bit groups in little-endian bytes.
pub open spec fn spec_bmp_mono_groups(
    canvas: Seq<Seq<Seq<u16>>>,
    colors: Seq<Color>,
    s: Slicing,
    r: int,
    n: int,
) -> Seq<u8>
    decreases n,
{
    if n <= 0 {
        Seq::empty()
    } else {
        spec_bmp_mono_groups(canvas, colors, s, r, n - 1) + spec_le_u32(
            spec_mono_quad(canvas, colors, s, r, 32 * (n - 1), 32),
        )
    }
}

pub open spec fn spec_bmp_mono_rows(
    canvas: Seq<Seq<Seq<u16>>>,
    colors: Seq<Color>,
    s: Slicing,
    n: int,
) -> Seq<u8>
    decreases n,
{
    if n <= 0 {
        Seq::empty()
    } else {
        spec_bmp_mono_rows(canvas, colors, s, n - 1) + spec_bmp_mono_groups(
            canvas,
            colors,
            s,
            s.height - n,
            spec_padded_width(s.width as int, ColorMode::Monochrome) / 32,
        )
    }
}

/// The whole bitmap file.
pub open spec fn spec_bitmap(
    canvas: Seq<Seq<Seq<u16>>>,
    shading: Seq<Seq<Seq<u8>>>,
    colors: Seq<Color>,
    s: Slicing,
    shaded: bool,
    mode: ColorMode,
    footer: Seq<u8>,
) -> Seq<u8> {
    spec_bmp_header(s.width as int, s.height as int, mode, footer.len() as int) + (match mode {
        ColorMode::Color => spec_bmp_color_rows(
            canvas,
            shading,
            colors,
            s,
            shaded,
            s.height as int,
        ),
        ColorMode::Monochrome => spec_bmp_mono_rows(canvas, colors, s, s.height as int),
    }) + footer
}

/// The mode a palette prints in: pure black-and-white tables use the 1-bit
/// form.
pub open spec fn spec_color_mode(colors: Seq<Color>) -> ColorMode {
    if crate::color::spec_is_monochrome(colors) {
        ColorMode::Monochrome
    } else {
        ColorMode::Color
    }
}

pub fn get_color_mode(table: &ColorTable) -> (r: ColorMode)
    ensures
        r == spec_color_mode(table.colors()),
{
    if table.is_monochrome() {
        ColorMode::Monochrome
    } else {
        ColorMode::Color
    }
}

/// The header's file-size field never overstates the projected file size.
proof fn lemma_filesize_field_bound(width: int, height: int, mode: ColorMode, flen: int)
    requires
        1 <= width,
        0 <= height,
        0 <= flen,
    ensures
        flen <= spec_bmp_filesize_field(width, height, mode, flen) <= spec_file_size(
            width,
            height,
            mode,
            flen,
        ),
        0 <= spec_padded_width(width, mode) * height / 8,
{
    lemma_padded_width_rounds_up(width);
    let pm = spec_padded_width(width, mode);
    let p31 = spec_padded_width(width, ColorMode::Monochrome);
    let (bpp, colors, start) = spec_bitmap_info(mode);
    assert(p31 == 32 * (p31 / 32)) by {
        vstd::arithmetic::div_mod::lemma_fundamental_div_mod(p31, 32);
    };
    assert(32 <= p31) by (nonlinear_arith)
        requires
            p31 == 32 * (p31 / 32),
            1 <= p31,
    ;
    assert(0 <= pm * height) by (nonlinear_arith)
        requires
            0 <= pm,
            0 <= height,
    ;
    vstd::arithmetic::div_mod::lemma_div_pos_is_pos(pm * height, 8);
    match mode {
        ColorMode::Monochrome => {
            assert(p31 * height * 1 == pm * height) by (nonlinear_arith)
                requires
                    pm == p31,
            ;
        },
        ColorMode::Color => {
            assert(pm <= 24 * p31) by (nonlinear_arith)
                requires
                    pm <= width + 3,
                    width <= p31,
                    32 <= p31,
            ;
            assert(pm * height <= p31 * height * 24) by (nonlinear_arith)
                requires
                    pm <= 24 * p31,
                    0 <= height,
            ;
            vstd::arithmetic::div_mod::lemma_div_is_ordered(pm * height, p31 * height * 24, 8);
        },
    }
}

/// The file header, information header, and palette bytes.
#[verifier::rlimit(100)]
fn bmp_header_bytes(width: u32, height: u32, mode: &ColorMode, footer_len: u64) -> (out: Vec<u8>)
    requires
        1 <= width,
        width <= u32::MAX - 31,
        footer_len < 0x1_0000_0000,
        spec_file_size(width as int, height as int, *mode, footer_len as int) < 0x1_0000_0000,
    ensures
        out@ == spec_bmp_header(width as int, height as int, *mode, footer_len as int),
{
    proof {
        lemma_filesize_field_bound(width as int, height as int, *mode, footer_len as int);
    }
    let (bpp, colors, pixel_data_start) = get_bitmap_info(mode);
    let padded_width = get_padded_width(width, mode);
    proof {
        assert((padded_width as int) * (height as int) <= 0xffff_ffff * 0xffff_ffff)
            by (nonlinear_arith)
            requires
                padded_width <= 0xffff_ffff,
                height <= 0xffff_ffff,
        ;
        assert(0 <= (padded_width as int) * (height as int)) by (nonlinear_arith);
    }
    let pixel_field = (padded_width as u64) * (height as u64) / 8;
    let filesize64 = footer_len + pixel_data_start as u64 + pixel_field;
    proof {
        assert(filesize64 == spec_bmp_filesize_field(
            width as int,
            height as int,
            *mode,
            footer_len as int,
        ));
        assert(filesize64 < 0x1_0000_0000);
    }
    let filesize = filesize64 as u32;
    let mut out: Vec<u8> = Vec::new();
    out.push(66);
    out.push(77);
    push_le_u32(&mut out, filesize);
    out.push(0);
    out.push(0);
    out.push(0);
    out.push(0);
    out.push(pixel_data_start);
    out.push(0);
    out.push(0);
    out.push(0);
    out.push(40);
    out.push(0);
    out.push(0);
    out.push(0);
    push_le_u32(&mut out, width);
    push_le_u32(&mut out, height);
    out.push(1);
    out.push(0);
    out.push(bpp);
    out.push(0);
    out.push(0);
    out.push(0);
    out.push(0);
    out.push(0);
    out.push(0);
    out.push(0);
    out.push(0);
    out.push(0);
    out.push(0);
    out.push(32);
    out.push(0);
    out.push(0);
    out.push(0);
    out.push(32);
    out.push(0);
    out.push(0);
    out.push(colors);
    out.push(0);
    out.push(0);
    out.push(0);
    out.push(colors);
    out.push(0);
    out.push(0);
    out.push(0);
    match mode {
        ColorMode::Monochrome => {
            out.push(0);
            out.push(0);
            out.push(0);
            out.push(0);
            out.push(255);
            out.push(255);
            out.push(255);
            out.push(255);
        },
        ColorMode::Color => {},
    }
    proof {
        assert(out@ =~= spec_bmp_header(
            width as int,
            height as int,
            *mode,
            footer_len as int,
        ));
    }
    out
}

/// The 24-bit pixel rows, bottom-up and zero-padded.
fn bmp_color_pixels(
    canvas: &Vec<Vec<Vec<u16>>>,
    shading: &Vec<Vec<Vec<u8>>>,
    table: &ColorTable,
    slicing: &Slicing,
    shading_level: u8,
) -> (out: Vec<u8>)
    requires
        slicing.wf(),
        1 <= slicing.width,
        slicing.width <= u32::MAX - 31,
        slices_wf(slices_view(canvas@), *slicing),
        shading_level > 0 ==> slices_wf(slices_view(shading@), *slicing),
        canvas_in_range(slices_view(canvas@), table.colors().len() as int),
    ensures
        out@ == spec_bmp_color_rows(
            slices_view(canvas@),
            slices_view(shading@),
            table.colors(),
            *slicing,
            shading_level > 0,
            slicing.height as int,
        ),
{
    let ghost cv = slices_view(canvas@);
    let ghost sv = slices_view(shading@);
    let ghost colors = table.colors();
    let shaded = shading_level > 0;
    let width = slicing.width;
    let height = slicing.height;
    proof {
        lemma_padded_width_rounds_up(width as int);
    }
    let padded = get_padded_width(width as u32, &ColorMode::Color) as usize;
    let mut out: Vec<u8> = Vec::new();
    let mut n: usize = 0;
    while n < height
        invariant
            n <= height,
            height == slicing.height,
            width == slicing.width,
            slicing.wf(),
            width <= padded < width + 4,
            padded == spec_padded_width(width as int, ColorMode::Color),
            cv == slices_view(canvas@),
            sv == slices_view(shading@),
            colors == table.colors(),
            shaded == (shading_level > 0),
            slices_wf(cv, *slicing),
            shaded ==> slices_wf(sv, *slicing),
            canvas_in_range(cv, colors.len() as int),
            out@ == spec_bmp_color_rows(cv, sv, colors, *slicing, shaded, n as int),
        decreases height - n,
    {
        let r = height - 1 - n;
        proof {
            slicing.lemma_translate_roundtrip(r as int);
        }
        let (vi, hi) = slicing.translate_index(r);
        let ghost row_start = out@;
        let mut c: usize = 0;
        while c < width
            invariant
                c <= width,
                r == height - 1 - n,
                n < height,
                height == slicing.height,
                width == slicing.width,
                slicing.wf(),
                cv == slices_view(canvas@),
                sv == slices_view(shading@),
                colors == table.colors(),
                shaded == (shading_level > 0),
                slices_wf(cv, *slicing),
                shaded ==> slices_wf(sv, *slicing),
                canvas_in_range(cv, colors.len() as int),
                vi == r as int / (slicing.slice_height as int),
                hi == r as int % (slicing.slice_height as int),
                vi < slicing.slice_count,
                hi < slicing.spec_get_slice_height(vi as int),
                out@ == row_start + spec_bmp_cells(cv, sv, colors, *slicing, shaded, r as int,
                    c as int,
                ),
            decreases width - c,
        {
            proof {
                assert(cv[vi as int] == canvas@[vi as int]@.map_values(|w: Vec<u16>| w@));
                assert(cv[vi as int][hi as int] == canvas@[vi as int]@[hi as int]@);
                if shaded {
                    assert(sv[vi as int] == shading@[vi as int]@.map_values(|w: Vec<u8>| w@));
                    assert(sv[vi as int][hi as int] == shading@[vi as int]@[hi as int]@);
                }
            }
            let color_index = canvas[vi][hi][c] as usize;
            let color = table.get(color_index);
            let shade = if shaded {
                shading[vi][hi][c]
            } else {
                150
            };
            out.push(shaded_channel(shade, color.blue));
            out.push(shaded_channel(shade, color.green));
            out.push(shaded_channel(shade, color.red));
            proof {
                assert(row_start + spec_bmp_cells(cv, sv, colors, *slicing, shaded, r as int, c
                    + 1) =~= out@);
            }
            c = c + 1;
        }
        let ghost cells_done = out@;
        let mut p: usize = width;
        while p < padded
            invariant
                width <= p <= padded,
                out@ == cells_done + Seq::new((p - width) as nat, |i: int| 0u8),
            decreases padded - p,
        {
            out.push(0);
            proof {
                assert(cells_done + Seq::new((p + 1 - width) as nat, |i: int| 0u8) =~= out@);
            }
            p = p + 1;
        }
        proof {
            assert(spec_bmp_color_rows(cv, sv, colors, *slicing, shaded, n + 1) =~= out@);
        }
        n = n + 1;
    }
    out
}

/// The 1-bit pixel rows, bottom-up, packed into 32-bit groups.
fn bmp_mono_pixels(canvas: &Vec<Vec<Vec<u16>>>, table: &ColorTable, slicing: &Slicing) -> (out:
    Vec<u8>)
    requires
        slicing.wf(),
        1 <= slicing.width,
        slicing.width <= u32::MAX - 31,
        slices_wf(slices_view(canvas@), *slicing),
        canvas_in_range(slices_view(canvas@), table.colors().len() as int),
    ensures
        out@ == spec_bmp_mono_rows(
            slices_view(canvas@),
            table.colors(),
            *slicing,
            slicing.height as int,
        ),
{
    let ghost cv = slices_view(canvas@);
    let ghost colors = table.colors();
    let width = slicing.width;
    let height = slicing.height;
    proof {
        lemma_padded_width_rounds_up(width as int);
    }
    let padded = get_padded_width(width as u32, &ColorMode::Monochrome) as usize;
    let groups = padded / 32;
    let mut out: Vec<u8> = Vec::new();
    let mut n: usize = 0;
    while n < height
        invariant
            n <= height,
            height == slicing.height,
            width == slicing.width,
            slicing.wf(),
            width <= padded < width + 32,
            padded == spec_padded_width(width as int, ColorMode::Monochrome),
            groups == padded / 32,
            cv == slices_view(canvas@),
            colors == table.colors(),
            slices_wf(cv, *slicing),
            canvas_in_range(cv, colors.len() as int),
            out@ == spec_bmp_mono_rows(cv, colors, *slicing, n as int),
        decreases height - n,
    {
        let r = height - 1 - n;
        proof {
            slicing.lemma_translate_roundtrip(r as int);
        }
        let (vi, hi) = slicing.translate_index(r);
        let ghost row_start = out@;
        let mut g: usize = 0;
        while g < groups
            invariant
                g <= groups,
                r == height - 1 - n,
                n < height,
                height == slicing.height,
                width == slicing.width,
                slicing.wf(),
                width <= padded < width + 32,
                padded == spec_padded_width(width as int, ColorMode::Monochrome),
                groups == padded / 32,
                cv == slices_view(canvas@),
                colors == table.colors(),
                slices_wf(cv, *slicing),
                canvas_in_range(cv, colors.len() as int),
                vi == r as int / (slicing.slice_height as int),
                hi == r as int % (slicing.slice_height as int),
                vi < slicing.slice_count,
                hi < slicing.spec_get_slice_height(vi as int),
                out@ == row_start + spec_bmp_mono_groups(cv, colors, *slicing, r as int,
                    g as int,
                ),
            decreases groups - g,
        {
            let base = 32 * g;
            let mut quad: u32 = 0;
            let mut bit: usize = 0;
            while bit < 32
                invariant
                    bit <= 32,
                    base == 32 * g,
                    base + 32 <= padded < width + 32,
                    width == slicing.width,
                    slicing.wf(),
                    cv == slices_view(canvas@),
                    colors == table.colors(),
                    slices_wf(cv, *slicing),
                    canvas_in_range(cv, colors.len() as int),
                    vi == r as int / (slicing.slice_height as int),
                    hi == r as int % (slicing.slice_height as int),
                    vi < slicing.slice_count,
                    hi < slicing.spec_get_slice_height(vi as int),
                    r < slicing.height,
                    quad == spec_mono_quad(cv, colors, *slicing, r as int, base as int,
                        bit as int,
                    ),
                decreases 32 - bit,
            {
                let col = base + bit;
                let ghost quad0 = quad;
                if col < width {
                    proof {
                        assert(cv[vi as int] == canvas@[vi as int]@.map_values(
                            |w: Vec<u16>| w@,
                        ));
                        assert(cv[vi as int][hi as int] == canvas@[vi as int]@[hi as int]@);
                    }
                    let color_index = canvas[vi][hi][col] as usize;
                    if table.get(color_index).red != 0 {
                        quad = quad | (1u32 << (31 - bit) as u32);
                    }
                }
                proof {
                    assert(quad0 | 0u32 == quad0) by (bit_vector);
                }
                bit = bit + 1;
            }
            push_le_u32(&mut out, quad);
            proof {
                assert(row_start + spec_bmp_mono_groups(cv, colors, *slicing, r as int, g + 1)
                    =~= out@);
            }
            g = g + 1;
        }
        proof {
            assert(32 * (groups as int) == padded as int) by {
                vstd::arithmetic::div_mod::lemma_fundamental_div_mod(padded as int, 32);
            };
            assert(spec_bmp_mono_rows(cv, colors, *slicing, n + 1) =~= out@);
        }
        n = n + 1;
    }
    out
}

/// Encodes the canvas as a BMP file: the header, the pixel rows in the mode
/// the palette calls for, and the command line after the pixel data.
pub fn bitmap_data(
    canvas: &Vec<Vec<Vec<u16>>>,
    shading: &Vec<Vec<Vec<u8>>>,
    table: &ColorTable,
    slicing: &Slicing,
    shading_level: u8,
    footer: &[u8],
) -> (out: Vec<u8>)
    requires
        slicing.wf(),
        1 <= slicing.width,
        slicing.width <= u32::MAX - 31,
        slicing.height <= u32::MAX,
        footer@.len() < 0x1_0000_0000,
        spec_file_size(
            slicing.width as int,
            slicing.height as int,
            spec_color_mode(table.colors()),
            footer@.len() as int,
        ) < 0x1_0000_0000,
        slices_wf(slices_view(canvas@), *slicing),
        shading_level > 0 ==> slices_wf(slices_view(shading@), *slicing),
        canvas_in_range(slices_view(canvas@), table.colors().len() as int),
    ensures
        out@ == spec_bitmap(
            slices_view(canvas@),
            slices_view(shading@),
            table.colors(),
            *slicing,
            shading_level > 0,
            spec_color_mode(table.colors()),
            footer@,
        ),
{
    let mode = get_color_mode(table);
    let mut out = bmp_header_bytes(
        slicing.width as u32,
        slicing.height as u32,
        &mode,
        footer.len() as u64,
    );
    let pixels = match mode {
        ColorMode::Color => bmp_color_pixels(canvas, shading, table, slicing, shading_level),
        ColorMode::Monochrome => bmp_mono_pixels(canvas, table, slicing),
    };
    push_bytes(&mut out, pixels.as_slice());
    push_bytes(&mut out, footer);
    proof {
        assert(out@ =~= spec_bitmap(
            slices_view(canvas@),
            slices_view(shading@),
            table.colors(),
            *slicing,
            shading_level > 0,
            mode,
            footer@,
        ));
    }
    out
}

/// The bitmap file depends only on the image the buffers hold: partitions
/// with the same pixels and shades encode to the same bytes in either mode,
/// whatever the slice count. This is this format's share of the renderer's
/// guarantee that the worker count never changes the output.
pub proof fn lemma_bitmap_partition_independent(
    canvas1: Seq<Seq<Seq<u16>>>,
    shading1: Seq<Seq<Seq<u8>>>,
    s1: Slicing,
    canvas2: Seq<Seq<Seq<u16>>>,
    shading2: Seq<Seq<Seq<u8>>>,
    s2: Slicing,
    colors: Seq<Color>,
    shaded: bool,
    mode: ColorMode,
    footer: Seq<u8>,
)
    requires
        s1.width == s2.width,
        s1.height == s2.height,
        forall|r: int, c: int|
            0 <= r < s1.height && 0 <= c < s1.width ==> slices_at(canvas1, s1, r, c)
                == slices_at(canvas2, s2, r, c),
        shaded ==> forall|r: int, c: int|
            0 <= r < s1.height && 0 <= c < s1.width ==> slices_at(shading1, s1, r, c)
                == slices_at(shading2, s2, r, c),
    ensures
        spec_bitmap(canvas1, shading1, colors, s1, shaded, mode, footer) == spec_bitmap(
            canvas2,
            shading2,
            colors,
            s2,
            shaded,
            mode,
            footer,
        ),
{
    match mode {
        ColorMode::Color => {
            lemma_bmp_color_rows_agree(
                canvas1,
                shading1,
                s1,
                canvas2,
                shading2,
                s2,
                colors,
                shaded,
                s1.height as int,
            );
        },
        ColorMode::Monochrome => {
            lemma_bmp_mono_rows_agree(canvas1, s1, canvas2, s2, colors, s1.height as int);
        },
    }
}

proof fn lemma_bmp_cells_agree(
    canvas1: Seq<Seq<Seq<u16>>>,
    shading1: Seq<Seq<Seq<u8>>>,
    s1: Slicing,
    canvas2: Seq<Seq<Seq<u16>>>,
    shading2: Seq<Seq<Seq<u8>>>,
    s2: Slicing,
    colors: Seq<Color>,
    shaded: bool,
    r: int,
    n: int,
)
    requires
        s1.width == s2.width,
        s1.height == s2.height,
        0 <= r < s1.height,
        n <= s1.width,
        forall|rr: int, cc: int|
            0 <= rr < s1.height && 0 <= cc < s1.width ==> slices_at(canvas1, s1, rr, cc)
                == slices_at(canvas2, s2, rr, cc),
        shaded ==> forall|rr: int, cc: int|
            0 <= rr < s1.height && 0 <= cc < s1.width ==> slices_at(shading1, s1, rr, cc)
                == slices_at(shading2, s2, rr, cc),
    ensures
        spec_bmp_cells(canvas1, shading1, colors, s1, shaded, r, n) == spec_bmp_cells(
            canvas2,
            shading2,
            colors,
            s2,
            shaded,
            r,
            n,
        ),
    decreases n,
{
    if n > 0 {
        lemma_bmp_cells_agree(
            canvas1,
            shading1,
            s1,
            canvas2,
            shading2,
            s2,
            colors,
            shaded,
            r,
            n - 1,
        );
    }
}

proof fn lemma_bmp_color_rows_agree(
    canvas1: Seq<Seq<Seq<u16>>>,
    shading1: Seq<Seq<Seq<u8>>>,
    s1: Slicing,
    canvas2: Seq<Seq<Seq<u16>>>,
    shading2: Seq<Seq<Seq<u8>>>,
    s2: Slicing,
    colors: Seq<Color>,
    shaded: bool,
    n: int,
)
    requires
        s1.width == s2.width,
        s1.height == s2.height,
        n <= s1.height,
        forall|rr: int, cc: int|
            0 <= rr < s1.height && 0 <= cc < s1.width ==> slices_at(canvas1, s1, rr, cc)
                == slices_at(canvas2, s2, rr, cc),
        shaded ==> forall|rr: int, cc: int|
            0 <= rr < s1.height && 0 <= cc < s1.width ==> slices_at(shading1, s1, rr, cc)
                == slices_at(shading2, s2, rr, cc),
    ensures
        spec_bmp_color_rows(canvas1, shading1, colors, s1, shaded, n) == spec_bmp_color_rows(
            canvas2,
            shading2,
            colors,
            s2,
            shaded,
            n,
        ),
    decreases n,
{
    if n > 0 {
        lemma_bmp_color_rows_agree(
            canvas1,
            shading1,
            s1,
            canvas2,
            shading2,
            s2,
            colors,
            shaded,
            n - 1,
        );
        lemma_bmp_cells_agree(
            canvas1,
            shading1,
            s1,
            canvas2,
            shading2,
            s2,
            colors,
            shaded,
            s1.height - n,
            s1.width as int,
        );
    }
}

proof fn lemma_bmp_mono_quad_agree(
    canvas1: Seq<Seq<Seq<u16>>>,
    s1: Slicing,
    canvas2: Seq<Seq<Seq<u16>>>,
    s2: Slicing,
    colors: Seq<Color>,
    r: int,
    base: int,
    k: int,
)
    requires
        s1.width == s2.width,
        s1.height == s2.height,
        0 <= r < s1.height,
        0 <= base,
        forall|rr: int, cc: int|
            0 <= rr < s1.height && 0 <= cc < s1.width ==> slices_at(canvas1, s1, rr, cc)
                == slices_at(canvas2, s2, rr, cc),
    ensures
        spec_mono_quad(canvas1, colors, s1, r, base, k) == spec_mono_quad(
            canvas2,
            colors,
            s2,
            r,
            base,
            k,
        ),
    decreases k,
{
    if k > 0 {
        lemma_bmp_mono_quad_agree(canvas1, s1, canvas2, s2, colors, r, base, k - 1);
    }
}

proof fn lemma_bmp_mono_groups_agree(
    canvas1: Seq<Seq<Seq<u16>>>,
    s1: Slicing,
    canvas2: Seq<Seq<Seq<u16>>>,
    s2: Slicing,
    colors: Seq<Color>,
    r: int,
    n: int,
)
    requires
        s1.width == s2.width,
        s1.height == s2.height,
        0 <= r < s1.height,
        forall|rr: int, cc: int|
            0 <= rr < s1.height && 0 <= cc < s1.width ==> slices_at(canvas1, s1, rr, cc)
                == slices_at(canvas2, s2, rr, cc),
    ensures
        spec_bmp_mono_groups(canvas1, colors, s1, r, n) == spec_bmp_mono_groups(
            canvas2,
            colors,
            s2,
            r,
            n,
        ),
    decreases n,
{
    if n > 0 {
        lemma_bmp_mono_groups_agree(canvas1, s1, canvas2, s2, colors, r, n - 1);
        lemma_bmp_mono_quad_agree(canvas1, s1, canvas2, s2, colors, r, 32 * (n - 1), 32);
    }
}

proof fn lemma_bmp_mono_rows_agree(
    canvas1: Seq<Seq<Seq<u16>>>,
    s1: Slicing,
    canvas2: Seq<Seq<Seq<u16>>>,
    s2: Slicing,
    colors: Seq<Color>,
    n: int,
)
    requires
        s1.width == s2.width,
        s1.height == s2.height,
        n <= s1.height,
        forall|rr: int, cc: int|
            0 <= rr < s1.height && 0 <= cc < s1.width ==> slices_at(canvas1, s1, rr, cc)
                == slices_at(canvas2, s2, rr, cc),
    ensures
        spec_bmp_mono_rows(canvas1, colors, s1, n) == spec_bmp_mono_rows(canvas2, colors, s2, n),
    decreases n,
{
    if n > 0 {
        lemma_bmp_mono_rows_agree(canvas1, s1, canvas2, s2, colors, n - 1);
        lemma_bmp_mono_groups_agree(
            canvas1,
            s1,
            canvas2,
            s2,
            colors,
            s1.height - n,
            spec_padded_width(s1.width as int, ColorMode::Monochrome) / 32,
        );
    }
}

} // verus!
