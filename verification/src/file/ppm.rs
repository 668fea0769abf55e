//! Binary PPM (P6): a text header, then three bytes per pixel with the rows
//! in reverse, bottom of the image first, and a trailing comment holding the
//! command line.

use crate::color::{Color, ColorTable};
use crate::render::slicing::Slicing;
use crate::render::{slices_at, slices_view, slices_wf};
use crate::file::{push_bytes, push_decimal, push_str, spec_decimal};
use vstd::prelude::*;
use vstd::utf8::encode_utf8;

verus! {

/// A channel under a shade: scaled so that shade 150 reproduces the channel,
/// capped at 255.
pub open spec fn spec_shaded_channel(shade: u8, ch: u8) -> u8 {
    let v = (shade * ch) / 150;
    if v > 255 {
        255u8
    } else {
        v as u8
    }
}

pub fn shaded_channel(shade: u8, ch: u8) -> (r: u8)
    ensures
        r == spec_shaded_channel(shade, ch),
{
    proof {
        assert(shade * ch <= 255 * 255) by (nonlinear_arith)
            requires
                0 <= shade <= 255,
                0 <= ch <= 255,
        ;
    }
    let v = (shade as u32) * (ch as u32) / 150;
    if v > 255 {
        255
    } else {
        v as u8
    }
}

/// One pixel: its palette color, shaded when the render kept shade values.
pub open spec fn spec_ppm_pixel(
    canvas: Seq<Seq<Seq<u16>>>,
    shading: Seq<Seq<Seq<u8>>>,
    colors: Seq<Color>,
    s: Slicing,
    shaded: bool,
    r: int,
    c: int,
) -> Seq<u8> {
    let color = colors[slices_at(canvas, s, r, c) as int];
    if shaded {
        let shade = slices_at(shading, s, r, c);
        seq![
            spec_shaded_channel(shade, color.red),
            spec_shaded_channel(shade, color.green),
            spec_shaded_channel(shade, color.blue),
        ]
    } else {
        seq![color.red, color.green, color.blue]
    }
}

/// The first `n` pixels of row `r`.
pub open spec fn spec_ppm_cells(
    canvas: Seq<Seq<Seq<u16>>>,
    shading: Seq<Seq<Seq<u8>>>,
    colors: Seq<Color>,
    s: Slicing,
    shaded: bool,
    r: int,
    n: int,
) -> Seq<u8>
    decreases n,
{
    if n <= 0 {
        Seq::empty()
    } else {
        spec_ppm_cells(canvas, shading, colors, s, shaded, r, n - 1) + spec_ppm_pixel(
            canvas,
            shading,
            colors,
            s,
            shaded,
            r,
            n - 1,
        )
    }
}

/// The first `n` output rows; the image's bottom row comes first.
pub open spec fn spec_ppm_rows(
    canvas: Seq<Seq<Seq<u16>>>,
    shading: Seq<Seq<Seq<u8>>>,
    colors: Seq<Color>,
    s: Slicing,
    shaded: bool,
    n: int,
) -> Seq<u8>
    decreases n,
{
    if n <= 0 {
        Seq::empty()
    } else {
        spec_ppm_rows(canvas, shading, colors, s, shaded, n - 1) + spec_ppm_cells(
            canvas,
            shading,
            colors,
            s,
            shaded,
            s.height - n,
            s.width as int,
        )
    }
}

/// The whole PPM file.
pub open spec fn spec_ppm(
    canvas: Seq<Seq<Seq<u16>>>,
    shading: Seq<Seq<Seq<u8>>>,
    colors: Seq<Color>,
    s: Slicing,
    shaded: bool,
    footer: Seq<u8>,
) -> Seq<u8> {
    encode_utf8("P6\n"@) + spec_decimal(s.width as int) + encode_utf8("\n"@) + spec_decimal(
        s.height as int,
    ) + encode_utf8("\n255\n"@) + spec_ppm_rows(canvas, shading, colors, s, shaded, s.height as int)
        + encode_utf8("#fractal planet image\n#"@) + footer + encode_utf8("\n"@)
}

/// Every canvas cell names a palette entry.
pub open spec fn canvas_in_range(canvas: Seq<Seq<Seq<u16>>>, len: int) -> bool {
    forall|i: int, r: int, c: int|
        0 <= i < canvas.len() && 0 <= r < canvas[i].len() && 0 <= c < canvas[i][r].len()
            ==> (#[trigger] canvas[i][r][c]) < len
}

/// Encodes the canvas as a PPM file.
pub fn ppm_data(
    canvas: &Vec<Vec<Vec<u16>>>,
    shading: &Vec<Vec<Vec<u8>>>,
    table: &ColorTable,
    slicing: &Slicing,
    shading_level: u8,
    footer: &[u8],
) -> (out: Vec<u8>)
    requires
        slicing.wf(),
        slicing.width <= u32::MAX,
        slicing.height <= u32::MAX,
        slices_wf(slices_view(canvas@), *slicing),
        shading_level > 0 ==> slices_wf(slices_view(shading@), *slicing),
        canvas_in_range(slices_view(canvas@), table.colors().len() as int),
    ensures
        out@ == spec_ppm(
            slices_view(canvas@),
            slices_view(shading@),
            table.colors(),
            *slicing,
            shading_level > 0,
            footer@,
        ),
{
    let ghost cv = slices_view(canvas@);
    let ghost sv = slices_view(shading@);
    let ghost colors = table.colors();
    let shaded = shading_level > 0;
    let width = slicing.width;
    let height = slicing.height;
    let mut out: Vec<u8> = Vec::new();
    push_str(&mut out, "P6\n");
    push_decimal(&mut out, width as u32);
    push_str(&mut out, "\n");
    push_decimal(&mut out, height as u32);
    push_str(&mut out, "\n255\n");
    let ghost header = out@;
    let mut n: usize = 0;
    while n < height
        invariant
            n <= height,
            height == slicing.height,
            width == slicing.width,
            slicing.wf(),
            cv == slices_view(canvas@),
            sv == slices_view(shading@),
            colors == table.colors(),
            shaded == (shading_level > 0),
            slices_wf(cv, *slicing),
            shaded ==> slices_wf(sv, *slicing),
            canvas_in_range(cv, colors.len() as int),
            out@ == header + spec_ppm_rows(cv, sv, colors, *slicing, shaded, n as int),
        decreases height - n,
    {
        let r = height - 1 - n;
        proof {
            slicing.lemma_translate_roundtrip(r as int);
        }
        let (vi, hi) = slicing.translate_index(r);
        let ghost row_start = out@;
        let mut c: usize = 0;
        while c < width
            invariant
                c <= width,
                r == height - 1 - n,
                n < height,
                height == slicing.height,
                width == slicing.width,
                slicing.wf(),
                cv == slices_view(canvas@),
                sv == slices_view(shading@),
                colors == table.colors(),
                shaded == (shading_level > 0),
                slices_wf(cv, *slicing),
                shaded ==> slices_wf(sv, *slicing),
                canvas_in_range(cv, colors.len() as int),
                vi == r as int / (slicing.slice_height as int),
                hi == r as int % (slicing.slice_height as int),
                vi < slicing.slice_count,
                hi < slicing.spec_get_slice_height(vi as int),
                out@ == row_start + spec_ppm_cells(cv, sv, colors, *slicing, shaded, r as int,
                    c as int,
                ),
            decreases width - c,
        {
            proof {
                assert(cv[vi as int] == canvas@[vi as int]@.map_values(|w: Vec<u16>| w@));
                assert(cv[vi as int][hi as int] == canvas@[vi as int]@[hi as int]@);
                if shaded {
                    assert(sv[vi as int] == shading@[vi as int]@.map_values(|w: Vec<u8>| w@));
                    assert(sv[vi as int][hi as int] == shading@[vi as int]@[hi as int]@);
                }
            }
            let color_index = canvas[vi][hi][c] as usize;
            let color = table.get(color_index);
            if shaded {
                let shade = shading[vi][hi][c];
                out.push(shaded_channel(shade, color.red));
                out.push(shaded_channel(shade, color.green));
                out.push(shaded_channel(shade, color.blue));
            } else {
                out.push(color.red);
                out.push(color.green);
                out.push(color.blue);
            }
            proof {
                assert(row_start + spec_ppm_cells(cv, sv, colors, *slicing, shaded, r as int, c
                    + 1) =~= out@);
            }
            c = c + 1;
        }
        proof {
            assert(header + spec_ppm_rows(cv, sv, colors, *slicing, shaded, n + 1) =~= out@);
        }
        n = n + 1;
    }
    push_str(&mut out, "#fractal planet image\n#");
    push_bytes(&mut out, footer);
    push_str(&mut out, "\n");
    proof {
        assert(out@ =~= spec_ppm(cv, sv, colors, *slicing, shaded, footer@));
    }
    out
}

/// The PPM file, too, depends only on the image: partitions with the same
/// pixels and shades encode to the same bytes, whatever the slice count.
pub proof fn lemma_ppm_partition_independent(
    canvas1: Seq<Seq<Seq<u16>>>,
    shading1: Seq<Seq<Seq<u8>>>,
    s1: Slicing,
    canvas2: Seq<Seq<Seq<u16>>>,
    shading2: Seq<Seq<Seq<u8>>>,
    s2: Slicing,
    colors: Seq<Color>,
    shaded: bool,
    footer: Seq<u8>,
)
    requires
        s1.width == s2.width,
        s1.height == s2.height,
        forall|r: int, c: int|
            0 <= r < s1.height && 0 <= c < s1.width ==> slices_at(canvas1, s1, r, c)
                == slices_at(canvas2, s2, r, c),
        shaded ==> forall|r: int, c: int|
            0 <= r < s1.height && 0 <= c < s1.width ==> slices_at(shading1, s1, r, c)
                == slices_at(shading2, s2, r, c),
    ensures
        spec_ppm(canvas1, shading1, colors, s1, shaded, footer) == spec_ppm(
            canvas2,
            shading2,
            colors,
            s2,
            shaded,
            footer,
        ),
{
    lemma_ppm_rows_agree(
        canvas1,
        shading1,
        s1,
        canvas2,
        shading2,
        s2,
        colors,
        shaded,
        s1.height as int,
    );
}

proof fn lemma_ppm_cells_agree(
    canvas1: Seq<Seq<Seq<u16>>>,
    shading1: Seq<Seq<Seq<u8>>>,
    s1: Slicing,
    canvas2: Seq<Seq<Seq<u16>>>,
    shading2: Seq<Seq<Seq<u8>>>,
    s2: Slicing,
    colors: Seq<Color>,
    shaded: bool,
    r: int,
    n: int,
)
    requires
        s1.width == s2.width,
        s1.height == s2.height,
        0 <= r < s1.height,
        n <= s1.width,
        forall|rr: int, cc: int|
            0 <= rr < s1.height && 0 <= cc < s1.width ==> slices_at(canvas1, s1, rr, cc)
                == slices_at(canvas2, s2, rr, cc),
        shaded ==> forall|rr: int, cc: int|
            0 <= rr < s1.height && 0 <= cc < s1.width ==> slices_at(shading1, s1, rr, cc)
                == slices_at(shading2, s2, rr, cc),
    ensures
        spec_ppm_cells(canvas1, shading1, colors, s1, shaded, r, n) == spec_ppm_cells(
            canvas2,
            shading2,
            colors,
            s2,
            shaded,
            r,
            n,
        ),
    decreases n,
{
    if n > 0 {
        lemma_ppm_cells_agree(
            canvas1,
            shading1,
            s1,
            canvas2,
            shading2,
            s2,
            colors,
            shaded,
            r,
            n - 1,
        );
    }
}

proof fn lemma_ppm_rows_agree(
    canvas1: Seq<Seq<Seq<u16>>>,
    shading1: Seq<Seq<Seq<u8>>>,
    s1: Slicing,
    canvas2: Seq<Seq<Seq<u16>>>,
    shading2: Seq<Seq<Seq<u8>>>,
    s2: Slicing,
    colors: Seq<Color>,
    shaded: bool,
    n: int,
)
    requires
        s1.width == s2.width,
        s1.height == s2.height,
        n <= s1.height,
        forall|rr: int, cc: int|
            0 <= rr < s1.height && 0 <= cc < s1.width ==> slices_at(canvas1, s1, rr, cc)
                == slices_at(canvas2, s2, rr, cc),
        shaded ==> forall|rr: int, cc: int|
            0 <= rr < s1.height && 0 <= cc < s1.width ==> slices_at(shading1, s1, rr, cc)
                == slices_at(shading2, s2, rr, cc),
    ensures
        spec_ppm_rows(canvas1, shading1, colors, s1, shaded, n) == spec_ppm_rows(
            canvas2,
            shading2,
            colors,
            s2,
            shaded,
            n,
        ),
    decreases n,
{
    if n > 0 {
        lemma_ppm_rows_agree(
            canvas1,
            shading1,
            s1,
            canvas2,
            shading2,
            s2,
            colors,
            shaded,
            n - 1,
        );
        lemma_ppm_cells_agree(
            canvas1,
            shading1,
            s1,
            canvas2,
            shading2,
            s2,
            colors,
            shaded,
            s1.height - n,
            s1.width as int,
        );
    }
}

} // verus!
