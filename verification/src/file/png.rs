//! PNG: truecolor 8-bit. The canvas becomes a buffer of RGB rows here, with
//! a proved contract; the compression itself is the mtpng encoder's work.

use crate::color::{Color, ColorTable};
use crate::file::WriteError;
use crate::file::ppm::canvas_in_range;
use crate::render::slicing::Slicing;
use crate::render::{slices_at, slices_view, slices_wf};
use vstd::prelude::*;

verus! {

#[verifier::external_type_specification]
#[verifier::external_body]
pub struct ExIoError(std::io::Error);

/// The eight bytes every PNG stream opens with.
pub open spec fn spec_png_signature() -> Seq<u8> {
    seq![137u8, 80u8, 78u8, 71u8, 13u8, 10u8, 26u8, 10u8]
}

/// The first `n` pixels of row `r`: red, green, blue.
pub open spec fn spec_png_cells(
    canvas: Seq<Seq<Seq<u16>>>,
    colors: Seq<Color>,
    s: Slicing,
    r: int,
    n: int,
) -> Seq<u8>
    decreases n,
{
    if n <= 0 {
        Seq::empty()
    } else {
        let color = colors[slices_at(canvas, s, r, n - 1) as int];
        spec_png_cells(canvas, colors, s, r, n - 1) + seq![color.red, color.green, color.blue]
    }
}

/// The first `n` rows, top to bottom.
pub open spec fn spec_png_rows(
    canvas: Seq<Seq<Seq<u16>>>,
    colors: Seq<Color>,
    s: Slicing,
    n: int,
) -> Seq<u8>
    decreases n,
{
    if n <= 0 {
        Seq::empty()
    } else {
        spec_png_rows(canvas, colors, s, n - 1) + spec_png_cells(
            canvas,
            colors,
            s,
            n - 1,
            s.width as int,
        )
    }
}

proof fn lemma_png_cells_len(
    canvas: Seq<Seq<Seq<u16>>>,
    colors: Seq<Color>,
    s: Slicing,
    r: int,
    n: int,
)
    requires
        n >= 0,
    ensures
        spec_png_cells(canvas, colors, s, r, n).len() == 3 * n,
    decreases n,
{
    if n > 0 {
        lemma_png_cells_len(canvas, colors, s, r, n - 1);
    }
}

proof fn lemma_png_rows_len(canvas: Seq<Seq<Seq<u16>>>, colors: Seq<Color>, s: Slicing, n: int)
    requires
        n >= 0,
    ensures
        spec_png_rows(canvas, colors, s, n).len() == n * (3 * s.width),
    decreases n,
{
    if n > 0 {
        lemma_png_rows_len(canvas, colors, s, n - 1);
        lemma_png_cells_len(canvas, colors, s, n - 1, s.width as int);
        assert(n * (3 * s.width) == (n - 1) * (3 * s.width) + 3 * (s.width as int))
            by (nonlinear_arith);
    } else {
        assert(n * (3 * s.width) == 0) by (nonlinear_arith)
            requires
                n == 0,
        ;
    }
}

/// The unfiltered image data handed to the encoder: packed RGB rows, top to
/// bottom.
pub fn png_rows(canvas: &Vec<Vec<Vec<u16>>>, table: &ColorTable, slicing: &Slicing) -> (out: Vec<
    u8,
>)
    requires
        slicing.wf(),
        slices_wf(slices_view(canvas@), *slicing),
        canvas_in_range(slices_view(canvas@), table.colors().len() as int),
    ensures
        out@ == spec_png_rows(
            slices_view(canvas@),
            table.colors(),
            *slicing,
            slicing.height as int,
        ),
        out@.len() == slicing.height * (3 * slicing.width),
{
    let ghost cv = slices_view(canvas@);
    let ghost colors = table.colors();
    let width = slicing.width;
    let height = slicing.height;
    let mut out: Vec<u8> = Vec::new();
    let mut r: usize = 0;
    while r < height
        invariant
            r <= height,
            height == slicing.height,
            width == slicing.width,
            slicing.wf(),
            cv == slices_view(canvas@),
            colors == table.colors(),
            slices_wf(cv, *slicing),
            canvas_in_range(cv, colors.len() as int),
            out@ == spec_png_rows(cv, colors, *slicing, r as int),
        decreases height - r,
    {
        proof {
            slicing.lemma_translate_roundtrip(r as int);
        }
        let (vi, hi) = slicing.translate_index(r);
        let ghost row_start = out@;
        let mut c: usize = 0;
        while c < width
            invariant
                c <= width,
                width == slicing.width,
                slicing.wf(),
                cv == slices_view(canvas@),
                colors == table.colors(),
                slices_wf(cv, *slicing),
                canvas_in_range(cv, colors.len() as int),
                vi == r as int / (slicing.slice_height as int),
                hi == r as int % (slicing.slice_height as int),
                vi < slicing.slice_count,
                hi < slicing.spec_get_slice_height(vi as int),
                r < slicing.height,
                out@ == row_start + spec_png_cells(cv, colors, *slicing, r as int, c as int),
            decreases width - c,
        {
            proof {
                assert(cv[vi as int] == canvas@[vi as int]@.map_values(|w: Vec<u16>| w@));
                assert(cv[vi as int][hi as int] == canvas@[vi as int]@[hi as int]@);
            }
            let color_index = canvas[vi][hi][c] as usize;
            let color = table.get(color_index);
            out.push(color.red);
            out.push(color.green);
            out.push(color.blue);
            proof {
                assert(row_start + spec_png_cells(cv, colors, *slicing, r as int, c + 1)
                    =~= out@);
            }
            c = c + 1;
        }
        proof {
            assert(spec_png_rows(cv, colors, *slicing, r + 1) =~= out@);
        }
        r = r + 1;
    }
    proof {
        lemma_png_rows_len(cv, colors, *slicing, height as int);
    }
    out
}

/// Relies on mtpng's Encoder: compresses packed truecolor rows into a PNG
/// stream written to the returned buffer. Zero dimensions are refused by
/// `Header::set_size`; a buffer of exactly `height` rows of `3 * width`
/// bytes is accepted whole, and with the sink a plain buffer no write can
/// fail, so such a call returns the finished stream, which `write_header`
/// opens with the fixed eight-byte PNG signature.
#[verifier::external_body]
fn encode_png_truecolor(width: u32, height: u32, rows: &Vec<u8>) -> (r: Result<
    Vec<u8>,
    std::io::Error,
>)
    ensures
        width == 0 || height == 0 ==> r is Err,
        width > 0 && height > 0 && rows@.len() == 3 * width * height ==> r is Ok,
        r is Ok ==> r->Ok_0@.len() >= 8 && r->Ok_0@.subrange(0, 8) == spec_png_signature(),
{
    let mut header = mtpng::Header::new();
    header.set_size(width, height)?;
    header.set_color(mtpng::ColorType::Truecolor, 8)?;
    let mut options = mtpng::encoder::Options::new();
    options.set_compression_level(mtpng::CompressionLevel::Default)?;
    options.set_streaming(true)?;
    let mut encoder = mtpng::encoder::Encoder::new(Vec::new(), &options);
    encoder.write_header(&header)?;
    encoder.write_image_rows(rows.as_slice())?;
    encoder.finish()
}

/// Encodes the canvas as a PNG file. The rows handed to the encoder carry
/// the exact contract of `png_rows`; the compressed bytes are the encoder's,
/// known only to open with the PNG signature.
pub fn png_data(canvas: &Vec<Vec<Vec<u16>>>, table: &ColorTable, slicing: &Slicing) -> (r: Result<
    Vec<u8>,
    WriteError,
>)
    requires
        slicing.wf(),
        slicing.width <= u32::MAX,
        slicing.height <= u32::MAX,
        slices_wf(slices_view(canvas@), *slicing),
        canvas_in_range(slices_view(canvas@), table.colors().len() as int),
    ensures
        slicing.width == 0 ==> r == Err::<Vec<u8>, WriteError>(WriteError::WriterIo),
        slicing.width >= 1 ==> r is Ok,
        r is Ok ==> r->Ok_0@.len() >= 8 && r->Ok_0@.subrange(0, 8) == spec_png_signature(),
{
    let rows = png_rows(canvas, table, slicing);
    proof {
        assert(rows@.len() == 3 * (slicing.width as u32) * (slicing.height as u32))
            by (nonlinear_arith)
            requires
                rows@.len() == slicing.height * (3 * slicing.width),
                slicing.width == slicing.width as u32,
                slicing.height == slicing.height as u32,
        ;
    }
    match encode_png_truecolor(slicing.width as u32, slicing.height as u32, &rows) {
        Ok(bytes) => Ok(bytes),
        Err(_) => Err(WriteError::WriterIo),
    }
}

/// The rows handed to the encoder depend only on the image the buffers
/// hold: two partitions with the same pixels produce the same buffer,
/// whatever the slice count. This is this format's share of the renderer's
/// guarantee that the worker count never changes the output.
pub proof fn lemma_png_rows_partition_independent(
    canvas1: Seq<Seq<Seq<u16>>>,
    s1: Slicing,
    canvas2: Seq<Seq<Seq<u16>>>,
    s2: Slicing,
    colors: Seq<Color>,
)
    requires
        s1.width == s2.width,
        s1.height == s2.height,
        forall|r: int, c: int|
            0 <= r < s1.height && 0 <= c < s1.width ==> slices_at(canvas1, s1, r, c)
                == slices_at(canvas2, s2, r, c),
    ensures
        spec_png_rows(canvas1, colors, s1, s1.height as int) == spec_png_rows(
            canvas2,
            colors,
            s2,
            s2.height as int,
        ),
{
    lemma_png_rows_agree(canvas1, s1, canvas2, s2, colors, s1.height as int);
}

proof fn lemma_png_cells_agree(
    canvas1: Seq<Seq<Seq<u16>>>,
    s1: Slicing,
    canvas2: Seq<Seq<Seq<u16>>>,
    s2: Slicing,
    colors: Seq<Color>,
    r: int,
    n: int,
)
    requires
        s1.width == s2.width,
        s1.height == s2.height,
        0 <= r < s1.height,
        n <= s1.width,
        forall|rr: int, cc: int|
            0 <= rr < s1.height && 0 <= cc < s1.width ==> slices_at(canvas1, s1, rr, cc)
                == slices_at(canvas2, s2, rr, cc),
    ensures
        spec_png_cells(canvas1, colors, s1, r, n) == spec_png_cells(canvas2, colors, s2, r, n),
    decreases n,
{
    if n > 0 {
        lemma_png_cells_agree(canvas1, s1, canvas2, s2, colors, r, n - 1);
    }
}

proof fn lemma_png_rows_agree(
    canvas1: Seq<Seq<Seq<u16>>>,
    s1: Slicing,
    canvas2: Seq<Seq<Seq<u16>>>,
    s2: Slicing,
    colors: Seq<Color>,
    n: int,
)
    requires
        s1.width == s2.width,
        s1.height == s2.height,
        n <= s1.height,
        forall|rr: int, cc: int|
            0 <= rr < s1.height && 0 <= cc < s1.width ==> slices_at(canvas1, s1, rr, cc)
                == slices_at(canvas2, s2, rr, cc),
    ensures
        spec_png_rows(canvas1, colors, s1, n) == spec_png_rows(canvas2, colors, s2, n),
    decreases n,
{
    if n > 0 {
        lemma_png_rows_agree(canvas1, s1, canvas2, s2, colors, n - 1);
        lemma_png_cells_agree(canvas1, s1, canvas2, s2, colors, n - 1, s1.width as int);
    }
}

} // verus!
