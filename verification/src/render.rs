//! Render orchestration helpers: the slice partition, the per-worker output
//! buffers, the choice of output formats, and the post-render smoothing pass
//! over the shade buffers.

pub mod slicing;

use crate::file::FileType;
use crate::render::slicing::Slicing;
use vstd::prelude::*;

verus! {

/// The formats a render writes, in the order the flags are examined.
pub open spec fn spec_filetypes(
    use_ppm: bool,
    use_xpm: bool,
    use_png: bool,
    use_heightfield: bool,
    use_bmp: bool,
) -> Seq<FileType> {
    (if use_ppm {
        seq![FileType::ppm]
    } else {
        Seq::empty()
    }) + (if use_xpm {
        seq![FileType::xpm]
    } else {
        Seq::empty()
    }) + (if use_png {
        seq![FileType::png]
    } else {
        Seq::empty()
    }) + (if use_heightfield {
        seq![FileType::heightfield]
    } else {
        Seq::empty()
    }) + (if use_bmp {
        seq![FileType::bmp]
    } else {
        Seq::empty()
    })
}

pub fn get_filetypes(
    use_ppm: bool,
    use_xpm: bool,
    use_png: bool,
    use_heightfield: bool,
    use_bmp: bool,
) -> (r: Vec<FileType>)
    ensures
        r@ == spec_filetypes(use_ppm, use_xpm, use_png, use_heightfield, use_bmp),
{
    let mut retval: Vec<FileType> = Vec::new();
    if use_ppm {
        retval.push(FileType::ppm);
    }
    if use_xpm {
        retval.push(FileType::xpm);
    }
    if use_png {
        retval.push(FileType::png);
    }
    if use_heightfield {
        retval.push(FileType::heightfield);
    }
    if use_bmp {
        retval.push(FileType::bmp);
    }
    proof {
        assert(retval@ =~= spec_filetypes(use_ppm, use_xpm, use_png, use_heightfield, use_bmp));
    }
    retval
}

pub fn filetypes_contain(filetypes: &Vec<FileType>, t: FileType) -> (r: bool)
    ensures
        r == filetypes@.contains(t),
{
    let n = filetypes.len();
    let mut i: usize = 0;
    while i < n
        invariant
            i <= n,
            n == filetypes@.len(),
            forall|j: int| 0 <= j < i ==> filetypes@[j] != t,
        decreases n - i,
    {
        if filetypes[i] == t {
            return true;
        }
        i = i + 1;
    }
    false
}

/// Whether a render keeps a palette-index canvas at all: only a pure
/// heightfield run does without one.
pub open spec fn needs_canvas(filetypes: Seq<FileType>) -> bool {
    !filetypes.contains(FileType::heightfield) || filetypes.len() > 1
}

/// A freshly zeroed rectangle of `rows` by `cols`.
pub open spec fn zero_grid<T>(g: Seq<Seq<T>>, rows: int, cols: int, zero: T) -> bool {
    &&& g.len() == rows
    &&& forall|r: int| 0 <= r < rows ==> #[trigger] g[r].len() == cols
    &&& forall|r: int, c: int| 0 <= r < rows && 0 <= c < cols ==> #[trigger] g[r][c] == zero
}

fn zeroed_grid_u16(rows: usize, cols: usize) -> (g: Vec<Vec<u16>>)
    ensures
        zero_grid(g@.map_values(|v: Vec<u16>| v@), rows as int, cols as int, 0u16),
{
    let mut g: Vec<Vec<u16>> = Vec::new();
    let mut r: usize = 0;
    while r < rows
        invariant
            r <= rows,
            zero_grid(g@.map_values(|v: Vec<u16>| v@), r as int, cols as int, 0u16),
        decreases rows - r,
    {
        let mut row: Vec<u16> = Vec::new();
        let mut c: usize = 0;
        while c < cols
            invariant
                c <= cols,
                row@.len() == c,
                forall|j: int| 0 <= j < c ==> row@[j] == 0u16,
            decreases cols - c,
        {
            row.push(0);
            c = c + 1;
        }
        let ghost gm = g@.map_values(|v: Vec<u16>| v@);
        g.push(row);
        proof {
            assert(g@.map_values(|v: Vec<u16>| v@) =~= gm.push(row@));
        }
        r = r + 1;
    }
    g
}

fn zeroed_grid_i32(rows: usize, cols: usize) -> (g: Vec<Vec<i32>>)
    ensures
        zero_grid(g@.map_values(|v: Vec<i32>| v@), rows as int, cols as int, 0i32),
{
    let mut g: Vec<Vec<i32>> = Vec::new();
    let mut r: usize = 0;
    while r < rows
        invariant
            r <= rows,
            zero_grid(g@.map_values(|v: Vec<i32>| v@), r as int, cols as int, 0i32),
        decreases rows - r,
    {
        let mut row: Vec<i32> = Vec::new();
        let mut c: usize = 0;
        while c < cols
            invariant
                c <= cols,
                row@.len() == c,
                forall|j: int| 0 <= j < c ==> row@[j] == 0i32,
            decreases cols - c,
        {
            row.push(0);
            c = c + 1;
        }
        let ghost gm = g@.map_values(|v: Vec<i32>| v@);
        g.push(row);
        proof {
            assert(g@.map_values(|v: Vec<i32>| v@) =~= gm.push(row@));
        }
        r = r + 1;
    }
    g
}

fn zeroed_grid_u8(rows: usize, cols: usize) -> (g: Vec<Vec<u8>>)
    ensures
        zero_grid(g@.map_values(|v: Vec<u8>| v@), rows as int, cols as int, 0u8),
{
    let mut g: Vec<Vec<u8>> = Vec::new();
    let mut r: usize = 0;
    while r < rows
        invariant
            r <= rows,
            zero_grid(g@.map_values(|v: Vec<u8>| v@), r as int, cols as int, 0u8),
        decreases rows - r,
    {
        let mut row: Vec<u8> = Vec::new();
        let mut c: usize = 0;
        while c < cols
            invariant
                c <= cols,
                row@.len() == c,
                forall|j: int| 0 <= j < c ==> row@[j] == 0u8,
            decreases cols - c,
        {
            row.push(0);
            c = c + 1;
        }
        let ghost gm = g@.map_values(|v: Vec<u8>| v@);
        g.push(row);
        proof {
            assert(g@.map_values(|v: Vec<u8>| v@) =~= gm.push(row@));
        }
        r = r + 1;
    }
    g
}

/// The palette-index canvas of slice `id`: its rows by the image width,
/// zeroed; empty when the render needs no canvas.
pub fn gen_canvas(id: u8, filetypes: &Vec<FileType>, slicing: &Slicing) -> (g: Vec<Vec<u16>>)
    requires
        slicing.wf(),
    ensures
        needs_canvas(filetypes@) ==> zero_grid(
            g@.map_values(|v: Vec<u16>| v@),
            slicing.spec_get_slice_height(id as int),
            slicing.width as int,
            0u16,
        ),
        !needs_canvas(filetypes@) ==> g@.len() == 0,
{
    if !filetypes_contain(filetypes, FileType::heightfield) || filetypes.len() > 1 {
        zeroed_grid_u16(slicing.get_slice_height(id), slicing.width)
    } else {
        Vec::new()
    }
}

/// The raw-altitude buffer of slice `id`, zeroed; empty unless a heightfield
/// is requested.
pub fn gen_heightfield(id: u8, generate_heightfield: bool, slicing: &Slicing) -> (g: Vec<
    Vec<i32>,
>)
    requires
        slicing.wf(),
    ensures
        generate_heightfield ==> zero_grid(
            g@.map_values(|v: Vec<i32>| v@),
            slicing.spec_get_slice_height(id as int),
            slicing.width as int,
            0i32,
        ),
        !generate_heightfield ==> g@.len() == 0,
{
    if generate_heightfield {
        zeroed_grid_i32(slicing.get_slice_height(id), slicing.width)
    } else {
        Vec::new()
    }
}

/// The shade buffer of slice `id`, zeroed; empty unless the render shades
/// and keeps a canvas.
pub fn gen_shading(id: u8, filetypes: &Vec<FileType>, shading_level: u8, slicing: &Slicing) -> (g:
    Vec<Vec<u8>>)
    requires
        slicing.wf(),
    ensures
        needs_canvas(filetypes@) && shading_level > 0 ==> zero_grid(
            g@.map_values(|v: Vec<u8>| v@),
            slicing.spec_get_slice_height(id as int),
            slicing.width as int,
            0u8,
        ),
        !(needs_canvas(filetypes@) && shading_level > 0) ==> g@.len() == 0,
{
    if (!filetypes_contain(filetypes, FileType::heightfield) || filetypes.len() > 1)
        && shading_level > 0 {
        zeroed_grid_u8(slicing.get_slice_height(id), slicing.width)
    } else {
        Vec::new()
    }
}

// ---------------------------------------------------------------------------
// The smoothing pass.
// ---------------------------------------------------------------------------


/// The view of per-slice buffers as one nested sequence.
pub open spec fn slices_view<T>(s: Seq<Vec<Vec<T>>>) -> Seq<Seq<Seq<T>>> {
    s.map_values(|v: Vec<Vec<T>>| v@.map_values(|w: Vec<T>| w@))
}

/// Per-slice buffers that cover the whole image under the given partition.
pub open spec fn slices_wf<T>(v: Seq<Seq<Seq<T>>>, s: Slicing) -> bool {
    &&& v.len() == s.slice_count
    &&& forall|i: int| 0 <= i < v.len() ==> (#[trigger] v[i]).len() == s.spec_get_slice_height(i)
    &&& forall|i: int, r: int|
        0 <= i < v.len() && 0 <= r < v[i].len() ==> (#[trigger] v[i][r]).len() == s.width
}

/// The cell of such buffers at absolute row `r`, column `c`.
pub open spec fn slices_at<T>(v: Seq<Seq<Seq<T>>>, s: Slicing, r: int, c: int) -> T {
    v[r / (s.slice_height as int)][r % (s.slice_height as int)][c]
}

/// A smoothed shade: the pixel weighted four times, its right and lower
/// neighbours twice, the diagonal once, rounded among nine parts and capped.
pub open spec fn spec_smoothed(p: u8, w1: u8, h1: u8, hw1: u8) -> u8 {
    let v = (4 * (p as int) + 2 * (w1 as int) + 2 * (h1 as int) + hw1 + 4) / 9;
    if v > 255 {
        255u8
    } else {
        v as u8
    }
}

/// Runs the 3-by-3 smoothing pass over the shade buffers, across slice
/// boundaries. Every pixel except those on the last row and column takes the
/// weighted mean of itself and its right, lower, and diagonal neighbours,
/// computed from the values before the pass.
pub fn smooth_shading(shading: &mut Vec<Vec<Vec<u8>>>, slicing: &Slicing)
    requires
        slicing.wf(),
        slicing.width >= 1,
        slices_wf(slices_view(old(shading)@), *slicing),
    ensures
        slices_wf(slices_view(final(shading)@), *slicing),
        forall|r: int, c: int|
            0 <= r < slicing.height - 1 && 0 <= c < slicing.width - 1 ==> slices_at(
                slices_view(final(shading)@),
                *slicing,
                r,
                c,
            ) == spec_smoothed(
                slices_at(slices_view(old(shading)@), *slicing, r, c),
                slices_at(slices_view(old(shading)@), *slicing, r, c + 1),
                slices_at(slices_view(old(shading)@), *slicing, r + 1, c),
                slices_at(slices_view(old(shading)@), *slicing, r + 1, c + 1),
            ),
        forall|r: int, c: int|
            0 <= r < slicing.height && 0 <= c < slicing.width && (r >= slicing.height - 1 || c
                >= slicing.width - 1) ==> slices_at(slices_view(final(shading)@), *slicing, r, c)
                == slices_at(slices_view(old(shading)@), *slicing, r, c),
{
    let ghost orig = slices_view(shading@);
    let height_limit = slicing.height - 1;
    let width_limit = slicing.width - 1;
    let mut ahi: usize = 0;
    while ahi < height_limit
        invariant
            slicing.wf(),
            ahi <= height_limit,
            height_limit == slicing.height - 1,
            width_limit == slicing.width - 1,
            orig == slices_view(old(shading)@),
            slices_wf(orig, *slicing),
            slices_wf(slices_view(shading@), *slicing),
            forall|r: int, c: int|
                0 <= r < ahi && 0 <= c < width_limit ==> slices_at(
                    slices_view(shading@),
                    *slicing,
                    r,
                    c,
                ) == spec_smoothed(
                    slices_at(orig, *slicing, r, c),
                    slices_at(orig, *slicing, r, c + 1),
                    slices_at(orig, *slicing, r + 1, c),
                    slices_at(orig, *slicing, r + 1, c + 1),
                ),
            forall|r: int, c: int|
                0 <= r < slicing.height && 0 <= c < slicing.width && (r >= ahi || c
                    >= width_limit) ==> slices_at(slices_view(shading@), *slicing, r, c)
                    == slices_at(orig, *slicing, r, c),
        decreases height_limit - ahi,
    {
        proof {
            slicing.lemma_translate_roundtrip(ahi as int);
            slicing.lemma_translate_roundtrip(ahi + 1);
        }
        let (vi, hi) = slicing.translate_index(ahi);
        let (vi1, hi1) = slicing.translate_index(ahi + 1);
        let mut wi: usize = 0;
        while wi < width_limit
            invariant
                slicing.wf(),
                ahi < height_limit,
                height_limit == slicing.height - 1,
                width_limit == slicing.width - 1,
                wi <= width_limit,
                vi == ahi as int / (slicing.slice_height as int),
                hi == ahi as int % (slicing.slice_height as int),
                vi1 == (ahi + 1) as int / (slicing.slice_height as int),
                hi1 == (ahi + 1) as int % (slicing.slice_height as int),
                vi < slicing.slice_count,
                hi < slicing.spec_get_slice_height(vi as int),
                vi1 < slicing.slice_count,
                hi1 < slicing.spec_get_slice_height(vi1 as int),
                orig == slices_view(old(shading)@),
                slices_wf(orig, *slicing),
                slices_wf(slices_view(shading@), *slicing),
                forall|r: int, c: int|
                    0 <= r < ahi && 0 <= c < width_limit ==> slices_at(
                        slices_view(shading@),
                        *slicing,
                        r,
                        c,
                    ) == spec_smoothed(
                        slices_at(orig, *slicing, r, c),
                        slices_at(orig, *slicing, r, c + 1),
                        slices_at(orig, *slicing, r + 1, c),
                        slices_at(orig, *slicing, r + 1, c + 1),
                    ),
                forall|c: int|
                    0 <= c < wi ==> slices_at(slices_view(shading@), *slicing, ahi as int, c)
                        == spec_smoothed(
                        slices_at(orig, *slicing, ahi as int, c),
                        slices_at(orig, *slicing, ahi as int, c + 1),
                        slices_at(orig, *slicing, ahi + 1, c),
                        slices_at(orig, *slicing, ahi + 1, c + 1),
                    ),
                forall|r: int, c: int|
                    0 <= r < slicing.height && 0 <= c < slicing.width && (r > ahi || (r == ahi
                        && c >= wi) || c >= width_limit) ==> slices_at(
                        slices_view(shading@),
                        *slicing,
                        r,
                        c,
                    ) == slices_at(orig, *slicing, r, c),
            decreases width_limit - wi,
        {
            proof {
                let sv = slices_view(shading@);
                assert(sv[vi as int] == shading@[vi as int]@.map_values(|w: Vec<u8>| w@));
                assert(sv[vi1 as int] == shading@[vi1 as int]@.map_values(|w: Vec<u8>| w@));
                assert(sv[vi as int][hi as int] == shading@[vi as int]@[hi as int]@);
                assert(sv[vi1 as int][hi1 as int] == shading@[vi1 as int]@[hi1 as int]@);
            }
            let p = 4 * (shading[vi][hi][wi] as u16);
            let w1 = 2 * (shading[vi][hi][wi + 1] as u16);
            let h1 = 2 * (shading[vi1][hi1][wi] as u16);
            let hw1 = shading[vi1][hi1][wi + 1] as u16;
            let mut v = (p + h1 + w1 + hw1 + 4) / 9;
            if v > 255 {
                v = 255;
            }
            let ghost before = slices_view(shading@);
            set_shade(shading, vi, hi, wi, v as u8);
            proof {
                let after = slices_view(shading@);
                assert forall|r: int, c: int|
                    0 <= r < slicing.height && 0 <= c < slicing.width && !(r == ahi && c
                        == wi) implies slices_at(after, *slicing, r, c) == slices_at(
                    before,
                    *slicing,
                    r,
                    c,
                ) by {
                    slicing.lemma_translate_roundtrip(r);
                    slicing.lemma_translate_roundtrip(ahi as int);
                    if r / (slicing.slice_height as int) == vi && r % (slicing.slice_height
                        as int) == hi {
                        assert(r == vi * slicing.slice_height + hi);
                        assert(ahi == vi * slicing.slice_height + hi);
                    }
                }
                assert(slices_at(after, *slicing, ahi as int, wi as int) == v as u8);
            }
            wi = wi + 1;
        }
        ahi = ahi + 1;
    }
}

/// Writes one cell of the nested shade buffers.
fn set_shade(shading: &mut Vec<Vec<Vec<u8>>>, vi: usize, hi: usize, wi: usize, val: u8)
    requires
        vi < old(shading)@.len(),
        hi < old(shading)@[vi as int]@.len(),
        wi < old(shading)@[vi as int]@[hi as int]@.len(),
    ensures
        slices_view(final(shading)@) == slices_view(old(shading)@).update(
            vi as int,
            slices_view(old(shading)@)[vi as int].update(
                hi as int,
                slices_view(old(shading)@)[vi as int][hi as int].update(wi as int, val),
            ),
        ),
{
    let slice = &mut shading[vi];
    let row = &mut slice[hi];
    row.set(wi, val);
    proof {
        assert(slices_view(shading@) =~~= slices_view(old(shading)@).update(
            vi as int,
            slices_view(old(shading)@)[vi as int].update(
                hi as int,
                slices_view(old(shading)@)[vi as int][hi as int].update(wi as int, val),
            ),
        ));
    }
}

} // verus!
