//! The raw heightfield: every pixel's scaled altitude as a big-endian 32-bit
//! signed integer, row-major, with no header.

use crate::render::slicing::Slicing;
use crate::render::{slices_at, slices_view, slices_wf};
use vstd::prelude::*;

verus! {

/// The four big-endian bytes of a 32-bit value.
pub open spec fn spec_be_u32(u: u32) -> Seq<u8> {
    seq![(u >> 24) as u8, ((u >> 16) & 0xff) as u8, ((u >> 8) & 0xff) as u8, (u & 0xff) as u8]
}

pub open spec fn spec_be_i32(v: i32) -> Seq<u8> {
    spec_be_u32(v as u32)
}

/// The first `n` cells of row `r`, each as four bytes.
pub open spec fn spec_hf_cells(hf: Seq<Seq<Seq<i32>>>, s: Slicing, r: int, n: int) -> Seq<u8>
    decreases n,
{
    if n <= 0 {
        Seq::empty()
    } else {
        spec_hf_cells(hf, s, r, n - 1) + spec_be_i32(slices_at(hf, s, r, n - 1))
    }
}

/// The first `n` rows, top to bottom.
pub open spec fn spec_hf_rows(hf: Seq<Seq<Seq<i32>>>, s: Slicing, n: int) -> Seq<u8>
    decreases n,
{
    if n <= 0 {
        Seq::empty()
    } else {
        spec_hf_rows(hf, s, n - 1) + spec_hf_cells(hf, s, n - 1, s.width as int)
    }
}

/// The whole heightfield file: rows top to bottom, four bytes per pixel.
pub open spec fn spec_heightfield(hf: Seq<Seq<Seq<i32>>>, s: Slicing) -> Seq<u8> {
    spec_hf_rows(hf, s, s.height as int)
}

proof fn lemma_hf_cells_len(hf: Seq<Seq<Seq<i32>>>, s: Slicing, r: int, n: int)
    requires
        n >= 0,
    ensures
        spec_hf_cells(hf, s, r, n).len() == 4 * n,
    decreases n,
{
    if n > 0 {
        lemma_hf_cells_len(hf, s, r, n - 1);
    }
}

proof fn lemma_hf_rows_len(hf: Seq<Seq<Seq<i32>>>, s: Slicing, n: int)
    requires
        n >= 0,
    ensures
        spec_hf_rows(hf, s, n).len() == n * (4 * s.width),
    decreases n,
{
    if n > 0 {
        lemma_hf_rows_len(hf, s, n - 1);
        lemma_hf_cells_len(hf, s, n - 1, s.width as int);
        assert(spec_hf_rows(hf, s, n) == spec_hf_rows(hf, s, n - 1) + spec_hf_cells(
            hf,
            s,
            n - 1,
            s.width as int,
        ));
        assert(spec_hf_rows(hf, s, n).len() == (n - 1) * (4 * s.width) + 4 * (s.width as int));
        assert(n * (4 * s.width) == (n - 1) * (4 * s.width) + 4 * (s.width as int))
            by (nonlinear_arith);
    } else {
        assert(spec_hf_rows(hf, s, n).len() == 0);
        assert(n * (4 * s.width) == 0) by (nonlinear_arith)
            requires
                n == 0,
        ;
    }
}

pub fn push_be_i32(out: &mut Vec<u8>, v: i32)
    ensures
        final(out)@ == old(out)@ + spec_be_i32(v),
{
    let u = v as u32;
    out.push((u >> 24) as u8);
    out.push(((u >> 16) & 0xff) as u8);
    out.push(((u >> 8) & 0xff) as u8);
    out.push((u & 0xff) as u8);
    proof {
        assert(final(out)@ =~= old(out)@ + spec_be_i32(v));
    }
}

/// Encodes the heightfield buffers as the raw big-endian file.
pub fn heightfield_data(heightfield: &Vec<Vec<Vec<i32>>>, slicing: &Slicing) -> (out: Vec<u8>)
    requires
        slicing.wf(),
        slices_wf(slices_view(heightfield@), *slicing),
    ensures
        out@ == spec_heightfield(slices_view(heightfield@), *slicing),
        out@.len() == slicing.height * (4 * slicing.width),
{
    let ghost hf = slices_view(heightfield@);
    let width = slicing.width;
    let height = slicing.height;
    let mut out: Vec<u8> = Vec::new();
    let mut r: usize = 0;
    while r < height
        invariant
            r <= height,
            height == slicing.height,
            width == slicing.width,
            slicing.wf(),
            hf == slices_view(heightfield@),
            slices_wf(hf, *slicing),
            out@ == spec_hf_rows(hf, *slicing, r as int),
        decreases height - r,
    {
        proof {
            slicing.lemma_translate_roundtrip(r as int);
        }
        let (vi, hi) = slicing.translate_index(r);
        let ghost row_start = out@;
        let mut c: usize = 0;
        while c < width
            invariant
                c <= width,
                width == slicing.width,
                slicing.wf(),
                hf == slices_view(heightfield@),
                slices_wf(hf, *slicing),
                vi == r as int / (slicing.slice_height as int),
                hi == r as int % (slicing.slice_height as int),
                vi < slicing.slice_count,
                hi < slicing.spec_get_slice_height(vi as int),
                r < slicing.height,
                out@ == row_start + spec_hf_cells(hf, *slicing, r as int, c as int),
            decreases width - c,
        {
            proof {
                assert(hf[vi as int] == heightfield@[vi as int]@.map_values(|w: Vec<i32>| w@));
                assert(hf[vi as int][hi as int] == heightfield@[vi as int]@[hi as int]@);
            }
            let v = heightfield[vi][hi][c];
            push_be_i32(&mut out, v);
            proof {
                assert(slices_at(hf, *slicing, r as int, c as int) == v);
                assert(row_start + spec_hf_cells(hf, *slicing, r as int, c + 1) =~= (row_start
                    + spec_hf_cells(hf, *slicing, r as int, c as int)) + spec_be_i32(v));
            }
            c = c + 1;
        }
        proof {
            assert(spec_hf_rows(hf, *slicing, r + 1) =~= row_start + spec_hf_cells(
                hf,
                *slicing,
                r as int,
                width as int,
            ));
        }
        r = r + 1;
    }
    proof {
        lemma_hf_rows_len(hf, *slicing, height as int);
    }
    out
}

/// The heightfield file depends only on the image the buffers hold: two
/// partitions with the same pixel values, however many slices each cut the
/// rows into, encode to the same bytes. This is the encoders' share of the
/// renderer's guarantee that the worker count never changes the output.
pub proof fn lemma_heightfield_partition_independent(
    hf1: Seq<Seq<Seq<i32>>>,
    s1: Slicing,
    hf2: Seq<Seq<Seq<i32>>>,
    s2: Slicing,
)
    requires
        s1.width == s2.width,
        s1.height == s2.height,
        forall|r: int, c: int|
            0 <= r < s1.height && 0 <= c < s1.width ==> slices_at(hf1, s1, r, c) == slices_at(
                hf2,
                s2,
                r,
                c,
            ),
    ensures
        spec_heightfield(hf1, s1) == spec_heightfield(hf2, s2),
{
    lemma_hf_rows_agree(hf1, s1, hf2, s2, s1.height as int);
}

proof fn lemma_hf_cells_agree(
    hf1: Seq<Seq<Seq<i32>>>,
    s1: Slicing,
    hf2: Seq<Seq<Seq<i32>>>,
    s2: Slicing,
    r: int,
    n: int,
)
    requires
        s1.width == s2.width,
        s1.height == s2.height,
        0 <= r < s1.height,
        n <= s1.width,
        forall|rr: int, cc: int|
            0 <= rr < s1.height && 0 <= cc < s1.width ==> slices_at(hf1, s1, rr, cc)
                == slices_at(hf2, s2, rr, cc),
    ensures
        spec_hf_cells(hf1, s1, r, n) == spec_hf_cells(hf2, s2, r, n),
    decreases n,
{
    if n > 0 {
        lemma_hf_cells_agree(hf1, s1, hf2, s2, r, n - 1);
    }
}

proof fn lemma_hf_rows_agree(
    hf1: Seq<Seq<Seq<i32>>>,
    s1: Slicing,
    hf2: Seq<Seq<Seq<i32>>>,
    s2: Slicing,
    n: int,
)
    requires
        s1.width == s2.width,
        s1.height == s2.height,
        n <= s1.height,
        forall|rr: int, cc: int|
            0 <= rr < s1.height && 0 <= cc < s1.width ==> slices_at(hf1, s1, rr, cc)
                == slices_at(hf2, s2, rr, cc),
    ensures
        spec_hf_rows(hf1, s1, n) == spec_hf_rows(hf2, s2, n),
    decreases n,
{
    if n > 0 {
        lemma_hf_rows_agree(hf1, s1, hf2, s2, n - 1);
        lemma_hf_cells_agree(hf1, s1, hf2, s2, n - 1, s1.width as int);
    }
}

} // verus!
