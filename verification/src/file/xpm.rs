//! XPM: the image as a C-style text initializer. Each palette index becomes
//! a short string over a 64-character alphabet, each palette entry a hex
//! color line.

use crate::color::{Color, ColorTable};
use crate::render::slicing::Slicing;
use crate::render::{slices_at, slices_view, slices_wf};
use crate::file::{push_bytes, push_decimal, push_str, spec_decimal};
use crate::file::ppm::canvas_in_range;
use vstd::prelude::*;
use vstd::utf8::encode_utf8;

verus! {

/// Powers of the alphabet size.
pub open spec fn pow64(k: int) -> int
    decreases k,
{
    if k <= 0 {
        1
    } else {
        64 * pow64(k - 1)
    }
}

/// How many alphabet characters one pixel needs: the least `k` with
/// `64^k >= n`, and none at all for a trivial palette.
pub open spec fn spec_chars_per_pixel(n: int) -> int {
    if n <= 1 {
        0
    } else if n <= 64 {
        1
    } else if n <= 4096 {
        2
    } else if n <= 262144 {
        3
    } else if n <= 16777216 {
        4
    } else if n <= 1073741824 {
        5
    } else if n <= 68719476736 {
        6
    } else if n <= 4398046511104 {
        7
    } else if n <= 281474976710656 {
        8
    } else if n <= 18014398509481984 {
        9
    } else if n <= 1152921504606846976 {
        10
    } else {
        11
    }
}

/// `spec_chars_per_pixel` is exactly the least count whose alphabet power
/// covers the palette.
pub proof fn lemma_chars_per_pixel(n: int)
    requires
        n <= 0x1_0000_0000_0000_0000,
    ensures
        pow64(spec_chars_per_pixel(n)) >= n,
        spec_chars_per_pixel(n) > 0 ==> pow64(spec_chars_per_pixel(n) - 1) < n,
        n > 1 ==> spec_chars_per_pixel(n) >= 1,
{
    assert(pow64(0) == 1);
    assert(pow64(1) == 64);
    assert(pow64(2) == 4096);
    assert(pow64(3) == 262144);
    assert(pow64(4) == 16777216);
    assert(pow64(5) == 1073741824);
    assert(pow64(6) == 68719476736);
    assert(pow64(7) == 4398046511104);
    assert(pow64(8) == 281474976710656);
    assert(pow64(9) == 18014398509481984);
    assert(pow64(10) == 1152921504606846976);
    assert(pow64(11) == 73786976294838206464);
}

/// How many alphabet characters each pixel of a palette of
/// `color_table_len` entries takes.
pub fn get_chars_per_pixel(color_table_len: usize, chars: &[u8]) -> (r: u8)
    requires
        chars@.len() == 64,
    ensures
        r == spec_chars_per_pixel(color_table_len as int),
{
    proof {
        lemma_chars_per_pixel(color_table_len as int);
    }
    let n = color_table_len as u64;
    if n <= 1 {
        0
    } else if n <= 64 {
        1
    } else if n <= 4096 {
        2
    } else if n <= 262144 {
        3
    } else if n <= 16777216 {
        4
    } else if n <= 1073741824 {
        5
    } else if n <= 68719476736 {
        6
    } else if n <= 4398046511104 {
        7
    } else if n <= 281474976710656 {
        8
    } else if n <= 18014398509481984 {
        9
    } else if n <= 1152921504606846976 {
        10
    } else {
        11
    }
}

/// The fixed 64-character alphabet, as bytes:
/// `@$.,:;-+=#*&` followed by `A` to `Z` and `a` to `z`.
#[verifier::opaque]
pub open spec fn xpm_alphabet() -> Seq<u8> {
    seq![64u8, 36, 46, 44, 58, 59, 45, 43, 61, 35, 42, 38, 65, 66, 67, 68, 69, 70, 71, 72, 73, 74, 75, 76, 77, 78, 79, 80, 81, 82, 83, 84, 85, 86, 87, 88, 89, 90, 97, 98, 99, 100, 101, 102, 103, 104, 105, 106, 107, 108, 109, 110, 111, 112, 113, 114, 115, 116, 117, 118, 119, 120, 121, 122]
}

#[verifier::rlimit(100)]
pub fn xpm_alphabet_bytes() -> (r: Vec<u8>)
    ensures
        r@ == xpm_alphabet(),
{
    let mut v: Vec<u8> = Vec::new();
    v.push(64);
    v.push(36);
    v.push(46);
    v.push(44);
    v.push(58);
    v.push(59);
    v.push(45);
    v.push(43);
    v.push(61);
    v.push(35);
    v.push(42);
    v.push(38);
    v.push(65);
    v.push(66);
    v.push(67);
    v.push(68);
    v.push(69);
    v.push(70);
    v.push(71);
    v.push(72);
    v.push(73);
    v.push(74);
    v.push(75);
    v.push(76);
    v.push(77);
    v.push(78);
    v.push(79);
    v.push(80);
    v.push(81);
    v.push(82);
    v.push(83);
    v.push(84);
    v.push(85);
    v.push(86);
    v.push(87);
    v.push(88);
    v.push(89);
    v.push(90);
    v.push(97);
    v.push(98);
    v.push(99);
    v.push(100);
    v.push(101);
    v.push(102);
    v.push(103);
    v.push(104);
    v.push(105);
    v.push(106);
    v.push(107);
    v.push(108);
    v.push(109);
    v.push(110);
    v.push(111);
    v.push(112);
    v.push(113);
    v.push(114);
    v.push(115);
    v.push(116);
    v.push(117);
    v.push(118);
    v.push(119);
    v.push(120);
    v.push(121);
    v.push(122);
    proof {
        reveal(xpm_alphabet);
        assert(v@ =~= xpm_alphabet());
    }
    v
}

/// The characters of one palette index, as alphabet bytes: base-64 digits
/// of the index, least significant first, padded with the zero digit to the
/// pixel width.
pub open spec fn spec_get_chars(alphabet: Seq<u8>, index: int, k: int) -> Seq<u8>
    decreases k,
{
    if k <= 0 {
        Seq::empty()
    } else {
        seq![alphabet[index % 64]] + spec_get_chars(alphabet, index / 64, k - 1)
    }
}

pub fn get_chars(chars: &[u8], color_index: usize, chars_per_pixel: u8) -> (r: Vec<u8>)
    requires
        chars@.len() == 64,
    ensures
        r@ == spec_get_chars(chars@, color_index as int, chars_per_pixel as int),
{
    let mut color_index = color_index;
    let ghost idx0 = color_index as int;
    let mut retval: Vec<u8> = Vec::new();
    let mut i: u8 = 0;
    while i < chars_per_pixel
        invariant
            i <= chars_per_pixel,
            chars@.len() == 64,
            spec_get_chars(chars@, idx0, chars_per_pixel as int) == retval@ + spec_get_chars(
                chars@,
                color_index as int,
                chars_per_pixel - i,
            ),
        decreases chars_per_pixel - i,
    {
        retval.push(chars[color_index % 64]);
        proof {
            assert(spec_get_chars(chars@, color_index as int, chars_per_pixel - i)
                == seq![chars@[color_index as int % 64]] + spec_get_chars(
                chars@,
                color_index as int / 64,
                chars_per_pixel - i - 1,
            ));
            assert(retval@ + spec_get_chars(chars@, color_index as int / 64, chars_per_pixel - i
                - 1) =~= (retval@.drop_last() + spec_get_chars(
                chars@,
                color_index as int,
                chars_per_pixel - i,
            )));
        }
        color_index = color_index / 64;
        i = i + 1;
    }
    proof {
        assert(retval@ + spec_get_chars(chars@, color_index as int, 0) =~= retval@);
    }
    retval
}

proof fn lemma_alphabet_len()
    ensures
        xpm_alphabet().len() == 64,
{
    reveal(xpm_alphabet);
}

/// A lowercase hex digit.
pub open spec fn spec_hex_digit(d: int) -> u8 {
    if d < 10 {
        (48 + d) as u8
    } else {
        (87 + d) as u8
    }
}

/// A byte as two hex places, space-padded: the form `{:2x}` prints.
pub open spec fn spec_hex2(n: int) -> Seq<u8> {
    if n < 16 {
        seq![32u8, spec_hex_digit(n)]
    } else {
        seq![spec_hex_digit(n / 16), spec_hex_digit(n % 16)]
    }
}

pub fn push_hex2(out: &mut Vec<u8>, n: u8)
    ensures
        final(out)@ == old(out)@ + spec_hex2(n as int),
{
    if n < 16 {
        out.push(32);
        out.push(hex_digit(n));
    } else {
        out.push(hex_digit(n / 16));
        out.push(hex_digit(n % 16));
    }
    proof {
        assert(final(out)@ =~= old(out)@ + spec_hex2(n as int));
    }
}

fn hex_digit(d: u8) -> (r: u8)
    requires
        d < 16,
    ensures
        r == spec_hex_digit(d as int),
{
    if d < 10 {
        48 + d
    } else {
        87 + d
    }
}

/// One palette entry's line: its character string and its hex color.
pub open spec fn spec_xpm_color_line(colors: Seq<Color>, cpp: int, i: int) -> Seq<u8> {
    let c = colors[i];
    encode_utf8("\""@) + spec_get_chars(xpm_alphabet(), i, cpp) + encode_utf8(" c #"@)
        + spec_hex2(c.red as int) + spec_hex2(c.green as int) + spec_hex2(c.blue as int)
        + encode_utf8("\",\n"@)
}

/// The first `n` palette entry lines.
pub open spec fn spec_xpm_color_lines(colors: Seq<Color>, cpp: int, n: int) -> Seq<u8>
    decreases n,
{
    if n <= 0 {
        Seq::empty()
    } else {
        spec_xpm_color_lines(colors, cpp, n - 1) + spec_xpm_color_line(colors, cpp, n - 1)
    }
}

/// The first `n` pixels of row `r`, each on a line of its own.
pub open spec fn spec_xpm_cells(
    canvas: Seq<Seq<Seq<u16>>>,
    s: Slicing,
    cpp: int,
    r: int,
    n: int,
) -> Seq<u8>
    decreases n,
{
    if n <= 0 {
        Seq::empty()
    } else {
        spec_xpm_cells(canvas, s, cpp, r, n - 1) + spec_get_chars(
            xpm_alphabet(),
            slices_at(canvas, s, r, n - 1) as int,
            cpp,
        ) + encode_utf8("\n"@)
    }
}

/// The first `n` rows, top to bottom, each framed in quotes.
pub open spec fn spec_xpm_rows(canvas: Seq<Seq<Seq<u16>>>, s: Slicing, cpp: int, n: int) -> Seq<
    u8,
>
    decreases n,
{
    if n <= 0 {
        Seq::empty()
    } else {
        spec_xpm_rows(canvas, s, cpp, n - 1) + encode_utf8("\"\n"@) + spec_xpm_cells(
            canvas,
            s,
            cpp,
            n - 1,
            s.width as int,
        ) + encode_utf8("\",\n"@)
    }
}

/// The whole XPM document.
pub open spec fn spec_xpm(
    canvas: Seq<Seq<Seq<u16>>>,
    colors: Seq<Color>,
    s: Slicing,
    footer: Seq<u8>,
) -> Seq<u8> {
    let cpp = spec_chars_per_pixel(colors.len() as int);
    encode_utf8("/* XPM */\n/* Command line: */\n/* "@) + footer + encode_utf8(
        "*/\nstatic char *xpmdata[] = {\n/* width height ncolors chars_per_pixel */\n\""@,
    ) + spec_decimal(s.width as int) + encode_utf8(" "@) + spec_decimal(s.height as int)
        + encode_utf8(" "@) + spec_decimal(colors.len() as int) + encode_utf8(" "@) + spec_decimal(
        cpp,
    ) + encode_utf8("\",\n/* colors */\n"@) + spec_xpm_color_lines(
        colors,
        cpp,
        colors.len() as int,
    ) + encode_utf8("/* pixels */\n"@) + spec_xpm_rows(canvas, s, cpp, s.height as int)
        + encode_utf8("};\n"@)
}

/// Encodes the canvas as an XPM document.
#[verifier::rlimit(100)]
pub fn xpm_data(
    canvas: &Vec<Vec<Vec<u16>>>,
    table: &ColorTable,
    slicing: &Slicing,
    footer: &[u8],
) -> (out: Vec<u8>)
    requires
        slicing.wf(),
        slicing.width <= u32::MAX,
        slicing.height <= u32::MAX,
        table.colors().len() <= u32::MAX,
        slices_wf(slices_view(canvas@), *slicing),
        canvas_in_range(slices_view(canvas@), table.colors().len() as int),
    ensures
        out@ == spec_xpm(slices_view(canvas@), table.colors(), *slicing, footer@),
{
    let ghost cv = slices_view(canvas@);
    let ghost colors = table.colors();
    proof {
        lemma_alphabet_len();
    }
    let chars_vec = xpm_alphabet_bytes();
    let chars = chars_vec.as_slice();
    let ncolors = table.len();
    let cpp = get_chars_per_pixel(ncolors, chars);
    let width = slicing.width;
    let height = slicing.height;
    let mut out: Vec<u8> = Vec::new();
    push_str(&mut out, "/* XPM */\n/* Command line: */\n/* ");
    push_bytes(&mut out, footer);
    push_str(&mut out, "*/\nstatic char *xpmdata[] = {\n/* width height ncolors chars_per_pixel */\n\"");
    push_decimal(&mut out, width as u32);
    push_str(&mut out, " ");
    push_decimal(&mut out, height as u32);
    push_str(&mut out, " ");
    push_decimal(&mut out, ncolors as u32);
    push_str(&mut out, " ");
    push_decimal(&mut out, cpp as u32);
    push_str(&mut out, "\",\n/* colors */\n");
    let ghost head = out@;
    let mut i: usize = 0;
    while i < ncolors
        invariant
            i <= ncolors,
            ncolors == colors.len(),
            colors == table.colors(),
            chars_vec@ == xpm_alphabet(),
            chars@ == xpm_alphabet(),
            chars@.len() == 64,
            cpp == spec_chars_per_pixel(colors.len() as int),
            out@ == head + spec_xpm_color_lines(colors, cpp as int, i as int),
        decreases ncolors - i,
    {
        let color = table.get(i);
        push_str(&mut out, "\"");
        let cs = get_chars(chars, i, cpp);
        push_bytes(&mut out, cs.as_slice());
        push_str(&mut out, " c #");
        push_hex2(&mut out, color.red);
        push_hex2(&mut out, color.green);
        push_hex2(&mut out, color.blue);
        push_str(&mut out, "\",\n");
        proof {
            assert(out@ =~= head + spec_xpm_color_lines(colors, cpp as int, i + 1));
        }
        i = i + 1;
    }
    push_str(&mut out, "/* pixels */\n");
    let ghost mid = out@;
    let mut r: usize = 0;
    while r < height
        invariant
            r <= height,
            height == slicing.height,
            width == slicing.width,
            slicing.wf(),
            cv == slices_view(canvas@),
            colors == table.colors(),
            slices_wf(cv, *slicing),
            canvas_in_range(cv, colors.len() as int),
            chars_vec@ == xpm_alphabet(),
            chars@ == xpm_alphabet(),
            chars@.len() == 64,
            cpp == spec_chars_per_pixel(colors.len() as int),
            out@ == mid + spec_xpm_rows(cv, *slicing, cpp as int, r as int),
        decreases height - r,
    {
        proof {
            slicing.lemma_translate_roundtrip(r as int);
        }
        let (vi, hi) = slicing.translate_index(r);
        push_str(&mut out, "\"\n");
        let ghost row_start = out@;
        let mut c: usize = 0;
        while c < width
            invariant
                c <= width,
                width == slicing.width,
                slicing.wf(),
                cv == slices_view(canvas@),
                colors == table.colors(),
                slices_wf(cv, *slicing),
                canvas_in_range(cv, colors.len() as int),
                chars_vec@ == xpm_alphabet(),
                chars@ == xpm_alphabet(),
                chars@.len() == 64,
                cpp == spec_chars_per_pixel(colors.len() as int),
                vi == r as int / (slicing.slice_height as int),
                hi == r as int % (slicing.slice_height as int),
                vi < slicing.slice_count,
                hi < slicing.spec_get_slice_height(vi as int),
                r < slicing.height,
                out@ == row_start + spec_xpm_cells(cv, *slicing, cpp as int, r as int, c as int),
            decreases width - c,
        {
            proof {
                assert(cv[vi as int] == canvas@[vi as int]@.map_values(|w: Vec<u16>| w@));
                assert(cv[vi as int][hi as int] == canvas@[vi as int]@[hi as int]@);
            }
            let color_index = canvas[vi][hi][c] as usize;
            let cs = get_chars(chars, color_index, cpp);
            push_bytes(&mut out, cs.as_slice());
            push_str(&mut out, "\n");
            proof {
                assert(slices_at(cv, *slicing, r as int, c as int) == color_index as u16);
                assert(out@ =~= row_start + spec_xpm_cells(cv, *slicing, cpp as int, r as int, c
                    + 1));
            }
            c = c + 1;
        }
        push_str(&mut out, "\",\n");
        proof {
            assert(out@ =~= mid + spec_xpm_rows(cv, *slicing, cpp as int, r + 1));
        }
        r = r + 1;
    }
    push_str(&mut out, "};\n");
    proof {
        assert(out@ =~= spec_xpm(cv, colors, *slicing, footer@));
    }
    out
}

/// The XPM document depends only on the image the buffers hold: partitions
/// with the same pixels print the same text, whatever the slice count. This
/// is this format's share of the renderer's guarantee that the worker count
/// never changes the output.
pub proof fn lemma_xpm_partition_independent(
    canvas1: Seq<Seq<Seq<u16>>>,
    s1: Slicing,
    canvas2: Seq<Seq<Seq<u16>>>,
    s2: Slicing,
    colors: Seq<Color>,
    footer: Seq<u8>,
)
    requires
        s1.width == s2.width,
        s1.height == s2.height,
        forall|r: int, c: int|
            0 <= r < s1.height && 0 <= c < s1.width ==> slices_at(canvas1, s1, r, c)
                == slices_at(canvas2, s2, r, c),
    ensures
        spec_xpm(canvas1, colors, s1, footer) == spec_xpm(canvas2, colors, s2, footer),
{
    let cpp = spec_chars_per_pixel(colors.len() as int);
    lemma_xpm_rows_agree(canvas1, s1, canvas2, s2, cpp, s1.height as int);
}

proof fn lemma_xpm_cells_agree(
    canvas1: Seq<Seq<Seq<u16>>>,
    s1: Slicing,
    canvas2: Seq<Seq<Seq<u16>>>,
    s2: Slicing,
    cpp: int,
    r: int,
    n: int,
)
    requires
        s1.width == s2.width,
        s1.height == s2.height,
        0 <= r < s1.height,
        n <= s1.width,
        forall|rr: int, cc: int|
            0 <= rr < s1.height && 0 <= cc < s1.width ==> slices_at(canvas1, s1, rr, cc)
                == slices_at(canvas2, s2, rr, cc),
    ensures
        spec_xpm_cells(canvas1, s1, cpp, r, n) == spec_xpm_cells(canvas2, s2, cpp, r, n),
    decreases n,
{
    if n > 0 {
        lemma_xpm_cells_agree(canvas1, s1, canvas2, s2, cpp, r, n - 1);
    }
}

proof fn lemma_xpm_rows_agree(
    canvas1: Seq<Seq<Seq<u16>>>,
    s1: Slicing,
    canvas2: Seq<Seq<Seq<u16>>>,
    s2: Slicing,
    cpp: int,
    n: int,
)
    requires
        s1.width == s2.width,
        s1.height == s2.height,
        n <= s1.height,
        forall|rr: int, cc: int|
            0 <= rr < s1.height && 0 <= cc < s1.width ==> slices_at(canvas1, s1, rr, cc)
                == slices_at(canvas2, s2, rr, cc),
    ensures
        spec_xpm_rows(canvas1, s1, cpp, n) == spec_xpm_rows(canvas2, s2, cpp, n),
    decreases n,
{
    if n > 0 {
        lemma_xpm_rows_agree(canvas1, s1, canvas2, s2, cpp, n - 1);
        lemma_xpm_cells_agree(canvas1, s1, canvas2, s2, cpp, n - 1, s1.width as int);
    }
}

} // verus!
