//! The palette: colors read from a `.col` text file, one `index red green
//! blue` record per line, gaps filled by linear interpolation, and a set of
//! named slots (background, sea, land, biome band) derived from the size.

use vstd::prelude::*;

verus! {

#[derive(Clone, Copy, PartialEq, Eq, Structural, Debug)]
pub struct Color {
    pub red: u8,
    pub green: u8,
    pub blue: u8,
}

impl Color {
    pub fn new() -> (c: Self)
        ensures
            c == spec_black(),
    {
        Self::from_colors(0, 0, 0)
    }

    pub fn from_colors(r: u8, g: u8, b: u8) -> (c: Self)
        ensures
            c.red == r,
            c.green == g,
            c.blue == b,
    {
        Self { red: r, green: g, blue: b }
    }
}

pub open spec fn spec_black() -> Color {
    Color { red: 0, green: 0, blue: 0 }
}

pub open spec fn spec_white() -> Color {
    Color { red: 255, green: 255, blue: 255 }
}

/// One explicit record of a palette file.
#[derive(Clone, Copy, PartialEq, Eq, Structural, Debug)]
pub struct ColorRow {
    pub index: usize,
    pub color: Color,
}

impl ColorRow {
    pub fn from_index_and_colors(index: usize, r: u8, g: u8, b: u8) -> (row: Self)
        ensures
            row.index == index,
            row.color.red == r,
            row.color.green == g,
            row.color.blue == b,
    {
        Self { index, color: Color::from_colors(r, g, b) }
    }
}

/// Why a palette file was rejected: a bad index field, a bad color field,
/// a line with fewer than four fields, or a file whose records break the
/// palette's shape (the indices 0 through 6 present, strictly increasing).
#[derive(Clone, Copy, PartialEq, Eq, Structural, Debug)]
pub enum ColorFileParseError {
    IndexParse,
    ColorParse,
    TooFewTokens,
    Validation,
}

// ---------------------------------------------------------------------------
// Splitting a line into whitespace-separated fields.
// ---------------------------------------------------------------------------

pub open spec fn is_ascii_space(b: u8) -> bool {
    b == 32 || b == 9 || b == 10 || b == 12 || b == 13
}

/// The length of the leading run of non-space bytes.
pub open spec fn token_len(s: Seq<u8>) -> int
    decreases s.len(),
{
    if s.len() == 0 || is_ascii_space(s[0]) {
        0
    } else {
        1 + token_len(s.drop_first())
    }
}

pub proof fn lemma_token_len_bounds(s: Seq<u8>)
    ensures
        0 <= token_len(s) <= s.len(),
        s.len() > 0 && !is_ascii_space(s[0]) ==> 1 <= token_len(s),
    decreases s.len(),
{
    if s.len() > 0 && !is_ascii_space(s[0]) {
        lemma_token_len_bounds(s.drop_first());
    }
}

/// The whitespace-separated fields of a line, in order.
pub open spec fn spec_tokens(s: Seq<u8>) -> Seq<Seq<u8>>
    decreases s.len(),
    via spec_tokens_dec
{
    if s.len() == 0 {
        seq![]
    } else if is_ascii_space(s[0]) {
        spec_tokens(s.drop_first())
    } else {
        seq![s.take(token_len(s))] + spec_tokens(s.skip(token_len(s)))
    }
}

#[via_fn]
proof fn spec_tokens_dec(s: Seq<u8>) {
    lemma_token_len_bounds(s);
}

/// Splits `bytes` at ASCII whitespace, dropping empty fields.
fn tokenize(bytes: &[u8]) -> (r: Vec<Vec<u8>>)
    ensures
        r@.map_values(|t: Vec<u8>| t@) == spec_tokens(bytes@),
{
    let n = bytes.len();
    let mut r: Vec<Vec<u8>> = Vec::new();
    let mut i: usize = 0;
    proof {
        let f = |t: Vec<u8>| t@;
        assert(bytes@.skip(0) =~= bytes@);
        assert(r@.map_values(f) =~= Seq::<Seq<u8>>::empty());
        assert(Seq::<Seq<u8>>::empty() + spec_tokens(bytes@) =~= spec_tokens(bytes@));
    }
    while i < n
        invariant
            n == bytes@.len(),
            i <= n,
            r@.map_values(|t: Vec<u8>| t@) + spec_tokens(bytes@.skip(i as int)) == spec_tokens(
                bytes@,
            ),
        decreases n - i,
    {
        let b = bytes[i];
        if is_space(b) {
            proof {
                assert(bytes@.skip(i as int).drop_first() =~= bytes@.skip(i + 1));
            }
            i = i + 1;
        } else {
            let start = i;
            let mut tok: Vec<u8> = Vec::new();
            while i < n && !(bytes[i] == 32 || bytes[i] == 9 || bytes[i] == 10 || bytes[i] == 12
                || bytes[i] == 13)
                invariant
                    n == bytes@.len(),
                    start <= i <= n,
                    tok@ =~= bytes@.subrange(start as int, i as int),
                    forall|j: int| start <= j < i ==> !is_ascii_space(bytes@[j]),
                decreases n - i,
            {
                tok.push(bytes[i]);
                proof {
                    assert(tok@ =~= bytes@.subrange(start as int, i + 1));
                }
                i = i + 1;
            }
            proof {
                let rest = bytes@.skip(start as int);
                assert(forall|j: int| 0 <= j < i - start ==> rest[j] == bytes@[start + j]);
                if i < n {
                    assert(rest[i - start] == bytes@[i as int]);
                }
                lemma_token_run(rest, i - start);
                assert(tok@ =~= rest.take(i - start));
                assert(bytes@.skip(i as int) =~= rest.skip(i - start));
                let f = |t: Vec<u8>| t@;
                assert(r@.push(tok).map_values(f) =~= r@.map_values(f).push(tok@));
                assert(r@.map_values(f).push(tok@) + spec_tokens(rest.skip(i - start))
                    =~= r@.map_values(f) + (seq![tok@] + spec_tokens(rest.skip(i - start))));
            }
            r.push(tok);
        }
    }
    proof {
        assert(bytes@.skip(n as int) =~= Seq::<u8>::empty());
        assert(r@.map_values(|t: Vec<u8>| t@) + Seq::<Seq<u8>>::empty() =~= r@.map_values(
            |t: Vec<u8>| t@,
        ));
    }
    r
}

/// A run of `k` non-space bytes at the front, ended by the end of input or a
/// space, is exactly the leading token.
proof fn lemma_token_run(s: Seq<u8>, k: int)
    requires
        0 <= k <= s.len(),
        forall|j: int| 0 <= j < k ==> !is_ascii_space(s[j]),
        k == s.len() || is_ascii_space(s[k as int]),
        k > 0,
    ensures
        token_len(s) == k,
        spec_tokens(s) == seq![s.take(k)] + spec_tokens(s.skip(k)),
    decreases k,
{
    if k == 1 {
        assert(token_len(s.drop_first()) == 0);
        assert(s.drop_first() =~= s.skip(1));
    } else {
        lemma_token_run(s.drop_first(), k - 1);
        assert(forall|j: int| 0 <= j < k - 1 ==> s.drop_first()[j] == s[j + 1]);
    }
}

fn is_space(b: u8) -> (r: bool)
    ensures
        r == is_ascii_space(b),
{
    b == 32 || b == 9 || b == 10 || b == 12 || b == 13
}

// ---------------------------------------------------------------------------
// Reading a decimal field.
// ---------------------------------------------------------------------------

pub open spec fn is_ascii_digit(b: u8) -> bool {
    48 <= b <= 57
}

/// The digits of a numeric field: everything past an optional leading `+`.
pub open spec fn number_digits(t: Seq<u8>) -> Seq<u8> {
    if t.len() > 0 && t[0] == 43 {
        t.drop_first()
    } else {
        t
    }
}

/// A field is numeric when an optional `+` is followed by one or more digits
/// and nothing else.
pub open spec fn is_number_token(t: Seq<u8>) -> bool {
    let d = number_digits(t);
    d.len() > 0 && forall|i: int| 0 <= i < d.len() ==> is_ascii_digit(d[i])
}

/// The value of a digit string, most significant first.
pub open spec fn digits_value(d: Seq<u8>) -> int
    decreases d.len(),
{
    if d.len() == 0 {
        0
    } else {
        digits_value(d.drop_last()) * 10 + (d.last() - 48)
    }
}

pub open spec fn number_value(t: Seq<u8>) -> int {
    digits_value(number_digits(t))
}

proof fn lemma_digits_value_nonneg(d: Seq<u8>)
    requires
        forall|i: int| 0 <= i < d.len() ==> is_ascii_digit(d[i]),
    ensures
        digits_value(d) >= 0,
    decreases d.len(),
{
    if d.len() > 0 {
        lemma_digits_value_nonneg(d.drop_last());
    }
}

/// Reading further digits never shrinks the value.
proof fn lemma_digits_value_prefix_le(d: Seq<u8>, i: int)
    requires
        forall|j: int| 0 <= j < d.len() ==> is_ascii_digit(d[j]),
        0 <= i <= d.len(),
    ensures
        digits_value(d.take(i)) <= digits_value(d),
    decreases d.len() - i,
{
    if i == d.len() {
        assert(d.take(i) =~= d);
    } else {
        assert(d.take(i + 1).drop_last() =~= d.take(i));
        assert(d.take(i + 1).last() == d[i]);
        assert(forall|j: int| 0 <= j < d.take(i).len() ==> is_ascii_digit(d.take(i)[j]));
        lemma_digits_value_nonneg(d.take(i));
        assert(digits_value(d.take(i)) <= digits_value(d.take(i)) * 10 + (d[i] - 48))
            by (nonlinear_arith)
            requires
                digits_value(d.take(i)) >= 0,
                48 <= d[i] <= 57,
        ;
        lemma_digits_value_prefix_le(d, i + 1);
    }
}

/// Reads a decimal field. Returns its value when the field is numeric and the
/// value is at most `max`; nothing otherwise.
fn parse_number(t: &Vec<u8>, max: usize) -> (r: Option<usize>)
    ensures
        match r {
            Some(v) => is_number_token(t@) && number_value(t@) == v && v <= max,
            None => !is_number_token(t@) || number_value(t@) > max,
        },
{
    let start: usize = if t.len() > 0 && t[0] == 43 {
        1
    } else {
        0
    };
    let ghost d = number_digits(t@);
    let n = t.len();
    if n == start {
        return None;
    }
    let mut acc: usize = 0;
    let mut i: usize = start;
    while i < n
        invariant
            n == t@.len(),
            start <= i <= n,
            start == (if t@.len() > 0 && t@[0] == 43 { 1int } else { 0int }),
            d == number_digits(t@),
            forall|j: int| 0 <= j < i - start ==> is_ascii_digit(d[j]),
            acc == digits_value(d.take(i - start)),
            acc <= max,
        decreases n - i,
    {
        let b = t[i];
        proof {
            assert(d[i - start] == t@[i as int]);
        }
        if !(48 <= b && b <= 57) {
            return None;
        }
        let dig = (b - 48) as usize;
        proof {
            assert(d.take(i - start + 1).drop_last() =~= d.take(i - start));
            assert(d.take(i - start + 1).last() == d[i - start]);
        }
        if acc > max / 10 || (acc == max / 10 && dig > max % 10) {
            proof {
                if is_number_token(t@) {
                    lemma_digits_value_prefix_le(d, i - start + 1);
                    assert(max == 10 * (max / 10) + max % 10);
                    assert(digits_value(d.take(i - start + 1)) == acc * 10 + dig);
                    assert(acc * 10 + dig > max) by (nonlinear_arith)
                        requires
                            acc > max / 10 || (acc == max / 10 && dig > max % 10),
                            max == 10 * (max / 10) + max % 10,
                            0 <= max % 10 < 10,
                            0 <= dig,
                            0 <= acc,
                    ;
                }
            }
            return None;
        }
        proof {
            assert(acc * 10 + dig <= max) by (nonlinear_arith)
                requires
                    acc <= max / 10,
                    acc < max / 10 || dig <= max % 10,
                    max == 10 * (max / 10) + max % 10,
                    0 <= max % 10 < 10,
                    0 <= dig <= 9,
                    0 <= acc,
            ;
        }
        acc = acc * 10 + dig;
        i = i + 1;
    }
    proof {
        assert(d.take(n - start) =~= d);
    }
    Some(acc)
}

// ---------------------------------------------------------------------------
// Reading one record.
// ---------------------------------------------------------------------------

/// What one line of a palette file means: at least four fields, the first a
/// `usize` index (clamped to 65535), the next three channel values up to 255.
/// Extra fields are ignored.
pub open spec fn spec_parse_color_line(bytes: Seq<u8>) -> Result<ColorRow, ColorFileParseError> {
    spec_parse_color_tokens(spec_tokens(bytes))
}

/// `spec_parse_color_line`, over the fields already split.
pub open spec fn spec_parse_color_tokens(toks: Seq<Seq<u8>>) -> Result<
    ColorRow,
    ColorFileParseError,
> {
    if toks.len() <= 3 {
        Err(ColorFileParseError::TooFewTokens)
    } else if !(is_number_token(toks[0]) && number_value(toks[0]) <= usize::MAX) {
        Err(ColorFileParseError::IndexParse)
    } else if !(is_number_token(toks[1]) && number_value(toks[1]) <= 255) {
        Err(ColorFileParseError::ColorParse)
    } else if !(is_number_token(toks[2]) && number_value(toks[2]) <= 255) {
        Err(ColorFileParseError::ColorParse)
    } else if !(is_number_token(toks[3]) && number_value(toks[3]) <= 255) {
        Err(ColorFileParseError::ColorParse)
    } else {
        let v = number_value(toks[0]);
        Ok(
            ColorRow {
                index: if v > 65535 {
                    65535 as usize
                } else {
                    v as usize
                },
                color: Color {
                    red: number_value(toks[1]) as u8,
                    green: number_value(toks[2]) as u8,
                    blue: number_value(toks[3]) as u8,
                },
            },
        )
    }
}

/// Reads one palette record: `index red green blue`, whitespace separated.
pub fn get_color_line_values(line: String) -> (r: Result<ColorRow, ColorFileParseError>)
    ensures
        r == spec_parse_color_line(vstd::utf8::encode_utf8(line@)),
{
    parse_color_line_bytes(line.as_str().as_bytes())
}

fn parse_color_line_bytes(bytes: &[u8]) -> (r: Result<ColorRow, ColorFileParseError>)
    ensures
        r == spec_parse_color_line(bytes@),
{
    let toks = tokenize(bytes);
    parse_color_tokens(&toks)
}

fn parse_color_tokens(toks: &Vec<Vec<u8>>) -> (r: Result<ColorRow, ColorFileParseError>)
    ensures
        r == spec_parse_color_tokens(toks@.map_values(|t: Vec<u8>| t@)),
{
    if toks.len() <= 3 {
        return Err(ColorFileParseError::TooFewTokens);
    }
    proof {
        assert(toks@.map_values(|t: Vec<u8>| t@)[0] == toks@[0]@);
        assert(toks@.map_values(|t: Vec<u8>| t@)[1] == toks@[1]@);
        assert(toks@.map_values(|t: Vec<u8>| t@)[2] == toks@[2]@);
        assert(toks@.map_values(|t: Vec<u8>| t@)[3] == toks@[3]@);
    }
    let index = match parse_number(&toks[0], usize::MAX) {
        Some(v) => if v > 65535 {
            65535
        } else {
            v
        },
        None => {
            return Err(ColorFileParseError::IndexParse);
        },
    };
    let red = match parse_number(&toks[1], 255) {
        Some(v) => v as u8,
        None => {
            return Err(ColorFileParseError::ColorParse);
        },
    };
    let green = match parse_number(&toks[2], 255) {
        Some(v) => v as u8,
        None => {
            return Err(ColorFileParseError::ColorParse);
        },
    };
    let blue = match parse_number(&toks[3], 255) {
        Some(v) => v as u8,
        None => {
            return Err(ColorFileParseError::ColorParse);
        },
    };
    Ok(ColorRow::from_index_and_colors(index, red, green, blue))
}

// ---------------------------------------------------------------------------
// The palette table.
// ---------------------------------------------------------------------------

/// The dense palette with its named slots. Slots 0 through 6 are fixed
/// (black, white, background, grid, two outlines, sea bottom); the remaining
/// names are derived from the size when the table is built.
#[derive(Debug)]
pub struct ColorTable {
    pub rows: Vec<Color>,
    pub black: u16,
    pub white: u16,
    pub back: u16,
    pub grid: u16,
    pub outline1: u16,
    pub outline2: u16,
    pub sea_bottom: u16,
    pub sea_level: u16,
    pub lowest_land: u16,
    pub highest_land: u16,
    pub sea_depth: u16,
    pub land_height: u16,
}

impl ColorTable {
    pub open spec fn colors(&self) -> Seq<Color> {
        self.rows@
    }

    pub fn new(size: usize) -> (t: Self)
        ensures
            t.colors().len() == size,
            forall|i: int| 0 <= i < size ==> t.colors()[i] == spec_black(),
            t.black == 0 && t.white == 1 && t.back == 2 && t.grid == 3,
            t.outline1 == 4 && t.outline2 == 5 && t.sea_bottom == 6,
            t.sea_level == 7 && t.lowest_land == 8 && t.highest_land == 9,
            t.sea_depth == 0 && t.land_height == 0,
    {
        let mut rows: Vec<Color> = Vec::new();
        let mut i: usize = 0;
        while i < size
            invariant
                i <= size,
                rows@.len() == i,
                forall|j: int| 0 <= j < i ==> rows@[j] == spec_black(),
            decreases size - i,
        {
            rows.push(Color::new());
            i = i + 1;
        }
        Self {
            rows,
            black: 0,
            white: 1,
            back: 2,
            grid: 3,
            outline1: 4,
            outline2: 5,
            sea_bottom: 6,
            sea_level: 7,
            lowest_land: 8,
            highest_land: 9,
            sea_depth: 0,
            land_height: 0,
        }
    }

    pub fn len(&self) -> (r: usize)
        ensures
            r == self.colors().len(),
    {
        self.rows.len()
    }

    pub fn get(&self, i: usize) -> (c: Color)
        requires
            i < self.colors().len(),
        ensures
            c == self.colors()[i as int],
    {
        self.rows[i]
    }

    pub fn set(&mut self, i: usize, c: Color)
        requires
            i < old(self).colors().len(),
        ensures
            final(self).colors() == old(self).colors().update(i as int, c),
            slot_fields(final(self)) == slot_fields(old(self)),
    {
        self.rows.set(i, c);
    }

    /// True when the table holds nothing but pure black and pure white.
    pub fn is_monochrome(&self) -> (r: bool)
        ensures
            r == spec_is_monochrome(self.colors()),
    {
        let n = self.rows.len();
        let mut i: usize = 0;
        while i < n
            invariant
                i <= n,
                n == self.colors().len(),
                forall|j: int| 0 <= j < i ==> is_black_or_white(self.colors()[j]),
            decreases n - i,
        {
            let c = self.rows[i];
            if !((c.red == 0 && c.green == 0 && c.blue == 0) || (c.red == 255 && c.green == 255
                && c.blue == 255)) {
                return false;
            }
            i = i + 1;
        }
        true
    }
}

/// The twelve named slots of a table, bundled.
pub open spec fn slot_fields(t: &ColorTable) -> Seq<u16> {
    seq![
        t.black,
        t.white,
        t.back,
        t.grid,
        t.outline1,
        t.outline2,
        t.sea_bottom,
        t.sea_level,
        t.lowest_land,
        t.highest_land,
        t.sea_depth,
        t.land_height,
    ]
}

pub open spec fn is_black_or_white(c: Color) -> bool {
    c == spec_black() || c == spec_white()
}

pub open spec fn spec_is_monochrome(colors: Seq<Color>) -> bool {
    forall|i: int| 0 <= i < colors.len() ==> is_black_or_white(colors[i])
}

// ---------------------------------------------------------------------------
// Gap interpolation.
// ---------------------------------------------------------------------------

/// Integer division rounded toward zero.
pub open spec fn div_trunc(n: int, d: int) -> int {
    if n >= 0 {
        n / d
    } else {
        -((-n) / d)
    }
}

/// One channel of a gap entry: the start channel plus the linear delta
/// toward the end channel, truncated toward zero.
pub open spec fn interp_channel(c0: u8, c1: u8, offset: int, span: int) -> u8 {
    (c0 + div_trunc((c1 - c0) * offset, span)) as u8
}

pub open spec fn interp_color(c0: Color, c1: Color, offset: int, span: int) -> Color {
    Color {
        red: interp_channel(c0.red, c1.red, offset, span),
        green: interp_channel(c0.green, c1.green, offset, span),
        blue: interp_channel(c0.blue, c1.blue, offset, span),
    }
}

/// The per-index change between two records, one exact fraction per
/// channel: the numerators over the shared denominator `r.3`, the index
/// span.
pub fn get_color_steps(start_index: usize, sc: &Color, end_index: usize, ec: &Color) -> (r: (
    i16,
    i16,
    i16,
    u16,
))
    requires
        start_index < end_index,
        end_index - start_index <= 65535,
    ensures
        r.0 == ec.red - sc.red,
        r.1 == ec.green - sc.green,
        r.2 == ec.blue - sc.blue,
        r.3 == end_index - start_index,
{
    let index_diff = (end_index - start_index) as u16;
    (
        ec.red as i16 - sc.red as i16,
        ec.green as i16 - sc.green as i16,
        ec.blue as i16 - sc.blue as i16,
        index_diff,
    )
}

/// Between a pure black record and a pure white one 255 indices later, the
/// interpolated entry at offset `d` is the grey `(d, d, d)`.
pub proof fn lemma_interp_grey_ramp(d: int)
    requires
        0 <= d <= 255,
    ensures
        interp_color(spec_black(), spec_white(), d, 255) == (Color {
            red: d as u8,
            green: d as u8,
            blue: d as u8,
        }),
{
    assert((255 * d) / 255 == d) by {
        vstd::arithmetic::div_mod::lemma_div_by_multiple(d, 255);
        assert(d * 255 == 255 * d) by (nonlinear_arith);
    };
}

fn interp_channel_exec(c0: u8, c1: u8, offset: u16, span: u16) -> (r: u8)
    requires
        0 < span,
        offset <= span,
    ensures
        r == interp_channel(c0, c1, offset as int, span as int),
{
    if c1 >= c0 {
        let mag = (c1 - c0) as u32;
        proof {
            assert(mag as int * offset as int <= 255 * 65535) by (nonlinear_arith)
                requires
                    0 <= mag <= 255,
                    0 <= offset <= 65535,
            ;
        }
        let delta = (mag * offset as u32) / (span as u32);
        proof {
            lemma_scaled_delta_le(mag as int, offset as int, span as int);
            assert((c1 - c0) * (offset as int) == mag as int * offset as int);
        }
        c0 + (delta as u8)
    } else {
        let mag = (c0 - c1) as u32;
        proof {
            assert(mag as int * offset as int <= 255 * 65535) by (nonlinear_arith)
                requires
                    0 <= mag <= 255,
                    0 <= offset <= 65535,
            ;
        }
        let delta = (mag * offset as u32) / (span as u32);
        proof {
            lemma_scaled_delta_le(mag as int, offset as int, span as int);
            assert(-((c1 - c0) * (offset as int)) == mag as int * offset as int)
                by (nonlinear_arith)
                requires
                    mag == c0 - c1,
            ;
        }
        c0 - (delta as u8)
    }
}

/// The scaled delta of a gap entry never exceeds the full channel change.
proof fn lemma_scaled_delta_le(mag: int, offset: int, span: int)
    requires
        0 <= mag,
        0 <= offset <= span,
        0 < span,
    ensures
        0 <= (mag * offset) / span <= mag,
{
    assert(mag * offset <= mag * span) by (nonlinear_arith)
        requires
            0 <= mag,
            offset <= span,
    ;
    assert(0 <= mag * offset) by (nonlinear_arith)
        requires
            0 <= mag,
            0 <= offset,
    ;
    vstd::arithmetic::div_mod::lemma_div_is_ordered(mag * offset, mag * span, span);
    vstd::arithmetic::div_mod::lemma_div_by_multiple(mag, span);
    vstd::arithmetic::div_mod::lemma_div_pos_is_pos(mag * offset, span);
}

// ---------------------------------------------------------------------------
// Building the dense table from the explicit records.
// ---------------------------------------------------------------------------

/// The shape a record list must have: indices strictly increasing, the seven
/// fixed slots 0 through 6 present, at least one altitude slot above them,
/// and every index inside the 16-bit palette range.
pub open spec fn rows_valid(rows: Seq<ColorRow>) -> bool {
    &&& rows.len() >= 8
    &&& forall|i: int| 0 <= i < 7 ==> #[trigger] rows[i].index == i
    &&& forall|i: int| 0 <= i < rows.len() - 1 ==> #[trigger] rows[i].index < rows[i + 1].index
    &&& forall|i: int| 0 <= i < rows.len() ==> #[trigger] rows[i].index <= 65535
}

/// The color that position `p` of the finished palette holds, given the
/// explicit records: the nearest record at or below `p` when `p` names a
/// record, interpolated between its neighbours inside a gap, and the last
/// record's color above all records.
pub open spec fn spec_palette_at(rows: Seq<ColorRow>, p: int) -> Color
    decreases rows.len(),
{
    if rows.len() == 0 {
        spec_black()
    } else if p >= rows.last().index {
        rows.last().color
    } else if rows.len() >= 2 && p > rows[rows.len() - 2].index {
        interp_color(
            rows[rows.len() - 2].color,
            rows.last().color,
            p - rows[rows.len() - 2].index,
            rows.last().index - rows[rows.len() - 2].index,
        )
    } else {
        spec_palette_at(rows.drop_last(), p)
    }
}

/// What the finished table of a valid record list holds: every position up
/// to the top index carries its palette color, and the named slots derive
/// from the top index.
pub open spec fn table_matches(t: ColorTable, rows: Seq<ColorRow>) -> bool {
    let last = rows.last().index as int;
    &&& t.colors().len() == last + 1
    &&& forall|p: int| 0 <= p <= last ==> t.colors()[p] == spec_palette_at(rows, p)
    &&& t.black == 0 && t.white == 1 && t.back == 2 && t.grid == 3
    &&& t.outline1 == 4 && t.outline2 == 5 && t.sea_bottom == 6
    &&& t.highest_land == last
    &&& t.sea_level == (6 + last) / 2
    &&& t.lowest_land == t.sea_level + 1
    &&& t.sea_depth == t.sea_level - t.sea_bottom
    &&& t.land_height == t.highest_land - t.lowest_land
}

/// Later records do not change what the palette holds at or below the top
/// index of a prefix.
proof fn lemma_palette_at_prefix(rows: Seq<ColorRow>, m: int, p: int)
    requires
        forall|i: int| 0 <= i < rows.len() - 1 ==> #[trigger] rows[i].index < rows[i + 1].index,
        1 <= m <= rows.len(),
        p <= rows[m - 1].index,
    ensures
        spec_palette_at(rows.take(m), p) == spec_palette_at(rows, p),
    decreases rows.len() - m,
{
    if m == rows.len() {
        assert(rows.take(m) =~= rows);
    } else {
        lemma_palette_at_prefix(rows, m + 1, p);
        lemma_rows_index_le(rows, m - 1, m);
        let t = rows.take(m + 1);
        assert(t.drop_last() =~= rows.take(m));
        assert(t.last() == rows[m]);
        assert(p < t.last().index);
        assert(t[t.len() - 2] == rows[m - 1]);
        assert(!(p > t[t.len() - 2].index));
        assert(spec_palette_at(t, p) == spec_palette_at(rows.take(m), p));
    }
}

/// At a record's own index the palette holds that record's color.
pub proof fn lemma_palette_at_explicit(rows: Seq<ColorRow>, k: int)
    requires
        forall|i: int| 0 <= i < rows.len() - 1 ==> #[trigger] rows[i].index < rows[i + 1].index,
        0 <= k < rows.len(),
    ensures
        spec_palette_at(rows, rows[k].index as int) == rows[k].color,
    decreases rows.len(),
{
    let p = rows[k].index as int;
    if k == rows.len() - 1 {
        lemma_rows_index_le(rows, k, rows.len() - 1);
    } else {
        lemma_rows_index_le(rows, k, rows.len() - 2);
        lemma_rows_index_le(rows, rows.len() - 2, rows.len() - 1);
        assert(p <= rows[rows.len() - 2].index);
        assert(forall|i: int|
            0 <= i < rows.drop_last().len() - 1 ==> #[trigger] rows.drop_last()[i].index
                < rows.drop_last()[i + 1].index);
        lemma_palette_at_explicit(rows.drop_last(), k);
    }
}

/// Inside a gap the palette interpolates between the two records around it.
pub proof fn lemma_palette_at_gap(rows: Seq<ColorRow>, k: int, p: int)
    requires
        forall|i: int| 0 <= i < rows.len() - 1 ==> #[trigger] rows[i].index < rows[i + 1].index,
        0 <= k < rows.len() - 1,
        rows[k].index < p < rows[k + 1].index,
    ensures
        spec_palette_at(rows, p) == interp_color(
            rows[k].color,
            rows[k + 1].color,
            p - rows[k].index,
            rows[k + 1].index - rows[k].index,
        ),
    decreases rows.len(),
{
    if k == rows.len() - 2 {
    } else {
        lemma_rows_index_le(rows, k + 1, rows.len() - 2);
        lemma_rows_index_le(rows, rows.len() - 2, rows.len() - 1);
        assert(forall|i: int|
            0 <= i < rows.drop_last().len() - 1 ==> #[trigger] rows.drop_last()[i].index
                < rows.drop_last()[i + 1].index);
        lemma_palette_at_gap(rows.drop_last(), k, p);
    }
}

/// Indices grow along a valid record list.
proof fn lemma_rows_index_le(rows: Seq<ColorRow>, k: int, l: int)
    requires
        forall|i: int| 0 <= i < rows.len() - 1 ==> #[trigger] rows[i].index < rows[i + 1].index,
        0 <= k <= l < rows.len(),
    ensures
        rows[k].index <= rows[l].index,
        k < l ==> rows[k].index < rows[l].index,
    decreases l - k,
{
    if k < l {
        lemma_rows_index_le(rows, k + 1, l);
    }
}

fn validate_color_rows(rows: &Vec<ColorRow>) -> (r: bool)
    ensures
        r == rows_valid(rows@),
{
    let n = rows.len();
    if n < 8 {
        return false;
    }
    let mut i: usize = 0;
    while i < 7
        invariant
            i <= 7,
            n == rows@.len() >= 8,
            forall|j: int| 0 <= j < i ==> #[trigger] rows@[j].index == j,
        decreases 7 - i,
    {
        if rows[i].index != i {
            return false;
        }
        i = i + 1;
    }
    let mut i: usize = 0;
    while i < n - 1
        invariant
            i <= n - 1,
            n == rows@.len() >= 8,
            forall|j: int| 0 <= j < 7 ==> #[trigger] rows@[j].index == j,
            forall|j: int| 0 <= j < i ==> #[trigger] rows@[j].index < rows@[j + 1].index,
        decreases n - 1 - i,
    {
        if rows[i].index >= rows[i + 1].index {
            return false;
        }
        i = i + 1;
    }
    let mut i: usize = 0;
    while i < n
        invariant
            i <= n,
            n == rows@.len() >= 8,
            forall|j: int| 0 <= j < 7 ==> #[trigger] rows@[j].index == j,
            forall|j: int| 0 <= j < n - 1 ==> #[trigger] rows@[j].index < rows@[j + 1].index,
            forall|j: int| 0 <= j < i ==> #[trigger] rows@[j].index <= 65535,
        decreases n - i,
    {
        if rows[i].index > 65535 {
            return false;
        }
        i = i + 1;
    }
    true
}

/// Writes the interpolated entries of one gap, between records `prev` and
/// `row`, leaving everything else in place.
fn fill_gap(table: &mut ColorTable, prev: ColorRow, row: ColorRow)
    requires
        prev.index < row.index <= 65535,
        row.index < old(table).colors().len(),
    ensures
        final(table).colors().len() == old(table).colors().len(),
        slot_fields(final(table)) == slot_fields(old(table)),
        forall|p: int|
            prev.index < p < row.index ==> final(table).colors()[p] == interp_color(
                prev.color,
                row.color,
                p - prev.index,
                row.index - prev.index,
            ),
        forall|p: int|
            0 <= p < old(table).colors().len() && !(prev.index < p < row.index)
                ==> final(table).colors()[p] == old(table).colors()[p],
{
    let span = row.index - prev.index;
    let mut d: usize = 1;
    while d < span
        invariant
            1 <= d <= span,
            span == row.index - prev.index,
            row.index <= 65535,
            row.index < table.colors().len(),
            table.colors().len() == old(table).colors().len(),
            slot_fields(table) == slot_fields(old(table)),
            forall|p: int|
                prev.index < p < prev.index + d ==> table.colors()[p] == interp_color(
                    prev.color,
                    row.color,
                    p - prev.index,
                    span as int,
                ),
            forall|p: int|
                0 <= p < old(table).colors().len() && !(prev.index < p < prev.index + d)
                    ==> table.colors()[p] == old(table).colors()[p],
        decreases span - d,
    {
        let c = Color::from_colors(
            interp_channel_exec(prev.color.red, row.color.red, d as u16, span as u16),
            interp_channel_exec(prev.color.green, row.color.green, d as u16, span as u16),
            interp_channel_exec(prev.color.blue, row.color.blue, d as u16, span as u16),
        );
        table.set(prev.index + d, c);
        d = d + 1;
    }
}

/// Builds the dense palette of a valid record list.
#[verifier::rlimit(60)]
fn build_color_table(rows: &Vec<ColorRow>) -> (t: ColorTable)
    requires
        rows_valid(rows@),
    ensures
        table_matches(t, rows@),
{
    let n = rows.len();
    let last = rows[n - 1].index;
    proof {
        lemma_rows_index_le(rows@, 0, n - 1);
    }
    let mut table = ColorTable::new(last + 1);
    let mut j: usize = 0;
    while j < n
        invariant
            j <= n,
            n == rows@.len(),
            rows_valid(rows@),
            last == rows@.last().index,
            table.colors().len() == last + 1,
            forall|p: int|
                j > 0 && 0 <= p <= rows@[j - 1].index ==> table.colors()[p] == spec_palette_at(
                    rows@.take(j as int),
                    p,
                ),
            slot_fields(&table) =~= seq![0u16, 1u16, 2u16, 3u16, 4u16, 5u16, 6u16, 7u16, 8u16,
                9u16, 0u16, 0u16],
        decreases n - j,
    {
        let row = rows[j];
        let ghost before = table.colors();
        proof {
            lemma_rows_index_le(rows@, j as int, n - 1);
        }
        table.set(row.index, row.color);
        let ghost mid = table.colors();
        let mut filled_from: usize = row.index;
        if j > 0 {
            let prev = rows[j - 1];
            if row.index - prev.index > 1 {
                fill_gap(&mut table, prev, row);
            }
            filled_from = prev.index;
        }
        proof {
            let t1 = rows@.take(j + 1);
            let after = table.colors();
            assert(t1.drop_last() =~= rows@.take(j as int));
            assert(t1.last() == rows@[j as int]);
            assert forall|p: int| 0 <= p <= row.index implies after[p] == spec_palette_at(t1, p)
                by {
                if p == row.index {
                    assert(after[p] == row.color);
                } else if j == 0 {
                    assert(false);
                } else {
                    let prev = rows@[j - 1];
                    if p > prev.index {
                        assert(t1.len() >= 2 && t1[t1.len() - 2] == prev);
                        assert(after[p] == interp_color(
                            prev.color,
                            row.color,
                            p - prev.index,
                            row.index - prev.index,
                        ));
                    } else {
                        assert(after[p] == before[p]);
                        assert(before[p] == spec_palette_at(rows@.take(j as int), p));
                        assert(spec_palette_at(t1, p) == spec_palette_at(t1.drop_last(), p));
                    }
                }
            }
        }
        j = j + 1;
    }
    proof {
        assert(rows@.take(n as int) =~= rows@);
        lemma_rows_index_le(rows@, 6, n - 1);
        assert(last >= 7);
    }
    table.highest_land = last as u16;
    table.sea_level = ((6 + last) / 2) as u16;
    table.lowest_land = table.sea_level + 1;
    table.sea_depth = table.sea_level - table.sea_bottom;
    table.land_height = table.highest_land - table.lowest_land;
    table
}

// ---------------------------------------------------------------------------
// Reading a whole file and the public builders.
// ---------------------------------------------------------------------------

/// The records of a palette file, line by line: blank lines (no fields) are
/// skipped, and the first bad line decides the error.
pub open spec fn spec_parse_color_file(lines: Seq<Seq<char>>) -> Result<
    Seq<ColorRow>,
    ColorFileParseError,
>
    decreases lines.len(),
{
    if lines.len() == 0 {
        Ok(seq![])
    } else {
        match spec_parse_color_file(lines.drop_last()) {
            Err(e) => Err(e),
            Ok(rows) => {
                let bytes = vstd::utf8::encode_utf8(lines.last());
                if spec_tokens(bytes).len() == 0 {
                    Ok(rows)
                } else {
                    match spec_parse_color_tokens(spec_tokens(bytes)) {
                        Ok(row) => Ok(rows.push(row)),
                        Err(e) => Err(e),
                    }
                }
            },
        }
    }
}

/// An error in a prefix of the file decides the whole file.
proof fn lemma_parse_file_err(lines: Seq<Seq<char>>, m: int, e: ColorFileParseError)
    requires
        0 <= m <= lines.len(),
        spec_parse_color_file(lines.take(m)) == Err::<Seq<ColorRow>, ColorFileParseError>(e),
    ensures
        spec_parse_color_file(lines) == Err::<Seq<ColorRow>, ColorFileParseError>(e),
    decreases lines.len() - m,
{
    if m == lines.len() {
        assert(lines.take(m) =~= lines);
    } else {
        assert(lines.take(m + 1).drop_last() =~= lines.take(m));
        lemma_parse_file_err(lines, m + 1, e);
    }
}

fn parse_color_lines(lines: &Vec<String>) -> (r: Result<Vec<ColorRow>, ColorFileParseError>)
    ensures
        match r {
            Ok(rows) => spec_parse_color_file(lines@.map_values(|s: String| s@)) == Ok::<
                _,
                ColorFileParseError,
            >(rows@),
            Err(e) => spec_parse_color_file(lines@.map_values(|s: String| s@)) == Err::<
                Seq<ColorRow>,
                _,
            >(e),
        },
{
    let ghost views = lines@.map_values(|s: String| s@);
    let n = lines.len();
    let mut rows: Vec<ColorRow> = Vec::new();
    let mut i: usize = 0;
    while i < n
        invariant
            i <= n,
            n == lines@.len(),
            views == lines@.map_values(|s: String| s@),
            spec_parse_color_file(views.take(i as int)) == Ok::<_, ColorFileParseError>(rows@),
        decreases n - i,
    {
        proof {
            assert(views.take(i + 1).drop_last() =~= views.take(i as int));
            assert(views.take(i + 1).last() == views[i as int]);
            assert(views[i as int] == lines@[i as int]@);
        }
        let toks = tokenize(lines[i].as_str().as_bytes());
        if toks.len() > 0 {
            match parse_color_tokens(&toks) {
                Ok(row) => {
                    rows.push(row);
                },
                Err(e) => {
                    proof {
                        lemma_parse_file_err(views, i + 1, e);
                    }
                    return Err(e);
                },
            }
        }
        i = i + 1;
    }
    proof {
        assert(views.take(n as int) =~= views);
    }
    Ok(rows)
}

/// Reads palette records from the lines of a `.col` file and interpolates
/// the gaps. Fails on the first bad line, or on a record list that does not
/// have the palette's shape.
pub fn generate_color_data(lines: &Vec<String>) -> (r: Result<ColorTable, ColorFileParseError>)
    ensures
        match r {
            Ok(t) => {
                &&& spec_parse_color_file(lines@.map_values(|s: String| s@)) matches Ok(rows)
                &&& rows_valid(spec_parse_color_file(lines@.map_values(|s: String| s@))->Ok_0)
                &&& table_matches(t, spec_parse_color_file(lines@.map_values(|s: String| s@))->Ok_0)
            },
            Err(e) => match spec_parse_color_file(lines@.map_values(|s: String| s@)) {
                Ok(rows) => !rows_valid(rows) && e == ColorFileParseError::Validation,
                Err(pe) => e == pe,
            },
        },
{
    let rows = match parse_color_lines(lines) {
        Ok(rows) => rows,
        Err(e) => {
            return Err(e);
        },
    };
    if !validate_color_rows(&rows) {
        return Err(ColorFileParseError::Validation);
    }
    Ok(build_color_table(&rows))
}

/// The biome band: which offsets above `lowest_land` the biome palette
/// overwrites. Each is a biome letter's alphabet position (`'T'` - `'@'`,
/// and so on for `G B D S F R W E O I`).
pub open spec fn is_biome_offset(o: int) -> bool {
    o == 20 || o == 7 || o == 2 || o == 4 || o == 19 || o == 6 || o == 18 || o == 23 || o == 5
        || o == 15 || o == 9
}

/// The fixed color of each biome slot.
pub open spec fn biome_color(o: int) -> Color {
    if o == 20 {
        Color { red: 210, green: 210, blue: 210 }
    } else if o == 7 {
        Color { red: 250, green: 215, blue: 165 }
    } else if o == 2 {
        Color { red: 105, green: 155, blue: 120 }
    } else if o == 4 {
        Color { red: 220, green: 195, blue: 175 }
    } else if o == 19 {
        Color { red: 225, green: 155, blue: 100 }
    } else if o == 6 {
        Color { red: 155, green: 215, blue: 170 }
    } else if o == 18 {
        Color { red: 170, green: 195, blue: 200 }
    } else if o == 23 {
        Color { red: 185, green: 150, blue: 160 }
    } else if o == 5 {
        Color { red: 130, green: 190, blue: 25 }
    } else if o == 15 {
        Color { red: 110, green: 160, blue: 170 }
    } else {
        Color { red: 255, green: 255, blue: 255 }
    }
}

/// Builds the palette for a render: the interpolated table, with the biome
/// band written over the land colors when biomes are requested. Biome slots
/// past the end of a small table are left out.
pub fn build_color_data(lines: &Vec<String>, show_biomes: bool) -> (r: Result<
    ColorTable,
    ColorFileParseError,
>)
    ensures
        match r {
            Ok(t) => {
                &&& spec_parse_color_file(lines@.map_values(|s: String| s@)) matches Ok(rows)
                &&& rows_valid(spec_parse_color_file(lines@.map_values(|s: String| s@))->Ok_0)
                &&& {
                    let rows = spec_parse_color_file(lines@.map_values(|s: String| s@))->Ok_0;
                    let last = rows.last().index as int;
                    &&& t.colors().len() == last + 1
                    &&& forall|p: int|
                        0 <= p <= last ==> t.colors()[p] == (if show_biomes && is_biome_offset(
                            p - t.lowest_land,
                        ) {
                            biome_color(p - t.lowest_land)
                        } else {
                            spec_palette_at(rows, p)
                        })
                    &&& t.black == 0 && t.white == 1 && t.back == 2 && t.grid == 3
                    &&& t.outline1 == 4 && t.outline2 == 5 && t.sea_bottom == 6
                    &&& t.highest_land == last
                    &&& t.sea_level == (6 + last) / 2
                    &&& t.lowest_land == t.sea_level + 1
                    &&& t.sea_depth == t.sea_level - t.sea_bottom
                    &&& t.land_height == t.highest_land - t.lowest_land
                }
            },
            Err(e) => match spec_parse_color_file(lines@.map_values(|s: String| s@)) {
                Ok(rows) => !rows_valid(rows) && e == ColorFileParseError::Validation,
                Err(pe) => e == pe,
            },
        },
{
    let mut table = match generate_color_data(lines) {
        Ok(t) => t,
        Err(e) => {
            return Err(e);
        },
    };
    if show_biomes {
        let lowest = table.lowest_land as usize;
        let n = table.len();
        set_biome_slot(&mut table, lowest, 20, Color::from_colors(210, 210, 210));
        set_biome_slot(&mut table, lowest, 7, Color::from_colors(250, 215, 165));
        set_biome_slot(&mut table, lowest, 2, Color::from_colors(105, 155, 120));
        set_biome_slot(&mut table, lowest, 4, Color::from_colors(220, 195, 175));
        set_biome_slot(&mut table, lowest, 19, Color::from_colors(225, 155, 100));
        set_biome_slot(&mut table, lowest, 6, Color::from_colors(155, 215, 170));
        set_biome_slot(&mut table, lowest, 18, Color::from_colors(170, 195, 200));
        set_biome_slot(&mut table, lowest, 23, Color::from_colors(185, 150, 160));
        set_biome_slot(&mut table, lowest, 5, Color::from_colors(130, 190, 25));
        set_biome_slot(&mut table, lowest, 15, Color::from_colors(110, 160, 170));
        set_biome_slot(&mut table, lowest, 9, Color::from_colors(255, 255, 255));
    }
    Ok(table)
}

/// Writes one biome slot, if the table reaches it.
fn set_biome_slot(table: &mut ColorTable, lowest: usize, offset: usize, c: Color)
    requires
        lowest + offset <= usize::MAX,
    ensures
        final(table).colors().len() == old(table).colors().len(),
        slot_fields(final(table)) == slot_fields(old(table)),
        forall|p: int|
            0 <= p < old(table).colors().len() ==> final(table).colors()[p] == (if p == lowest
                + offset {
                c
            } else {
                old(table).colors()[p]
            }),
{
    let idx = lowest + offset;
    if idx < table.len() {
        table.set(idx, c);
    }
}

} // verus!
