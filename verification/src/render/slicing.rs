//! Partition of the image's rows into horizontal bands ("slices"), one per
//! render worker. Every slice but the last holds `ceil(height / slice_count)`
//! rows; the last holds whatever is left.

use vstd::prelude::*;

verus! {

/// The row partition of one render: `height * width` pixels cut into
/// `slice_count` bands of consecutive rows.
#[derive(Clone, Copy)]
pub struct Slicing {
    pub slice_height: usize,
    pub final_slice_height: usize,
    pub height: usize,
    pub width: usize,
    pub slice_count: u8,
    pub final_slice_id: u8,
}

impl Slicing {
    /// Rows in every slice but the last: the ceiling of `height / slice_count`.
    pub open spec fn spec_slice_height(height: int, slice_count: int) -> int {
        (height + slice_count - 1) / slice_count
    }

    /// The partition exists when the last band keeps at least one row.
    pub open spec fn feasible(height: int, slice_count: int) -> bool {
        &&& 1 <= slice_count <= u8::MAX
        &&& 1 <= height
        &&& (slice_count - 1) * Self::spec_slice_height(height, slice_count) < height
    }

    pub open spec fn wf(&self) -> bool {
        &&& Self::feasible(self.height as int, self.slice_count as int)
        &&& 1 <= self.slice_height
        &&& self.slice_height == Self::spec_slice_height(
            self.height as int,
            self.slice_count as int,
        )
        &&& self.final_slice_id == self.slice_count - 1
        &&& self.final_slice_height == self.height - (self.slice_count - 1)
            * self.slice_height
    }

    /// Rows of the slice `slice_id`; slices past the partition read as full ones.
    pub open spec fn spec_get_slice_height(&self, slice_id: int) -> int {
        if slice_id == self.slice_count - 1 {
            self.final_slice_height as int
        } else {
            self.slice_height as int
        }
    }

    pub fn new(height: usize, width: usize, slice_count: u8) -> (s: Self)
        requires
            Self::feasible(height as int, slice_count as int),
        ensures
            s.wf(),
            s.height == height,
            s.width == width,
            s.slice_count == slice_count,
    {
        let n = slice_count as usize;
        proof {
            vstd::arithmetic::div_mod::lemma_fundamental_div_mod(height as int, n as int);
            vstd::arithmetic::div_mod::lemma_mod_bound(height as int, n as int);
            assert(height as int % (n as int) != 0 ==> height as int / (n as int) < height)
                by (nonlinear_arith)
                requires
                    height as int == n as int * (height as int / (n as int)) + height as int % (
                    n as int),
                    0 <= height as int % (n as int) < n,
                    1 <= n,
                    0 <= height as int / (n as int),
            ;
        }
        let slice_height = height / n + if height % n != 0 { 1usize } else { 0usize };
        proof {
            lemma_ceil_div(height as int, n as int);
            lemma_ceil_div_bounds(height as int, n as int);
            assert((n - 1) as int * slice_height as int == (slice_count - 1) as int
                * Self::spec_slice_height(height as int, slice_count as int));
        }
        let whole = (n - 1) * slice_height;
        Self {
            slice_count,
            slice_height,
            final_slice_id: slice_count - 1,
            final_slice_height: height - whole,
            height,
            width,
        }
    }

    /// Locates an absolute row: which slice holds it, and at which local row.
    pub fn translate_index(&self, h0: usize) -> (r: (usize, usize))
        requires
            self.wf(),
        ensures
            r.0 == h0 as int / self.slice_height as int,
            r.1 == h0 as int % self.slice_height as int,
    {
        (h0 / self.slice_height, h0 % self.slice_height)
    }

    pub fn get_slice_height(&self, slice_id: u8) -> (r: usize)
        requires
            self.wf(),
        ensures
            r == self.spec_get_slice_height(slice_id as int),
    {
        if slice_id == self.final_slice_id {
            self.final_slice_height
        } else {
            self.slice_height
        }
    }

    /// The absolute row of local row `height` within slice `slice_id`.
    pub fn get_absolute_height(&self, slice_id: u8, height: usize) -> (r: usize)
        requires
            self.wf(),
            slice_id < self.slice_count,
            height < self.spec_get_slice_height(slice_id as int),
        ensures
            r == slice_id as int * self.slice_height as int + height,
            r < self.height,
    {
        proof {
            self.lemma_absolute_in_range(slice_id as int, height as int);
        }
        slice_id as usize * self.slice_height + height
    }

    /// Every local coordinate names one absolute row inside the image.
    pub proof fn lemma_absolute_in_range(&self, slice_id: int, local: int)
        requires
            self.wf(),
            0 <= slice_id < self.slice_count,
            0 <= local < self.spec_get_slice_height(slice_id),
        ensures
            0 <= slice_id * self.slice_height + local < self.height,
    {
        let sh = self.slice_height as int;
        let n = self.slice_count as int;
        assert(0 <= slice_id * sh) by (nonlinear_arith)
            requires
                0 <= slice_id,
                0 <= sh,
        ;
        if slice_id == n - 1 {
            assert(slice_id * sh + local < self.height);
        } else {
            assert((slice_id + 1) * sh <= (n - 1) * sh) by (nonlinear_arith)
                requires
                    slice_id + 1 <= n - 1,
                    0 <= sh,
            ;
            assert(slice_id * sh + local < (slice_id + 1) * sh) by (nonlinear_arith)
                requires
                    local < sh,
            ;
        }
    }

    /// Row translation and the absolute-row map invert each other: splitting an
    /// absolute row yields a slice of the partition and a local row inside it,
    /// and recombining them restores the row.
    pub proof fn lemma_translate_roundtrip(&self, h0: int)
        requires
            self.wf(),
            0 <= h0 < self.height,
        ensures
            h0 / (self.slice_height as int) < self.slice_count as int,
            h0 % (self.slice_height as int) < self.spec_get_slice_height(
                h0 / (self.slice_height as int),
            ),
            (h0 / (self.slice_height as int)) * (self.slice_height as int) + h0 % (
            self.slice_height as int) == h0,
    {
        let sh = self.slice_height as int;
        let n = self.slice_count as int;
        let id = h0 / sh;
        let local = h0 % sh;
        lemma_ceil_div_bounds(self.height as int, n);
        vstd::arithmetic::div_mod::lemma_fundamental_div_mod(h0, sh);
        vstd::arithmetic::div_mod::lemma_mod_bound(h0, sh);
        vstd::arithmetic::div_mod::lemma_div_pos_is_pos(h0, sh);
        assert(id < n) by (nonlinear_arith)
            requires
                h0 == sh * id + local,
                0 <= local < sh,
                h0 < self.height,
                self.height <= n * sh,
                0 <= id,
        ;
        if id == n - 1 {
            assert(local < self.final_slice_height) by (nonlinear_arith)
                requires
                    h0 == sh * id + local,
                    h0 < self.height,
                    id == n - 1,
                    self.final_slice_height == self.height - (n - 1) * sh,
            ;
        }
    }
}

/// Ceiling division written with `/` and `%` agrees with the closed form
/// `(h + n - 1) / n`.
proof fn lemma_ceil_div(h: int, n: int)
    requires
        0 <= h,
        1 <= n,
    ensures
        h / n + if h % n != 0 { 1int } else { 0int } == (h + n - 1) / n,
{
    vstd::arithmetic::div_mod::lemma_fundamental_div_mod(h, n);
    vstd::arithmetic::div_mod::lemma_mod_bound(h, n);
    let q = h / n;
    let r = h % n;
    if r == 0 {
        assert((h + n - 1) / n == q) by (nonlinear_arith)
            requires
                h == n * q,
                1 <= n,
        ;
    } else {
        assert((h + n - 1) / n == q + 1) by (nonlinear_arith)
            requires
                h == n * q + r,
                1 <= r < n,
                1 <= n,
        ;
    }
}

/// The ceiling `(h + n - 1) / n` is at least one row tall and `n` of them
/// cover the whole image.
proof fn lemma_ceil_div_bounds(h: int, n: int)
    requires
        1 <= h,
        1 <= n,
    ensures
        1 <= (h + n - 1) / n,
        h <= n * ((h + n - 1) / n),
{
    vstd::arithmetic::div_mod::lemma_fundamental_div_mod(h + n - 1, n);
    vstd::arithmetic::div_mod::lemma_mod_bound(h + n - 1, n);
    let q = (h + n - 1) / n;
    let r = (h + n - 1) % n;
    assert(h <= n * q && 1 <= q) by (nonlinear_arith)
        requires
            h + n - 1 == n * q + r,
            0 <= r < n,
            1 <= h,
            1 <= n,
    ;
}

} // verus!
