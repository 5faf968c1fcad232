//! Masks for rotoscoping: single-channel byte masks and their morphology.

use vstd::prelude::*;

verus! {

/// A single-channel mask (one byte per pixel, 0 = background, 255 =
/// foreground), row-major.
#[derive(Debug, Clone)]
pub struct MaskBuffer {
    /// Width in pixels.
    pub width: u32,
    /// Height in pixels.
    pub height: u32,
    /// Mask data (row-major, one byte per pixel).
    pub data: Vec<u8>,
}

/// First index of the window of radius `r` around `c`.
pub open spec fn win_lo(c: int, r: int) -> int {
    if c >= r { c - r } else { 0 }
}

/// End (exclusive) of the window of radius `r` around `c`, clipped to `n`.
pub open spec fn win_hi(c: int, r: int, n: int) -> int {
    if c + r + 1 < n { c + r + 1 } else { n }
}

/// Byte `v` passes the test against threshold `t`: at least `t` when
/// `above`, below `t` otherwise.
pub open spec fn hit(v: u8, t: u8, above: bool) -> bool {
    if above { v >= t } else { v < t }
}

/// Some pixel of the rectangle `[x0, x1) x [y0, y1)` of a mask of width `w`
/// passes the test.
pub open spec fn window_hit(d: Seq<u8>, w: int, y0: int, y1: int, x0: int, x1: int, t: u8, above: bool) -> bool {
    exists|yi: int, xi: int|
        y0 <= yi < y1 && x0 <= xi < x1 && #[trigger] hit(d[yi * w + xi], t, above)
}

/// Value of pixel `(x, y)` after dilation (`dilate`) or erosion by radius `r`.
pub open spec fn morph_value(d: Seq<u8>, w: int, h: int, x: int, y: int, r: int, dilate: bool) -> u8 {
    let y0 = win_lo(y, r);
    let y1 = win_hi(y, r, h);
    let x0 = win_lo(x, r);
    let x1 = win_hi(x, r, w);
    if dilate {
        if window_hit(d, w, y0, y1, x0, x1, 1, true) { 255 } else { 0 }
    } else {
        if window_hit(d, w, y0, y1, x0, x1, 255, false) { 0 } else { 255 }
    }
}

/// Row-major index of `(x, y)` stays inside a `w` by `h` grid.
pub proof fn lemma_grid_index(x: int, y: int, w: int, h: int)
    requires
        0 <= x < w,
        0 <= y < h,
    ensures
        0 <= y * w + x < w * h,
        y * w + x + 1 <= (y + 1) * w,
{
    assert(0 <= y * w + x < w * h) by (nonlinear_arith)
        requires 0 <= x < w, 0 <= y < h;
    assert(y * w + x + 1 <= (y + 1) * w) by (nonlinear_arith)
        requires 0 <= x < w;
}

/// Rows above row `y` end before it starts.
proof fn lemma_earlier_row(xx: int, yy: int, y: int, w: int)
    requires
        0 <= xx < w,
        0 <= yy < y,
    ensures
        yy * w + xx < y * w,
{
    assert(yy * w + xx < y * w) by (nonlinear_arith)
        requires 0 <= xx < w, 0 <= yy < y;
}

/// Search the rectangle `[x0, x1) x [y0, y1)` for a pixel that passes the test.
fn window_search(d: &Vec<u8>, w: usize, h: usize, y0: usize, y1: usize, x0: usize, x1: usize, t: u8, above: bool) -> (b: bool)
    requires
        d@.len() == w * h,
        y0 <= y1 <= h,
        x0 <= x1 <= w,
    ensures
        b == window_hit(d@, w as int, y0 as int, y1 as int, x0 as int, x1 as int, t, above),
{
    let n = d.len();
    let mut yi = y0;
    while yi < y1
        invariant
            d@.len() == w * h,
            n == w * h,
            y0 <= yi <= y1 <= h,
            x0 <= x1 <= w,
            forall|yy: int, xx: int| y0 <= yy < yi && x0 <= xx < x1 ==> !#[trigger] hit(d@[yy * w + xx], t, above),
        decreases y1 - yi,
    {
        let mut xi = x0;
        while xi < x1
            invariant
                d@.len() == w * h,
                n == w * h,
                y0 <= yi < y1 <= h,
                x0 <= xi <= x1 <= w,
                forall|yy: int, xx: int| y0 <= yy < yi && x0 <= xx < x1 ==> !#[trigger] hit(d@[yy * w + xx], t, above),
                forall|xx: int| x0 <= xx < xi ==> !#[trigger] hit(d@[yi * w + xx], t, above),
            decreases x1 - xi,
        {
            proof {
                lemma_grid_index(xi as int, yi as int, w as int, h as int);
                assert(yi * w <= yi * w + xi);
            }
            let v = d[yi * w + xi];
            let passes = if above { v >= t } else { v < t };
            if passes {
                assert(hit(d@[yi * w + xi], t, above));
                return true;
            }
            xi = xi + 1;
        }
        yi = yi + 1;
    }
    false
}

/// Sum of `d[base + i]` for `i` in `[lo, hi)`.
pub open spec fn row_sum(d: Seq<u8>, base: int, lo: int, hi: int) -> int
    decreases hi - lo,
{
    if hi <= lo {
        0
    } else {
        row_sum(d, base, lo, hi - 1) + d[base + hi - 1]
    }
}

/// Sum of `t[yi * w + x]` for `yi` in `[lo, hi)`.
pub open spec fn col_sum(t: Seq<u16>, w: int, x: int, lo: int, hi: int) -> int
    decreases hi - lo,
{
    if hi <= lo {
        0
    } else {
        col_sum(t, w, x, lo, hi - 1) + t[(hi - 1) * w + x]
    }
}

/// Horizontal box-blur value of pixel `(x, y)`.
pub open spec fn hblur_value(d: Seq<u8>, w: int, x: int, y: int, r: int) -> int {
    row_sum(d, y * w, win_lo(x, r), win_hi(x, r, w)) / (win_hi(x, r, w) - win_lo(x, r))
}

/// Vertical box-blur value of pixel `(x, y)`.
pub open spec fn vblur_value(t: Seq<u16>, w: int, h: int, x: int, y: int, r: int) -> int {
    col_sum(t, w, x, win_lo(y, r), win_hi(y, r, h)) / (win_hi(y, r, h) - win_lo(y, r))
}

/// Horizontal box blur of a whole mask.
pub open spec fn hblur(d: Seq<u8>, w: int, h: int, r: int) -> Seq<u16> {
    Seq::new((w * h) as nat, |i: int| hblur_value(d, w, i % w, i / w, r) as u16)
}

/// Vertical box blur of a whole mask.
pub open spec fn vblur(t: Seq<u16>, w: int, h: int, r: int) -> Seq<u8> {
    Seq::new((w * h) as nat, |i: int| vblur_value(t, w, h, i % w, i / w, r) as u8)
}

/// One feathering pass: a horizontal then a vertical box blur.
pub open spec fn feather_pass(d: Seq<u8>, w: int, h: int, r: int) -> Seq<u8> {
    vblur(hblur(d, w, h, r), w, h, r)
}

/// Feathering: three passes of the box blur.
pub open spec fn feathered(d: Seq<u8>, w: int, h: int, r: int) -> Seq<u8> {
    feather_pass(feather_pass(feather_pass(d, w, h, r), w, h, r), w, h, r)
}

/// Number of pixels in a window of radius `r` inside `[0, n)`, at most.
pub open spec fn window_span(r: int, n: int) -> int {
    if 2 * r + 1 < n { 2 * r + 1 } else { n }
}

/// The box blur's sums stay inside `u32`.
pub open spec fn feather_fits(w: int, h: int, r: int) -> bool {
    &&& window_span(r, w) * 255 <= u32::MAX
    &&& window_span(r, h) * 255 <= u32::MAX
    &&& w + r + 1 <= usize::MAX
    &&& h + r + 1 <= usize::MAX
}

proof fn lemma_window_size(c: int, r: int, n: int)
    requires
        0 <= c < n,
        r >= 0,
    ensures
        0 <= win_lo(c, r) < win_hi(c, r, n) <= n,
        win_hi(c, r, n) - win_lo(c, r) <= window_span(r, n),
{
}

proof fn lemma_quotient_bound(sum: int, count: int)
    requires
        count > 0,
        0 <= sum <= 255 * count,
    ensures
        0 <= sum / count <= 255,
{
    assert(0 <= sum / count <= 255) by (nonlinear_arith)
        requires count > 0, 0 <= sum <= 255 * count;
}

proof fn lemma_div_mod_grid(i: int, w: int)
    requires
        w > 0,
        i >= 0,
    ensures
        i == (i / w) * w + i % w,
        0 <= i % w < w,
        i / w >= 0,
{
    vstd::arithmetic::div_mod::lemma_fundamental_div_mod(i, w);
    assert((i / w) * w == w * (i / w)) by (nonlinear_arith);
    assert(i / w >= 0) by (nonlinear_arith) requires w > 0, i >= 0, i == w * (i / w) + i % w, i % w < w;
}

/// Horizontal pass of the box blur.
fn blur_rows(d: &Vec<u8>, w: usize, h: usize, r: usize) -> (t: Vec<u16>)
    requires
        d@.len() == w * h,
        w > 0,
        r > 0,
        feather_fits(w as int, h as int, r as int),
    ensures
        t@.len() == w * h,
        forall|x: int, y: int| 0 <= x < w && 0 <= y < h ==> #[trigger] t@[y * w + x]
            == hblur_value(d@, w as int, x, y, r as int),
        forall|i: int| 0 <= i < t@.len() ==> #[trigger] t@[i] <= 255,
{
    let n = d.len();
    let mut t: Vec<u16> = Vec::new();
    let mut y: usize = 0;
    while y < h
        invariant
            d@.len() == w * h,
            n == w * h,
            w > 0,
            feather_fits(w as int, h as int, r as int),
            y <= h,
            t@.len() == y * w,
            forall|x: int, yy: int| 0 <= x < w && 0 <= yy < y ==> #[trigger] t@[yy * w + x]
                == hblur_value(d@, w as int, x, yy, r as int),
            forall|i: int| 0 <= i < t@.len() ==> #[trigger] t@[i] <= 255,
        decreases h - y,
    {
        let mut x: usize = 0;
        while x < w
            invariant
                d@.len() == w * h,
                n == w * h,
                w > 0,
                feather_fits(w as int, h as int, r as int),
                y < h,
                x <= w,
                t@.len() == y * w + x,
                forall|xx: int, yy: int| 0 <= xx < w && 0 <= yy < y ==> #[trigger] t@[yy * w + xx]
                    == hblur_value(d@, w as int, xx, yy, r as int),
                forall|xx: int| 0 <= xx < x ==> #[trigger] t@[y * w + xx]
                    == hblur_value(d@, w as int, xx, y as int, r as int),
                forall|i: int| 0 <= i < t@.len() ==> #[trigger] t@[i] <= 255,
            decreases w - x,
        {
            let x_start = if x >= r { x - r } else { 0 };
            let x_end = if x + r + 1 < w { x + r + 1 } else { w };
            proof { lemma_window_size(x as int, r as int, w as int); }
            let mut sum: u32 = 0;
            let mut count: u32 = 0;
            let mut xi = x_start;
            while xi < x_end
                invariant
                    d@.len() == w * h,
                    n == w * h,
                    y < h,
                    x_start <= xi <= x_end <= w,
                    x_end - x_start <= window_span(r as int, w as int),
                    window_span(r as int, w as int) * 255 <= u32::MAX,
                    count == xi - x_start,
                    sum == row_sum(d@, y * w, x_start as int, xi as int),
                    sum <= 255 * count,
                decreases x_end - xi,
            {
                proof {
                    lemma_grid_index(xi as int, y as int, w as int, h as int);
                    assert(y * w <= y * w + xi);
                    assert(255 * (count + 1) <= u32::MAX) by (nonlinear_arith)
                        requires count + 1 <= window_span(r as int, w as int),
                            window_span(r as int, w as int) * 255 <= u32::MAX;
                }
                sum = sum + d[y * w + xi] as u32;
                count = count + 1;
                xi = xi + 1;
            }
            proof { lemma_quotient_bound(sum as int, count as int); }
            let ghost before = t@;
            t.push((sum / count) as u16);
            proof {
                assert forall|xx: int, yy: int| 0 <= xx < w && 0 <= yy < y implies #[trigger] t@[yy * w + xx]
                    == hblur_value(d@, w as int, xx, yy, r as int) by {
                    lemma_earlier_row(xx, yy, y as int, w as int);
                    assert(t@[yy * w + xx] == before[yy * w + xx]);
                }
                assert forall|xx: int| 0 <= xx < x + 1 implies #[trigger] t@[y * w + xx]
                    == hblur_value(d@, w as int, xx, y as int, r as int) by {
                    if xx < x {
                        assert(t@[y * w + xx] == before[y * w + xx]);
                    }
                }
                assert forall|i: int| 0 <= i < t@.len() implies #[trigger] t@[i] <= 255 by {
                    if i < before.len() {
                        assert(t@[i] == before[i]);
                    }
                }
            }
            x = x + 1;
        }
        proof {
            assert(y * w + w == (y + 1) * w) by (nonlinear_arith);
            assert forall|xx: int, yy: int| 0 <= xx < w && 0 <= yy < y + 1 implies #[trigger] t@[yy * w + xx]
                == hblur_value(d@, w as int, xx, yy, r as int) by {
                if yy == y {
                    assert(t@[y * w + xx] == hblur_value(d@, w as int, xx, y as int, r as int));
                }
            }
        }
        y = y + 1;
    }
    proof { assert(h * w == w * h) by (nonlinear_arith); }
    t
}

/// Vertical pass of the box blur.
fn blur_cols(t: &Vec<u16>, w: usize, h: usize, r: usize) -> (d: Vec<u8>)
    requires
        t@.len() == w * h,
        w > 0,
        r > 0,
        feather_fits(w as int, h as int, r as int),
        forall|i: int| 0 <= i < t@.len() ==> #[trigger] t@[i] <= 255,
    ensures
        d@.len() == w * h,
        forall|x: int, y: int| 0 <= x < w && 0 <= y < h ==> #[trigger] d@[y * w + x]
            == vblur_value(t@, w as int, h as int, x, y, r as int),
{
    let n = t.len();
    let mut d: Vec<u8> = Vec::new();
    let mut y: usize = 0;
    while y < h
        invariant
            t@.len() == w * h,
            n == w * h,
            w > 0,
            feather_fits(w as int, h as int, r as int),
            forall|i: int| 0 <= i < t@.len() ==> #[trigger] t@[i] <= 255,
            y <= h,
            d@.len() == y * w,
            forall|x: int, yy: int| 0 <= x < w && 0 <= yy < y ==> #[trigger] d@[yy * w + x]
                == vblur_value(t@, w as int, h as int, x, yy, r as int),
        decreases h - y,
    {
        let mut x: usize = 0;
        while x < w
            invariant
                t@.len() == w * h,
                n == w * h,
                w > 0,
                feather_fits(w as int, h as int, r as int),
                forall|i: int| 0 <= i < t@.len() ==> #[trigger] t@[i] <= 255,
                y < h,
                x <= w,
                d@.len() == y * w + x,
                forall|xx: int, yy: int| 0 <= xx < w && 0 <= yy < y ==> #[trigger] d@[yy * w + xx]
                    == vblur_value(t@, w as int, h as int, xx, yy, r as int),
                forall|xx: int| 0 <= xx < x ==> #[trigger] d@[y * w + xx]
                    == vblur_value(t@, w as int, h as int, xx, y as int, r as int),
            decreases w - x,
        {
            let y_start = if y >= r { y - r } else { 0 };
            let y_end = if y + r + 1 < h { y + r + 1 } else { h };
            proof { lemma_window_size(y as int, r as int, h as int); }
            let mut sum: u32 = 0;
            let mut count: u32 = 0;
            let mut yi = y_start;
            while yi < y_end
                invariant
                    t@.len() == w * h,
                    n == w * h,
                    forall|i: int| 0 <= i < t@.len() ==> #[trigger] t@[i] <= 255,
                    x < w,
                    y_start <= yi <= y_end <= h,
                    y_end - y_start <= window_span(r as int, h as int),
                    window_span(r as int, h as int) * 255 <= u32::MAX,
                    count == yi - y_start,
                    sum == col_sum(t@, w as int, x as int, y_start as int, yi as int),
                    sum <= 255 * count,
                decreases y_end - yi,
            {
                proof {
                    lemma_grid_index(x as int, yi as int, w as int, h as int);
                    assert(yi * w <= yi * w + x);
                    assert(255 * (count + 1) <= u32::MAX) by (nonlinear_arith)
                        requires count + 1 <= window_span(r as int, h as int),
                            window_span(r as int, h as int) * 255 <= u32::MAX;
                    assert(t@[yi * w + x] <= 255);
                }
                sum = sum + t[yi * w + x] as u32;
                count = count + 1;
                yi = yi + 1;
            }
            proof { lemma_quotient_bound(sum as int, count as int); }
            let ghost before = d@;
            d.push((sum / count) as u8);
            proof {
                assert forall|xx: int, yy: int| 0 <= xx < w && 0 <= yy < y implies #[trigger] d@[yy * w + xx]
                    == vblur_value(t@, w as int, h as int, xx, yy, r as int) by {
                    lemma_earlier_row(xx, yy, y as int, w as int);
                    assert(d@[yy * w + xx] == before[yy * w + xx]);
                }
                assert forall|xx: int| 0 <= xx < x + 1 implies #[trigger] d@[y * w + xx]
                    == vblur_value(t@, w as int, h as int, xx, y as int, r as int) by {
                    if xx < x {
                        assert(d@[y * w + xx] == before[y * w + xx]);
                    }
                }
            }
            x = x + 1;
        }
        proof {
            assert(y * w + w == (y + 1) * w) by (nonlinear_arith);
            assert forall|xx: int, yy: int| 0 <= xx < w && 0 <= yy < y + 1 implies #[trigger] d@[yy * w + xx]
                == vblur_value(t@, w as int, h as int, xx, yy, r as int) by {
                if yy == y {
                    assert(d@[y * w + xx] == vblur_value(t@, w as int, h as int, xx, y as int, r as int));
                }
            }
        }
        y = y + 1;
    }
    proof { assert(h * w == w * h) by (nonlinear_arith); }
    d
}

/// One feathering pass over a mask.
fn feather_once(d: &Vec<u8>, w: usize, h: usize, r: usize) -> (out: Vec<u8>)
    requires
        d@.len() == w * h,
        w > 0,
        r > 0,
        feather_fits(w as int, h as int, r as int),
    ensures
        out@ == feather_pass(d@, w as int, h as int, r as int),
{
    let t = blur_rows(d, w, h, r);
    proof {
        assert forall|i: int| 0 <= i < t@.len() implies #[trigger] t@[i]
            == hblur(d@, w as int, h as int, r as int)[i] by {
            lemma_div_mod_grid(i, w as int);
            assert(i / (w as int) < h) by (nonlinear_arith)
                requires i < w * h, i == (i / (w as int)) * w + i % (w as int), 0 <= i % (w as int), w > 0;
            assert(t@[(i / (w as int)) * w + i % (w as int)] == hblur_value(d@, w as int, i % (w as int), i / (w as int), r as int));
            lemma_quotient_bound_h(d@, w as int, i % (w as int), i / (w as int), r as int, t@[i] as int);
        }
        assert(t@ =~= hblur(d@, w as int, h as int, r as int));
    }
    let out = blur_cols(&t, w, h, r);
    proof {
        assert forall|i: int| 0 <= i < out@.len() implies #[trigger] out@[i]
            == vblur(t@, w as int, h as int, r as int)[i] by {
            lemma_div_mod_grid(i, w as int);
            assert(i / (w as int) < h) by (nonlinear_arith)
                requires i < w * h, i == (i / (w as int)) * w + i % (w as int), 0 <= i % (w as int), w > 0;
            assert(out@[(i / (w as int)) * w + i % (w as int)] == vblur_value(t@, w as int, h as int, i % (w as int), i / (w as int), r as int));
        }
        assert(out@ =~= vblur(t@, w as int, h as int, r as int));
    }
    out
}

proof fn lemma_quotient_bound_h(d: Seq<u8>, w: int, x: int, y: int, r: int, v: int)
    requires
        v == hblur_value(d, w, x, y, r),
        v <= 255,
        v >= 0,
    ensures
        v as u16 == v,
{
}

impl MaskBuffer {
    /// The data holds exactly one byte per pixel.
    pub open spec fn wf(&self) -> bool {
        self.data@.len() == self.width * self.height
    }

    /// Byte of pixel `(x, y)`.
    pub open spec fn pixel(&self, x: int, y: int) -> u8 {
        self.data@[y * self.width + x]
    }

    /// An empty mask (all zero, fully transparent).
    pub fn new(width: u32, height: u32) -> (m: Self)
        requires
            width * height <= usize::MAX,
        ensures
            m.width == width,
            m.height == height,
            m.data@ == Seq::new((width * height) as nat, |i: int| 0u8),
    {
        let data = vec![0u8; (width as usize) * (height as usize)];
        proof { assert(data@ =~= Seq::new((width * height) as nat, |i: int| 0u8)); }
        MaskBuffer { width, height, data }
    }

    /// A fully opaque mask (all 255).
    pub fn opaque(width: u32, height: u32) -> (m: Self)
        requires
            width * height <= usize::MAX,
        ensures
            m.width == width,
            m.height == height,
            m.data@ == Seq::new((width * height) as nat, |i: int| 255u8),
    {
        let data = vec![255u8; (width as usize) * (height as usize)];
        proof { assert(data@ =~= Seq::new((width * height) as nat, |i: int| 255u8)); }
        MaskBuffer { width, height, data }
    }

    /// The mask value at `(x, y)`, or zero outside the mask.
    pub fn get(&self, x: u32, y: u32) -> (v: u8)
        requires
            self.wf(),
        ensures
            v == (if x < self.width && y < self.height { self.pixel(x as int, y as int) } else { 0 }),
    {
        if x >= self.width || y >= self.height {
            return 0;
        }
        let n = self.data.len();
        proof { lemma_grid_index(x as int, y as int, self.width as int, self.height as int); }
        self.data[(y as usize) * (self.width as usize) + (x as usize)]
    }

    /// Set the mask value at `(x, y)`; outside the mask nothing changes.
    pub fn set(&mut self, x: u32, y: u32, value: u8)
        requires
            old(self).wf(),
        ensures
            final(self).width == old(self).width,
            final(self).height == old(self).height,
            final(self).data@ == (if x < old(self).width && y < old(self).height {
                old(self).data@.update(y * old(self).width + x, value)
            } else {
                old(self).data@
            }),
    {
        if x < self.width && y < self.height {
            let n = self.data.len();
            proof { lemma_grid_index(x as int, y as int, self.width as int, self.height as int); }
            self.data.set((y as usize) * (self.width as usize) + (x as usize), value);
        }
    }

    /// Invert the mask: foreground becomes background and back.
    pub fn invert(&mut self)
        ensures
            final(self).width == old(self).width,
            final(self).height == old(self).height,
            final(self).data@ == Seq::new(old(self).data@.len(), |i: int| (255 - old(self).data@[i]) as u8),
    {
        let ghost orig = self.data@;
        let mut i: usize = 0;
        while i < self.data.len()
            invariant
                self.width == old(self).width,
                self.height == old(self).height,
                orig == old(self).data@,
                self.data@.len() == orig.len(),
                i <= orig.len(),
                forall|k: int| 0 <= k < i ==> self.data@[k] == (255 - orig[k]) as u8,
                forall|k: int| i <= k < orig.len() ==> self.data@[k] == orig[k],
            decreases orig.len() - i,
        {
            let v = self.data[i];
            self.data.set(i, 255 - v);
            i = i + 1;
        }
        proof {
            assert(self.data@ =~= Seq::new(orig.len(), |k: int| (255 - orig[k]) as u8));
        }
    }

    /// Soften the mask edges: three passes of a horizontal then vertical box
    /// blur of the given radius.
    pub fn feather(&mut self, radius: u32)
        requires
            old(self).wf(),
            radius > 0 ==> feather_fits(old(self).width as int, old(self).height as int, radius as int),
        ensures
            final(self).width == old(self).width,
            final(self).height == old(self).height,
            radius == 0 ==> final(self).data@ == old(self).data@,
            radius > 0 ==> final(self).data@ == feathered(old(self).data@, old(self).width as int,
                old(self).height as int, radius as int),
    {
        if radius == 0 {
            return;
        }
        let w = self.width as usize;
        let h = self.height as usize;
        if w == 0 {
            proof {
                let d = self.data@;
                let r = radius as int;
                assert(0 * (h as int) == 0);
                assert(d.len() == 0);
                let p1 = feather_pass(d, 0, h as int, r);
                assert(p1.len() == 0);
                let p2 = feather_pass(p1, 0, h as int, r);
                assert(p2.len() == 0);
                assert(feather_pass(p2, 0, h as int, r).len() == 0);
                assert(d =~= feathered(d, 0, h as int, r));
            }
            return;
        }
        let r = radius as usize;
        let p1 = feather_once(&self.data, w, h, r);
        let p2 = feather_once(&p1, w, h, r);
        let p3 = feather_once(&p2, w, h, r);
        self.data = p3;
    }

    /// Dilate (positive `pixels`) or erode (negative) the mask by the given
    /// radius: a pixel becomes foreground when some pixel (dilation) or every
    /// pixel (erosion) of its clipped square window is foreground.
    pub fn expand_contract(&mut self, pixels: i32)
        requires
            old(self).wf(),
            old(self).width + abs_i32(pixels) + 1 <= usize::MAX,
            old(self).height + abs_i32(pixels) + 1 <= usize::MAX,
        ensures
            final(self).width == old(self).width,
            final(self).height == old(self).height,
            final(self).wf(),
            pixels == 0 ==> final(self).data@ == old(self).data@,
            pixels != 0 ==> forall|x: int, y: int|
                0 <= x < old(self).width && 0 <= y < old(self).height ==> #[trigger] final(self).pixel(x, y)
                    == morph_value(old(self).data@, old(self).width as int, old(self).height as int,
                        x, y, abs_i32(pixels), pixels > 0),
    {
        let w = self.width as usize;
        let h = self.height as usize;
        let radius = if pixels < 0 { ((-(pixels + 1)) as u32 + 1) as usize } else { pixels as usize };
        if radius == 0 {
            return;
        }
        let dilate = pixels > 0;
        let ghost d = self.data@;
        let mut output: Vec<u8> = Vec::new();
        let mut y: usize = 0;
        while y < h
            invariant
                d == self.data@,
                d.len() == w * h,
                w == self.width,
                h == self.height,
                radius == abs_i32(pixels),
                dilate == (pixels > 0),
                w + radius + 1 <= usize::MAX,
                h + radius + 1 <= usize::MAX,
                y <= h,
                output@.len() == y * w,
                forall|xx: int, yy: int| 0 <= xx < w && 0 <= yy < y ==> #[trigger] output@[yy * w + xx]
                    == morph_value(d, w as int, h as int, xx, yy, radius as int, dilate),
            decreases h - y,
        {
            let mut x: usize = 0;
            while x < w
                invariant
                    d == self.data@,
                    d.len() == w * h,
                    w == self.width,
                    h == self.height,
                    radius == abs_i32(pixels),
                    dilate == (pixels > 0),
                    w + radius + 1 <= usize::MAX,
                    h + radius + 1 <= usize::MAX,
                    y < h,
                    x <= w,
                    output@.len() == y * w + x,
                    forall|xx: int, yy: int| 0 <= xx < w && 0 <= yy < y ==> #[trigger] output@[yy * w + xx]
                        == morph_value(d, w as int, h as int, xx, yy, radius as int, dilate),
                    forall|xx: int| 0 <= xx < x ==> #[trigger] output@[y * w + xx]
                        == morph_value(d, w as int, h as int, xx, y as int, radius as int, dilate),
                decreases w - x,
            {
                let y_start = if y >= radius { y - radius } else { 0 };
                let y_end = if y + radius + 1 < h { y + radius + 1 } else { h };
                let x_start = if x >= radius { x - radius } else { 0 };
                let x_end = if x + radius + 1 < w { x + radius + 1 } else { w };
                let v: u8 = if dilate {
                    if window_search(&self.data, w, h, y_start, y_end, x_start, x_end, 1, true) { 255 } else { 0 }
                } else {
                    if window_search(&self.data, w, h, y_start, y_end, x_start, x_end, 255, false) { 0 } else { 255 }
                };
                let ghost before = output@;
                output.push(v);
                proof {
                    assert forall|xx: int, yy: int| 0 <= xx < w && 0 <= yy < y implies #[trigger] output@[yy * w + xx]
                        == morph_value(d, w as int, h as int, xx, yy, radius as int, dilate) by {
                        lemma_earlier_row(xx, yy, y as int, w as int);
                        assert(output@[yy * w + xx] == before[yy * w + xx]);
                    }
                    assert forall|xx: int| 0 <= xx < x + 1 implies #[trigger] output@[y * w + xx]
                        == morph_value(d, w as int, h as int, xx, y as int, radius as int, dilate) by {
                        if xx < x {
                            assert(output@[y * w + xx] == before[y * w + xx]);
                        }
                    }
                }
                x = x + 1;
            }
            proof {
                assert(y * w + w == (y + 1) * w) by (nonlinear_arith);
                assert forall|xx: int, yy: int| 0 <= xx < w && 0 <= yy < y + 1 implies #[trigger] output@[yy * w + xx]
                    == morph_value(d, w as int, h as int, xx, yy, radius as int, dilate) by {
                    if yy == y {
                        assert(output@[y * w + xx] == morph_value(d, w as int, h as int, xx, y as int, radius as int, dilate));
                    }
                }
            }
            y = y + 1;
        }
        proof {
            assert(h * w == w * h) by (nonlinear_arith);
        }
        self.data = output;
    }
}

/// Number of bytes above 128 in a mask.
pub open spec fn count_foreground(d: Seq<u8>) -> nat
    decreases d.len(),
{
    if d.len() == 0 {
        0
    } else {
        count_foreground(d.drop_last()) + if d.last() > 128 { 1nat } else { 0nat }
    }
}

impl MaskBuffer {
    /// Number of foreground pixels (above 128); the foreground ratio is this
    /// count over the number of pixels.
    pub fn foreground_count(&self) -> (n: usize)
        ensures
            n == count_foreground(self.data@),
    {
        let mut n: usize = 0;
        let mut i: usize = 0;
        while i < self.data.len()
            invariant
                i <= self.data@.len(),
                n == count_foreground(self.data@.take(i as int)),
                n <= i,
            decreases self.data@.len() - i,
        {
            proof {
                assert(self.data@.take(i as int + 1).drop_last() =~= self.data@.take(i as int));
            }
            if self.data[i] > 128 {
                n = n + 1;
            }
            i = i + 1;
        }
        assert(self.data@.take(i as int) =~= self.data@);
        n
    }
}

/// Squared Euclidean distance of two RGB colors.
pub open spec fn spec_color_distance(a: [u8; 3], b: [u8; 3]) -> int {
    (a[0] - b[0]) * (a[0] - b[0]) + (a[1] - b[1]) * (a[1] - b[1]) + (a[2] - b[2]) * (a[2] - b[2])
}

/// Squared Euclidean color distance in RGB space.
pub fn color_distance(a: &[u8; 3], b: &[u8; 3]) -> (d: u32)
    ensures
        d == spec_color_distance(*a, *b),
{
    let dr = if a[0] >= b[0] { (a[0] - b[0]) as u32 } else { (b[0] - a[0]) as u32 };
    let dg = if a[1] >= b[1] { (a[1] - b[1]) as u32 } else { (b[1] - a[1]) as u32 };
    let db = if a[2] >= b[2] { (a[2] - b[2]) as u32 } else { (b[2] - a[2]) as u32 };
    proof {
        assert(dr * dr <= 65025 && dg * dg <= 65025 && db * db <= 65025) by (nonlinear_arith)
            requires dr <= 255, dg <= 255, db <= 255;
        assert(dr * dr == (a[0] - b[0]) * (a[0] - b[0])) by (nonlinear_arith)
            requires dr == (if a[0] >= b[0] { a[0] - b[0] } else { b[0] - a[0] });
        assert(dg * dg == (a[1] - b[1]) * (a[1] - b[1])) by (nonlinear_arith)
            requires dg == (if a[1] >= b[1] { a[1] - b[1] } else { b[1] - a[1] });
        assert(db * db == (a[2] - b[2]) * (a[2] - b[2])) by (nonlinear_arith)
            requires db == (if a[2] >= b[2] { a[2] - b[2] } else { b[2] - a[2] });
    }
    dr * dr + dg * dg + db * db
}

/// Inverting a mask twice gives the mask back.
pub proof fn lemma_invert_involution(d: Seq<u8>)
    ensures
        Seq::new(Seq::new(d.len(), |i: int| (255 - d[i]) as u8).len(),
            |i: int| (255 - Seq::new(d.len(), |j: int| (255 - d[j]) as u8)[i]) as u8) == d,
{
    let once = Seq::new(d.len(), |i: int| (255 - d[i]) as u8);
    let twice = Seq::new(once.len(), |i: int| (255 - once[i]) as u8);
    assert(twice =~= d);
}

/// After setting a pixel inside the mask, reading it gives the value set, and
/// every other pixel reads as before.
pub proof fn lemma_set_then_get(m: MaskBuffer, x: int, y: int, value: u8, x2: int, y2: int)
    requires
        m.wf(),
        0 <= x < m.width,
        0 <= y < m.height,
        0 <= x2 < m.width,
        0 <= y2 < m.height,
    ensures
        ({
            let d = m.data@.update(y * m.width + x, value);
            &&& d[y * m.width + x] == value
            &&& (x2 != x || y2 != y) ==> d[y2 * m.width + x2] == m.data@[y2 * m.width + x2]
        }),
{
    lemma_grid_index(x, y, m.width as int, m.height as int);
    lemma_grid_index(x2, y2, m.width as int, m.height as int);
    if x2 != x || y2 != y {
        lemma_grid_distinct(x, y, x2, y2, m.width as int);
    }
}

proof fn lemma_grid_distinct(x: int, y: int, x2: int, y2: int, w: int)
    requires
        0 <= x < w,
        0 <= x2 < w,
        0 <= y,
        0 <= y2,
        x2 != x || y2 != y,
    ensures
        y * w + x != y2 * w + x2,
{
    if y == y2 {
    } else if y < y2 {
        assert(y * w + x < y2 * w + x2) by (nonlinear_arith)
            requires 0 <= x < w, 0 <= x2, y < y2;
    } else {
        assert(y2 * w + x2 < y * w + x) by (nonlinear_arith)
            requires 0 <= x2 < w, 0 <= x, y2 < y;
    }
}

/// Dilation keeps every foreground pixel: a pixel at least 1 becomes 255.
pub proof fn lemma_dilation_extensive(d: Seq<u8>, w: int, h: int, x: int, y: int, r: int)
    requires
        0 <= x < w,
        0 <= y < h,
        r >= 0,
        d[y * w + x] >= 1,
    ensures
        morph_value(d, w, h, x, y, r, true) == 255,
{
    assert(hit(d[y * w + x], 1, true));
}

/// Erosion only keeps fully opaque pixels: a pixel that comes out 255 was 255.
pub proof fn lemma_erosion_shrinks(d: Seq<u8>, w: int, h: int, x: int, y: int, r: int)
    requires
        0 <= x < w,
        0 <= y < h,
        r >= 0,
        morph_value(d, w, h, x, y, r, false) == 255,
    ensures
        d[y * w + x] == 255,
{
    if d[y * w + x] < 255 {
        assert(hit(d[y * w + x], 255, false));
    }
}

/// Magnitude of an `i32`.
pub open spec fn abs_i32(p: i32) -> int {
    if p < 0 { -(p as int) } else { p as int }
}

} // verus!
