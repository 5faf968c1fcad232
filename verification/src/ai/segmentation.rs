//! Click-driven segmentation: masks from the colors under the user's clicks,
//! and carrying a mask over to the next frame.

use vstd::prelude::*;
use crate::ai::rotoscope::{color_distance, spec_color_distance, MaskBuffer, lemma_grid_index, morph_value};
use crate::ai::upscale::rows_readable;
use crate::foundation::frame::{FrameBuffer, FramePlane, row_end, row_in_bounds, row_start};

verus! {

/// Quality level for the segmentation model.
#[derive(Debug, Clone, Copy, PartialEq, Eq, Structural)]
pub enum SegmentationQuality {
    /// ViT-B backbone: fast, good for real-time preview.
    Fast,
    /// ViT-H backbone: slow, best quality for final render.
    High,
}

/// A click on a frame, at a whole pixel.
#[derive(Debug, Clone, Copy)]
pub struct PixelClick {
    /// Column of the clicked pixel.
    pub x: u32,
    /// Row of the clicked pixel.
    pub y: u32,
    /// True: include this region; false: exclude it.
    pub is_positive: bool,
}

/// Colors closer than this (squared RGB distance) count as the same region.
pub open spec fn color_threshold() -> int {
    50
}

/// The bytes of row `y` of a plane.
pub open spec fn row_bytes(p: FramePlane, y: nat) -> Seq<u8> {
    p.data@.subrange(row_start(p, y) as int, row_end(p, y) as int)
}

/// The RGB bytes of pixel `x` of an RGBA8 row.
pub open spec fn rgb_of(row: Seq<u8>, x: nat) -> [u8; 3] {
    [row[(x * 4) as int], row[(x * 4 + 1) as int], row[(x * 4 + 2) as int]]
}

/// The color under a click, where the click lies on the frame and its row
/// holds the pixel.
pub open spec fn sample_color(p: FramePlane, w: nat, h: nat, c: PixelClick) -> Option<[u8; 3]> {
    if c.x < w && c.y < h && c.x * 4 + 2 < row_bytes(p, c.y as nat).len() {
        Some(rgb_of(row_bytes(p, c.y as nat), c.x as nat))
    } else {
        None
    }
}

/// The colors under the positive (or negative) clicks, in click order.
pub open spec fn click_colors(p: FramePlane, w: nat, h: nat, clicks: Seq<PixelClick>, positive: bool) -> Seq<[u8; 3]>
    decreases clicks.len(),
{
    if clicks.len() == 0 {
        Seq::empty()
    } else {
        let rest = click_colors(p, w, h, clicks.drop_last(), positive);
        if clicks.last().is_positive == positive {
            match sample_color(p, w, h, clicks.last()) {
                Some(col) => rest.push(col),
                None => rest,
            }
        } else {
            rest
        }
    }
}

/// `px` is within the threshold of one of `colors`.
pub open spec fn near_any(colors: Seq<[u8; 3]>, px: [u8; 3]) -> bool {
    exists|k: int| 0 <= k < colors.len() && spec_color_distance(px, #[trigger] colors[k]) < color_threshold()
}

/// The mask byte of pixel (`x`, `y`): foreground where the pixel is near the
/// color of a positive click and near none of a negative click.
pub open spec fn segment_value(p: FramePlane, w: nat, h: nat, clicks: Seq<PixelClick>, x: nat, y: nat) -> u8 {
    let row = row_bytes(p, y);
    if x * 4 + 2 < row.len() && near_any(click_colors(p, w, h, clicks, true), rgb_of(row, x))
        && !near_any(click_colors(p, w, h, clicks, false), rgb_of(row, x)) {
        255
    } else {
        0
    }
}

/// Squared difference of two bytes.
pub open spec fn byte_sq(a: u8, b: u8) -> int {
    (a - b) * (a - b)
}

/// Squared RGB distance between pixel `x` of RGBA8 row `ra` and pixel `z` of
/// RGBA8 row `rb`, read straight from their bytes `4x .. 4x + 2` and
/// `4z .. 4z + 2`.
pub open spec fn pixel_distance(ra: Seq<u8>, x: int, rb: Seq<u8>, z: int) -> int {
    byte_sq(ra[x * 4], rb[z * 4]) + byte_sq(ra[x * 4 + 1], rb[z * 4 + 1]) + byte_sq(ra[x * 4 + 2], rb[z * 4 + 2])
}

/// A click lies on the frame and its row holds the clicked pixel.
pub open spec fn click_on_frame(p: FramePlane, w: nat, h: nat, c: PixelClick) -> bool {
    c.x < w && c.y < h && c.x * 4 + 2 < row_bytes(p, c.y as nat).len()
}

/// Pixel `x` of row `row` is within the color threshold of the pixel under
/// some click of the given sign that lies on the frame.
pub open spec fn near_some_click(
    p: FramePlane,
    w: nat,
    h: nat,
    clicks: Seq<PixelClick>,
    positive: bool,
    row: Seq<u8>,
    x: nat,
) -> bool {
    exists|i: int|
        0 <= i < clicks.len() && (#[trigger] clicks[i]).is_positive == positive && click_on_frame(p, w, h, clicks[i])
            && pixel_distance(row, x as int, row_bytes(p, clicks[i].y as nat), clicks[i].x as int) < color_threshold()
}

proof fn lemma_near_click_colors(
    p: FramePlane,
    w: nat,
    h: nat,
    clicks: Seq<PixelClick>,
    positive: bool,
    row: Seq<u8>,
    x: nat,
)
    requires
        x * 4 + 2 < row.len(),
    ensures
        near_any(click_colors(p, w, h, clicks, positive), rgb_of(row, x)) <==> near_some_click(
            p,
            w,
            h,
            clicks,
            positive,
            row,
            x,
        ),
    decreases clicks.len(),
{
    let px = rgb_of(row, x);
    if clicks.len() > 0 {
        let init = clicks.drop_last();
        let c = clicks.last();
        lemma_near_click_colors(p, w, h, init, positive, row, x);
        let rest = click_colors(p, w, h, init, positive);
        let all = click_colors(p, w, h, clicks, positive);
        if click_on_frame(p, w, h, c) {
            let crow = row_bytes(p, c.y as nat);
            let col = rgb_of(crow, c.x as nat);
            assert(spec_color_distance(px, col) == pixel_distance(row, x as int, crow, c.x as int));
        }
        if near_any(all, px) {
            let k = choose|k: int| 0 <= k < all.len() && spec_color_distance(px, #[trigger] all[k]) < color_threshold();
            if k < rest.len() {
                assert(all[k] == rest[k]);
                assert(near_any(rest, px));
                let i = choose|i: int|
                    0 <= i < init.len() && (#[trigger] init[i]).is_positive == positive && click_on_frame(p, w, h, init[i])
                        && pixel_distance(row, x as int, row_bytes(p, init[i].y as nat), init[i].x as int) < color_threshold();
                assert(clicks[i] == init[i]);
            } else {
                assert(clicks[clicks.len() - 1] == c);
            }
        }
        if near_some_click(p, w, h, clicks, positive, row, x) {
            let i = choose|i: int|
                0 <= i < clicks.len() && (#[trigger] clicks[i]).is_positive == positive && click_on_frame(p, w, h, clicks[i])
                    && pixel_distance(row, x as int, row_bytes(p, clicks[i].y as nat), clicks[i].x as int) < color_threshold();
            if i < init.len() {
                assert(init[i] == clicks[i]);
                assert(near_some_click(p, w, h, init, positive, row, x));
                let k = choose|k: int| 0 <= k < rest.len() && spec_color_distance(px, #[trigger] rest[k]) < color_threshold();
                assert(all[k] == rest[k]);
            } else {
                assert(all[all.len() - 1] == rgb_of(row_bytes(p, c.y as nat), c.x as nat));
            }
        }
    }
}

/// What segmenting by color makes of pixel (`x`, `y`), read straight from the
/// frame's bytes: foreground (255) exactly when the row holds the pixel, its
/// red, green and blue bytes lie within the color threshold of those under
/// some positive click on the frame, and within it of those under no negative
/// click on the frame; background (0) otherwise.
pub proof fn lemma_segment_by_color_law(
    p: FramePlane,
    w: nat,
    h: nat,
    clicks: Seq<PixelClick>,
    x: nat,
    y: nat,
)
    ensures
        segment_value(p, w, h, clicks, x, y) == if x * 4 + 2 < row_bytes(p, y).len() && near_some_click(
            p,
            w,
            h,
            clicks,
            true,
            row_bytes(p, y),
            x,
        ) && !near_some_click(p, w, h, clicks, false, row_bytes(p, y), x) {
            255u8
        } else {
            0u8
        },
{
    let row = row_bytes(p, y);
    if x * 4 + 2 < row.len() {
        lemma_near_click_colors(p, w, h, clicks, true, row, x);
        lemma_near_click_colors(p, w, h, clicks, false, row, x);
    }
}

fn near_colors(colors: &Vec<[u8; 3]>, px: &[u8; 3]) -> (b: bool)
    ensures
        b == near_any(colors@, *px),
{
    let mut k: usize = 0;
    while k < colors.len()
        invariant
            k <= colors.len(),
            forall|j: int| 0 <= j < k ==> spec_color_distance(*px, #[trigger] colors@[j]) >= color_threshold(),
        decreases colors.len() - k,
    {
        if color_distance(px, &colors[k]) < 50 {
            return true;
        }
        k = k + 1;
    }
    false
}

fn sample_at(plane: &FramePlane, w: u32, h: u32, c: PixelClick) -> (r: Option<[u8; 3]>)
    requires
        forall|r: nat| r < h ==> #[trigger] row_in_bounds(*plane, r),
    ensures
        r == sample_color(*plane, w as nat, h as nat, c),
{
    if c.x < w && c.y < h {
        assert(row_in_bounds(*plane, c.y as nat));
        let row = plane.row(c.y);
        let base: u64 = c.x as u64 * 4;
        if base + 2 < row.len() as u64 {
            let b = base as usize;
            let col = [row[b], row[b + 1], row[b + 2]];
            assert(col == rgb_of(row@, c.x as nat));
            return Some(col);
        }
    }
    None
}

fn collect_colors(plane: &FramePlane, w: u32, h: u32, clicks: &[PixelClick], positive: bool) -> (v: Vec<[u8; 3]>)
    requires
        forall|r: nat| r < h ==> #[trigger] row_in_bounds(*plane, r),
    ensures
        v@ == click_colors(*plane, w as nat, h as nat, clicks@, positive),
{
    let mut v: Vec<[u8; 3]> = Vec::new();
    let mut i: usize = 0;
    while i < clicks.len()
        invariant
            i <= clicks@.len(),
            forall|r: nat| r < h ==> #[trigger] row_in_bounds(*plane, r),
            v@ == click_colors(*plane, w as nat, h as nat, clicks@.take(i as int), positive),
        decreases clicks@.len() - i,
    {
        assert(clicks@.take(i + 1).drop_last() =~= clicks@.take(i as int));
        let c = clicks[i];
        if c.is_positive == positive {
            match sample_at(plane, w, h, c) {
                Some(col) => v.push(col),
                None => {},
            }
        }
        i = i + 1;
    }
    assert(clicks@.take(clicks@.len() as int) =~= clicks@);
    v
}

/// Segment a frame by the colors under the clicks: a pixel is foreground
/// (255) when its color is near that of some positive click and near that of
/// no negative click; every other pixel is background (0). A pixel whose row
/// is too short to hold it stays background.
pub fn segment_by_color(frame: &FrameBuffer, clicks: &[PixelClick]) -> (mask: MaskBuffer)
    requires
        rows_readable(*frame),
        (frame.width as nat) * (frame.height as nat) <= usize::MAX,
    ensures
        mask.width == frame.width,
        mask.height == frame.height,
        mask.wf(),
        forall|x: int, y: int|
            0 <= x < frame.width && 0 <= y < frame.height ==> #[trigger] mask.pixel(x, y)
                == segment_value(frame.plane_seq()[0], frame.width as nat, frame.height as nat, clicks@, x as nat, y as nat),
{
    let w = frame.width;
    let h = frame.height;
    let mut mask = MaskBuffer::new(w, h);
    let plane = frame.primary_plane();
    assert forall|r: nat| r < h implies #[trigger] row_in_bounds(*plane, r) by {
        assert(row_in_bounds(frame.plane_seq()[0], r));
    }
    let refs = collect_colors(plane, w, h, clicks, true);
    let negs = collect_colors(plane, w, h, clicks, false);
    let ghost p = *plane;
    proof {
        assert forall|xx: int, yy: int| 0 <= xx < w && 0 <= yy < h implies #[trigger] mask.pixel(xx, yy)
            == 0u8 by {
            lemma_grid_index(xx, yy, w as int, h as int);
        }
    }
    let mut y: u32 = 0;
    while y < h
        invariant
            y <= h,
            mask.width == w,
            mask.height == h,
            mask.wf(),
            p == *plane,
            forall|r: nat| r < h ==> #[trigger] row_in_bounds(*plane, r),
            refs@ == click_colors(p, w as nat, h as nat, clicks@, true),
            negs@ == click_colors(p, w as nat, h as nat, clicks@, false),
            forall|xx: int, yy: int|
                0 <= xx < w && 0 <= yy < h ==> #[trigger] mask.pixel(xx, yy) == if yy < y {
                    segment_value(p, w as nat, h as nat, clicks@, xx as nat, yy as nat)
                } else {
                    0u8
                },
        decreases h - y,
    {
        assert(row_in_bounds(*plane, y as nat));
        let row = plane.row(y);
        let mut x: u32 = 0;
        let mut done = false;
        while x < w && !done
            invariant
                x <= w,
                y < h,
                mask.width == w,
                mask.height == h,
                mask.wf(),
                p == *plane,
                row@ == row_bytes(p, y as nat),
                refs@ == click_colors(p, w as nat, h as nat, clicks@, true),
                negs@ == click_colors(p, w as nat, h as nat, clicks@, false),
                done ==> x * 4 + 2 >= row@.len(),
                forall|xx: int, yy: int|
                    0 <= xx < w && 0 <= yy < h ==> #[trigger] mask.pixel(xx, yy) == if yy < y || (yy == y
                        && xx < x) {
                        segment_value(p, w as nat, h as nat, clicks@, xx as nat, yy as nat)
                    } else {
                        0u8
                    },
            decreases w - x + if done { 0int } else { 1int },
        {
            let base: u64 = x as u64 * 4;
            if base + 2 >= row.len() as u64 {
                done = true;
            } else {
                let b = base as usize;
                let px = [row[b], row[b + 1], row[b + 2]];
                assert(px == rgb_of(row@, x as nat));
                let near_ref = near_colors(&refs, &px);
                let near_neg = near_colors(&negs, &px);
                let ghost m0 = mask;
                proof {
                    lemma_grid_index(x as int, y as int, w as int, h as int);
                    assert(m0.pixel(x as int, y as int) == 0u8);
                }
                if near_ref && !near_neg {
                    mask.set(x, y, 255);
                }
                proof {
                    lemma_grid_index(x as int, y as int, w as int, h as int);
                    assert forall|xx: int, yy: int|
                        0 <= xx < w && 0 <= yy < h implies #[trigger] mask.pixel(xx, yy) == if yy < y
                            || (yy == y && xx < x + 1) {
                            segment_value(p, w as nat, h as nat, clicks@, xx as nat, yy as nat)
                        } else {
                            0u8
                        } by {
                        lemma_grid_index(xx, yy, w as int, h as int);
                        if xx != x || yy != y {
                            if yy * w + xx == y * w + x {
                                assert(yy * w + xx == y * w + x);
                                if yy < y {
                                    assert(yy * w + xx < y * w) by (nonlinear_arith)
                                        requires yy < y, xx < w, 0 <= xx;
                                } else if yy > y {
                                    assert(yy * w + xx >= y * w + w) by (nonlinear_arith)
                                        requires yy > y, 0 <= xx;
                                }
                            }
                            assert(mask.pixel(xx, yy) == m0.pixel(xx, yy));
                        }
                    }
                }
                x = x + 1;
            }
        }
        proof {
            assert forall|xx: int, yy: int|
                0 <= xx < w && 0 <= yy < h implies #[trigger] mask.pixel(xx, yy) == if yy < y + 1 {
                    segment_value(p, w as nat, h as nat, clicks@, xx as nat, yy as nat)
                } else {
                    0u8
                } by {
                if yy == y && xx >= x {
                    assert(done);
                    assert(xx * 4 + 2 >= row@.len());
                }
            }
        }
        y = y + 1;
    }
    mask
}

/// Carry a mask over to a frame of size `width` by `height`: the previous
/// mask dilated by two pixels, or an empty mask where the sizes differ.
pub fn propagate_mask(width: u32, height: u32, prev: &MaskBuffer) -> (mask: MaskBuffer)
    requires
        prev.wf(),
        (width as nat) * (height as nat) <= usize::MAX,
        prev.width + 3 <= usize::MAX,
        prev.height + 3 <= usize::MAX,
    ensures
        mask.width == width,
        mask.height == height,
        mask.wf(),
        width != prev.width || height != prev.height ==> mask.data@ == Seq::new(
            (width * height) as nat,
            |i: int| 0u8,
        ),
        width == prev.width && height == prev.height ==> forall|x: int, y: int|
            0 <= x < width && 0 <= y < height ==> #[trigger] mask.pixel(x, y) == morph_value(
                prev.data@,
                width as int,
                height as int,
                x,
                y,
                2,
                true,
            ),
{
    if width != prev.width || height != prev.height {
        return MaskBuffer::new(width, height);
    }
    let mut mask = MaskBuffer { width: prev.width, height: prev.height, data: prev.data.clone() };
    assert(mask.data@ =~= prev.data@);
    mask.expand_contract(2);
    mask
}

} // verus!
