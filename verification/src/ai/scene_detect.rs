//! Scene boundary detection by frame differencing: the exact pixel
//! difference of two frames, and the spacing rule that keeps detected cuts
//! apart.

use vstd::prelude::*;
use crate::ai::segmentation::row_bytes;
use crate::ai::upscale::rows_readable;
use crate::foundation::frame::{FrameBuffer, FramePlane, row_in_bounds};

verus! {

/// Type of scene transition.
#[derive(Debug, Clone, Copy, PartialEq, Eq, Structural)]
pub enum TransitionType {
    /// Abrupt scene change.
    HardCut,
    /// Gradual transition (dissolve, fade).
    Dissolve,
    /// Could not determine transition type.
    Unknown,
}

/// `|a - b|` of two bytes.
pub open spec fn byte_diff(a: u8, b: u8) -> nat {
    if a >= b {
        (a - b) as nat
    } else {
        (b - a) as nat
    }
}

/// The summed RGB difference of pixel `x` of two RGBA8 rows.
pub open spec fn pixel_diff(ra: Seq<u8>, rb: Seq<u8>, x: nat) -> nat {
    byte_diff(ra[(x * 4) as int], rb[(x * 4) as int]) + byte_diff(ra[(x * 4 + 1) as int], rb[(x * 4 + 1) as int])
        + byte_diff(ra[(x * 4 + 2) as int], rb[(x * 4 + 2) as int])
}

/// The summed difference of the first `n` pixels of two rows.
pub open spec fn row_diff(ra: Seq<u8>, rb: Seq<u8>, n: nat) -> nat
    decreases n,
{
    if n == 0 {
        0
    } else {
        row_diff(ra, rb, (n - 1) as nat) + pixel_diff(ra, rb, (n - 1) as nat)
    }
}

/// How many pixels of a row are compared: those of the frame's width whose
/// RGB bytes lie inside both rows.
pub open spec fn compared_in_row(w: nat, la: nat, lb: nat) -> nat {
    let l = if la < lb { la } else { lb };
    let fit = (l + 1) / 4;
    if w < fit { w } else { fit }
}

/// Summed difference and number of compared pixels over the first `h` rows.
pub open spec fn frame_diff(pa: FramePlane, pb: FramePlane, w: nat, h: nat) -> (nat, nat)
    decreases h,
{
    if h == 0 {
        (0, 0)
    } else {
        let prev = frame_diff(pa, pb, w, (h - 1) as nat);
        let ra = row_bytes(pa, (h - 1) as nat);
        let rb = row_bytes(pb, (h - 1) as nat);
        let n = compared_in_row(w, ra.len(), rb.len());
        (prev.0 + row_diff(ra, rb, n), prev.1 + n)
    }
}

proof fn lemma_row_diff_bound(ra: Seq<u8>, rb: Seq<u8>, n: nat)
    ensures
        row_diff(ra, rb, n) <= 765 * n,
    decreases n,
{
    if n > 0 {
        lemma_row_diff_bound(ra, rb, (n - 1) as nat);
    }
}

proof fn lemma_frame_diff_bound(pa: FramePlane, pb: FramePlane, w: nat, h: nat)
    ensures
        frame_diff(pa, pb, w, h).1 <= w * h,
        frame_diff(pa, pb, w, h).0 <= 765 * frame_diff(pa, pb, w, h).1,
    decreases h,
{
    if h > 0 {
        lemma_frame_diff_bound(pa, pb, w, (h - 1) as nat);
        let ra = row_bytes(pa, (h - 1) as nat);
        let rb = row_bytes(pb, (h - 1) as nat);
        lemma_row_diff_bound(ra, rb, compared_in_row(w, ra.len(), rb.len()));
        assert(w * (h - 1) + w == w * h) by (nonlinear_arith);
    }
}

/// Pixel `x` of two RGBA8 rows has the same red, green and blue bytes
/// (bytes `4x`, `4x + 1`, `4x + 2`).
pub open spec fn same_rgb(ra: Seq<u8>, rb: Seq<u8>, x: int) -> bool {
    &&& ra[x * 4] == rb[x * 4]
    &&& ra[x * 4 + 1] == rb[x * 4 + 1]
    &&& ra[x * 4 + 2] == rb[x * 4 + 2]
}

/// The difference of one pixel of two RGBA8 rows is made of its red, green
/// and blue bytes (bytes `4x`, `4x + 1`, `4x + 2`) and nothing else: it is
/// zero exactly when those three bytes agree, it is at least the difference
/// of each of them, where only one of them differs it is exactly that byte's
/// difference, and the alpha byte (`4x + 3`) never counts.
pub proof fn lemma_pixel_diff_channels(ra: Seq<u8>, rb: Seq<u8>, x: int)
    requires
        0 <= x,
        x * 4 + 2 < ra.len(),
        x * 4 + 2 < rb.len(),
    ensures
        pixel_diff(ra, rb, x as nat) == 0 <==> same_rgb(ra, rb, x),
        byte_diff(ra[x * 4], rb[x * 4]) <= pixel_diff(ra, rb, x as nat),
        byte_diff(ra[x * 4 + 1], rb[x * 4 + 1]) <= pixel_diff(ra, rb, x as nat),
        byte_diff(ra[x * 4 + 2], rb[x * 4 + 2]) <= pixel_diff(ra, rb, x as nat),
        ra[x * 4 + 1] == rb[x * 4 + 1] && ra[x * 4 + 2] == rb[x * 4 + 2] ==> pixel_diff(ra, rb, x as nat)
            == byte_diff(ra[x * 4], rb[x * 4]),
        ra[x * 4] == rb[x * 4] && ra[x * 4 + 2] == rb[x * 4 + 2] ==> pixel_diff(ra, rb, x as nat)
            == byte_diff(ra[x * 4 + 1], rb[x * 4 + 1]),
        ra[x * 4] == rb[x * 4] && ra[x * 4 + 1] == rb[x * 4 + 1] ==> pixel_diff(ra, rb, x as nat)
            == byte_diff(ra[x * 4 + 2], rb[x * 4 + 2]),
        x * 4 + 3 < ra.len() ==> forall|v: u8| #[trigger] pixel_diff(ra.update(x * 4 + 3, v), rb, x as nat)
            == pixel_diff(ra, rb, x as nat),
{
    if x * 4 + 3 < ra.len() {
        assert forall|v: u8| #[trigger] pixel_diff(ra.update(x * 4 + 3, v), rb, x as nat) == pixel_diff(
            ra,
            rb,
            x as nat,
        ) by {
            let u = ra.update(x * 4 + 3, v);
            assert(u[x * 4] == ra[x * 4] && u[x * 4 + 1] == ra[x * 4 + 1] && u[x * 4 + 2] == ra[x * 4 + 2]);
        }
    }
}

/// The difference of the first `n` pixels of two rows is zero exactly when
/// every one of those pixels has the same red, green and blue bytes.
pub proof fn lemma_row_diff_zero(ra: Seq<u8>, rb: Seq<u8>, n: nat)
    requires
        n * 4 <= ra.len() + 1,
        n * 4 <= rb.len() + 1,
    ensures
        row_diff(ra, rb, n) == 0 <==> (forall|x: int| 0 <= x < n ==> #[trigger] same_rgb(ra, rb, x)),
    decreases n,
{
    if n > 0 {
        lemma_row_diff_zero(ra, rb, (n - 1) as nat);
        lemma_pixel_diff_channels(ra, rb, n - 1);
        if row_diff(ra, rb, n) == 0 {
            assert forall|x: int| 0 <= x < n implies #[trigger] same_rgb(ra, rb, x) by {
                if x < n - 1 {
                    assert(same_rgb(ra, rb, x));
                }
            }
        }
        if (forall|x: int| 0 <= x < n ==> #[trigger] same_rgb(ra, rb, x)) {
            assert(same_rgb(ra, rb, n - 1));
            assert forall|x: int| 0 <= x < n - 1 implies #[trigger] same_rgb(ra, rb, x) by {
                assert(same_rgb(ra, rb, x));
            }
        }
    }
}

/// Over the first `h` rows, the summed difference of two planes is zero
/// exactly when every compared pixel has the same red, green and blue bytes
/// in both.
pub proof fn lemma_frame_diff_zero(pa: FramePlane, pb: FramePlane, w: nat, h: nat)
    ensures
        frame_diff(pa, pb, w, h).0 == 0 <==> (forall|y: int, x: int|
            0 <= y < h && 0 <= x < compared_in_row(w, row_bytes(pa, y as nat).len(), row_bytes(pb, y as nat).len())
                ==> #[trigger] same_rgb(row_bytes(pa, y as nat), row_bytes(pb, y as nat), x)),
    decreases h,
{
    if h > 0 {
        lemma_frame_diff_zero(pa, pb, w, (h - 1) as nat);
        let y0 = (h - 1) as nat;
        let ra = row_bytes(pa, y0);
        let rb = row_bytes(pb, y0);
        let n = compared_in_row(w, ra.len(), rb.len());
        lemma_row_diff_zero(ra, rb, n);
        let prev = frame_diff(pa, pb, w, y0);
        if frame_diff(pa, pb, w, h).0 == 0 {
            assert(prev.0 == 0 && row_diff(ra, rb, n) == 0);
            assert forall|y: int, x: int|
                0 <= y < h && 0 <= x < compared_in_row(w, row_bytes(pa, y as nat).len(), row_bytes(pb, y as nat).len())
                    implies #[trigger] same_rgb(row_bytes(pa, y as nat), row_bytes(pb, y as nat), x) by {
                if y < y0 {
                    assert(same_rgb(row_bytes(pa, y as nat), row_bytes(pb, y as nat), x));
                } else {
                    assert(same_rgb(ra, rb, x));
                }
            }
        }
        if (forall|y: int, x: int|
            0 <= y < h && 0 <= x < compared_in_row(w, row_bytes(pa, y as nat).len(), row_bytes(pb, y as nat).len())
                ==> #[trigger] same_rgb(row_bytes(pa, y as nat), row_bytes(pb, y as nat), x)) {
            assert forall|x: int| 0 <= x < n implies #[trigger] same_rgb(ra, rb, x) by {
                assert(same_rgb(row_bytes(pa, y0), row_bytes(pb, y0), x));
            }
            assert forall|y: int, x: int|
                0 <= y < y0 && 0 <= x < compared_in_row(w, row_bytes(pa, y as nat).len(), row_bytes(pb, y as nat).len())
                    implies #[trigger] same_rgb(row_bytes(pa, y as nat), row_bytes(pb, y as nat), x) by {
                assert(same_rgb(row_bytes(pa, y as nat), row_bytes(pb, y as nat), x));
            }
        }
    }
}

fn abs_diff(a: u8, b: u8) -> (d: u64)
    ensures
        d == byte_diff(a, b),
{
    if a >= b {
        (a - b) as u64
    } else {
        (b - a) as u64
    }
}

/// The exact difference of two RGBA8 frames of the same size: the summed
/// absolute difference of their R, G and B bytes, and the number of pixels
/// compared. In each row the pixels are compared from the left while both
/// rows hold them. `None` when the sizes differ; `(0, 0)` for an empty frame.
/// The mean difference in `[0, 1]` is the sum over `3 * 255` times the count.
pub fn frame_difference(a: &FrameBuffer, b: &FrameBuffer) -> (r: Option<(u64, u64)>)
    requires
        (a.width as nat) * (a.height as nat) <= usize::MAX,
        765 * ((a.width as nat) * (a.height as nat)) <= u64::MAX,
        a.width == b.width && a.height == b.height && a.width * a.height > 0 ==> rows_readable(*a)
            && rows_readable(*b),
    ensures
        (a.width != b.width || a.height != b.height) ==> r is None,
        (a.width == b.width && a.height == b.height && a.width * a.height == 0) ==> r == Some((0u64, 0u64)),
        (a.width == b.width && a.height == b.height && a.width * a.height > 0) ==> r == Some(
            (
                frame_diff(a.plane_seq()[0], b.plane_seq()[0], a.width as nat, a.height as nat).0 as u64,
                frame_diff(a.plane_seq()[0], b.plane_seq()[0], a.width as nat, a.height as nat).1 as u64,
            ),
        ),
{
    if a.width != b.width || a.height != b.height {
        return None;
    }
    let w = a.width;
    let h = a.height;
    if (w as usize) * (h as usize) == 0 {
        return Some((0, 0));
    }
    let pa = a.primary_plane();
    let pb = b.primary_plane();
    let ghost wn = w as nat;
    proof {
        lemma_frame_diff_bound(*pa, *pb, wn, h as nat);
    }
    let mut total: u64 = 0;
    let mut count: u64 = 0;
    let mut y: u32 = 0;
    while y < h
        invariant
            y <= h,
            w == a.width,
            h == a.height,
            w == b.width,
            h == b.height,
            wn == w,
            *pa == a.plane_seq()[0],
            *pb == b.plane_seq()[0],
            rows_readable(*a),
            rows_readable(*b),
            765 * ((w as nat) * (h as nat)) <= u64::MAX,
            frame_diff(*pa, *pb, wn, h as nat).1 <= wn * h,
            total == frame_diff(*pa, *pb, wn, y as nat).0,
            count == frame_diff(*pa, *pb, wn, y as nat).1,
        decreases h - y,
    {
        proof {
            lemma_frame_diff_bound(*pa, *pb, wn, (y + 1) as nat);
            assert(wn * (y + 1) <= wn * h) by (nonlinear_arith)
                requires
                    y + 1 <= h,
            ;
            assert(row_in_bounds(a.plane_seq()[0], y as nat));
            assert(row_in_bounds(b.plane_seq()[0], y as nat));
        }
        let ra = pa.row(y);
        let rb = pb.row(y);
        let ghost n = compared_in_row(wn, ra@.len(), rb@.len());
        let mut x: u32 = 0;
        let mut row_total: u64 = 0;
        let mut stop = false;
        while x < w && !stop
            invariant
                x <= w,
                ra@ == row_bytes(*pa, y as nat),
                rb@ == row_bytes(*pb, y as nat),
                n == compared_in_row(wn, ra@.len(), rb@.len()),
                wn == w,
                stop ==> x == n,
                !stop ==> x <= n,
                row_total == row_diff(ra@, rb@, x as nat),
                row_total <= 765 * x,
            decreases w - x + if stop { 0int } else { 1int },
        {
            let base: u64 = x as u64 * 4;
            if base + 2 >= ra.len() as u64 || base + 2 >= rb.len() as u64 {
                stop = true;
            } else {
                let bi = base as usize;
                let d = abs_diff(ra[bi], rb[bi]) + abs_diff(ra[bi + 1], rb[bi + 1]) + abs_diff(
                    ra[bi + 2],
                    rb[bi + 2],
                );
                row_total = row_total + d;
                x = x + 1;
            }
        }
        proof {
            assert(x == n);
        }
        total = total + row_total;
        count = count + x as u64;
        y = y + 1;
    }
    Some((total, count))
}

/// Which of the candidate cut frames are kept: going through them in order,
/// a frame is kept when it lies at least `min_gap` frames after the last
/// kept one (the first one always qualifies against a start of `-min_gap`).
pub open spec fn kept_cuts(frames: Seq<i64>, min_gap: i64) -> Seq<int>
    decreases frames.len(),
{
    if frames.len() == 0 {
        Seq::empty()
    } else {
        let prev = kept_cuts(frames.drop_last(), min_gap);
        let last = if prev.len() == 0 { -min_gap } else { frames[prev.last()] as int };
        if frames.last() - last >= min_gap {
            prev.push(frames.len() - 1)
        } else {
            prev
        }
    }
}

proof fn lemma_kept_in_range(frames: Seq<i64>, min_gap: i64)
    ensures
        forall|k: int| 0 <= k < kept_cuts(frames, min_gap).len() ==> 0 <= #[trigger] kept_cuts(frames, min_gap)[k]
            < frames.len(),
    decreases frames.len(),
{
    if frames.len() > 0 {
        let prev = kept_cuts(frames.drop_last(), min_gap);
        lemma_kept_in_range(frames.drop_last(), min_gap);
        let cur = kept_cuts(frames, min_gap);
        assert forall|k: int| 0 <= k < cur.len() implies 0 <= #[trigger] cur[k] < frames.len() by {
            if k < prev.len() {
                assert(cur[k] == prev[k]);
            }
        }
    }
}

/// Kept cuts are spaced: each kept cut lies at least `min_gap` frames after
/// the one kept before it.
pub proof fn lemma_kept_cuts_spaced(frames: Seq<i64>, min_gap: i64)
    ensures
        forall|k: int|
            0 <= k < kept_cuts(frames, min_gap).len() - 1 ==> frames[kept_cuts(frames, min_gap)[k + 1]]
                - frames[#[trigger] kept_cuts(frames, min_gap)[k]] >= min_gap,
    decreases frames.len(),
{
    if frames.len() > 0 {
        let d = frames.drop_last();
        let prev = kept_cuts(d, min_gap);
        lemma_kept_cuts_spaced(d, min_gap);
        lemma_kept_in_range(d, min_gap);
        let cur = kept_cuts(frames, min_gap);
        assert forall|k: int| 0 <= k < cur.len() - 1 implies frames[cur[k + 1]] - frames[#[trigger] cur[k]]
            >= min_gap by {
            assert(cur[k] == prev[k]);
            assert(frames[prev[k]] == d[prev[k]]);
            if k + 1 < prev.len() {
                assert(cur[k + 1] == prev[k + 1]);
                assert(frames[prev[k + 1]] == d[prev[k + 1]]);
            } else {
                assert(k == prev.len() - 1);
                assert(frames[prev.last()] == d[prev.last()]);
            }
        }
    }
}

proof fn lemma_kept_prefix(frames: Seq<i64>, min_gap: i64, i: int)
    requires
        0 <= i < frames.len(),
    ensures
        kept_cuts(frames.take(i + 1), min_gap) == ({
            let prev = kept_cuts(frames.take(i), min_gap);
            let last = if prev.len() == 0 { -min_gap } else { frames[prev.last()] as int };
            if frames[i] - last >= min_gap {
                prev.push(i)
            } else {
                prev
            }
        }),
{
    let t = frames.take(i + 1);
    assert(t.drop_last() =~= frames.take(i));
    lemma_kept_in_range(frames.take(i), min_gap);
    let prev = kept_cuts(frames.take(i), min_gap);
    if prev.len() > 0 {
        assert(t[prev.last()] == frames[prev.last()]);
    }
}

/// The positions of the candidate cuts that are kept, in order: a cut is
/// dropped when it comes fewer than `min_gap` frames after the last cut kept.
pub fn keep_spaced_cuts(frames: &Vec<i64>, min_gap: i64) -> (kept: Vec<usize>)
    ensures
        kept@.map_values(|k: usize| k as int) == kept_cuts(frames@, min_gap),
{
    let mut kept: Vec<usize> = Vec::new();
    let mut last: i128 = -(min_gap as i128);
    let mut i: usize = 0;
    while i < frames.len()
        invariant
            i <= frames.len(),
            kept@.map_values(|k: usize| k as int) == kept_cuts(frames@.take(i as int), min_gap),
            last == (if kept@.len() == 0 { -min_gap } else { frames@[kept@.last() as int] as int }),
            forall|k: int| 0 <= k < kept@.len() ==> #[trigger] kept@[k] < i,
        decreases frames.len() - i,
    {
        proof {
            lemma_kept_prefix(frames@, min_gap, i as int);
            if kept@.len() > 0 {
                assert(kept@.map_values(|k: usize| k as int).last() == kept@.last() as int);
            }
        }
        let f = frames[i];
        if (f as i128) - last >= min_gap as i128 {
            let ghost before = kept@;
            kept.push(i);
            assert(kept@.map_values(|k: usize| k as int) =~= before.map_values(|k: usize| k as int).push(
                i as int,
            ));
            last = f as i128;
        }
        i = i + 1;
    }
    assert(frames@.take(frames@.len() as int) =~= frames@);
    kept
}

} // verus!
