//! Visual content indexing: shot types, camera motion, and the exact pixel
//! statistics (colour buckets, weighted luminance) of a frame's samples.

use vstd::prelude::*;
use crate::ai::segmentation::row_bytes;
use crate::ai::upscale::{lemma_positions, min_nat, rows_readable, tile_count};
use crate::foundation::frame::{FrameBuffer, FramePlane, row_in_bounds};

verus! {

/// Shot type classification.
#[derive(Debug, Clone, Copy, PartialEq, Eq, Structural, Hash)]
pub enum ShotType {
    /// Extreme close-up (ECU).
    ExtremeCloseUp,
    /// Close-up (CU).
    CloseUp,
    /// Medium close-up (MCU).
    MediumCloseUp,
    /// Medium shot (MS).
    Medium,
    /// Medium wide / cowboy shot.
    MediumWide,
    /// Wide shot (WS).
    Wide,
    /// Extreme wide / establishing shot.
    ExtremeWide,
    /// Overhead / aerial / drone shot.
    Aerial,
    /// Could not determine.
    Unknown,
}

impl ShotType {
    /// The text of [`Self::display_name`].
    pub open spec fn label(self) -> Seq<char> {
        match self {
            ShotType::ExtremeCloseUp => "Extreme Close-Up"@,
            ShotType::CloseUp => "Close-Up"@,
            ShotType::MediumCloseUp => "Medium Close-Up"@,
            ShotType::Medium => "Medium"@,
            ShotType::MediumWide => "Medium Wide"@,
            ShotType::Wide => "Wide"@,
            ShotType::ExtremeWide => "Extreme Wide"@,
            ShotType::Aerial => "Aerial"@,
            ShotType::Unknown => "Unknown"@,
        }
    }

    /// Display name for the UI.
    pub fn display_name(&self) -> (r: &'static str)
        ensures
            r@ == self.label(),
    {
        match self {
            ShotType::ExtremeCloseUp => "Extreme Close-Up",
            ShotType::CloseUp => "Close-Up",
            ShotType::MediumCloseUp => "Medium Close-Up",
            ShotType::Medium => "Medium",
            ShotType::MediumWide => "Medium Wide",
            ShotType::Wide => "Wide",
            ShotType::ExtremeWide => "Extreme Wide",
            ShotType::Aerial => "Aerial",
            ShotType::Unknown => "Unknown",
        }
    }
}

/// Camera motion type.
#[derive(Debug, Clone, Copy, PartialEq, Eq, Structural)]
pub enum CameraMotion {
    /// No camera movement.
    Static,
    /// Pan to the left.
    PanLeft,
    /// Pan to the right.
    PanRight,
    /// Tilt upward.
    TiltUp,
    /// Tilt downward.
    TiltDown,
    /// Zoom in.
    ZoomIn,
    /// Zoom out.
    ZoomOut,
    /// Dolly move.
    Dolly,
    /// Handheld shake.
    Handheld,
    /// Could not determine.
    Unknown,
}

impl CameraMotion {
    /// The text of [`Self::display_name`].
    pub open spec fn label(self) -> Seq<char> {
        match self {
            CameraMotion::Static => "Static"@,
            CameraMotion::PanLeft => "Pan Left"@,
            CameraMotion::PanRight => "Pan Right"@,
            CameraMotion::TiltUp => "Tilt Up"@,
            CameraMotion::TiltDown => "Tilt Down"@,
            CameraMotion::ZoomIn => "Zoom In"@,
            CameraMotion::ZoomOut => "Zoom Out"@,
            CameraMotion::Dolly => "Dolly"@,
            CameraMotion::Handheld => "Handheld"@,
            CameraMotion::Unknown => "Unknown"@,
        }
    }

    /// Display name for the UI.
    pub fn display_name(&self) -> (r: &'static str)
        ensures
            r@ == self.label(),
    {
        match self {
            CameraMotion::Static => "Static",
            CameraMotion::PanLeft => "Pan Left",
            CameraMotion::PanRight => "Pan Right",
            CameraMotion::TiltUp => "Tilt Up",
            CameraMotion::TiltDown => "Tilt Down",
            CameraMotion::ZoomIn => "Zoom In",
            CameraMotion::ZoomOut => "Zoom Out",
            CameraMotion::Dolly => "Dolly",
            CameraMotion::Handheld => "Handheld",
            CameraMotion::Unknown => "Unknown",
        }
    }
}


/// How many pixels of a row are sampled when every `step`-th pixel of the
/// frame's width is taken, starting with the first, while its RGB bytes lie
/// inside the row.
pub open spec fn sampled_in_row(w: nat, len: nat, step: nat) -> nat {
    min_nat(
        tile_count(w, step),
        if len >= 2 {
            tile_count((len - 2) as nat, 4 * step)
        } else {
            0
        },
    )
}

/// The first `m` sampled pixels of an RGBA8 row: pixels 0, `step`, `2 step`, ...
pub open spec fn row_samples(row: Seq<u8>, m: nat, step: nat) -> Seq<(u8, u8, u8)> {
    Seq::new(m, |j: int| (row[4 * step * j], row[4 * step * j + 1], row[4 * step * j + 2]))
}

/// The pixels sampled from the first `k` sampled rows (rows 0, `step`, ...).
pub open spec fn samples_upto(p: FramePlane, w: nat, k: nat, step: nat) -> Seq<(u8, u8, u8)>
    decreases k,
{
    if k == 0 {
        Seq::empty()
    } else {
        let row = row_bytes(p, (step * (k - 1)) as nat);
        samples_upto(p, w, (k - 1) as nat, step) + row_samples(row, sampled_in_row(w, row.len(), step), step)
    }
}

/// The pixels sampled from a frame's primary plane: every fourth pixel of
/// every fourth row, in reading order.
pub open spec fn frame_samples(f: FrameBuffer) -> Seq<(u8, u8, u8)> {
    samples_upto(f.plane_seq()[0], f.width as nat, tile_count(f.height as nat, 4), 4)
}

/// Every pixel of a frame's primary plane whose RGB bytes lie inside its
/// row, in reading order.
pub open spec fn frame_pixels(f: FrameBuffer) -> Seq<(u8, u8, u8)> {
    samples_upto(f.plane_seq()[0], f.width as nat, f.height as nat, 1)
}

/// The colour bucket of a pixel: each channel quantised to four levels of 64,
/// red most significant.
pub open spec fn bucket_of(p: (u8, u8, u8)) -> nat {
    ((p.0 / 64) * 16 + (p.1 / 64) * 4 + p.2 / 64) as nat
}

/// How many of the pixels fall into bucket `b`.
pub open spec fn bucket_count(s: Seq<(u8, u8, u8)>, b: nat) -> nat
    decreases s.len(),
{
    if s.len() == 0 {
        0
    } else {
        bucket_count(s.drop_last(), b) + if bucket_of(s.last()) == b {
            1nat
        } else {
            0nat
        }
    }
}

/// The counts of buckets `0..m` added up.
pub open spec fn bucket_sum(s: Seq<(u8, u8, u8)>, m: nat) -> nat
    decreases m,
{
    if m == 0 {
        0
    } else {
        bucket_sum(s, (m - 1) as nat) + bucket_count(s, (m - 1) as nat)
    }
}

proof fn lemma_bucket_sum_push(s: Seq<(u8, u8, u8)>, p: (u8, u8, u8), m: nat)
    ensures
        bucket_sum(s.push(p), m) == bucket_sum(s, m) + if bucket_of(p) < m {
            1nat
        } else {
            0nat
        },
    decreases m,
{
    assert(s.push(p).drop_last() =~= s);
    if m > 0 {
        lemma_bucket_sum_push(s, p, (m - 1) as nat);
    }
}

/// Every sample falls into exactly one of the 64 colour buckets: the
/// bucket counts add up to the number of samples.
pub proof fn lemma_bucket_counts_total(s: Seq<(u8, u8, u8)>)
    ensures
        bucket_sum(s, 64) == s.len(),
    decreases s.len(),
{
    if s.len() > 0 {
        let p = s.last();
        lemma_bucket_counts_total(s.drop_last());
        lemma_bucket_sum_push(s.drop_last(), p, 64);
        assert(s.drop_last().push(p) =~= s);
        assert(bucket_of(p) < 64) by (nonlinear_arith)
            requires
                bucket_of(p) == ((p.0 / 64) * 16 + (p.1 / 64) * 4 + p.2 / 64) as nat,
                p.0 < 256 && p.1 < 256 && p.2 < 256,
        ;
    } else {
        assert(bucket_sum(s, 64) == 0) by {
            lemma_bucket_sum_empty(s, 64);
        }
    }
}

proof fn lemma_bucket_sum_empty(s: Seq<(u8, u8, u8)>, m: nat)
    requires
        s.len() == 0,
    ensures
        bucket_sum(s, m) == 0,
    decreases m,
{
    if m > 0 {
        lemma_bucket_sum_empty(s, (m - 1) as nat);
    }
}

/// Luminance of a pixel in thousandths: `299 R + 587 G + 114 B`.
pub open spec fn luma_milli(p: (u8, u8, u8)) -> nat {
    (299 * p.0 + 587 * p.1 + 114 * p.2) as nat
}

/// The summed luminance, in thousandths, of the pixels.
pub open spec fn luma_total(s: Seq<(u8, u8, u8)>) -> nat
    decreases s.len(),
{
    if s.len() == 0 {
        0
    } else {
        luma_total(s.drop_last()) + luma_milli(s.last())
    }
}

/// The pixels of every `step`-th row and column of a frame, in reading order.
pub(crate) fn collect_samples(frame: &FrameBuffer, step: u64) -> (v: Vec<(u8, u8, u8)>)
    requires
        rows_readable(*frame),
        1 <= step <= 4,
    ensures
        v@ == samples_upto(frame.plane_seq()[0], frame.width as nat, tile_count(frame.height as nat, step as nat), step as nat),
{
    let plane = frame.primary_plane();
    let w = frame.width;
    let h = frame.height;
    let rows: u64 = (h as u64 + step - 1) / step;
    let mut out: Vec<(u8, u8, u8)> = Vec::new();
    let mut k: u64 = 0;
    while k < rows
        invariant
            *plane == frame.plane_seq()[0],
            w == frame.width,
            h == frame.height,
            1 <= step <= 4,
            rows == tile_count(h as nat, step as nat),
            rows_readable(*frame),
            k <= rows,
            out@ == samples_upto(*plane, w as nat, k as nat, step as nat),
        decreases rows - k,
    {
        proof {
            lemma_positions(k as nat, h as nat, step as nat);
            assert(k * step < h);
            assert(row_in_bounds(frame.plane_seq()[0], (step * k) as nat)) by {
                assert(step * k == k * step) by (nonlinear_arith);
            }
        }
        assert(step * k < h) by (nonlinear_arith)
            requires
                k * step < h,
        ;
        let y: u32 = (step * k) as u32;
        let row = plane.row(y);
        let ghost before = out@;
        let ghost m = sampled_in_row(w as nat, row@.len(), step as nat);
        assert(tile_count(w as nat, step as nat) <= w) by (nonlinear_arith)
            requires
                1 <= step <= 4,
                tile_count(w as nat, step as nat) == (w + step - 1) / step as int,
        ;
        let mut j: u64 = 0;
        assert(j * 4 * step == 0) by (nonlinear_arith)
            requires
                j == 0,
        ;
        while j * step < w as u64 && j * 4 * step + 2 < row.len() as u64
            invariant
                1 <= step <= 4,
                m <= w,
                j * step <= 4 * (w as nat),
                j * 4 * step <= 16 * (w as nat),
                row@ == row_bytes(*plane, (step * k) as nat),
                m == sampled_in_row(w as nat, row@.len(), step as nat),
                j <= m,
                out@ == before + row_samples(row@, j as nat, step as nat),
            decreases m - j,
        {
            proof {
                lemma_positions(j as nat, w as nat, step as nat);
                if row@.len() >= 2 {
                    lemma_positions(j as nat, (row@.len() - 2) as nat, (4 * step) as nat);
                }
                assert(j * (4 * step) == j * 4 * step) by (nonlinear_arith);
                assert(j < m);
            }
            let base = (j * 4 * step) as usize;
            out.push((row[base], row[base + 1], row[base + 2]));
            proof {
                assert((j + 1) * step <= 4 * (w as nat) && (j + 1) * 4 * step <= 16 * (w as nat)) by (nonlinear_arith)
                    requires
                        j + 1 <= m,
                        m <= w,
                        1 <= step <= 4,
                ;
                assert(4 * step * j == j * 4 * step) by (nonlinear_arith);
                assert(row_samples(row@, (j + 1) as nat, step as nat) =~= row_samples(row@, j as nat, step as nat).push(
                    (row@[4 * step * j], row@[4 * step * j + 1], row@[4 * step * j + 2]),
                ));
                assert(out@ =~= before + row_samples(row@, (j + 1) as nat, step as nat));
            }
            j = j + 1;
        }
        proof {
            lemma_positions(j as nat, w as nat, step as nat);
            if row@.len() >= 2 {
                lemma_positions(j as nat, (row@.len() - 2) as nat, (4 * step) as nat);
            }
            assert(j * (4 * step) == j * 4 * step) by (nonlinear_arith);
            assert(j == m);
        }
        k = k + 1;
    }
    out
}

/// Counts of the sampled pixels of an RGBA8 frame in each of the 64 colour
/// buckets: entry `b` counts the samples whose red, green and blue, each
/// divided by 64, give `b` as `16 r + 4 g + b`. The bucket's colour is the
/// centre of its range, `64 q + 32` per channel.
pub fn color_histogram(frame: &FrameBuffer) -> (hist: Vec<u64>)
    requires
        rows_readable(*frame),
    ensures
        hist.len() == 64,
        forall|b: int| 0 <= b < 64 ==> #[trigger] hist[b] == bucket_count(frame_samples(*frame), b as nat),
{
    let samples = collect_samples(frame, 4);
    let mut hist: Vec<u64> = Vec::new();
    let mut b: usize = 0;
    while b < 64
        invariant
            b <= 64,
            hist.len() == b,
            forall|i: int| 0 <= i < b ==> #[trigger] hist[i] == 0,
        decreases 64 - b,
    {
        hist.push(0);
        b = b + 1;
    }
    let mut i: usize = 0;
    while i < samples.len()
        invariant
            i <= samples.len(),
            hist.len() == 64,
            forall|c: int|
                0 <= c < 64 ==> #[trigger] hist[c] == bucket_count(samples@.take(i as int), c as nat),
            forall|c: int| 0 <= c < 64 ==> #[trigger] hist[c] <= i,
        decreases samples.len() - i,
    {
        let (r, g, bl) = samples[i];
        let bucket = (r / 64) as usize * 16 + (g / 64) as usize * 4 + (bl / 64) as usize;
        proof {
            assert(samples@.take(i + 1).drop_last() =~= samples@.take(i as int));
            assert(samples@.take(i + 1).last() == samples@[i as int]);
            assert(bucket == bucket_of(samples@[i as int]));
        }
        let cur = hist[bucket];
        hist.set(bucket, cur + 1);
        i = i + 1;
    }
    proof {
        assert(samples@.take(samples.len() as int) =~= samples@);
    }
    hist
}

/// The summed luminance, in thousandths, of the sampled pixels of an RGBA8
/// frame, and how many pixels were sampled. The average brightness in
/// `[0, 1]` is the sum over `1000 * 255` times the count.
pub fn luma_sum(frame: &FrameBuffer) -> (r: (u128, u64))
    requires
        rows_readable(*frame),
    ensures
        r.0 == luma_total(frame_samples(*frame)),
        r.1 == frame_samples(*frame).len(),
{
    let samples = collect_samples(frame, 4);
    let mut total: u128 = 0;
    let mut i: usize = 0;
    while i < samples.len()
        invariant
            i <= samples.len(),
            total == luma_total(samples@.take(i as int)),
            total <= 255000 * i,
        decreases samples.len() - i,
    {
        let (r, g, b) = samples[i];
        proof {
            assert(samples@.take(i + 1).drop_last() =~= samples@.take(i as int));
            assert(samples@.take(i + 1).last() == samples@[i as int]);
        }
        total = total + 299 * (r as u128) + 587 * (g as u128) + 114 * (b as u128);
        i = i + 1;
    }
    proof {
        assert(samples@.take(samples.len() as int) =~= samples@);
    }
    (total, samples.len() as u64)
}


/// Bucket `a` comes before bucket `b` in a ranking by count: it holds more
/// pixels, or as many and has the smaller number.
pub open spec fn ranks_before(hist: Seq<u64>, a: int, b: int) -> bool {
    hist[a] > hist[b] || (hist[a] == hist[b] && a < b)
}

/// The buckets that hold pixels, most populated first, at most `max_colors`
/// of them: the first `max_colors` of all non-empty buckets ranked by count,
/// ties going to the smaller bucket number.
pub fn top_buckets(hist: &Vec<u64>, max_colors: usize) -> (top: Vec<usize>)
    ensures
        top.len() <= max_colors,
        forall|i: int| 0 <= i < top.len() ==> top[i] < hist.len() && hist[top[i] as int] > 0,
        forall|i: int, j: int|
            0 <= i < j < top.len() ==> ranks_before(hist@, top[i] as int, top[j] as int),
        forall|b: int|
            0 <= b < hist.len() && hist[b] > 0 && !top@.contains(b as usize) ==> forall|i: int|
                0 <= i < top.len() ==> ranks_before(hist@, top[i] as int, b),
        top.len() < max_colors ==> forall|b: int|
            0 <= b < hist.len() && hist[b] > 0 ==> top@.contains(b as usize),
{
    let n = hist.len();
    let mut taken: Vec<bool> = Vec::new();
    let mut c: usize = 0;
    while c < n
        invariant
            c <= n,
            n == hist.len(),
            taken.len() == c,
            forall|i: int| 0 <= i < c ==> !(#[trigger] taken[i]),
        decreases n - c,
    {
        taken.push(false);
        c = c + 1;
    }
    let mut top: Vec<usize> = Vec::new();
    let mut done = false;
    while top.len() < max_colors && !done
        invariant
            n == hist.len(),
            taken.len() == n,
            top.len() <= max_colors,
            forall|b: int| 0 <= b < n ==> (#[trigger] taken[b] <==> top@.contains(b as usize)),
            forall|i: int| 0 <= i < top.len() ==> top[i] < n && hist[top[i] as int] > 0,
            forall|i: int, j: int|
                0 <= i < j < top.len() ==> ranks_before(hist@, top[i] as int, top[j] as int),
            forall|b: int, i: int|
                0 <= b < n && hist[b] > 0 && !taken[b] && 0 <= i < top.len() ==> ranks_before(
                    hist@,
                    top[i] as int,
                    b,
                ),
            done ==> forall|b: int| 0 <= b < n && hist[b] > 0 ==> top@.contains(b as usize),
        decreases max_colors - top.len(), if done { 0int } else { 1int },
    {
        let mut best: Option<usize> = None;
        let mut c: usize = 0;
        while c < n
            invariant
                c <= n,
                n == hist.len(),
                taken.len() == n,
                best matches Some(x) ==> x < c && hist[x as int] > 0 && !taken[x as int],
                forall|d: int|
                    0 <= d < c && hist[d] > 0 && !taken[d] ==> (best matches Some(x) && (d == x
                        || ranks_before(hist@, x as int, d))),
            decreases n - c,
        {
            if hist[c] > 0 && !taken[c] {
                match best {
                    None => {
                        best = Some(c);
                    },
                    Some(x) => {
                        if hist[c] > hist[x] {
                            best = Some(c);
                        }
                    },
                }
            }
            c = c + 1;
        }
        match best {
            None => {
                done = true;
                assert forall|b: int| 0 <= b < n && hist[b] > 0 implies top@.contains(b as usize) by {
                    assert(taken[b]);
                }
            },
            Some(x) => {
                let ghost old_top = top@;
                top.push(x);
                taken.set(x, true);
                proof {
                    assert forall|b: int| 0 <= b < n implies (#[trigger] taken[b] <==> top@.contains(
                        b as usize,
                    )) by {
                        if b == x {
                            assert(top@[top.len() - 1] == x);
                        } else {
                            if top@.contains(b as usize) {
                                let k = choose|k: int| 0 <= k < top.len() && top@[k] == b as usize;
                                assert(k < old_top.len());
                                assert(old_top.contains(b as usize));
                            }
                            if old_top.contains(b as usize) {
                                let k = choose|k: int| 0 <= k < old_top.len() && old_top[k] == b as usize;
                                assert(top@[k] == b as usize);
                            }
                        }
                    }
                }
            },
        }
    }
    top
}

/// The colour at the centre of bucket `b`: `64 q + 32` for each channel's
/// quarter `q`.
pub fn bucket_color(b: usize) -> (rgb: (u8, u8, u8))
    requires
        b < 64,
    ensures
        rgb.0 == (b / 16) * 64 + 32,
        rgb.1 == ((b / 4) % 4) * 64 + 32,
        rgb.2 == (b % 4) * 64 + 32,
{
    let r = (b / 16) as u8;
    let g = ((b / 4) % 4) as u8;
    let bl = (b % 4) as u8;
    (r * 64 + 32, g * 64 + 32, bl * 64 + 32)
}

} // verus!
