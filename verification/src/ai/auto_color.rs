//! Automatic colour correction: the exact pixel statistics behind auto white
//! balance, auto levels and auto contrast (channel sums, per-channel and
//! luminance histograms, histogram percentiles).

use vstd::prelude::*;
use crate::ai::content_index::{collect_samples, frame_pixels};
use crate::ai::upscale::rows_readable;
use crate::foundation::frame::FrameBuffer;

verus! {

/// Channel `c` of a pixel: 0 red, 1 green, 2 blue.
pub open spec fn channel(p: (u8, u8, u8), c: nat) -> u8 {
    if c == 0 {
        p.0
    } else if c == 1 {
        p.1
    } else {
        p.2
    }
}

/// The sum of channel `c` over the pixels.
pub open spec fn channel_total(s: Seq<(u8, u8, u8)>, c: nat) -> nat
    decreases s.len(),
{
    if s.len() == 0 {
        0
    } else {
        channel_total(s.drop_last(), c) + channel(s.last(), c) as nat
    }
}

/// How many of the pixels have value `v` in channel `c`.
pub open spec fn value_count(s: Seq<(u8, u8, u8)>, c: nat, v: nat) -> nat
    decreases s.len(),
{
    if s.len() == 0 {
        0
    } else {
        value_count(s.drop_last(), c, v) + if channel(s.last(), c) == v {
            1nat
        } else {
            0nat
        }
    }
}

/// The 8-bit luminance of a pixel: `(77 R + 150 G + 29 B) / 256`.
pub open spec fn luma8(p: (u8, u8, u8)) -> nat {
    ((77 * p.0 + 150 * p.1 + 29 * p.2) / 256) as nat
}

/// How many of the pixels have luminance `v`.
pub open spec fn luma_count(s: Seq<(u8, u8, u8)>, v: nat) -> nat
    decreases s.len(),
{
    if s.len() == 0 {
        0
    } else {
        luma_count(s.drop_last(), v) + if luma8(s.last()) == v {
            1nat
        } else {
            0nat
        }
    }
}

/// The sum of the first `i` entries of a histogram.
pub open spec fn prefix_total(hist: Seq<u64>, i: nat) -> nat
    decreases i,
{
    if i == 0 || i > hist.len() {
        0
    } else {
        prefix_total(hist, (i - 1) as nat) + hist[i - 1] as nat
    }
}

/// The sums of the red, green and blue bytes of every pixel of an RGBA8
/// frame whose bytes lie inside its row.
pub fn channel_sums(frame: &FrameBuffer) -> (r: (u128, u128, u128))
    requires
        rows_readable(*frame),
    ensures
        r.0 == channel_total(frame_pixels(*frame), 0),
        r.1 == channel_total(frame_pixels(*frame), 1),
        r.2 == channel_total(frame_pixels(*frame), 2),
{
    let pixels = collect_samples(frame, 1);
    proof {
        assert(crate::ai::upscale::tile_count(frame.height as nat, 1) == frame.height);
    }
    let (mut sr, mut sg, mut sb): (u128, u128, u128) = (0, 0, 0);
    let mut i: usize = 0;
    while i < pixels.len()
        invariant
            i <= pixels.len(),
            sr == channel_total(pixels@.take(i as int), 0),
            sg == channel_total(pixels@.take(i as int), 1),
            sb == channel_total(pixels@.take(i as int), 2),
            sr <= 255 * i && sg <= 255 * i && sb <= 255 * i,
        decreases pixels.len() - i,
    {
        let (r, g, b) = pixels[i];
        proof {
            assert(pixels@.take(i + 1).drop_last() =~= pixels@.take(i as int));
            assert(pixels@.take(i + 1).last() == pixels@[i as int]);
        }
        sr = sr + r as u128;
        sg = sg + g as u128;
        sb = sb + b as u128;
        i = i + 1;
    }
    proof {
        assert(pixels@.take(pixels.len() as int) =~= pixels@);
    }
    (sr, sg, sb)
}

/// A histogram of 256 zero counts.
fn zero_histogram() -> (h: Vec<u64>)
    ensures
        h.len() == 256,
        forall|v: int| 0 <= v < 256 ==> #[trigger] h[v] == 0,
{
    let mut h: Vec<u64> = Vec::new();
    let mut v: usize = 0;
    while v < 256
        invariant
            v <= 256,
            h.len() == v,
            forall|u: int| 0 <= u < v ==> #[trigger] h[u] == 0,
        decreases 256 - v,
    {
        h.push(0);
        v = v + 1;
    }
    h
}

/// Per-channel histograms of every pixel of an RGBA8 frame whose bytes lie
/// inside its row: entry `v` of histogram `c` counts the pixels whose
/// channel `c` (red, green, blue) is `v`.
pub fn channel_histograms(frame: &FrameBuffer) -> (r: (Vec<u64>, Vec<u64>, Vec<u64>))
    requires
        rows_readable(*frame),
    ensures
        r.0.len() == 256 && r.1.len() == 256 && r.2.len() == 256,
        forall|v: int| 0 <= v < 256 ==> #[trigger] r.0[v] == value_count(frame_pixels(*frame), 0, v as nat),
        forall|v: int| 0 <= v < 256 ==> #[trigger] r.1[v] == value_count(frame_pixels(*frame), 1, v as nat),
        forall|v: int| 0 <= v < 256 ==> #[trigger] r.2[v] == value_count(frame_pixels(*frame), 2, v as nat),
{
    let pixels = collect_samples(frame, 1);
    proof {
        assert(crate::ai::upscale::tile_count(frame.height as nat, 1) == frame.height);
    }
    let mut hr = zero_histogram();
    let mut hg = zero_histogram();
    let mut hb = zero_histogram();
    let mut i: usize = 0;
    while i < pixels.len()
        invariant
            i <= pixels.len(),
            hr.len() == 256 && hg.len() == 256 && hb.len() == 256,
            forall|v: int| 0 <= v < 256 ==> #[trigger] hr[v] == value_count(pixels@.take(i as int), 0, v as nat),
            forall|v: int| 0 <= v < 256 ==> #[trigger] hg[v] == value_count(pixels@.take(i as int), 1, v as nat),
            forall|v: int| 0 <= v < 256 ==> #[trigger] hb[v] == value_count(pixels@.take(i as int), 2, v as nat),
            forall|v: int| 0 <= v < 256 ==> #[trigger] hr[v] <= i,
            forall|v: int| 0 <= v < 256 ==> #[trigger] hg[v] <= i,
            forall|v: int| 0 <= v < 256 ==> #[trigger] hb[v] <= i,
        decreases pixels.len() - i,
    {
        let (r, g, b) = pixels[i];
        proof {
            assert(pixels@.take(i + 1).drop_last() =~= pixels@.take(i as int));
            assert(pixels@.take(i + 1).last() == pixels@[i as int]);
        }
        let cr = hr[r as usize];
        hr.set(r as usize, cr + 1);
        let cg = hg[g as usize];
        hg.set(g as usize, cg + 1);
        let cb = hb[b as usize];
        hb.set(b as usize, cb + 1);
        i = i + 1;
    }
    proof {
        assert(pixels@.take(pixels.len() as int) =~= pixels@);
    }
    (hr, hg, hb)
}

/// A histogram of the 8-bit luminance `(77 R + 150 G + 29 B) / 256` of every
/// pixel of an RGBA8 frame whose bytes lie inside its row.
pub fn luma_histogram(frame: &FrameBuffer) -> (hist: Vec<u64>)
    requires
        rows_readable(*frame),
    ensures
        hist.len() == 256,
        forall|v: int| 0 <= v < 256 ==> #[trigger] hist[v] == luma_count(frame_pixels(*frame), v as nat),
{
    let pixels = collect_samples(frame, 1);
    proof {
        assert(crate::ai::upscale::tile_count(frame.height as nat, 1) == frame.height);
    }
    let mut hist = zero_histogram();
    let mut i: usize = 0;
    while i < pixels.len()
        invariant
            i <= pixels.len(),
            hist.len() == 256,
            forall|v: int| 0 <= v < 256 ==> #[trigger] hist[v] == luma_count(pixels@.take(i as int), v as nat),
            forall|v: int| 0 <= v < 256 ==> #[trigger] hist[v] <= i,
        decreases pixels.len() - i,
    {
        let (r, g, b) = pixels[i];
        proof {
            assert(pixels@.take(i + 1).drop_last() =~= pixels@.take(i as int));
            assert(pixels@.take(i + 1).last() == pixels@[i as int]);
        }
        let lum = ((r as u32) * 77 + (g as u32) * 150 + (b as u32) * 29) / 256;
        proof {
            assert(lum == luma8(pixels@[i as int]));
        }
        let l = lum as usize;
        let c = hist[l];
        hist.set(l, c + 1);
        i = i + 1;
    }
    proof {
        assert(pixels@.take(pixels.len() as int) =~= pixels@);
    }
    hist
}

/// The first entry at which a histogram's running total reaches `target`,
/// or none when no entry's running total does.
pub fn percentile_index(hist: &Vec<u64>, target: u64) -> (r: Option<usize>)
    ensures
        r matches Some(i) ==> i < hist.len() && prefix_total(hist@, (i + 1) as nat) >= target
            && forall|j: nat| j < i ==> #[trigger] prefix_total(hist@, j + 1) < target,
        r is None ==> forall|j: nat| j < hist.len() ==> #[trigger] prefix_total(hist@, j + 1) < target,
{
    let mut cum: u128 = 0;
    let mut i: usize = 0;
    while i < hist.len()
        invariant
            i <= hist.len(),
            cum == prefix_total(hist@, i as nat),
            cum <= i * 0xffff_ffff_ffff_ffff,
            forall|j: nat| j < i ==> #[trigger] prefix_total(hist@, j + 1) < target,
        decreases hist.len() - i,
    {
        cum = cum + hist[i] as u128;
        if cum >= target as u128 {
            return Some(i);
        }
        i = i + 1;
    }
    None
}

} // verus!
