//! Tile-based upscaling: the frame is cut into overlapping tiles that are
//! upscaled one by one and blended back together.

use vstd::prelude::*;
use vstd::arithmetic::div_mod::{lemma_fundamental_div_mod, lemma_fundamental_div_mod_converse};
use crate::foundation::frame::{FrameBuffer, FramePlane, row_end, row_in_bounds, row_start};

verus! {

/// Configuration for the upscaler.
#[derive(Debug, Clone, Copy)]
pub struct UpscaleConfig {
    /// Upscale factor (2 or 4).
    pub scale: u32,
    /// Tile size in pixels (smaller means less memory and more tiles).
    pub tile_size: u32,
    /// Overlap between adjacent tiles in pixels.
    pub tile_overlap: u32,
}

impl Default for UpscaleConfig {
    fn default() -> (c: Self)
        ensures
            c.scale == 4,
            c.tile_size == 512,
            c.tile_overlap == 32,
    {
        UpscaleConfig { scale: 4, tile_size: 512, tile_overlap: 32 }
    }
}

/// A tile cut from the input frame (RGBA8 pixels, row after row).
#[derive(Debug, Clone)]
pub struct Tile {
    /// Pixel data of this tile.
    pub pixels: Vec<u8>,
    /// Width of the tile in pixels.
    pub width: u32,
    /// Height of the tile in pixels.
    pub height: u32,
    /// Column of the tile's first pixel in the source frame.
    pub src_x: u32,
    /// Row of the tile's first pixel in the source frame.
    pub src_y: u32,
}

/// Parameters for blending a tile into the output frame.
#[derive(Debug, Clone, Copy)]
pub struct BlendParams {
    /// Width of the tile.
    pub tile_w: u32,
    /// Height of the tile.
    pub tile_h: u32,
    /// Destination x position in the output frame.
    pub dst_x: u32,
    /// Destination y position in the output frame.
    pub dst_y: u32,
    /// Overlap in pixels (before scaling).
    pub overlap: u32,
    /// Scale factor.
    pub scale: u32,
}

/// Distance between the starts of neighbouring tiles: the tile size less the
/// overlap, and at least one.
pub open spec fn tile_step(tile_size: nat, overlap: nat) -> nat {
    if tile_size > overlap {
        (tile_size - overlap) as nat
    } else {
        1
    }
}

/// Number of tiles along an axis of `n` pixels whose starts are `step` apart.
pub open spec fn tile_count(n: nat, step: nat) -> nat {
    if step == 0 {
        0
    } else {
        ((n + step - 1) / (step as int)) as nat
    }
}

/// The smaller of two naturals.
pub open spec fn min_nat(a: nat, b: nat) -> nat {
    if a < b {
        a
    } else {
        b
    }
}

/// Byte `j` of row `ty` of the tile whose first pixel is at (`sx`, `sy`) and
/// whose rows are `tw` pixels wide: the plane's byte there, or zero where the
/// tile's row runs past the plane's row.
pub open spec fn tile_byte(p: FramePlane, sx: nat, sy: nat, tw: nat, ty: nat, j: nat) -> u8 {
    let rs = row_start(p, sy + ty);
    let re = row_end(p, sy + ty);
    if sx * 4 + tw * 4 <= re - rs {
        p.data@[(rs + sx * 4 + j) as int]
    } else {
        0
    }
}

/// The RGBA8 bytes of a `tw` by `th` tile at (`sx`, `sy`), row after row.
pub open spec fn tile_bytes(p: FramePlane, sx: nat, sy: nat, tw: nat, th: nat) -> Seq<u8> {
    Seq::new(
        tw * th * 4,
        |i: int| tile_byte(p, sx, sy, tw, (i / (tw * 4) as int) as nat, (i % (tw * 4) as int) as nat),
    )
}

/// `t` is the tile in column `ix` and row `iy` of the grid over a `w` by `h`
/// frame whose primary plane is `p`.
pub open spec fn tile_matches(
    t: Tile,
    p: FramePlane,
    w: nat,
    h: nat,
    size: nat,
    step: nat,
    ix: nat,
    iy: nat,
) -> bool {
    &&& t.src_x == ix * step
    &&& t.src_y == iy * step
    &&& t.width == min_nat(size, (w - ix * step) as nat)
    &&& t.height == min_nat(size, (h - iy * step) as nat)
    &&& t.pixels@ == tile_bytes(p, t.src_x as nat, t.src_y as nat, t.width as nat, t.height as nat)
}

/// Every row of the frame lies inside its primary plane.
pub open spec fn rows_readable(frame: FrameBuffer) -> bool {
    &&& frame.plane_seq().len() > 0
    &&& forall|r: nat| r < frame.height ==> #[trigger] row_in_bounds(frame.plane_seq()[0], r)
}

/// Whether every row of the frame lies inside its primary plane. Rows end
/// further into the data the lower they are, so the last row decides.
pub fn rows_in_bounds(frame: &FrameBuffer) -> (b: bool)
    ensures
        b == rows_readable(*frame),
{
    if frame.planes.len() == 0 {
        return false;
    }
    if frame.height == 0 {
        return true;
    }
    let p = frame.primary_plane();
    let last: u128 = (frame.height - 1) as u128;
    let stride: u128 = p.stride as u128;
    let width: u128 = p.width as u128;
    let bpp: u128 = p.bytes_per_row_pixel() as u128;
    assert(last * stride <= 0xffff_ffff * 0xffff_ffff_ffff_ffff) by (nonlinear_arith)
        requires
            last <= 0xffff_ffff,
            stride <= 0xffff_ffff_ffff_ffff,
    ;
    assert(width * bpp <= 0xffff_ffff * 0xffff_ffff_ffff_ffff) by (nonlinear_arith)
        requires
            width <= 0xffff_ffff,
            bpp <= 0xffff_ffff_ffff_ffff,
    ;
    let end: u128 = last * stride + width * bpp;
    let ok = end <= p.data.len() as u128;
    proof {
        let ghost pl = frame.plane_seq()[0];
        assert(end == row_end(pl, last as nat));
        if ok {
            assert forall|r: nat| r < frame.height implies #[trigger] row_in_bounds(frame.plane_seq()[0], r) by {
                assert(r * (pl.stride as nat) <= (last as nat) * (pl.stride as nat)) by (nonlinear_arith)
                    requires
                        r <= last,
                ;
            }
        } else {
            assert(!row_in_bounds(pl, last as nat));
        }
    }
    ok
}

pub(crate) proof fn lemma_positions(k: nat, n: nat, s: nat)
    requires
        s > 0,
    ensures
        (k * s < n) == (k < tile_count(n, s)),
{
    let c = tile_count(n, s) as int;
    lemma_fundamental_div_mod(n + s - 1, s as int);
    let r = (n + s - 1) % (s as int);
    assert(n + s - 1 == s * c + r);
    assert(0 <= r < s);
    if k < c {
        assert(k * s < n) by (nonlinear_arith)
            requires
                k < c,
                n + s - 1 == s * c + r,
                r >= 0,
                s > 0,
                k >= 0,
        ;
    } else {
        assert(k * s >= n) by (nonlinear_arith)
            requires
                k >= c,
                n + s - 1 == s * c + r,
                r < s,
                s > 0,
        ;
    }
}

proof fn lemma_row_index(k: int, ty: int, len: int)
    requires
        len > 0,
        ty >= 0,
        ty * len <= k < ty * len + len,
    ensures
        k / len == ty,
        k % len == k - ty * len,
{
    lemma_fundamental_div_mod_converse(k, len, ty, k - ty * len);
}

/// Copy the `tw` by `th` tile at (`x`, `y`) out of a plane.
fn copy_tile(plane: &FramePlane, x: u32, y: u32, tw: u32, th: u32) -> (r: Vec<u8>)
    requires
        forall|r: int| y <= r < y + th ==> #[trigger] row_in_bounds(*plane, r as nat),
        (tw as nat) * (th as nat) * 4 <= usize::MAX,
        y + th <= u32::MAX,
    ensures
        r@ == tile_bytes(*plane, x as nat, y as nat, tw as nat, th as nat),
{
    let ghost expected = tile_bytes(*plane, x as nat, y as nat, tw as nat, th as nat);
    if tw == 0 || th == 0 {
        assert((tw as nat) * (th as nat) * 4 == 0) by (nonlinear_arith)
            requires
                tw == 0 || th == 0,
        ;
        assert(expected =~= Seq::<u8>::empty());
        return Vec::new();
    }
    assert((tw as nat) * 4 <= (tw as nat) * (th as nat) * 4) by (nonlinear_arith)
        requires
            th >= 1,
    ;
    assert((tw as nat) * (th as nat) * 4 == (tw as nat) * 4 * (th as nat)) by (nonlinear_arith);
    let row_len: usize = tw as usize * 4;
    let total: usize = row_len * th as usize;
    let mut pixels = vec![0u8; total];
    let mut ty: u32 = 0;
    while ty < th
        invariant
            ty <= th,
            row_len == tw * 4,
            total == (tw as nat) * (th as nat) * 4,
            total == row_len * th,
            expected.len() == total,
            expected == tile_bytes(*plane, x as nat, y as nat, tw as nat, th as nat),
            pixels@.len() == total,
            y + th <= u32::MAX,
            forall|r: int| y <= r < y + th ==> #[trigger] row_in_bounds(*plane, r as nat),
            forall|k: int|
                0 <= k < total ==> #[trigger] pixels@[k] == if k < ty * row_len {
                    expected[k]
                } else {
                    0u8
                },
        decreases th - ty,
    {
        assert(ty * row_len + row_len <= total) by (nonlinear_arith)
            requires
                ty < th,
                total == row_len * th,
        ;
        assert(row_in_bounds(*plane, (y + ty) as nat));
        let row = plane.row(y + ty);
        let ghost rs = row_start(*plane, (y + ty) as nat);
        let ghost re = row_end(*plane, (y + ty) as nat);
        let src_start64: u64 = x as u64 * 4;
        let src_end64: u64 = src_start64 + tw as u64 * 4;
        let dst_start: usize = ty as usize * row_len;
        if src_end64 <= row.len() as u64 {
            let src_start = src_start64 as usize;
            let mut j: usize = 0;
            while j < row_len
                invariant
                    j <= row_len,
                    row_len == tw * 4,
                    dst_start == ty * row_len,
                    dst_start + row_len <= total,
                    src_start == x * 4,
                    src_start + row_len <= row@.len(),
                    row@ == plane.data@.subrange(rs as int, re as int),
                    rs == row_start(*plane, (y + ty) as nat),
                    re == row_end(*plane, (y + ty) as nat),
                    row_in_bounds(*plane, (y + ty) as nat),
                    expected.len() == total,
                    expected == tile_bytes(*plane, x as nat, y as nat, tw as nat, th as nat),
                    pixels@.len() == total,
                    forall|k: int|
                        0 <= k < total ==> #[trigger] pixels@[k] == if k < dst_start + j {
                            expected[k]
                        } else {
                            0u8
                        },
                decreases row_len - j,
            {
                let ghost k = (dst_start + j) as int;
                proof {
                    lemma_row_index(k, ty as int, row_len as int);
                    assert(expected[k] == tile_byte(
                        *plane,
                        x as nat,
                        y as nat,
                        tw as nat,
                        ty as nat,
                        j as nat,
                    ));
                    assert(row@[src_start + j] == plane.data@[rs + x * 4 + j]);
                }
                pixels.set(dst_start + j, row[src_start + j]);
                j = j + 1;
            }
        } else {
            proof {
                assert forall|k: int| dst_start <= k < dst_start + row_len implies expected[k]
                    == 0u8 by {
                    lemma_row_index(k, ty as int, row_len as int);
                }
            }
        }
        assert((ty + 1) * row_len == ty * row_len + row_len) by (nonlinear_arith);
        ty = ty + 1;
    }
    assert(ty * row_len == total) by (nonlinear_arith)
        requires
            ty == th,
            total == row_len * th,
    ;
    assert(pixels@ =~= expected);
    pixels
}

/// Split a frame into overlapping tiles, row after row of tiles, each row
/// left to right. Tiles start `tile_step(tile_size, overlap)` pixels apart and
/// are `tile_size` pixels square, cut short at the frame's right and bottom
/// edges.
pub fn split_into_tiles(frame: &FrameBuffer, tile_size: u32, overlap: u32) -> (tiles: Vec<Tile>)
    requires
        rows_readable(*frame),
        frame.width + tile_step(tile_size as nat, overlap as nat) <= u32::MAX + 1,
        frame.height + tile_step(tile_size as nat, overlap as nat) <= u32::MAX + 1,
        (frame.width as nat) * (frame.height as nat) * 4 <= usize::MAX,
    ensures
        ({
            let s = tile_step(tile_size as nat, overlap as nat);
            let cols = tile_count(frame.width as nat, s);
            &&& tiles.len() == cols * tile_count(frame.height as nat, s)
            &&& forall|k: int|
                0 <= k < tiles.len() ==> tile_matches(
                    #[trigger] tiles@[k],
                    frame.plane_seq()[0],
                    frame.width as nat,
                    frame.height as nat,
                    tile_size as nat,
                    s,
                    (k % cols as int) as nat,
                    (k / cols as int) as nat,
                )
        }),
{
    let w = frame.width;
    let h = frame.height;
    let step: u32 = if tile_size > overlap { tile_size - overlap } else { 1 };
    let ghost s = step as nat;
    let ghost cols = tile_count(w as nat, s);
    let ghost rows = tile_count(h as nat, s);
    let plane = frame.primary_plane();
    let mut tiles: Vec<Tile> = Vec::new();
    let mut y: u32 = 0;
    let ghost mut iy: nat = 0;
    while y < h
        invariant
            s == step,
            s == tile_step(tile_size as nat, overlap as nat),
            step >= 1,
            cols == tile_count(w as nat, s),
            rows == tile_count(h as nat, s),
            w == frame.width,
            h == frame.height,
            *plane == frame.plane_seq()[0],
            rows_readable(*frame),
            w + step <= u32::MAX + 1,
            h + step <= u32::MAX + 1,
            (w as nat) * (h as nat) * 4 <= usize::MAX,
            y == iy * s,
            iy <= rows,
            tiles.len() == iy * cols,
            forall|k: int|
                0 <= k < tiles.len() ==> tile_matches(
                    #[trigger] tiles@[k],
                    *plane,
                    w as nat,
                    h as nat,
                    tile_size as nat,
                    s,
                    (k % cols as int) as nat,
                    (k / cols as int) as nat,
                ),
        decreases rows - iy,
    {
        proof {
            lemma_positions(iy, h as nat, s);
        }
        let tile_h = if tile_size < h - y { tile_size } else { h - y };
        let mut x: u32 = 0;
        let ghost mut ix: nat = 0;
        while x < w
            invariant
                s == step,
                step >= 1,
                cols == tile_count(w as nat, s),
                w == frame.width,
                h == frame.height,
                *plane == frame.plane_seq()[0],
                rows_readable(*frame),
                w + step <= u32::MAX + 1,
                (w as nat) * (h as nat) * 4 <= usize::MAX,
                y == iy * s,
                y < h,
                tile_h == min_nat(tile_size as nat, (h - y) as nat),
                x == ix * s,
                ix <= cols,
                tiles.len() == iy * cols + ix,
                forall|k: int|
                    0 <= k < tiles.len() ==> tile_matches(
                        #[trigger] tiles@[k],
                        *plane,
                        w as nat,
                        h as nat,
                        tile_size as nat,
                        s,
                        (k % cols as int) as nat,
                        (k / cols as int) as nat,
                    ),
            decreases cols - ix,
        {
            proof {
                lemma_positions(ix, w as nat, s);
            }
            let tile_w = if tile_size < w - x { tile_size } else { w - x };
            proof {
                assert((tile_w as nat) * (tile_h as nat) * 4 <= (w as nat) * (h as nat) * 4)
                    by (nonlinear_arith)
                    requires
                        tile_w <= w,
                        tile_h <= h,
                ;
                assert forall|r: int| y <= r < y + tile_h implies #[trigger] row_in_bounds(
                    *plane,
                    r as nat,
                ) by {
                    assert(0 <= r < frame.height);
                }
            }
            let pixels = copy_tile(plane, x, y, tile_w, tile_h);
            let ghost before = tiles@;
            tiles.push(Tile { pixels, width: tile_w, height: tile_h, src_x: x, src_y: y });
            proof {
                let k = (iy * cols + ix) as int;
                lemma_fundamental_div_mod_converse(k, cols as int, iy as int, ix as int);
                assert forall|m: int| 0 <= m < tiles.len() implies tile_matches(
                    #[trigger] tiles@[m],
                    *plane,
                    w as nat,
                    h as nat,
                    tile_size as nat,
                    s,
                    (m % cols as int) as nat,
                    (m / cols as int) as nat,
                ) by {
                    if m < k {
                        assert(tiles@[m] == before[m]);
                    }
                }
            }
            assert((ix + 1) * s == ix * s + s) by (nonlinear_arith);
            x = x + step;
            proof {
                ix = ix + 1;
            }
        }
        proof {
            lemma_positions(ix, w as nat, s);
            assert(ix == cols);
            assert((iy + 1) * cols == iy * cols + cols) by (nonlinear_arith);
        }
        assert((iy + 1) * s == iy * s + s) by (nonlinear_arith);
        y = y + step;
        proof {
            iy = iy + 1;
        }
    }
    proof {
        lemma_positions(iy, h as nat, s);
        assert(iy == rows);
        assert(tiles.len() == cols * rows) by (nonlinear_arith)
            requires
                tiles.len() == iy * cols,
                iy == rows,
        ;
    }
    tiles
}

/// The tiles cover the frame: along an axis of `n` pixels, every pixel lies
/// in the tile whose start is the last one at or before it, provided tiles are
/// at least one pixel wide. (Tiles of size zero cover nothing.)
pub proof fn lemma_tiles_cover(n: nat, tile_size: nat, overlap: nat, p: nat)
    requires
        tile_size >= 1,
        p < n,
    ensures
        ({
            let s = tile_step(tile_size, overlap);
            let i = p / s;
            &&& i < tile_count(n, s)
            &&& i * s <= p < i * s + min_nat(tile_size, (n - i * s) as nat)
        }),
{
    let s = tile_step(tile_size, overlap);
    let i = p / s;
    lemma_fundamental_div_mod(p as int, s as int);
    assert(i * s <= p < i * s + s) by (nonlinear_arith)
        requires
            p == s * i + p % s,
            0 <= p % s < s,
    ;
    lemma_positions(i, n, s);
}

/// AI upscaler engine.
pub struct Upscaler {
    config: UpscaleConfig,
}

impl Upscaler {
    /// The configuration the upscaler was made with.
    pub closed spec fn settings(&self) -> UpscaleConfig {
        self.config
    }

    /// Create a new upscaler with the given configuration.
    pub fn new(config: UpscaleConfig) -> (u: Self)
        ensures
            u.settings() == config,
    {
        Upscaler { config }
    }

    /// Get the upscale configuration.
    pub fn config(&self) -> (c: &UpscaleConfig)
        ensures
            *c == self.settings(),
    {
        &self.config
    }
}

} // verus!
