//! Frame buffers: video frames in CPU memory, one to three planes of bytes.

use vstd::prelude::*;
use smallvec::SmallVec;


verus! {

/// Unique identifier for a frame in the cache.
#[derive(Debug, Clone, Copy, PartialEq, Eq, Structural, Hash)]
pub struct FrameId(pub u64);

/// Pixel format.
#[derive(Debug, Clone, Copy, PartialEq, Eq, Structural, Hash)]
pub enum PixelFormat {
    /// 8-bit RGBA (32 bits per pixel).
    Rgba8,
    /// 16-bit RGBA half-float (64 bits per pixel).
    Rgba16F,
    /// 32-bit RGBA float (128 bits per pixel).
    Rgba32F,
    /// 8-bit grayscale.
    Gray8,
    /// 16-bit grayscale half-float.
    Gray16F,
    /// NV12 YUV: a luma plane and an interleaved half-resolution chroma plane.
    Nv12,
    /// YUV 4:2:0 planar.
    Yuv420P,
    /// YUV 4:2:0 planar, 10-bit samples in two bytes.
    Yuv420P10,
}

impl Default for PixelFormat {
    fn default() -> (f: Self)
        ensures
            f == PixelFormat::Rgba8,
    {
        PixelFormat::Rgba8
    }
}

/// Bytes per pixel of a packed format; zero for planar formats.
pub open spec fn spec_bytes_per_pixel(f: PixelFormat) -> nat {
    match f {
        PixelFormat::Rgba8 => 4,
        PixelFormat::Rgba16F => 8,
        PixelFormat::Rgba32F => 16,
        PixelFormat::Gray8 => 1,
        PixelFormat::Gray16F => 2,
        _ => 0,
    }
}

/// Number of planes of a format.
pub open spec fn spec_plane_count(f: PixelFormat) -> nat {
    match f {
        PixelFormat::Nv12 => 2,
        PixelFormat::Yuv420P | PixelFormat::Yuv420P10 => 3,
        _ => 1,
    }
}

/// Bytes needed by a tightly packed frame of the format.
pub open spec fn spec_frame_size(f: PixelFormat, w: nat, h: nat) -> nat {
    match f {
        PixelFormat::Rgba8 => w * h * 4,
        PixelFormat::Rgba16F => w * h * 8,
        PixelFormat::Rgba32F => w * h * 16,
        PixelFormat::Gray8 => w * h,
        PixelFormat::Gray16F => w * h * 2,
        PixelFormat::Nv12 => w * h + w * h / 2,
        PixelFormat::Yuv420P => w * h + (w / 2 * h / 2) * 2,
        PixelFormat::Yuv420P10 => w * h * 2 + (w / 2 * h / 2 * 2) * 2,
    }
}

/// The size computation of `frame_size` stays inside `u32`.
pub open spec fn frame_size_fits(f: PixelFormat, w: nat, h: nat) -> bool {
    match f {
        PixelFormat::Rgba8 => w * h * 4 <= u32::MAX,
        PixelFormat::Rgba16F => w * h * 8 <= u32::MAX,
        PixelFormat::Rgba32F => w * h * 16 <= u32::MAX,
        PixelFormat::Gray8 => w * h <= u32::MAX,
        PixelFormat::Gray16F => w * h * 2 <= u32::MAX,
        PixelFormat::Nv12 => w * h <= u32::MAX && w * h + w * h / 2 <= usize::MAX,
        PixelFormat::Yuv420P => w * h <= u32::MAX && w * h + (w / 2 * h / 2) * 2 <= usize::MAX,
        PixelFormat::Yuv420P10 => w * h * 2 <= u32::MAX && w * h * 2 + (w / 2 * h / 2 * 2) * 2
            <= usize::MAX,
    }
}

impl PixelFormat {
    /// Bytes per pixel for packed formats, or zero for planar ones.
    pub fn bytes_per_pixel(self) -> (n: usize)
        ensures
            n == spec_bytes_per_pixel(self),
    {
        match self {
            PixelFormat::Rgba8 => 4,
            PixelFormat::Rgba16F => 8,
            PixelFormat::Rgba32F => 16,
            PixelFormat::Gray8 => 1,
            PixelFormat::Gray16F => 2,
            PixelFormat::Nv12 | PixelFormat::Yuv420P | PixelFormat::Yuv420P10 => 0,
        }
    }

    /// Number of planes for this format.
    pub fn plane_count(self) -> (n: usize)
        ensures
            n == spec_plane_count(self),
    {
        match self {
            PixelFormat::Rgba8 | PixelFormat::Rgba16F | PixelFormat::Rgba32F | PixelFormat::Gray8
            | PixelFormat::Gray16F => 1,
            PixelFormat::Nv12 => 2,
            PixelFormat::Yuv420P | PixelFormat::Yuv420P10 => 3,
        }
    }

    /// Total bytes of a tightly packed frame of this format. The size is a
    /// `u32` product; dimensions whose size overflows it are not accepted.
    pub fn frame_size(self, width: u32, height: u32) -> (n: usize)
        requires
            frame_size_fits(self, width as nat, height as nat),
        ensures
            n == spec_frame_size(self, width as nat, height as nat),
    {
        proof {
            assert(0 <= (width / 2) * (height / 2) <= (width as int) * (height as int)) by (nonlinear_arith)
                requires width >= 0, height >= 0;
            assert((width / 2) * (height as int) <= (width as int) * (height as int)) by (nonlinear_arith)
                requires width >= 0, height >= 0;
            assert((width / 2) * (height as int) * 2 <= (width as int) * (height as int) * 2) by (nonlinear_arith)
                requires width >= 0, height >= 0;
        }
        match self {
            PixelFormat::Rgba8 => (width * height * 4) as usize,
            PixelFormat::Rgba16F => (width * height * 8) as usize,
            PixelFormat::Rgba32F => (width * height * 16) as usize,
            PixelFormat::Gray8 => (width * height) as usize,
            PixelFormat::Gray16F => (width * height * 2) as usize,
            PixelFormat::Nv12 => {
                let y_size = (width * height) as usize;
                let uv_size = (width * height / 2) as usize;
                y_size + uv_size
            },
            PixelFormat::Yuv420P => {
                let y_size = (width * height) as usize;
                let uv_size = (width / 2 * height / 2) as usize;
                y_size + uv_size * 2
            },
            PixelFormat::Yuv420P10 => {
                let y_size = (width * height * 2) as usize;
                let uv_size = (width / 2 * height / 2 * 2) as usize;
                y_size + uv_size * 2
            },
        }
    }
}

/// `n` rounded up to a multiple of 64.
pub open spec fn align64(n: nat) -> nat {
    ((n + 63) / 64) * 64
}

/// A plane of pixel data with stride information.
#[derive(Debug, Clone)]
pub struct FramePlane {
    /// Raw pixel data.
    pub data: Vec<u8>,
    /// Bytes per row (may include padding).
    pub stride: usize,
    /// Width in pixels.
    pub width: u32,
    /// Height in pixels.
    pub height: u32,
}

/// A plane of the given size can be allocated without overflow.
pub open spec fn plane_fits(width: nat, height: nat, bpp: nat) -> bool {
    width * bpp + 63 <= usize::MAX && align64(width * bpp) * height <= usize::MAX
}

/// `p` is a freshly allocated, zeroed plane of the given size.
pub open spec fn is_blank_plane(p: FramePlane, width: nat, height: nat, bpp: nat) -> bool {
    &&& p.width == width
    &&& p.height == height
    &&& p.stride == align64(width * bpp)
    &&& p.data@ == Seq::new((p.stride as nat) * height, |i: int| 0u8)
}

/// Estimated bytes per pixel of a plane: its stride over its width, at least one.
pub open spec fn row_pixel_bytes(p: FramePlane) -> nat {
    if p.width == 0 || p.stride == 0 || (p.stride as nat) / (p.width as nat) == 0 {
        1
    } else {
        (p.stride as nat) / (p.width as nat)
    }
}

/// Start of row `y` in the plane data.
pub open spec fn row_start(p: FramePlane, y: nat) -> nat {
    y * (p.stride as nat)
}

/// End (exclusive) of row `y` in the plane data.
pub open spec fn row_end(p: FramePlane, y: nat) -> nat {
    y * (p.stride as nat) + (p.width as nat) * row_pixel_bytes(p)
}

/// Row `y` lies inside the plane data.
pub open spec fn row_in_bounds(p: FramePlane, y: nat) -> bool {
    row_end(p, y) <= p.data.len()
}

/// `&mut v[start..end]`: the bytes of a range of a vector, mutably borrowed.
/// Claimed: the slice holds those bytes, and what is written into it is what
/// the vector holds in that range afterwards, the rest unchanged.
#[verifier::external_body]
fn vec_range_mut(v: &mut Vec<u8>, start: usize, end: usize) -> (r: &mut [u8])
    requires
        start <= end <= old(v).len(),
    ensures
        r@ == old(v)@.subrange(start as int, end as int),
        final(r)@.len() == end - start ==> final(v)@ == old(v)@.subrange(0, start as int)
            + final(r)@ + old(v)@.subrange(end as int, old(v)@.len() as int),
{
    &mut v[start..end]
}

impl FramePlane {
    /// Create a zeroed plane; rows are aligned to 64 bytes.
    pub fn new(width: u32, height: u32, bytes_per_pixel: usize) -> (p: Self)
        requires
            plane_fits(width as nat, height as nat, bytes_per_pixel as nat),
        ensures
            is_blank_plane(p, width as nat, height as nat, bytes_per_pixel as nat),
    {
        let min_stride = (width as usize) * bytes_per_pixel;
        let stride = (min_stride + 63) & !63usize;
        proof {
            let x = (min_stride + 63) as usize;
            assert(x & !63usize == (x / 64) * 64) by (bit_vector);
        }
        let data = vec![0u8; stride * height as usize];
        proof {
            assert(data@ =~= Seq::new((stride as nat) * (height as nat), |i: int| 0u8));
        }
        FramePlane { data, stride, width, height }
    }

    /// Bytes per pixel estimated from the stride.
    pub(crate) fn bytes_per_row_pixel(&self) -> (n: usize)
        ensures
            n == row_pixel_bytes(*self),
    {
        if self.width == 0 || self.stride == 0 {
            return 1;
        }
        let min_bpp = self.stride / self.width as usize;
        if min_bpp == 0 { 1 } else { min_bpp }
    }

    /// The pixel bytes of row `y`, which must lie inside the data.
    pub fn row(&self, y: u32) -> (r: &[u8])
        requires
            row_in_bounds(*self, y as nat),
        ensures
            r@ == self.data@.subrange(row_start(*self, y as nat) as int, row_end(*self, y as nat) as int),
    {
        let start = y as usize * self.stride;
        let bpp = self.bytes_per_row_pixel();
        let end = start + (self.width as usize * bpp);
        vstd::slice::slice_subrange(self.data.as_slice(), start, end)
    }

    /// The pixel bytes of row `y`, mutably.
    pub fn row_mut(&mut self, y: u32) -> (r: &mut [u8])
        requires
            row_in_bounds(*old(self), y as nat),
        ensures
            r@ == old(self).data@.subrange(
                row_start(*old(self), y as nat) as int,
                row_end(*old(self), y as nat) as int,
            ),
            final(self).stride == old(self).stride,
            final(self).width == old(self).width,
            final(self).height == old(self).height,
            final(r)@.len() == r@.len() ==> final(self).data@ == old(self).data@.subrange(
                0,
                row_start(*old(self), y as nat) as int,
            ) + final(r)@ + old(self).data@.subrange(
                row_end(*old(self), y as nat) as int,
                old(self).data@.len() as int,
            ),
    {
        let start = y as usize * self.stride;
        let bpp = self.bytes_per_row_pixel();
        let end = start + (self.width as usize * bpp);
        vec_range_mut(&mut self.data, start, end)
    }
}

/// The planes of a frame: a small vector of up to three planes held inline.
#[verifier::external_body]
#[derive(Debug)]
pub struct PlaneList {
    inner: SmallVec<[FramePlane; 3]>,
}

/// The planes held by a plane list, in order.
pub uninterp spec fn plane_list(v: PlaneList) -> Seq<FramePlane>;

/// `SmallVec::new`: an empty list. Claimed: it holds no planes.
#[verifier::external_body]
fn planes_new() -> (v: PlaneList)
    ensures
        plane_list(v) == Seq::<FramePlane>::empty(),
{
    PlaneList { inner: SmallVec::new() }
}

/// `SmallVec::push`. Claimed: the plane is appended at the end.
#[verifier::external_body]
fn planes_push(v: &mut PlaneList, p: FramePlane)
    ensures
        plane_list(*final(v)) == plane_list(*old(v)).push(p),
{
    v.inner.push(p)
}

/// `SmallVec::len`. Claimed: the number of planes held.
#[verifier::external_body]
fn planes_len(v: &PlaneList) -> (n: usize)
    ensures
        n == plane_list(*v).len(),
{
    v.inner.len()
}

/// `SmallVec::as_slice`. Claimed: the slice holds the planes in order.
#[verifier::external_body]
fn planes_slice(v: &PlaneList) -> (s: &[FramePlane])
    ensures
        s@ == plane_list(*v),
{
    v.inner.as_slice()
}

/// `IndexMut` of `SmallVec` at `i`: a mutable borrow of one plane. Claimed:
/// it starts as that plane, and the list afterwards holds what was left in
/// the borrow at `i`, the other planes unchanged.
#[verifier::external_body]
fn planes_at_mut(v: &mut PlaneList, i: usize) -> (r: &mut FramePlane)
    requires
        i < plane_list(*old(v)).len(),
    ensures
        *r == plane_list(*old(v))[i as int],
        plane_list(*final(v)) == plane_list(*old(v)).update(i as int, *final(r)),
{
    &mut v.inner[i]
}

/// `Clone` for `SmallVec`: a new list with clones of the planes. Claimed: it
/// holds as many planes.
#[verifier::external_body]
fn planes_clone(v: &PlaneList) -> (c: PlaneList)
    ensures
        plane_list(c).len() == plane_list(*v).len(),
{
    PlaneList { inner: v.inner.clone() }
}

impl PlaneList {
    /// Number of planes.
    pub fn len(&self) -> (n: usize)
        ensures
            n == plane_list(*self).len(),
    {
        planes_len(self)
    }

    /// The planes as a slice.
    pub fn as_slice(&self) -> (s: &[FramePlane])
        ensures
            s@ == plane_list(*self),
    {
        planes_slice(self)
    }
}

impl Clone for PlaneList {
    fn clone(&self) -> (c: Self)
        ensures
            plane_list(c).len() == plane_list(*self).len(),
    {
        planes_clone(self)
    }
}

impl std::ops::Index<usize> for PlaneList {
    type Output = FramePlane;

    fn index(&self, i: usize) -> (p: &FramePlane)
        ensures
            *p == plane_list(*self)[i as int],
    {
        let s = planes_slice(self);
        &s[i]
    }
}

impl vstd::std_specs::core::IndexSpecImpl<usize> for PlaneList {
    open spec fn index_req(&self, i: &usize) -> bool {
        *i < plane_list(*self).len()
    }
}

/// Plane sizes `(width, height, bytes per pixel)` that a format allocates.
pub open spec fn plane_layout(f: PixelFormat, w: nat, h: nat) -> Seq<(nat, nat, nat)> {
    match f {
        PixelFormat::Rgba8 => seq![(w, h, 4nat)],
        PixelFormat::Rgba16F => seq![(w, h, 8nat)],
        PixelFormat::Rgba32F => seq![(w, h, 16nat)],
        PixelFormat::Gray8 => seq![(w, h, 1nat)],
        PixelFormat::Gray16F => seq![(w, h, 2nat)],
        PixelFormat::Nv12 => seq![(w, h, 1nat), (w / 2, h / 2, 2nat)],
        PixelFormat::Yuv420P => seq![(w, h, 1nat), (w / 2, h / 2, 1nat), (w / 2, h / 2, 1nat)],
        PixelFormat::Yuv420P10 => seq![(w, h, 2nat), (w / 2, h / 2, 2nat), (w / 2, h / 2, 2nat)],
    }
}

/// Every plane of the layout can be allocated.
pub open spec fn frame_fits(f: PixelFormat, w: nat, h: nat) -> bool {
    forall|i: int| 0 <= i < plane_layout(f, w, h).len() ==> plane_fits(
        (#[trigger] plane_layout(f, w, h)[i]).0,
        plane_layout(f, w, h)[i].1,
        plane_layout(f, w, h)[i].2,
    )
}

/// `planes` are blank planes with the sizes of `layout`.
pub open spec fn planes_match(planes: Seq<FramePlane>, layout: Seq<(nat, nat, nat)>) -> bool {
    &&& planes.len() == layout.len()
    &&& forall|i: int| 0 <= i < planes.len() ==> is_blank_plane(
        #[trigger] planes[i], layout[i].0, layout[i].1, layout[i].2)
}

/// Total bytes held by a list of planes.
pub open spec fn planes_bytes(planes: Seq<FramePlane>) -> nat
    decreases planes.len(),
{
    if planes.len() == 0 {
        0
    } else {
        planes_bytes(planes.drop_last()) + planes.last().data@.len()
    }
}

/// A video frame in CPU memory.
#[derive(Debug, Clone)]
pub struct FrameBuffer {
    /// Pixel format.
    pub format: PixelFormat,
    /// Frame width in pixels.
    pub width: u32,
    /// Frame height in pixels.
    pub height: u32,
    /// Pixel data planes (one to three depending on the format).
    pub planes: PlaneList,
}

impl FrameBuffer {
    /// The planes of the frame, in order.
    pub open spec fn plane_seq(self) -> Seq<FramePlane> {
        plane_list(self.planes)
    }

    /// Create a zeroed frame of the given size and format.
    pub fn new(width: u32, height: u32, format: PixelFormat) -> (f: Self)
        requires
            frame_fits(format, width as nat, height as nat),
        ensures
            f.format == format,
            f.width == width,
            f.height == height,
            planes_match(f.plane_seq(), plane_layout(format, width as nat, height as nat)),
    {
        let ghost layout = plane_layout(format, width as nat, height as nat);
        let mut planes = planes_new();
        match format {
            PixelFormat::Rgba8 => {
                assert(plane_fits(layout[0].0, layout[0].1, layout[0].2));
                planes_push(&mut planes, FramePlane::new(width, height, 4));
            },
            PixelFormat::Rgba16F => {
                assert(plane_fits(layout[0].0, layout[0].1, layout[0].2));
                planes_push(&mut planes, FramePlane::new(width, height, 8));
            },
            PixelFormat::Rgba32F => {
                assert(plane_fits(layout[0].0, layout[0].1, layout[0].2));
                planes_push(&mut planes, FramePlane::new(width, height, 16));
            },
            PixelFormat::Gray8 => {
                assert(plane_fits(layout[0].0, layout[0].1, layout[0].2));
                planes_push(&mut planes, FramePlane::new(width, height, 1));
            },
            PixelFormat::Gray16F => {
                assert(plane_fits(layout[0].0, layout[0].1, layout[0].2));
                planes_push(&mut planes, FramePlane::new(width, height, 2));
            },
            PixelFormat::Nv12 => {
                assert(plane_fits(layout[0].0, layout[0].1, layout[0].2));
                assert(plane_fits(layout[1].0, layout[1].1, layout[1].2));
                planes_push(&mut planes, FramePlane::new(width, height, 1));
                planes_push(&mut planes, FramePlane::new(width / 2, height / 2, 2));
            },
            PixelFormat::Yuv420P => {
                assert(plane_fits(layout[0].0, layout[0].1, layout[0].2));
                assert(plane_fits(layout[1].0, layout[1].1, layout[1].2));
                assert(plane_fits(layout[2].0, layout[2].1, layout[2].2));
                planes_push(&mut planes, FramePlane::new(width, height, 1));
                planes_push(&mut planes, FramePlane::new(width / 2, height / 2, 1));
                planes_push(&mut planes, FramePlane::new(width / 2, height / 2, 1));
            },
            PixelFormat::Yuv420P10 => {
                assert(plane_fits(layout[0].0, layout[0].1, layout[0].2));
                assert(plane_fits(layout[1].0, layout[1].1, layout[1].2));
                assert(plane_fits(layout[2].0, layout[2].1, layout[2].2));
                planes_push(&mut planes, FramePlane::new(width, height, 2));
                planes_push(&mut planes, FramePlane::new(width / 2, height / 2, 2));
                planes_push(&mut planes, FramePlane::new(width / 2, height / 2, 2));
            },
        }
        FrameBuffer { format, width, height, planes }
    }

    /// Total memory used by the frame's planes, in bytes.
    pub fn memory_size(&self) -> (n: usize)
        requires
            planes_bytes(self.plane_seq()) <= usize::MAX,
        ensures
            n == planes_bytes(self.plane_seq()),
    {
        let planes = planes_slice(&self.planes);
        let ghost all = self.plane_seq();
        let mut total: usize = 0;
        let mut i: usize = 0;
        while i < planes.len()
            invariant
                planes@ == all,
                planes_bytes(all) <= usize::MAX,
                i <= planes@.len(),
                total == planes_bytes(all.take(i as int)),
            decreases planes@.len() - i,
        {
            proof {
                assert(all.take(i as int + 1).drop_last() =~= all.take(i as int));
                lemma_planes_bytes_prefix(all, i as int + 1);
            }
            total = total + planes[i].data.len();
            i = i + 1;
        }
        assert(all.take(i as int) =~= all);
        total
    }

    /// The primary plane (plane 0) of a frame that has at least one plane.
    pub fn primary_plane(&self) -> (p: &FramePlane)
        requires
            self.plane_seq().len() > 0,
        ensures
            *p == self.plane_seq()[0],
    {
        let planes = planes_slice(&self.planes);
        &planes[0]
    }

    /// The primary plane, mutably.
    pub fn primary_plane_mut(&mut self) -> (p: &mut FramePlane)
        requires
            old(self).plane_seq().len() > 0,
        ensures
            *p == old(self).plane_seq()[0],
            final(self).plane_seq() == old(self).plane_seq().update(0, *final(p)),
            final(self).format == old(self).format,
            final(self).width == old(self).width,
            final(self).height == old(self).height,
    {
        planes_at_mut(&mut self.planes, 0)
    }
}

proof fn lemma_planes_bytes_prefix(all: Seq<FramePlane>, k: int)
    requires
        0 <= k <= all.len(),
    ensures
        planes_bytes(all.take(k)) <= planes_bytes(all),
    decreases all.len() - k,
{
    if k < all.len() {
        lemma_planes_bytes_prefix(all, k + 1);
        assert(all.take(k + 1).drop_last() =~= all.take(k));
    } else {
        assert(all.take(k) =~= all);
    }
}

/// Byte `c` (R, G, B, A) of color bar `bar`: white, yellow, cyan, green,
/// magenta, red, blue, black, all opaque.
pub open spec fn bar_byte(bar: nat, c: nat) -> u8 {
    if c == 3 {
        255
    } else {
        if bar == 0 {
            255
        } else if bar == 1 {
            if c == 2 { 0 } else { 255 }
        } else if bar == 2 {
            if c == 0 { 0 } else { 255 }
        } else if bar == 3 {
            if c == 1 { 255 } else { 0 }
        } else if bar == 4 {
            if c == 1 { 0 } else { 255 }
        } else if bar == 5 {
            if c == 0 { 255 } else { 0 }
        } else if bar == 6 {
            if c == 2 { 255 } else { 0 }
        } else {
            0
        }
    }
}

/// The bytes of a `w` by `h` color-bar plane with rows `stride` bytes apart:
/// pixel `x` shows bar `x * 8 / w`, and the padding at the end of each row
/// is zero.
pub open spec fn pattern_bytes(w: nat, h: nat, stride: nat) -> Seq<u8> {
    Seq::new(
        stride * h,
        |i: int|
            {
                let o = i % (stride as int);
                if o < w * 4 {
                    bar_byte((((o / 4) * 8) / (w as int)) as nat, (o % 4) as nat)
                } else {
                    0u8
                }
            },
    )
}

fn bar_color(bar: u32) -> (r: [u8; 4])
    requires
        bar < 8,
    ensures
        forall|c: int| 0 <= c < 4 ==> #[trigger] r[c] == bar_byte(bar as nat, c as nat),
{
    match bar {
        0 => [255, 255, 255, 255],
        1 => [255, 255, 0, 255],
        2 => [0, 255, 255, 255],
        3 => [0, 255, 0, 255],
        4 => [255, 0, 255, 255],
        5 => [255, 0, 0, 255],
        6 => [0, 0, 255, 255],
        _ => [0, 0, 0, 255],
    }
}

proof fn lemma_pattern_index(k: int, y: int, o: int, stride: int)
    requires
        stride > 0,
        y >= 0,
        0 <= o < stride,
        k == y * stride + o,
    ensures
        k % stride == o,
        k / stride == y,
{
    vstd::arithmetic::div_mod::lemma_fundamental_div_mod_converse(k, stride, y, o);
}

impl FrameBuffer {
    /// A test pattern frame: eight vertical color bars in an RGBA8 frame.
    pub fn test_pattern(width: u32, height: u32) -> (f: Self)
        requires
            plane_fits(width as nat, height as nat, 4),
            (width as nat) * 8 <= u32::MAX,
        ensures
            f.format == PixelFormat::Rgba8,
            f.width == width,
            f.height == height,
            f.plane_seq().len() == 1,
            f.plane_seq()[0].width == width,
            f.plane_seq()[0].height == height,
            f.plane_seq()[0].stride == align64(width as nat * 4),
            f.plane_seq()[0].data@ == pattern_bytes(width as nat, height as nat, align64(width as nat * 4)),
    {
        let mut plane = FramePlane::new(width, height, 4);
        let stride = plane.stride;
        let ghost expected = pattern_bytes(width as nat, height as nat, stride as nat);
        let ghost total = (stride as nat) * (height as nat);
        assert(stride >= width * 4 && total <= usize::MAX);
        let mut y: u32 = 0;
        while y < height
            invariant
                y <= height,
                plane.width == width,
                plane.height == height,
                plane.stride == stride,
                stride == align64(width as nat * 4),
                (width as nat) * 8 <= u32::MAX,
                total == (stride as nat) * (height as nat),
                total <= usize::MAX,
                plane.data@.len() == total,
                expected == pattern_bytes(width as nat, height as nat, stride as nat),
                forall|k: int|
                    0 <= k < total ==> #[trigger] plane.data@[k] == if k < y * stride {
                        expected[k]
                    } else {
                        0u8
                    },
            decreases height - y,
        {
            assert(y * stride + stride <= total) by (nonlinear_arith)
                requires
                    y < height,
                    total == stride * height,
            ;
            let row_base: usize = y as usize * stride;
            let mut x: u32 = 0;
            while x < width
                invariant
                    x <= width,
                    y < height,
                    plane.width == width,
                    plane.height == height,
                    plane.stride == stride,
                    stride == align64(width as nat * 4),
                    stride >= width * 4,
                    (width as nat) * 8 <= u32::MAX,
                    total == (stride as nat) * (height as nat),
                    total <= usize::MAX,
                    row_base == y * stride,
                    row_base + stride <= total,
                    plane.data@.len() == total,
                    expected == pattern_bytes(width as nat, height as nat, stride as nat),
                    forall|k: int|
                        0 <= k < total ==> #[trigger] plane.data@[k] == if k < row_base + x * 4 {
                            expected[k]
                        } else {
                            0u8
                        },
                decreases width - x,
            {
                assert((x * 8) as int / (width as int) < 8) by (nonlinear_arith)
                    requires
                        x < width,
                ;
                let bar = x * 8 / width;
                let color = bar_color(bar);
                let base = row_base + (x as usize) * 4;
                let mut c: usize = 0;
                while c < 4
                    invariant
                        c <= 4,
                        x < width,
                        plane.width == width,
                        plane.height == height,
                        plane.stride == stride,
                        bar == (x * 8) as int / (width as int),
                        forall|cc: int| 0 <= cc < 4 ==> #[trigger] color[cc] == bar_byte(bar as nat, cc as nat),
                        stride == align64(width as nat * 4),
                        stride >= width * 4,
                        total == (stride as nat) * (height as nat),
                        total <= usize::MAX,
                        row_base == y * stride,
                        row_base + stride <= total,
                        base == row_base + x * 4,
                        plane.data@.len() == total,
                        expected == pattern_bytes(width as nat, height as nat, stride as nat),
                        forall|k: int|
                            0 <= k < total ==> #[trigger] plane.data@[k] == if k < base + c {
                                expected[k]
                            } else {
                                0u8
                            },
                    decreases 4 - c,
                {
                    proof {
                        let k = (base + c) as int;
                        let o = x * 4 + c;
                        lemma_pattern_index(k, y as int, o as int, stride as int);
                        assert(o / 4 == x && o % 4 == c);
                        assert(expected[k] == bar_byte(bar as nat, c as nat));
                    }
                    plane.data.set(base + c, color[c]);
                    c = c + 1;
                }
                x = x + 1;
            }
            proof {
                assert forall|k: int| 0 <= k < total implies #[trigger] plane.data@[k] == if k < (y + 1)
                    * stride {
                    expected[k]
                } else {
                    0u8
                } by {
                    assert((y + 1) * stride == y * stride + stride) by (nonlinear_arith);
                    if row_base + width * 4 <= k < row_base + stride {
                        lemma_pattern_index(k, y as int, k - row_base, stride as int);
                    }
                }
            }
            y = y + 1;
        }
        assert(y * stride == total) by (nonlinear_arith)
            requires
                y == height,
                total == (stride as nat) * (height as nat),
        ;
        assert(plane.data@ =~= expected);
        let mut planes = planes_new();
        planes_push(&mut planes, plane);
        FrameBuffer { format: PixelFormat::Rgba8, width, height, planes }
    }
}

} // verus!
