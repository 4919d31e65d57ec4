//! The demo workload's painting: a background gradient and solid squares drawn straight into a
//! framebuffer of one of the 3- and 4-byte formats.
use vstd::prelude::*;

use crate::format::PixelFormat;
use crate::rect::{min_int, Rect};
use crate::surface::{FrameMut, SurfaceState};

verus! {

/// Source width of the demo workload (the background gradient spans it).
pub const SRC_W: u32 = 800;

/// Source height of the demo workload.
pub const SRC_H: u32 = 500;

/// The formats the demo paints.
pub open spec fn paintable(f: PixelFormat) -> bool {
    f is Rgb24 || f is Bgr24 || f is Rgba8 || f is Bgra8 || f is Rgbx8 || f is Bgrx8
}

/// Bytes per pixel of a paintable format.
pub open spec fn bpp_of(f: PixelFormat) -> int {
    f.spec_bytes_per_pixel().unwrap() as int
}

/// The bytes of a pixel of color `(r, g, b)`: RGB or BGR order, then an alpha byte of 255
/// (`Rgba8`, `Bgra8`) or an X byte of 0 (`Rgbx8`, `Bgrx8`), which only a blit that forces alpha
/// to 1 shows.
pub open spec fn pixel_bytes(f: PixelFormat, rgb: (u8, u8, u8)) -> Seq<u8> {
    let (r, g, b) = rgb;
    match f {
        PixelFormat::Rgb24 => seq![r, g, b],
        PixelFormat::Bgr24 => seq![b, g, r],
        PixelFormat::Rgba8 => seq![r, g, b, 0xffu8],
        PixelFormat::Bgra8 => seq![b, g, r, 0xffu8],
        PixelFormat::Rgbx8 => seq![r, g, b, 0u8],
        PixelFormat::Bgrx8 => seq![b, g, r, 0u8],
        _ => Seq::empty(),
    }
}

/// The background gradient at `(x, y)`: red grows along the demo's width, green along its
/// height, blue is constant.
pub open spec fn background(x: int, y: int) -> (u8, u8, u8) {
    ((x * 255 / 800) as u8, (y * 255 / 500) as u8, 0x60u8)
}

/// The color painted at `(x, y)`: the fill color, or the background where there is none.
pub open spec fn paint_color(fill: Option<(u8, u8, u8)>, x: int, y: int) -> (u8, u8, u8) {
    match fill {
        Some(c) => c,
        None => background(x, y),
    }
}

/// Byte `c` of pixel `(x, y)` in a tightly packed frame `w` pixels wide.
pub open spec fn byte_index(w: int, b: int, x: int, y: int, c: int) -> int {
    (y * w + x) * b + c
}

/// `new` is `old` (a tightly packed `w x h` frame of `f`) with every pixel of `rect` inside the
/// frame painted `paint_color(fill, x, y)` and every other byte unchanged.
pub open spec fn is_painted(
    old: Seq<u8>,
    new: Seq<u8>,
    f: PixelFormat,
    w: u32,
    h: u32,
    rect: Rect,
    fill: Option<(u8, u8, u8)>,
) -> bool {
    &&& new.len() == old.len()
    &&& forall|x: int, y: int, c: int|
        0 <= x < w && 0 <= y < h && 0 <= c < bpp_of(f) ==> #[trigger] new[byte_index(
            w as int,
            bpp_of(f),
            x,
            y,
            c,
        )] == if rect.contains_point(x, y) {
            pixel_bytes(f, paint_color(fill, x, y))[c]
        } else {
            old[byte_index(w as int, bpp_of(f), x, y, c)]
        }
}

/// The columns `[x0, x1)` and rows `[y0, y1)` of `rect` inside a `w x h` frame.
pub open spec fn painted_cols(rect: Rect, w: u32) -> (int, int) {
    (rect.x as int, min_int(rect.spec_right(), w as int))
}

pub open spec fn painted_rows(rect: Rect, h: u32) -> (int, int) {
    (rect.y as int, min_int(rect.spec_bottom(), h as int))
}

/// What painting `rect` needs: the rect's edges fit `u32`, and for the background the
/// gradient's `x * 255` and `y * 255` fit `u32` wherever a pixel is painted.
pub open spec fn paint_fits(rect: Rect, w: u32, h: u32, fill: bool) -> bool {
    &&& rect.spec_right() <= u32::MAX
    &&& rect.spec_bottom() <= u32::MAX
    &&& !fill ==> (painted_cols(rect, w).0 < painted_cols(rect, w).1 && painted_rows(rect, h).0
        < painted_rows(rect, h).1 ==> (painted_cols(rect, w).1 - 1) * 255 <= u32::MAX && (
    painted_rows(rect, h).1 - 1) * 255 <= u32::MAX)
}

proof fn lemma_byte_index_bounds(w: int, h: int, b: int, x: int, y: int, c: int)
    requires
        0 <= x < w,
        0 <= y < h,
        0 <= c < b,
    ensures
        0 <= (y * w + x) * b <= byte_index(w, b, x, y, c),
        byte_index(w, b, x, y, c) + (b - c) <= h * (w * b),
        (y * w + x) * b == y * (w * b) + x * b,
{
    assert(0 <= y * w + x < h * w) by (nonlinear_arith)
        requires 0 <= x < w, 0 <= y < h;
    assert((y * w + x) * b + b <= h * w * b) by (nonlinear_arith)
        requires y * w + x + 1 <= h * w, b >= 0;
    assert(0 <= (y * w + x) * b) by (nonlinear_arith)
        requires y * w + x >= 0, b >= 0;
    assert(h * w * b == h * (w * b)) by (nonlinear_arith);
    assert((y * w + x) * b == y * (w * b) + x * b) by (nonlinear_arith);
}

/// Bytes of two pixels never overlap: byte `c` of `(x, y)` lies in the bytes of pixel
/// `(px, py)` exactly when the pixels are the same.
proof fn lemma_byte_index_unique(w: int, b: int, x: int, y: int, c: int, px: int, py: int)
    requires
        0 <= x < w,
        0 <= px < w,
        y >= 0,
        py >= 0,
        0 <= c < b,
    ensures
        ((py * w + px) * b <= byte_index(w, b, x, y, c) < (py * w + px) * b + b) <==> (x == px && y
            == py),
{
    let p = y * w + x;
    let q = py * w + px;
    if p < q {
        assert(p * b + c < q * b) by (nonlinear_arith)
            requires p < q, 0 <= c < b;
    } else if p > q {
        assert(p * b + c >= q * b + b) by (nonlinear_arith)
            requires p > q, c >= 0, b >= 0;
    }
    assert((p == q) <==> (x == px && y == py)) by (nonlinear_arith)
        requires p == y * w + x, q == py * w + px, 0 <= x < w, 0 <= px < w;
}

/// Writes the pixel `(x, y)` of color `rgb` at byte `y * stride + x * bytes_per_pixel`.
pub fn put_pixel(bytes: &mut [u8], stride: usize, format: PixelFormat, x: u32, y: u32, rgb: [u8; 3])
    requires
        paintable(format),
        y * stride + x * bpp_of(format) + bpp_of(format) <= old(bytes)@.len(),
    ensures
        final(bytes)@.len() == old(bytes)@.len(),
        forall|k: int|
            0 <= k < old(bytes)@.len() ==> #[trigger] final(bytes)@[k] == ({
                let o = y * stride + x * bpp_of(format);
                if o <= k < o + bpp_of(format) {
                    pixel_bytes(format, (rgb[0], rgb[1], rgb[2]))[k - o]
                } else {
                    old(bytes)@[k]
                }
            }),
{
    let r = rgb[0];
    let g = rgb[1];
    let b = rgb[2];
    let bpp: usize = match format {
        PixelFormat::Rgb24 | PixelFormat::Bgr24 => 3,
        _ => 4,
    };
    let n = bytes.len();
    proof {
        assert(bpp == bpp_of(format));
        assert(0 <= y * stride && 0 <= x * bpp) by (nonlinear_arith)
            requires y >= 0, stride >= 0, x >= 0, bpp >= 0;
        assert(y * stride + x * bpp + bpp <= n);
    }
    let offset = y as usize * stride + x as usize * bpp;
    match format {
        PixelFormat::Rgb24 => {
            bytes[offset] = r;
            bytes[offset + 1] = g;
            bytes[offset + 2] = b;
        },
        PixelFormat::Bgr24 => {
            bytes[offset] = b;
            bytes[offset + 1] = g;
            bytes[offset + 2] = r;
        },
        PixelFormat::Rgba8 => {
            bytes[offset] = r;
            bytes[offset + 1] = g;
            bytes[offset + 2] = b;
            bytes[offset + 3] = 0xff;
        },
        PixelFormat::Bgra8 => {
            bytes[offset] = b;
            bytes[offset + 1] = g;
            bytes[offset + 2] = r;
            bytes[offset + 3] = 0xff;
        },
        // The X byte is deliberately 0: without a blit that forces alpha to 1 the screen would
        // show black, so the demo doubles as a visual check of that.
        PixelFormat::Rgbx8 => {
            bytes[offset] = r;
            bytes[offset + 1] = g;
            bytes[offset + 2] = b;
            bytes[offset + 3] = 0;
        },
        _ => {
            bytes[offset] = b;
            bytes[offset + 1] = g;
            bytes[offset + 2] = r;
            bytes[offset + 3] = 0;
        },
    }
}

/// The fill color of an optional `[r, g, b]`.
pub open spec fn fill_of(fill: Option<[u8; 3]>) -> Option<(u8, u8, u8)> {
    match fill {
        Some(c) => Some((c[0], c[1], c[2])),
        None => None,
    }
}

/// Paints the pixels of `rect` inside the tightly packed `width x height` frame: `fill` where
/// given, the background gradient otherwise.
fn paint_rect(
    bytes: &mut [u8],
    stride: usize,
    width: u32,
    height: u32,
    format: PixelFormat,
    rect: Rect,
    fill: Option<[u8; 3]>,
)
    requires
        paintable(format),
        stride == width * bpp_of(format),
        old(bytes)@.len() == height * stride,
        paint_fits(rect, width, height, fill is Some),
    ensures
        is_painted(old(bytes)@, final(bytes)@, format, width, height, rect, fill_of(fill)),
{
    let ghost b = bpp_of(format);
    let ghost w = width as int;
    let ghost h = height as int;
    let ghost f = fill_of(fill);
    let right = rect.x + rect.width;
    let bottom = rect.y + rect.height;
    let x_end = if right <= width { right } else { width };
    let y_end = if bottom <= height { bottom } else { height };
    let mut y = rect.y;
    while y < y_end
        invariant
            paintable(format),
            b == bpp_of(format) && w == width && h == height && f == fill_of(fill),
            stride == w * b,
            bytes@.len() == old(bytes)@.len() == h * stride,
            paint_fits(rect, width, height, fill is Some),
            x_end == min_int(rect.spec_right(), w) && y_end == min_int(rect.spec_bottom(), h),
            rect.y <= y,
            y <= y_end || y == rect.y,
            forall|px: int, py: int, c: int|
                0 <= px < w && 0 <= py < h && 0 <= c < b ==> #[trigger] bytes@[byte_index(
                    w,
                    b,
                    px,
                    py,
                    c,
                )] == if rect.contains_point(px, py) && py < y {
                    pixel_bytes(format, paint_color(f, px, py))[c]
                } else {
                    old(bytes)@[byte_index(w, b, px, py, c)]
                },
        decreases y_end - y,
    {
        let mut x = rect.x;
        while x < x_end
            invariant
                paintable(format),
                b == bpp_of(format) && w == width && h == height && f == fill_of(fill),
                stride == w * b,
                bytes@.len() == old(bytes)@.len() == h * stride,
                paint_fits(rect, width, height, fill is Some),
                x_end == min_int(rect.spec_right(), w) && y_end == min_int(rect.spec_bottom(), h),
                rect.y <= y < y_end,
                rect.x <= x,
                x <= x_end || x == rect.x,
                forall|px: int, py: int, c: int|
                    0 <= px < w && 0 <= py < h && 0 <= c < b ==> #[trigger] bytes@[byte_index(
                        w,
                        b,
                        px,
                        py,
                        c,
                    )] == if rect.contains_point(px, py) && (py < y || (py == y && px < x)) {
                        pixel_bytes(format, paint_color(f, px, py))[c]
                    } else {
                        old(bytes)@[byte_index(w, b, px, py, c)]
                    },
            decreases x_end - x,
        {
            proof {
                lemma_byte_index_bounds(w, h, b, x as int, y as int, 0);
            }
            let color: [u8; 3] = match fill {
                Some(c) => c,
                None => {
                    proof {
                        assert(x * 255 <= u32::MAX && y * 255 <= u32::MAX) by (nonlinear_arith)
                            requires
                                x <= x_end - 1,
                                y <= y_end - 1,
                                (x_end - 1) * 255 <= u32::MAX,
                                (y_end - 1) * 255 <= u32::MAX;
                    }
                    [(x * 255 / SRC_W) as u8, (y * 255 / SRC_H) as u8, 0x60]
                },
            };
            proof {
                assert((color[0], color[1], color[2]) == paint_color(f, x as int, y as int));
            }
            put_pixel(bytes, stride, format, x, y, color);
            proof {
                assert forall|px: int, py: int, c: int|
                    0 <= px < w && 0 <= py < h && 0 <= c < b implies #[trigger] bytes@[byte_index(
                        w,
                        b,
                        px,
                        py,
                        c,
                    )] == if rect.contains_point(px, py) && (py < y || (py == y && px < x + 1)) {
                        pixel_bytes(format, paint_color(f, px, py))[c]
                    } else {
                        old(bytes)@[byte_index(w, b, px, py, c)]
                    } by {
                    lemma_byte_index_bounds(w, h, b, px, py, c);
                    lemma_byte_index_unique(w, b, px, py, c, x as int, y as int);
                }
            }
            x = x + 1;
        }
        y = y + 1;
    }
}

/// The frame's layout is tightly packed rows of a paintable format: its row stride is
/// `width * bytes_per_pixel` and it holds `height` rows.
pub open spec fn frame_layout(frame: &FrameMut<'_>, format: PixelFormat) -> bool {
    &&& paintable(format)
    &&& frame.row_bytes == frame.width * bpp_of(format)
    &&& frame.bytes@.len() == frame.height * frame.row_bytes
}

/// Fills the part of `rect` inside the frame with `color`.
pub fn fill_rect(frame: &mut FrameMut<'_>, format: PixelFormat, rect: Rect, color: [u8; 3])
    requires
        frame_layout(old(frame), format),
        paint_fits(rect, old(frame).width, old(frame).height, true),
    ensures
        is_painted(
            old(frame).bytes@,
            final(frame).bytes@,
            format,
            old(frame).width,
            old(frame).height,
            rect,
            Some((color[0], color[1], color[2])),
        ),
        final(final(frame).bytes)@ == final(old(frame).bytes)@,
        final(frame).dirty@ == old(frame).dirty@,
        final(final(frame).dirty)@ == final(old(frame).dirty)@,
        final(frame).width == old(frame).width,
        final(frame).height == old(frame).height,
        final(frame).row_bytes == old(frame).row_bytes,
{
    let stride = frame.stride();
    let width = frame.width();
    let height = frame.height();
    let bytes = frame.bytes_mut();
    paint_rect(bytes, stride, width, height, format, rect, Some(color));
}

/// Repaints the part of `rect` inside the frame with the background gradient (erasing what
/// was drawn there).
pub fn paint_background_rect(frame: &mut FrameMut<'_>, format: PixelFormat, rect: Rect)
    requires
        frame_layout(old(frame), format),
        paint_fits(rect, old(frame).width, old(frame).height, false),
    ensures
        is_painted(
            old(frame).bytes@,
            final(frame).bytes@,
            format,
            old(frame).width,
            old(frame).height,
            rect,
            None,
        ),
        final(final(frame).bytes)@ == final(old(frame).bytes)@,
        final(frame).dirty@ == old(frame).dirty@,
        final(final(frame).dirty)@ == final(old(frame).dirty)@,
        final(frame).width == old(frame).width,
        final(frame).height == old(frame).height,
        final(frame).row_bytes == old(frame).row_bytes,
{
    let stride = frame.stride();
    let width = frame.width();
    let height = frame.height();
    let bytes = frame.bytes_mut();
    paint_rect(bytes, stride, width, height, format, rect, None);
}

/// Paints the whole owned framebuffer (allocating it if needed) with the background gradient
/// and marks all of it dirty.
pub fn repaint_full(surface: &mut SurfaceState)
    requires
        old(surface).wf(),
        paintable(old(surface).gpu.format),
        (old(surface).gpu.source_width - 1) * 255 <= u32::MAX,
        (old(surface).gpu.source_height - 1) * 255 <= u32::MAX,
    ensures
        final(surface).wf(),
        final(surface).gpu == old(surface).gpu,
        final(surface).dirty@ == seq![
            Rect { x: 0, y: 0, width: old(surface).gpu.source_width, height: old(surface).gpu.source_height },
        ],
        final(surface).framebuffer@.len() == old(surface).gpu.spec_frame_len(),
        ({
            let w = old(surface).gpu.source_width as int;
            let h = old(surface).gpu.source_height as int;
            let f = old(surface).gpu.format;
            forall|x: int, y: int, c: int|
                0 <= x < w && 0 <= y < h && 0 <= c < bpp_of(f)
                    ==> #[trigger] final(surface).framebuffer@[byte_index(w, bpp_of(f), x, y, c)]
                    == pixel_bytes(f, background(x, y))[c]
        }),
{
    let format = surface.format();
    let mut frame = surface.frame_mut();
    proof {
        let b = bpp_of(format);
        let (w, h) = (frame.width as int, frame.height as int);
        assert(w * h * b == h * (w * b)) by (nonlinear_arith);
    }
    let full = Rect::new(0, 0, frame.width(), frame.height());
    paint_background_rect(&mut frame, format, full);
    frame.mark_full_dirty();
}

/// The demo writes each channel of a pixel into the byte where the format stores it.
pub proof fn lemma_pixel_bytes_layout(f: PixelFormat, rgb: (u8, u8, u8))
    requires
        paintable(f),
    ensures
        ({
            let o = f.channel_offsets().unwrap();
            let p = pixel_bytes(f, rgb);
            &&& p.len() == bpp_of(f)
            &&& p[o.0] == rgb.0 && p[o.1] == rgb.1 && p[o.2] == rgb.2
        }),
{
}

} // verus!
