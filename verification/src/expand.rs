use vstd::prelude::*;

use crate::format::{half_up, PixelFormat};
use crate::rect::Rect;

verus! {

/// Little-endian 16-bit sample at byte `b`.
pub open spec fn le16(bytes: Seq<u8>, b: int) -> int {
    bytes[b] + 256 * bytes[b + 1]
}

/// BT.601 limited-range channel from a value in thousandths: clamped to `0..=255` and
/// truncated.
pub open spec fn bt601_channel(k: int) -> u8 {
    if k < 0 {
        0
    } else if k >= 255000 {
        255
    } else {
        (k / 1000) as u8
    }
}

/// The RGB triple of source pixel `(x, y)`, for the packed and planar formats.
pub open spec fn expand_pixel(bytes: Seq<u8>, format: PixelFormat, w: int, h: int, x: int, y: int) -> Seq<
    u8,
> {
    let i = y * w + x;
    match format {
        PixelFormat::Rgb24 => seq![bytes[3 * i], bytes[3 * i + 1], bytes[3 * i + 2]],
        PixelFormat::Bgr24 => seq![bytes[3 * i + 2], bytes[3 * i + 1], bytes[3 * i]],
        PixelFormat::Rgb565 => {
            let v = le16(bytes, 2 * i);
            seq![
                (v / 2048 % 32 * 255 / 31) as u8,
                (v / 32 % 64 * 255 / 63) as u8,
                (v % 32 * 255 / 31) as u8,
            ]
        },
        PixelFormat::Rgb555 => {
            let v = le16(bytes, 2 * i);
            seq![
                (v / 1024 % 32 * 255 / 31) as u8,
                (v / 32 % 32 * 255 / 31) as u8,
                (v % 32 * 255 / 31) as u8,
            ]
        },
        PixelFormat::Gray8 => seq![bytes[i], bytes[i], bytes[i]],
        PixelFormat::Gray16 => {
            let l = (le16(bytes, 2 * i) * 255 / 65535) as u8;
            seq![l, l, l]
        },
        PixelFormat::I420 => {
            let cw = half_up(w);
            let y_len = w * h;
            let chroma_len = cw * half_up(h);
            let c = i_chroma(x, y, cw);
            let luma = bytes[i] as int;
            let cb = bytes[y_len + c] as int;
            let cr = bytes[y_len + chroma_len + c] as int;
            let base = 1164 * (luma - 16);
            seq![
                bt601_channel(base + 1596 * (cr - 128)),
                bt601_channel(base - 391 * (cb - 128) - 813 * (cr - 128)),
                bt601_channel(base + 2018 * (cb - 128)),
            ]
        },
        _ => seq![0u8, 0u8, 0u8],
    }
}

/// Index of the chroma sample of pixel `(x, y)` inside one chroma plane.
pub open spec fn i_chroma(x: int, y: int, cw: int) -> int {
    (y / 2) * cw + x / 2
}

/// Tightly packed RGBA8 (alpha 255) of `rect`, row-major.
#[verifier::opaque]
pub open spec fn spec_expanded(bytes: Seq<u8>, format: PixelFormat, w: int, h: int, rect: Rect) -> Seq<
    u8,
> {
    Seq::new(
        (rect.width * rect.height * 4) as nat,
        |k: int|
            {
                let p = k / 4;
                if k % 4 == 3 {
                    255u8
                } else {
                    expand_pixel(
                        bytes,
                        format,
                        w,
                        h,
                        rect.x + p % (rect.width as int),
                        rect.y + p / (rect.width as int),
                    )[k % 4]
                }
            },
    )
}

/// Byte `k` of the expanded rect: alpha 255, or channel `k % 4` of pixel `k / 4`.
pub proof fn lemma_expanded_at(bytes: Seq<u8>, format: PixelFormat, w: int, h: int, rect: Rect, k: int)
    requires
        0 <= k < rect.width * rect.height * 4,
    ensures
        spec_expanded(bytes, format, w, h, rect).len() == rect.width * rect.height * 4,
        spec_expanded(bytes, format, w, h, rect)[k] == if k % 4 == 3 {
            255u8
        } else {
            expand_pixel(
                bytes,
                format,
                w,
                h,
                rect.x + (k / 4) % (rect.width as int),
                rect.y + (k / 4) / (rect.width as int),
            )[k % 4]
        },
{
    reveal(spec_expanded);
}

proof fn lemma_index_in_frame(x: int, y: int, w: int, h: int)
    requires
        0 <= x < w,
        0 <= y < h,
    ensures
        0 <= y * w + x < w * h,
{
    assert(y * w <= (h - 1) * w) by (nonlinear_arith)
        requires y <= h - 1, w >= 0;
    assert((h - 1) * w + w == w * h) by (nonlinear_arith);
    assert(y * w >= 0) by (nonlinear_arith)
        requires y >= 0, w >= 0;
}

proof fn lemma_frame_len_parts(format: PixelFormat, w: int, h: int)
    requires
        w >= 0,
        h >= 0,
    ensures
        format.spec_bytes_per_pixel() matches Some(b) ==> format.spec_frame_len(w, h) == b * (w * h),
        format is I420 ==> format.spec_frame_len(w, h) == w * h + 2 * (half_up(w) * half_up(h)),
{
    if let Some(b) = format.spec_bytes_per_pixel() {
        assert(w * h * b == b * (w * h)) by (nonlinear_arith);
    }
}

/// RGB of one source pixel.
fn pixel_rgb(bytes: &[u8], format: PixelFormat, w: u32, h: u32, x: u32, y: u32) -> (rgb: (
    u8,
    u8,
    u8,
))
    requires
        !format.is_direct(),
        x < w,
        y < h,
        bytes@.len() >= format.spec_frame_len(w as int, h as int),
        format.spec_frame_len(w as int, h as int) <= usize::MAX,
    ensures
        ({
            let e = expand_pixel(bytes@, format, w as int, h as int, x as int, y as int);
            rgb.0 == e[0] && rgb.1 == e[1] && rgb.2 == e[2]
        }),
{
    proof {
        lemma_index_in_frame(x as int, y as int, w as int, h as int);
        lemma_frame_len_parts(format, w as int, h as int);
    }
    let ghost gi = (y as int) * (w as int) + (x as int);
    proof {
        assert(gi < (w as int) * (h as int) <= usize::MAX) by {
            if let Some(b) = format.spec_bytes_per_pixel() {
                assert(1 * ((w as int) * (h as int)) <= b * ((w as int) * (h as int))) by (nonlinear_arith)
                    requires b >= 1, (w as int) * (h as int) >= 0;
            }
        }
    }
    proof {
        if let Some(b) = format.spec_bytes_per_pixel() {
            assert(b * gi + b <= b * ((w as int) * (h as int))) by (nonlinear_arith)
                requires gi + 1 <= (w as int) * (h as int), b >= 1;
            assert(b * gi + b == b as int * gi + b as int);
        }
    }
    let i = y as usize * w as usize + x as usize;
    match format {
        PixelFormat::Rgb24 => {
            let b = 3 * i;
            (bytes[b], bytes[b + 1], bytes[b + 2])
        },
        PixelFormat::Bgr24 => {
            let b = 3 * i;
            (bytes[b + 2], bytes[b + 1], bytes[b])
        },
        PixelFormat::Rgb565 => {
            let b = 2 * i;
            let v: u32 = bytes[b] as u32 + 256 * bytes[b + 1] as u32;
            ((v / 2048 % 32 * 255 / 31) as u8, (v / 32 % 64 * 255 / 63) as u8, (v % 32 * 255 / 31) as u8)
        },
        PixelFormat::Rgb555 => {
            let b = 2 * i;
            let v: u32 = bytes[b] as u32 + 256 * bytes[b + 1] as u32;
            ((v / 1024 % 32 * 255 / 31) as u8, (v / 32 % 32 * 255 / 31) as u8, (v % 32 * 255 / 31) as u8)
        },
        PixelFormat::Gray8 => {
            let l = bytes[i];
            (l, l, l)
        },
        PixelFormat::Gray16 => {
            let b = 2 * i;
            let v: u32 = bytes[b] as u32 + 256 * bytes[b + 1] as u32;
            let l = (v * 255 / 65535) as u8;
            (l, l, l)
        },
        PixelFormat::I420 => {
            let wu = w as usize;
            let hu = h as usize;
            let cw = wu / 2 + wu % 2;
            let ch = hu / 2 + hu % 2;
            proof {
                lemma_index_in_frame((x / 2) as int, (y / 2) as int, cw as int, ch as int);
                assert(cw == half_up(w as int) && ch == half_up(h as int));
                assert(0 <= (cw as int) * (ch as int)) by (nonlinear_arith)
                    requires cw >= 0, ch >= 0;
            }
            let y_len = wu * hu;
            let chroma_len = cw * ch;
            let c = (y as usize / 2) * cw + x as usize / 2;
            let luma = bytes[i] as i64;
            let cb = bytes[y_len + c] as i64;
            let cr = bytes[y_len + chroma_len + c] as i64;
            let base = 1164 * (luma - 16);
            (
                bt601(base + 1596 * (cr - 128)),
                bt601(base - 391 * (cb - 128) - 813 * (cr - 128)),
                bt601(base + 2018 * (cb - 128)),
            )
        },
        _ => (0, 0, 0),
    }
}

fn bt601(k: i64) -> (c: u8)
    ensures
        c == bt601_channel(k as int),
{
    if k < 0 {
        0
    } else if k >= 255000 {
        255
    } else {
        (k / 1000) as u8
    }
}

/// CPU mirror of the unpack pass: expands `rect` of the source framebuffer into tightly packed
/// RGBA8 (alpha 255), row-major, in `out`. Used on adapters without compute shaders.
///
/// I420 uses BT.601 limited-range conversion with the coefficients 1.164, 1.596, 0.391, 0.813
/// and 2.018, evaluated exactly (in thousandths) and truncated to `0..=255`. A pass that
/// evaluates the same formula in `f32` (such as the GPU unpack shader) rounds differently on a
/// few inputs that land on a channel boundary: there its result is at most one unit below or
/// above this one on that channel (for example Y = 14, Cb = 128, Cr = 246 gives red 186 here
/// and 185 in `f32`).
///
/// Direct formats have nothing to expand; they are accepted only for an empty rect.
pub fn expand_rect_to_rgba(
    bytes: &[u8],
    format: PixelFormat,
    src_width: u32,
    src_height: u32,
    rect: Rect,
    out: &mut Vec<u8>,
)
    requires
        !format.is_direct() || rect.width * rect.height == 0,
        rect.spec_within(src_width as int, src_height as int),
        bytes@.len() >= format.spec_frame_len(src_width as int, src_height as int),
        format.spec_frame_len(src_width as int, src_height as int) <= usize::MAX,
        rect.width * rect.height * 4 <= usize::MAX,
    ensures
        final(out)@ == spec_expanded(bytes@, format, src_width as int, src_height as int, rect),
{
    let ghost spec = spec_expanded(bytes@, format, src_width as int, src_height as int, rect);
    proof {
        reveal(spec_expanded);
        assert(0 <= (rect.width as int) * (rect.height as int)) by (nonlinear_arith)
            requires rect.width >= 0, rect.height >= 0;
    }
    let npix = rect.width as usize * rect.height as usize;
    let n = npix * 4;
    out.clear();
    let mut fill: usize = 0;
    while fill < n
        invariant
            fill <= n,
            out@.len() == fill,
            forall|k: int| 0 <= k < fill ==> out@[k] == 255u8,
        decreases n - fill,
    {
        out.push(255u8);
        fill += 1;
    }
    let rw = rect.width as usize;
    let mut p: usize = 0;
    while p < npix
        invariant
            npix == (rect.width as int) * (rect.height as int),
            n == 4 * npix,
            rw == rect.width,
            p <= npix,
            out@.len() == n,
            spec.len() == n,
            !format.is_direct() || npix == 0,
            rect.spec_within(src_width as int, src_height as int),
            bytes@.len() >= format.spec_frame_len(src_width as int, src_height as int),
            format.spec_frame_len(src_width as int, src_height as int) <= usize::MAX,
            spec == spec_expanded(bytes@, format, src_width as int, src_height as int, rect),
            forall|k: int| 0 <= k < 4 * p ==> out@[k] == spec[k],
            forall|k: int| 4 * p <= k < n ==> out@[k] == 255u8,
        decreases npix - p,
    {
        proof {
            assert(rw > 0) by (nonlinear_arith)
                requires p < npix, npix == (rect.width as int) * (rect.height as int), rw == rect.width;
            assert((p as int) / (rw as int) < rect.height) by (nonlinear_arith)
                requires p < npix, npix == (rw as int) * (rect.height as int), rw > 0;
        }
        let dx = p % rw;
        let dy = p / rw;
        let x = rect.x + dx as u32;
        let y = rect.y + dy as u32;
        let rgb = pixel_rgb(bytes, format, src_width, src_height, x, y);
        let o = 4 * p;
        out.set(o, rgb.0);
        out.set(o + 1, rgb.1);
        out.set(o + 2, rgb.2);
        proof {
            let ghost (gw, gh) = (src_width as int, src_height as int);
            let pp = p as int;
            assert((4 * pp) / 4 == pp && (4 * pp + 1) / 4 == pp && (4 * pp + 2) / 4 == pp && (4 * pp + 3) / 4 == pp);
            assert((4 * pp) % 4 == 0 && (4 * pp + 1) % 4 == 1 && (4 * pp + 2) % 4 == 2 && (4 * pp + 3) % 4 == 3);
            lemma_expanded_at(bytes@, format, gw, gh, rect, 4 * pp);
            lemma_expanded_at(bytes@, format, gw, gh, rect, 4 * pp + 1);
            lemma_expanded_at(bytes@, format, gw, gh, rect, 4 * pp + 2);
            lemma_expanded_at(bytes@, format, gw, gh, rect, 4 * pp + 3);
            assert forall|k: int| 0 <= k < 4 * (p + 1) implies out@[k] == spec[k] by {
                if k >= 4 * p {
                    assert(k == 4 * pp || k == 4 * pp + 1 || k == 4 * pp + 2 || k == 4 * pp + 3);
                }
            }
        }
        p += 1;
    }
    proof {
        assert(out@ =~= spec);
    }
}

/// The CPU expansion of a whole-byte interleaved packed format reads R, G and B from the bytes
/// where the format stores them.
pub proof fn lemma_expand_reads_channel_offsets(bytes: Seq<u8>, f: PixelFormat, w: int, h: int, x: int, y: int)
    requires
        f is Rgb24 || f is Bgr24,
    ensures
        ({
            let o = f.channel_offsets().unwrap();
            let p = 3 * (y * w + x);
            let e = expand_pixel(bytes, f, w, h, x, y);
            e[0] == bytes[p + o.0] && e[1] == bytes[p + o.1] && e[2] == bytes[p + o.2]
        }),
{
}

} // verus!
