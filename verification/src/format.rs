use vstd::prelude::*;

verus! {

/// Pixel format of the source framebuffer, as produced by the caller's decoder.
///
/// Three implementation classes, invisible to the caller:
///
/// - **Direct** formats have a matching GPU texture format; dirty rects are uploaded straight
///   into the persistent texture.
/// - **Packed** formats (interleaved, 1-3 bytes/pixel) have no GPU texture equivalent; dirty
///   rects are uploaded raw into a storage buffer and unpacked into an `rgba8unorm` texture
///   (or expanded on the CPU when the adapter lacks compute shaders).
/// - **Planar** (I420): three planes in one storage buffer, color-converted when unpacked.
#[derive(Clone, Copy, Debug, PartialEq, Eq, Structural, Hash)]
pub enum PixelFormat {
    /// 4 bytes/pixel, `R G B A` byte order. Direct.
    Rgba8,
    /// 4 bytes/pixel, `B G R A` byte order. Direct.
    Bgra8,
    /// 4 bytes/pixel, `R G B X` byte order; X is ignored and alpha is forced to 1.
    Rgbx8,
    /// 4 bytes/pixel, `B G R X` byte order; X is ignored and alpha is forced to 1.
    Bgrx8,
    /// 3 bytes/pixel, `R G B` byte order. Packed.
    Rgb24,
    /// 3 bytes/pixel, `B G R` byte order. Packed.
    Bgr24,
    /// 2 bytes/pixel, little-endian 5-6-5. Packed.
    Rgb565,
    /// 2 bytes/pixel, little-endian 1-5-5-5 (top bit ignored). Packed.
    Rgb555,
    /// 1 byte/pixel grayscale, broadcast to RGB. Packed.
    Gray8,
    /// 2 bytes/pixel little-endian grayscale, normalized by 65535. Packed.
    Gray16,
    /// Planar YUV 4:2:0 (Y plane, then U, then V, each tightly packed; chroma planes are
    /// `ceil(w/2) x ceil(h/2)`). Dirty rects are expanded outward to even coordinates.
    I420,
}

/// How a non-direct format is laid out and decoded by the unpack pass.
#[derive(Clone, Copy, Debug, PartialEq, Eq, Structural)]
pub enum PackedKind {
    /// One interleaved sample of `bytes_per_pixel` bytes per pixel.
    Interleaved { bytes_per_pixel: u32 },
    /// I420 three-plane layout.
    Planar420,
}

/// `ceil(v / 2)`.
pub open spec fn half_up(v: int) -> int {
    (v + 1) / 2
}

impl PixelFormat {
    /// The four formats with a matching GPU texture format.
    pub open spec fn is_direct(self) -> bool {
        self is Rgba8 || self is Bgra8 || self is Rgbx8 || self is Bgrx8
    }

    pub open spec fn spec_bytes_per_pixel(self) -> Option<nat> {
        match self {
            PixelFormat::Rgba8 | PixelFormat::Bgra8 | PixelFormat::Rgbx8 | PixelFormat::Bgrx8 => Some(4),
            PixelFormat::Rgb24 | PixelFormat::Bgr24 => Some(3),
            PixelFormat::Rgb565 | PixelFormat::Rgb555 | PixelFormat::Gray16 => Some(2),
            PixelFormat::Gray8 => Some(1),
            PixelFormat::I420 => None,
        }
    }

    /// Total framebuffer byte length of a `width` x `height` source.
    pub open spec fn spec_frame_len(self, width: int, height: int) -> int {
        match self.spec_bytes_per_pixel() {
            Some(bpp) => width * height * bpp,
            None => width * height + 2 * (half_up(width) * half_up(height)),
        }
    }

    /// Byte offsets of R, G and B within one pixel, for the formats that store them as whole
    /// bytes (`R G B` order or `B G R` order, as each variant documents).
    pub open spec fn channel_offsets(self) -> Option<(int, int, int)> {
        match self {
            PixelFormat::Rgba8 | PixelFormat::Rgbx8 | PixelFormat::Rgb24 => Some((0, 1, 2)),
            PixelFormat::Bgra8 | PixelFormat::Bgrx8 | PixelFormat::Bgr24 => Some((2, 1, 0)),
            _ => None,
        }
    }

    /// The variant's name.
    pub open spec fn name(self) -> Seq<char> {
        match self {
            PixelFormat::Rgba8 => "Rgba8"@,
            PixelFormat::Bgra8 => "Bgra8"@,
            PixelFormat::Rgbx8 => "Rgbx8"@,
            PixelFormat::Bgrx8 => "Bgrx8"@,
            PixelFormat::Rgb24 => "Rgb24"@,
            PixelFormat::Bgr24 => "Bgr24"@,
            PixelFormat::Rgb565 => "Rgb565"@,
            PixelFormat::Rgb555 => "Rgb555"@,
            PixelFormat::Gray8 => "Gray8"@,
            PixelFormat::Gray16 => "Gray16"@,
            PixelFormat::I420 => "I420"@,
        }
    }

    pub open spec fn spec_packed_kind(self) -> Option<PackedKind> {
        if self.is_direct() {
            None
        } else if self is I420 {
            Some(PackedKind::Planar420)
        } else {
            Some(PackedKind::Interleaved { bytes_per_pixel: self.spec_bytes_per_pixel().unwrap() as u32 })
        }
    }

    pub open spec fn spec_shader_id(self) -> u32 {
        match self {
            PixelFormat::Rgb24 => 0,
            PixelFormat::Bgr24 => 1,
            PixelFormat::Rgb565 => 2,
            PixelFormat::Rgb555 => 3,
            PixelFormat::Gray8 => 4,
            PixelFormat::Gray16 => 5,
            PixelFormat::I420 => 6,
            _ => u32::MAX,
        }
    }

    /// Bytes per pixel for interleaved formats (`None` for planar I420, which has no single
    /// per-pixel byte count). Rows of interleaved formats are always tightly packed
    /// (`stride == width * bytes_per_pixel`).
    pub fn bytes_per_pixel(self) -> (r: Option<usize>)
        ensures
            r matches Some(b) ==> self.spec_bytes_per_pixel() == Some(b as nat),
            r is None <==> self.spec_bytes_per_pixel() is None,
    {
        match self {
            PixelFormat::Rgba8 | PixelFormat::Bgra8 | PixelFormat::Rgbx8 | PixelFormat::Bgrx8 => Some(4),
            PixelFormat::Rgb24 | PixelFormat::Bgr24 => Some(3),
            PixelFormat::Rgb565 | PixelFormat::Rgb555 | PixelFormat::Gray16 => Some(2),
            PixelFormat::Gray8 => Some(1),
            PixelFormat::I420 => None,
        }
    }

    /// Total framebuffer byte length for a `width` x `height` source.
    pub fn frame_len(self, width: u32, height: u32) -> (len: usize)
        requires
            self.spec_frame_len(width as int, height as int) <= usize::MAX,
        ensures
            len == self.spec_frame_len(width as int, height as int),
    {
        let w = width as usize;
        let h = height as usize;
        match self.bytes_per_pixel() {
            None => {
                let cw = w / 2 + w % 2;
                let ch = h / 2 + h % 2;
                proof {
                    assert(cw == half_up(w as int));
                    assert(ch == half_up(h as int));
                    assert(0 <= (w as int) * (h as int)) by (nonlinear_arith);
                    assert(0 <= (cw as int) * (ch as int)) by (nonlinear_arith);
                }
                let chroma = cw * ch;
                w * h + 2 * chroma
            },
            Some(bpp) => {
                proof {
                    assert((w as int) * (h as int) <= (w as int) * (h as int) * (bpp as int))
                        by (nonlinear_arith)
                        requires bpp >= 1, w >= 0, h >= 0;
                }
                w * h * bpp
            },
        }
    }

    /// Whether the alpha channel of the source is meaningless and must be forced to 1.
    pub fn force_opaque(self) -> (r: bool)
        ensures
            r <==> !(self is Rgba8 || self is Bgra8),
    {
        !matches!(self, PixelFormat::Rgba8 | PixelFormat::Bgra8)
    }

    /// `Some` for formats that go through the storage-buffer + unpack path.
    pub fn packed_kind(self) -> (r: Option<PackedKind>)
        ensures
            r == self.spec_packed_kind(),
    {
        match self {
            PixelFormat::Rgba8 | PixelFormat::Bgra8 | PixelFormat::Rgbx8 | PixelFormat::Bgrx8 => None,
            PixelFormat::Rgb24 | PixelFormat::Bgr24 => Some(PackedKind::Interleaved { bytes_per_pixel: 3 }),
            PixelFormat::Rgb565 | PixelFormat::Rgb555 | PixelFormat::Gray16 => {
                Some(PackedKind::Interleaved { bytes_per_pixel: 2 })
            },
            PixelFormat::Gray8 => Some(PackedKind::Interleaved { bytes_per_pixel: 1 }),
            PixelFormat::I420 => Some(PackedKind::Planar420),
        }
    }

    /// Format discriminant used by the unpack pass (and the CPU-expand fallback);
    /// `u32::MAX` for direct formats.
    pub fn shader_id(self) -> (id: u32)
        ensures
            id == self.spec_shader_id(),
    {
        match self {
            PixelFormat::Rgb24 => 0,
            PixelFormat::Bgr24 => 1,
            PixelFormat::Rgb565 => 2,
            PixelFormat::Rgb555 => 3,
            PixelFormat::Gray8 => 4,
            PixelFormat::Gray16 => 5,
            PixelFormat::I420 => 6,
            _ => u32::MAX,
        }
    }
}

/// The format classes agree: a format has a per-pixel byte count exactly when it is not
/// planar; it skips the unpack path exactly when it is direct; an interleaved packed format
/// unpacks samples of its own pixel size; and only packed formats have an unpack-pass id.
pub proof fn lemma_format_classes(f: PixelFormat)
    ensures
        f.spec_bytes_per_pixel() is None <==> f is I420,
        f.spec_packed_kind() is None <==> f.is_direct(),
        f.spec_packed_kind() matches Some(PackedKind::Interleaved { bytes_per_pixel })
            ==> f.spec_bytes_per_pixel() == Some(bytes_per_pixel as nat),
        f.spec_packed_kind() == Some(PackedKind::Planar420) <==> f is I420,
        f.is_direct() <==> f.spec_shader_id() == u32::MAX,
        f.is_direct() ==> f.spec_bytes_per_pixel() == Some(4nat),
{
}

/// An interleaved frame is exactly `width * height * bytes_per_pixel` bytes, and an I420
/// frame is its luma plane plus two chroma planes of `ceil(w/2) * ceil(h/2)` bytes; for even
/// dimensions that is one and a half bytes per pixel.
pub proof fn lemma_frame_len_i420_even(w: int, h: int)
    requires
        w >= 0,
        h >= 0,
        w % 2 == 0,
        h % 2 == 0,
    ensures
        2 * PixelFormat::I420.spec_frame_len(w, h) == 3 * (w * h),
{
    let a = w / 2;
    let b = h / 2;
    assert(half_up(w) == a);
    assert(half_up(h) == b);
    assert(w * h == 4 * (a * b)) by (nonlinear_arith)
        requires w == 2 * a, h == 2 * b;
}

} // verus!
