//! The presentation engine's state and decisions: source layout, target and overlay
//! geometry, redraw bookkeeping, surface-texture acquisition, and the per-present upload plan.
//! The caller owns the GPU objects and carries out what these functions decide.
use vstd::prelude::*;

use crate::error::Error;
use crate::format::{half_up, PixelFormat};
use crate::rect::Rect;
use crate::scaling::ScalingMode;
use crate::upload::{pad4, spec_pad4};
use crate::SurfaceDescriptor;

verus! {

/// No machine addresses a framebuffer this large (32 PiB); the bound keeps every storage-buffer
/// offset computed while planning uploads inside `u64`.
pub const MAX_FRAME_BYTES: u64 = 0x0080_0000_0000_0000;

/// Upper bound of the packed storage buffer's capacity (it grows by at most one and a half
/// times what one present needs).
pub const MAX_CAPACITY: u64 = 0x8000_0000_0000_0000;

/// Texture format of the persistent source texture.
#[derive(Clone, Copy, Debug, PartialEq, Eq, Structural)]
pub enum TextureFormat {
    Rgba8Unorm,
    Bgra8Unorm,
}

/// How source pixels reach the persistent texture.
#[derive(Clone, Copy, Debug, PartialEq, Eq, Structural)]
pub enum SourceLayout {
    /// Texture writes: the format's own texture format, or `rgba8unorm` fed by CPU-expanded
    /// rects when a packed format meets an adapter without compute shaders.
    Direct { cpu_expand: bool },
    /// Storage buffer plus unpack pass; `capacity` is the buffer size in bytes. The frame
    /// occupies its first `pad4(frame_len)` bytes, gathered rects the tail.
    Packed { capacity: u64 },
}

/// A cursor (or other small overlay) composited over the source.
#[derive(Clone, Copy, Debug, PartialEq, Eq, Structural)]
pub struct Overlay {
    pub width: u32,
    pub height: u32,
    pub x: i32,
    pub y: i32,
}

/// The outcome of asking the surface for its current texture.
#[derive(Clone, Copy, Debug, PartialEq, Eq, Structural)]
pub enum SurfaceStatus {
    Success,
    Suboptimal,
    Timeout,
    Occluded,
    Outdated,
    Lost,
    Validation,
}

/// What to do after a texture request.
#[derive(Debug)]
pub enum AcquireStep {
    /// Present into the texture obtained.
    Use,
    /// No frame this time (occluded window, timeout); blit again on a later present.
    Skip,
    /// Reconfigure the surface and ask once more.
    Reconfigure,
    /// Give up with this error.
    Fail(Error),
}

pub open spec fn max1(v: u32) -> u32 {
    if v == 0 { 1 } else { v }
}

pub open spec fn frame_ok(format: PixelFormat, width: u32, height: u32) -> bool {
    let len = format.spec_frame_len(width as int, height as int);
    len <= MAX_FRAME_BYTES && len + 3 <= usize::MAX
}

/// The swapchain format among those the surface offers (`srgb[i]` tells whether format `i` is
/// sRGB): the first that is not sRGB, since pixels arrive already sRGB-encoded and must pass
/// through untouched; the first one when all are.
pub fn choose_surface_format(srgb: &[bool]) -> (i: usize)
    requires
        srgb@.len() > 0,
    ensures
        i < srgb@.len(),
        (!srgb@[i as int] && forall|j: int| 0 <= j < i ==> srgb@[j]) || (i == 0 && forall|j: int|
            0 <= j < srgb@.len() ==> srgb@[j]),
{
    let mut i: usize = 0;
    while i < srgb.len()
        invariant
            i <= srgb@.len(),
            forall|j: int| 0 <= j < i ==> srgb@[j],
        decreases srgb@.len() - i,
    {
        if !srgb[i] {
            return i;
        }
        i += 1;
    }
    0
}

/// The swapchain alpha mode among those the surface offers (`opaque[i]` tells whether mode `i`
/// is opaque): an opaque one when offered (the first), otherwise the first.
pub fn choose_alpha_mode(opaque: &[bool]) -> (i: usize)
    requires
        opaque@.len() > 0,
    ensures
        i < opaque@.len(),
        (opaque@[i as int] && forall|j: int| 0 <= j < i ==> !opaque@[j]) || (i == 0 && forall|j: int|
            0 <= j < opaque@.len() ==> !opaque@[j]),
{
    let mut i: usize = 0;
    while i < opaque.len()
        invariant
            i <= opaque@.len(),
            forall|j: int| 0 <= j < i ==> !opaque@[j],
        decreases opaque@.len() - i,
    {
        if opaque[i] {
            return i;
        }
        i += 1;
    }
    0
}

/// Whether a `width` x `height` frame of `format` fits this machine ([`frame_ok`]).
pub fn frame_fits(format: PixelFormat, width: u32, height: u32) -> (b: bool)
    ensures
        b == frame_ok(format, width, height),
{
    let w = width as u128;
    let h = height as u128;
    proof {
        assert(w * h <= 0xffff_ffffu128 * 0xffff_ffffu128) by (nonlinear_arith)
            requires w <= 0xffff_ffffu128, h <= 0xffff_ffffu128;
    }
    let len: u128 = match format.bytes_per_pixel() {
        Some(bpp) => {
            proof {
                assert(bpp <= 4) by {
                    crate::format::lemma_format_classes(format);
                }
                assert(w * h * (bpp as u128) <= 4 * (0xffff_ffffu128 * 0xffff_ffffu128)) by (nonlinear_arith)
                    requires w * h <= 0xffff_ffffu128 * 0xffff_ffffu128, bpp <= 4;
            }
            w * h * bpp as u128
        },
        None => {
            let cw = (w + 1) / 2;
            let ch = (h + 1) / 2;
            proof {
                assert(cw * ch <= 0x8000_0000u128 * 0x8000_0000u128) by (nonlinear_arith)
                    requires cw <= 0x8000_0000u128, ch <= 0x8000_0000u128;
                assert(cw == half_up(width as int) && ch == half_up(height as int));
            }
            w * h + 2 * (cw * ch)
        },
    };
    len <= MAX_FRAME_BYTES as u128 && len + 3 <= usize::MAX as u128
}

/// The layout a freshly created source gets.
pub open spec fn spec_layout(format: PixelFormat, width: u32, height: u32, compute: bool) -> SourceLayout {
    if format.spec_packed_kind() is Some && compute {
        SourceLayout::Packed {
            capacity: spec_pad4(format.spec_frame_len(width as int, height as int)) as u64,
        }
    } else {
        SourceLayout::Direct { cpu_expand: format.spec_packed_kind() is Some }
    }
}

pub open spec fn spec_texture_format(format: PixelFormat, layout: SourceLayout) -> TextureFormat {
    match layout {
        SourceLayout::Direct { cpu_expand: false } => if format is Bgra8 || format is Bgrx8 {
            TextureFormat::Bgra8Unorm
        } else {
            TextureFormat::Rgba8Unorm
        },
        _ => TextureFormat::Rgba8Unorm,
    }
}

/// The plain-value state of a presentation surface.
#[derive(Debug)]
pub struct GpuState {
    pub source_width: u32,
    pub source_height: u32,
    pub target_width: u32,
    pub target_height: u32,
    pub format: PixelFormat,
    pub scaling: ScalingMode,
    /// Adapters without compute shaders expand packed formats on the CPU.
    pub compute_available: bool,
    pub source: SourceLayout,
    pub overlay: Option<Overlay>,
    /// The blit/overlay parameters must be rewritten before the next draw.
    pub params_dirty: bool,
    /// The presentation must be redrawn even if no source bytes changed.
    pub needs_redraw: bool,
}

pub proof fn lemma_pad4_bounds(v: int)
    requires
        v >= 0,
    ensures
        v <= spec_pad4(v) < v + 4,
        spec_pad4(v) % 4 == 0,
{
}

fn fresh_layout(format: PixelFormat, width: u32, height: u32, compute: bool) -> (l: SourceLayout)
    requires
        frame_ok(format, width, height),
    ensures
        l == spec_layout(format, width, height, compute),
{
    match format.packed_kind() {
        Some(_) => {
            if compute {
                let len = format.frame_len(width, height) as u64;
                SourceLayout::Packed { capacity: pad4(len) }
            } else {
                SourceLayout::Direct { cpu_expand: true }
            }
        },
        None => SourceLayout::Direct { cpu_expand: false },
    }
}

impl GpuState {
    /// Well-formedness: positive sizes, a frame that fits the machine, and a source layout
    /// that matches the format and adapter (the packed buffer may have grown).
    pub open spec fn wf(&self) -> bool {
        &&& self.source_width >= 1 && self.source_height >= 1
        &&& self.target_width >= 1 && self.target_height >= 1
        &&& frame_ok(self.format, self.source_width, self.source_height)
        &&& match (
            spec_layout(self.format, self.source_width, self.source_height, self.compute_available),
            self.source,
        ) {
            (SourceLayout::Packed { capacity: fresh }, SourceLayout::Packed { capacity }) => fresh
                <= capacity <= MAX_CAPACITY,
            (SourceLayout::Direct { cpu_expand: a }, SourceLayout::Direct { cpu_expand: b }) => a
                == b,
            _ => false,
        }
    }

    pub open spec fn spec_frame_len(&self) -> int {
        self.format.spec_frame_len(self.source_width as int, self.source_height as int)
    }

    /// The state right after (re)creating the source at the current size and format.
    pub open spec fn recreated(self, old: GpuState) -> bool {
        &&& self.source == spec_layout(
            self.format,
            self.source_width,
            self.source_height,
            self.compute_available,
        )
        &&& self.params_dirty && self.needs_redraw
        &&& self.target_width == old.target_width && self.target_height == old.target_height
        &&& self.scaling == old.scaling && self.compute_available == old.compute_available
        &&& self.overlay == old.overlay
    }

    pub fn new(target_size: (u32, u32), desc: &SurfaceDescriptor, compute_available: bool) -> (s: Self)
        requires
            frame_ok(desc.format, max1(desc.source_size.0), max1(desc.source_size.1)),
        ensures
            s.wf(),
            s.source_width == max1(desc.source_size.0),
            s.source_height == max1(desc.source_size.1),
            s.target_width == max1(target_size.0),
            s.target_height == max1(target_size.1),
            s.format == desc.format,
            s.scaling == desc.scaling,
            s.compute_available == compute_available,
            s.source == spec_layout(desc.format, s.source_width, s.source_height, compute_available),
            s.overlay is None,
            s.params_dirty && s.needs_redraw,
    {
        let sw = if desc.source_size.0 == 0 { 1 } else { desc.source_size.0 };
        let sh = if desc.source_size.1 == 0 { 1 } else { desc.source_size.1 };
        let tw = if target_size.0 == 0 { 1 } else { target_size.0 };
        let th = if target_size.1 == 0 { 1 } else { target_size.1 };
        let source = fresh_layout(desc.format, sw, sh, compute_available);
        proof {
            if let SourceLayout::Packed { capacity } = source {
                lemma_pad4_bounds(desc.format.spec_frame_len(sw as int, sh as int));
            }
        }
        GpuState {
            source_width: sw,
            source_height: sh,
            target_width: tw,
            target_height: th,
            format: desc.format,
            scaling: desc.scaling,
            compute_available,
            source,
            overlay: None,
            params_dirty: true,
            needs_redraw: true,
        }
    }

    /// Source framebuffer size in pixels.
    pub fn source_size(&self) -> (r: (u32, u32))
        ensures
            r == (self.source_width, self.source_height),
    {
        (self.source_width, self.source_height)
    }

    /// Presentation size in physical pixels.
    pub fn target_size(&self) -> (r: (u32, u32))
        ensures
            r == (self.target_width, self.target_height),
    {
        (self.target_width, self.target_height)
    }

    pub fn format(&self) -> (f: PixelFormat)
        ensures
            f == self.format,
    {
        self.format
    }

    pub fn scaling(&self) -> (s: ScalingMode)
        ensures
            s == self.scaling,
    {
        self.scaling
    }

    /// The persistent source texture's format.
    pub fn texture_format(&self) -> (t: TextureFormat)
        ensures
            t == spec_texture_format(self.format, self.source),
    {
        match self.source {
            SourceLayout::Direct { cpu_expand: false } => match self.format {
                PixelFormat::Bgra8 | PixelFormat::Bgrx8 => TextureFormat::Bgra8Unorm,
                _ => TextureFormat::Rgba8Unorm,
            },
            _ => TextureFormat::Rgba8Unorm,
        }
    }

    fn recreate_source(&mut self)
        requires
            frame_ok(old(self).format, old(self).source_width, old(self).source_height),
            old(self).source_width >= 1 && old(self).source_height >= 1,
            old(self).target_width >= 1 && old(self).target_height >= 1,
        ensures
            final(self).wf(),
            final(self).recreated(*old(self)),
            final(self).format == old(self).format,
            final(self).source_width == old(self).source_width,
            final(self).source_height == old(self).source_height,
    {
        self.source = fresh_layout(self.format, self.source_width, self.source_height, self.compute_available);
        proof {
            lemma_pad4_bounds(self.spec_frame_len());
        }
        self.params_dirty = true;
        self.needs_redraw = true;
    }

    /// Resizes the source framebuffer (zero counts as 1); the source is recreated.
    pub fn resize_source(&mut self, width: u32, height: u32)
        requires
            old(self).wf(),
            frame_ok(old(self).format, max1(width), max1(height)),
        ensures
            final(self).wf(),
            final(self).source_width == max1(width),
            final(self).source_height == max1(height),
            final(self).format == old(self).format,
            final(self).recreated(*old(self)),
    {
        self.source_width = if width == 0 { 1 } else { width };
        self.source_height = if height == 0 { 1 } else { height };
        self.recreate_source();
    }

    /// Switches the source pixel format; returns whether anything changed (the source is then
    /// recreated).
    pub fn set_format(&mut self, format: PixelFormat) -> (changed: bool)
        requires
            old(self).wf(),
            frame_ok(format, old(self).source_width, old(self).source_height),
        ensures
            final(self).wf(),
            changed == (format != old(self).format),
            !changed ==> *final(self) == *old(self),
            changed ==> final(self).format == format,
            changed ==> final(self).source_width == old(self).source_width,
            changed ==> final(self).source_height == old(self).source_height,
            changed ==> final(self).recreated(*old(self)),
    {
        if format == self.format {
            return false;
        }
        self.format = format;
        self.recreate_source();
        true
    }

    /// Resizes the presentation (zero counts as 1); parameters and the frame must be redone.
    pub fn resize_target(&mut self, width: u32, height: u32)
        requires
            old(self).wf(),
        ensures
            final(self).wf(),
            *final(self) == (GpuState {
                target_width: max1(width),
                target_height: max1(height),
                params_dirty: true,
                needs_redraw: true,
                ..*old(self)
            }),
    {
        self.target_width = if width == 0 { 1 } else { width };
        self.target_height = if height == 0 { 1 } else { height };
        self.params_dirty = true;
        self.needs_redraw = true;
    }

    /// Forces the next present to redraw even with no dirty regions.
    pub fn request_redraw(&mut self)
        requires
            old(self).wf(),
        ensures
            final(self).wf(),
            *final(self) == (GpuState { needs_redraw: true, ..*old(self) }),
    {
        self.needs_redraw = true;
    }

    /// Changes the scaling mode; returns whether the sampling filter changed (the source's
    /// binding must then be rebuilt). Setting the current mode changes nothing.
    pub fn set_scaling(&mut self, scaling: ScalingMode) -> (filter_changed: bool)
        requires
            old(self).wf(),
        ensures
            final(self).wf(),
            scaling == old(self).scaling ==> *final(self) == *old(self) && !filter_changed,
            scaling != old(self).scaling ==> *final(self) == (GpuState {
                scaling,
                params_dirty: true,
                needs_redraw: true,
                ..*old(self)
            }),
            scaling != old(self).scaling ==> filter_changed == (scaling.spec_filter_linear()
                != old(self).scaling.spec_filter_linear()),
    {
        if scaling == self.scaling {
            return false;
        }
        let filter_changed = scaling.filter_linear() != self.scaling.filter_linear();
        self.scaling = scaling;
        self.params_dirty = true;
        self.needs_redraw = true;
        filter_changed
    }

    /// Installs (`Some((width, height))`) or clears the overlay; a replaced overlay keeps its
    /// position, a new one starts at the origin.
    pub fn set_overlay(&mut self, image_size: Option<(u32, u32)>)
        requires
            old(self).wf(),
        ensures
            final(self).wf(),
            *final(self) == (GpuState {
                overlay: match image_size {
                    None => None,
                    Some((w, h)) => Some(
                        match old(self).overlay {
                            Some(o) => Overlay { width: w, height: h, x: o.x, y: o.y },
                            None => Overlay { width: w, height: h, x: 0, y: 0 },
                        },
                    ),
                },
                params_dirty: true,
                needs_redraw: true,
                ..*old(self)
            }),
    {
        match image_size {
            None => {
                self.overlay = None;
            },
            Some((width, height)) => {
                let (x, y) = match self.overlay {
                    Some(o) => (o.x, o.y),
                    None => (0, 0),
                };
                self.overlay = Some(Overlay { width, height, x, y });
            },
        }
        self.params_dirty = true;
        self.needs_redraw = true;
    }

    /// Moves the overlay's top-left corner to `(x, y)` (source pixels; may be negative or
    /// off-screen). Returns whether anything changed: nothing does without an overlay or when
    /// it is already there.
    pub fn set_overlay_position(&mut self, x: i32, y: i32) -> (moved: bool)
        requires
            old(self).wf(),
        ensures
            final(self).wf(),
            moved == (old(self).overlay matches Some(o) && (o.x != x || o.y != y)),
            !moved ==> *final(self) == *old(self),
            moved ==> *final(self) == (GpuState {
                overlay: Some(Overlay { x, y, ..old(self).overlay.unwrap() }),
                params_dirty: true,
                needs_redraw: true,
                ..*old(self)
            }),
    {
        match self.overlay {
            Some(o) => {
                if o.x == x && o.y == y {
                    return false;
                }
                self.overlay = Some(Overlay { x, y, ..o });
                self.params_dirty = true;
                self.needs_redraw = true;
                true
            },
            None => false,
        }
    }

    /// The extent of an external image of `size` copied into the source at `dst`, clipped to
    /// the source. Nothing to copy is an [`Error::InvalidRect`]; otherwise a redraw is
    /// scheduled.
    pub fn import_region(&mut self, dst: (u32, u32), size: (u32, u32)) -> (r: Result<(u32, u32), Error>)
        requires
            old(self).wf(),
        ensures
            final(self).wf(),
            ({
                let cw = crate::rect::min_int(
                    size.0 as int,
                    crate::rect::max_int(old(self).source_width - dst.0, 0),
                );
                let ch = crate::rect::min_int(
                    size.1 as int,
                    crate::rect::max_int(old(self).source_height - dst.1, 0),
                );
                &&& (cw == 0 || ch == 0) <==> r is Err
                &&& r matches Ok(e) ==> e.0 == cw && e.1 == ch && *final(self) == (GpuState {
                    needs_redraw: true,
                    ..*old(self)
                })
                &&& r matches Err(err) ==> *final(self) == *old(self) && err == (Error::InvalidRect {
                    rect: Rect { x: dst.0, y: dst.1, width: size.0, height: size.1 },
                    bounds: (old(self).source_width, old(self).source_height),
                })
            }),
    {
        let room_x = self.source_width.saturating_sub(dst.0);
        let room_y = self.source_height.saturating_sub(dst.1);
        let copy_width = if size.0 <= room_x { size.0 } else { room_x };
        let copy_height = if size.1 <= room_y { size.1 } else { room_y };
        if copy_width == 0 || copy_height == 0 {
            return Err(
                Error::InvalidRect {
                    rect: Rect::new(dst.0, dst.1, size.0, size.1),
                    bounds: (self.source_width, self.source_height),
                },
            );
        }
        self.needs_redraw = true;
        Ok((copy_width, copy_height))
    }

    /// Decides what follows a request for the surface's current texture; `retried` tells
    /// whether the surface was already reconfigured once in this present. A reconfiguration
    /// schedules a redraw.
    pub fn acquire_step(&mut self, status: SurfaceStatus, retried: bool) -> (step: AcquireStep)
        requires
            old(self).wf(),
        ensures
            final(self).wf(),
            match status {
                SurfaceStatus::Success | SurfaceStatus::Suboptimal => step is Use,
                SurfaceStatus::Timeout | SurfaceStatus::Occluded => step is Skip,
                SurfaceStatus::Lost | SurfaceStatus::Outdated => if retried {
                    step matches AcquireStep::Fail(Error::SurfaceLost)
                } else {
                    step is Reconfigure
                },
                SurfaceStatus::Validation => if retried {
                    step matches AcquireStep::Fail(Error::SurfaceLost)
                } else {
                    step matches AcquireStep::Fail(Error::Device { reason })
                        && reason@ == "validation error while acquiring the surface texture"@
                },
            },
            step is Reconfigure ==> *final(self) == (GpuState { needs_redraw: true, ..*old(self) }),
            !(step is Reconfigure) ==> *final(self) == *old(self),
    {
        match status {
            SurfaceStatus::Success | SurfaceStatus::Suboptimal => AcquireStep::Use,
            SurfaceStatus::Timeout | SurfaceStatus::Occluded => AcquireStep::Skip,
            SurfaceStatus::Lost | SurfaceStatus::Outdated => {
                if retried {
                    AcquireStep::Fail(Error::SurfaceLost)
                } else {
                    self.needs_redraw = true;
                    AcquireStep::Reconfigure
                }
            },
            SurfaceStatus::Validation => {
                if retried {
                    AcquireStep::Fail(Error::SurfaceLost)
                } else {
                    AcquireStep::Fail(
                        Error::Device {
                            reason: "validation error while acquiring the surface texture".to_owned(),
                        },
                    )
                }
            },
        }
    }

    /// Whether the blit parameters must be rewritten before this draw; they count as written
    /// afterwards.
    pub fn take_params_dirty(&mut self) -> (dirty: bool)
        requires
            old(self).wf(),
        ensures
            final(self).wf(),
            dirty == old(self).params_dirty,
            *final(self) == (GpuState { params_dirty: false, ..*old(self) }),
    {
        let dirty = self.params_dirty;
        self.params_dirty = false;
        dirty
    }

    /// Records the end of a present: a frame that was shown clears the pending redraw; a
    /// skipped frame (no texture available) keeps it, so only the blit is redone later.
    pub fn finish_present(&mut self, frame_shown: bool)
        requires
            old(self).wf(),
        ensures
            final(self).wf(),
            *final(self) == (GpuState { needs_redraw: !frame_shown, ..*old(self) }),
    {
        self.needs_redraw = !frame_shown;
    }
}

/// An exact rational `num / den` with a signed numerator (`den > 0`).
#[derive(Clone, Copy, Debug, PartialEq, Eq, Structural)]
pub struct Fraction {
    pub num: i128,
    pub den: u128,
}

/// Placement of the overlay quad in normalized device coordinates: half-extents and center.
#[derive(Clone, Copy, Debug, PartialEq, Eq, Structural)]
pub struct OverlayQuad {
    pub scale_x: Fraction,
    pub scale_y: Fraction,
    pub offset_x: Fraction,
    pub offset_y: Fraction,
}

pub open spec fn fraction_is(f: Fraction, num: int, den: int) -> bool {
    f.num == num && f.den == den
}

impl GpuState {
    /// Maps the overlay rect (source pixels) through the same source-to-NDC transform as the
    /// source quad, so the overlay lands exactly over the source pixels it covers: with the
    /// source quad's half-extents `(ex, ey)`, the overlay's half-extents are
    /// `ex * width / source_width` and `ey * height / source_height`, and its center is
    /// `ex * (2 * center_x / source_width - 1)`, `-ey * (2 * center_y / source_height - 1)`.
    pub fn overlay_quad(&self) -> (q: Option<OverlayQuad>)
        requires
            self.wf(),
        ensures
            self.overlay is None <==> q is None,
            ({
                let sw = self.source_width as int;
                let sh = self.source_height as int;
                let e = crate::scaling::spec_extent(
                    self.scaling,
                    sw,
                    sh,
                    self.target_width as int,
                    self.target_height as int,
                );
                q matches Some(quad) ==> {
                    let o = self.overlay.unwrap();
                    &&& fraction_is(quad.scale_x, e.0.0 * o.width, e.0.1 * sw)
                    &&& fraction_is(quad.scale_y, e.1.0 * o.height, e.1.1 * sh)
                    &&& fraction_is(quad.offset_x, e.0.0 * (2 * o.x + o.width - sw), e.0.1 * sw)
                    &&& fraction_is(quad.offset_y, e.1.0 * (sh - 2 * o.y - o.height), e.1.1 * sh)
                    &&& quad.scale_x.den > 0 && quad.scale_y.den > 0
                }
            }),
    {
        let o = match self.overlay {
            Some(o) => o,
            None => return None,
        };
        let (ex, ey) = self.scaling.ndc_extent(
            (self.source_width, self.source_height),
            (self.target_width, self.target_height),
        );
        let sw = self.source_width as u128;
        let sh = self.source_height as u128;
        let (xn, xd, yn, yd) = (ex.num as u128, ex.den as u128, ey.num as u128, ey.den as u128);
        proof {
            assert(xn * o.width <= 0xffff_ffff_ffff_ffffu128 * 0xffff_ffffu128) by (nonlinear_arith)
                requires xn <= 0xffff_ffff_ffff_ffffu128, o.width <= 0xffff_ffffu32;
            assert(yn * o.height <= 0xffff_ffff_ffff_ffffu128 * 0xffff_ffffu128) by (nonlinear_arith)
                requires yn <= 0xffff_ffff_ffff_ffffu128, o.height <= 0xffff_ffffu32;
            assert(xd * sw <= 0xffff_ffff_ffff_ffffu128 * 0xffff_ffffu128) by (nonlinear_arith)
                requires xd <= 0xffff_ffff_ffff_ffffu128, sw <= 0xffff_ffffu128;
            assert(yd * sh <= 0xffff_ffff_ffff_ffffu128 * 0xffff_ffffu128) by (nonlinear_arith)
                requires yd <= 0xffff_ffff_ffff_ffffu128, sh <= 0xffff_ffffu128;
            assert(xd * sw > 0 && yd * sh > 0) by (nonlinear_arith)
                requires xd > 0, yd > 0, sw >= 1, sh >= 1;
        }
        let dx = 2 * (o.x as i128) + o.width as i128 - sw as i128;
        let dy = sh as i128 - 2 * (o.y as i128) - o.height as i128;
        proof {
            assert(-0x4_0000_0000i128 <= dx <= 0x4_0000_0000i128);
            assert(-0x4_0000_0000i128 <= dy <= 0x4_0000_0000i128);
            assert(-0x4_0000_0000 * 0x1_0000_0000_0000_0000 <= (xn as i128) * dx
                <= 0x4_0000_0000 * 0x1_0000_0000_0000_0000) by (nonlinear_arith)
                requires 0 <= xn <= 0xffff_ffff_ffff_ffffu128, -0x4_0000_0000i128 <= dx <= 0x4_0000_0000i128;
            assert(-0x4_0000_0000 * 0x1_0000_0000_0000_0000 <= (yn as i128) * dy
                <= 0x4_0000_0000 * 0x1_0000_0000_0000_0000) by (nonlinear_arith)
                requires 0 <= yn <= 0xffff_ffff_ffff_ffffu128, -0x4_0000_0000i128 <= dy <= 0x4_0000_0000i128;
        }
        Some(OverlayQuad {
            scale_x: Fraction { num: (xn * o.width as u128) as i128, den: xd * sw },
            scale_y: Fraction { num: (yn * o.height as u128) as i128, den: yd * sh },
            offset_x: Fraction { num: xn as i128 * dx, den: xd * sw },
            offset_y: Fraction { num: yn as i128 * dy, den: yd * sh },
        })
    }
}

/// Byte offsets of R, G and B within one texel of a texture format.
pub open spec fn texel_offsets(t: TextureFormat) -> (int, int, int) {
    match t {
        TextureFormat::Rgba8Unorm => (0, 1, 2),
        TextureFormat::Bgra8Unorm => (2, 1, 0),
    }
}

/// On the direct path the source texture reads each channel from the byte where the pixel
/// format stores it: framebuffer bytes written straight into the texture keep their colours
/// (`B G R` formats get a `bgra8unorm` texture, `R G B` formats an `rgba8unorm` one). Every
/// other path writes `R G B A` texels into an `rgba8unorm` texture.
pub proof fn lemma_texture_keeps_channel_order(s: GpuState)
    requires
        s.wf(),
    ensures
        s.source == (SourceLayout::Direct { cpu_expand: false }) ==> s.format.channel_offsets()
            == Some(texel_offsets(spec_texture_format(s.format, s.source))),
        s.source != (SourceLayout::Direct { cpu_expand: false }) ==> texel_offsets(
            spec_texture_format(s.format, s.source),
        ) == (0int, 1int, 2int),
{
    crate::format::lemma_format_classes(s.format);
}

} // verus!
