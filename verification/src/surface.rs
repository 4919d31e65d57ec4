//! The surface's own framebuffer and dirty tracker, around the engine state.
use vstd::prelude::*;

use crate::error::Error;
use crate::format::PixelFormat;
use crate::gpu::{frame_ok, max1, GpuState};
use crate::plan::PresentPlan;
use crate::rect::{all_good, spec_coalesce, Rect};
use crate::scaling::ScalingMode;

verus! {

/// A presentation surface's plain-value state: the engine state, plus an optional
/// library-owned framebuffer and the dirty rects accumulated in it.
///
/// Two ingestion paths share the same persistent texture and upload machinery:
///
/// - **Borrowed**: the caller keeps its own framebuffer and presents it with the damaged
///   rects ([`SurfaceState::begin_present_external`]).
/// - **Owned**: the caller decodes into the framebuffer borrowed through
///   [`SurfaceState::frame_mut`], then presents it ([`SurfaceState::begin_present`]).
#[derive(Debug)]
pub struct SurfaceState {
    pub gpu: GpuState,
    pub framebuffer: Vec<u8>,
    pub dirty: Vec<Rect>,
}

/// Mutable borrow of the owned framebuffer plus its dirty tracker.
///
/// Under single buffering the borrow makes "decode while presenting" a compile error, which is
/// the honest expression of the constraint.
pub struct FrameMut<'a> {
    pub bytes: &'a mut [u8],
    pub dirty: &'a mut Vec<Rect>,
    pub width: u32,
    pub height: u32,
    pub row_bytes: usize,
}

impl<'a> FrameMut<'a> {
    /// The whole framebuffer in the surface's pixel format, row-major, tightly packed (I420:
    /// Y, U, V planes in order, each tightly packed).
    pub fn bytes_mut(&mut self) -> (b: &mut [u8])
        ensures
            b@ == old(self).bytes@,
            final(b)@ == final(self).bytes@,
            final(final(self).bytes)@ == final(old(self).bytes)@,
            final(self).dirty@ == old(self).dirty@,
            final(final(self).dirty)@ == final(old(self).dirty)@,
            final(self).width == old(self).width,
            final(self).height == old(self).height,
            final(self).row_bytes == old(self).row_bytes,
    {
        self.bytes
    }
}

impl<'a> FrameMut<'a> {
    /// Row stride in bytes (for I420, the luma plane stride: `width`).
    pub fn stride(&self) -> (s: usize)
        ensures
            s == self.row_bytes,
    {
        self.row_bytes
    }

    pub fn width(&self) -> (w: u32)
        ensures
            w == self.width,
    {
        self.width
    }

    pub fn height(&self) -> (h: u32)
        ensures
            h == self.height,
    {
        self.height
    }

    /// Accumulates a damaged rect, clipped to the framebuffer (a rect with nothing inside is
    /// dropped); coalescing happens at present time.
    pub fn mark_dirty(&mut self, rect: Rect)
        ensures
            final(self).dirty@ == match rect.spec_clipped(old(self).width, old(self).height) {
                Some(c) => old(self).dirty@.push(c),
                None => old(self).dirty@,
            },
            final(final(self).dirty)@ == final(old(self).dirty)@,
            final(self).bytes@ == old(self).bytes@,
            final(final(self).bytes)@ == final(old(self).bytes)@,
            final(self).width == old(self).width,
            final(self).height == old(self).height,
            final(self).row_bytes == old(self).row_bytes,
    {
        if let Some(clipped) = rect.clipped(self.width, self.height) {
            self.dirty.push(clipped);
        }
    }

    /// Marks the whole framebuffer dirty (replacing the accumulated rects).
    pub fn mark_full_dirty(&mut self)
        ensures
            final(self).dirty@ == seq![Rect { x: 0, y: 0, width: old(self).width, height: old(self).height }],
            final(final(self).dirty)@ == final(old(self).dirty)@,
            final(self).bytes@ == old(self).bytes@,
            final(final(self).bytes)@ == final(old(self).bytes)@,
            final(self).width == old(self).width,
            final(self).height == old(self).height,
            final(self).row_bytes == old(self).row_bytes,
    {
        self.dirty.clear();
        self.dirty.push(Rect::new(0, 0, self.width, self.height));
    }
}

impl SurfaceState {
    /// The framebuffer is absent or exactly one frame long; every accumulated dirty rect is
    /// non-empty and inside the source.
    pub open spec fn wf(&self) -> bool {
        &&& self.gpu.wf()
        &&& (self.framebuffer@.len() == 0 || self.framebuffer@.len() == self.gpu.spec_frame_len())
        &&& all_good(self.dirty@, self.gpu.source_width as int, self.gpu.source_height as int)
    }

    pub fn new(gpu: GpuState) -> (s: Self)
        requires
            gpu.wf(),
        ensures
            s.wf(),
            s.gpu == gpu,
            s.framebuffer@.len() == 0,
            s.dirty@.len() == 0,
    {
        SurfaceState { gpu, framebuffer: Vec::new(), dirty: Vec::new() }
    }

    /// Source framebuffer size in pixels.
    pub fn source_size(&self) -> (r: (u32, u32))
        ensures
            r == (self.gpu.source_width, self.gpu.source_height),
    {
        self.gpu.source_size()
    }

    /// Presentation size in physical pixels.
    pub fn target_size(&self) -> (r: (u32, u32))
        ensures
            r == (self.gpu.target_width, self.gpu.target_height),
    {
        self.gpu.target_size()
    }

    pub fn format(&self) -> (f: PixelFormat)
        ensures
            f == self.gpu.format,
    {
        self.gpu.format()
    }

    pub fn scaling(&self) -> (s: ScalingMode)
        ensures
            s == self.gpu.scaling,
    {
        self.gpu.scaling()
    }

    /// After a source change: the dirty list is emptied; an allocated framebuffer is reset to
    /// zeros at the new frame length with the whole frame dirty.
    pub open spec fn reset_from(&self, old: SurfaceState) -> bool {
        if old.framebuffer@.len() == 0 {
            self.framebuffer@.len() == 0 && self.dirty@.len() == 0
        } else {
            &&& self.framebuffer@ == Seq::new(self.gpu.spec_frame_len() as nat, |i: int| 0u8)
            &&& self.dirty@ == seq![Rect { x: 0, y: 0, width: self.gpu.source_width, height: self.gpu.source_height }]
        }
    }

    fn reset_owned_framebuffer(&mut self)
        requires
            old(self).gpu.wf(),
        ensures
            final(self).wf(),
            final(self).gpu == old(self).gpu,
            final(self).reset_from(*old(self)),
    {
        self.dirty.clear();
        if self.framebuffer.len() == 0 {
            return;
        }
        let (width, height) = self.gpu.source_size();
        let expected = self.gpu.format().frame_len(width, height);
        self.framebuffer.clear();
        let mut i: usize = 0;
        while i < expected
            invariant
                i <= expected,
                expected == self.gpu.spec_frame_len(),
                self.gpu == old(self).gpu,
                self.dirty@.len() == 0,
                old(self).framebuffer@.len() != 0,
                width == self.gpu.source_width && height == self.gpu.source_height,
                self.framebuffer@.len() == i,
                forall|k: int| 0 <= k < i ==> self.framebuffer@[k] == 0u8,
            decreases expected - i,
        {
            self.framebuffer.push(0u8);
            i += 1;
        }
        self.dirty.push(Rect::new(0, 0, width, height));
        proof {
            assert(self.framebuffer@ =~= Seq::new(self.gpu.spec_frame_len() as nat, |i: int| 0u8));
            assert(self.dirty@ =~= seq![Rect { x: 0, y: 0, width, height }]);
        }
    }

    /// Resizes the source framebuffer (remote resolution change): the source is recreated and
    /// the owned framebuffer, if allocated, resets to zeros with full damage.
    pub fn resize_source(&mut self, width: u32, height: u32)
        requires
            old(self).wf(),
            frame_ok(old(self).gpu.format, max1(width), max1(height)),
        ensures
            final(self).wf(),
            final(self).gpu.source_width == max1(width),
            final(self).gpu.source_height == max1(height),
            final(self).gpu.format == old(self).gpu.format,
            final(self).gpu.recreated(old(self).gpu),
            final(self).reset_from(*old(self)),
    {
        self.gpu.resize_source(width, height);
        self.reset_owned_framebuffer();
    }

    /// Resizes the presentation only; the source is untouched.
    pub fn resize_target(&mut self, width: u32, height: u32)
        requires
            old(self).wf(),
        ensures
            final(self).wf(),
            final(self).gpu == (GpuState {
                target_width: max1(width),
                target_height: max1(height),
                params_dirty: true,
                needs_redraw: true,
                ..old(self).gpu
            }),
            final(self).framebuffer@ == old(self).framebuffer@,
            final(self).dirty@ == old(self).dirty@,
    {
        self.gpu.resize_target(width, height);
    }

    /// Changes the source pixel format; the current format changes nothing. Otherwise the
    /// source is recreated and the owned framebuffer resets as for a resize.
    pub fn set_format(&mut self, format: PixelFormat) -> (changed: bool)
        requires
            old(self).wf(),
            frame_ok(format, old(self).gpu.source_width, old(self).gpu.source_height),
        ensures
            final(self).wf(),
            changed == (format != old(self).gpu.format),
            !changed ==> final(self).gpu == old(self).gpu && final(self).framebuffer@ == old(
                self,
            ).framebuffer@ && final(self).dirty@ == old(self).dirty@,
            changed ==> final(self).gpu.format == format,
            changed ==> final(self).gpu.source_width == old(self).gpu.source_width
                && final(self).gpu.source_height == old(self).gpu.source_height,
            changed ==> final(self).gpu.recreated(old(self).gpu),
            changed ==> final(self).reset_from(*old(self)),
    {
        if format == self.gpu.format() {
            return false;
        }
        self.gpu.set_format(format);
        self.reset_owned_framebuffer();
        true
    }

    /// Changes the scaling mode ([`GpuState::set_scaling`]); returns whether the sampling
    /// filter changed. The framebuffer and its damage are untouched.
    pub fn set_scaling(&mut self, scaling: ScalingMode) -> (filter_changed: bool)
        requires
            old(self).wf(),
        ensures
            final(self).wf(),
            final(self).framebuffer@ == old(self).framebuffer@,
            final(self).dirty@ == old(self).dirty@,
            scaling == old(self).gpu.scaling ==> final(self).gpu == old(self).gpu,
            scaling != old(self).gpu.scaling ==> final(self).gpu == (GpuState {
                scaling,
                params_dirty: true,
                needs_redraw: true,
                ..old(self).gpu
            }),
            filter_changed == (scaling != old(self).gpu.scaling && scaling.spec_filter_linear()
                != old(self).gpu.scaling.spec_filter_linear()),
    {
        self.gpu.set_scaling(scaling)
    }

    /// Forces the next present to redraw from the persistent texture even with no dirty
    /// regions; nothing is uploaded for it.
    pub fn request_redraw(&mut self)
        requires
            old(self).wf(),
        ensures
            final(self).wf(),
            final(self).gpu == (GpuState { needs_redraw: true, ..old(self).gpu }),
            final(self).framebuffer@ == old(self).framebuffer@,
            final(self).dirty@ == old(self).dirty@,
    {
        self.gpu.request_redraw();
    }

    /// Installs (`Some((width, height))` of an RGBA8 image), replaces, or clears the cursor
    /// overlay ([`GpuState::set_overlay`]). The overlay is composited in the blit pass: it never
    /// touches the framebuffer or its damage.
    pub fn set_cursor(&mut self, image_size: Option<(u32, u32)>)
        requires
            old(self).wf(),
        ensures
            final(self).wf(),
            final(self).framebuffer@ == old(self).framebuffer@,
            final(self).dirty@ == old(self).dirty@,
            final(self).gpu == (GpuState {
                overlay: match image_size {
                    None => None,
                    Some((w, h)) => Some(
                        match old(self).gpu.overlay {
                            Some(o) => crate::gpu::Overlay { width: w, height: h, x: o.x, y: o.y },
                            None => crate::gpu::Overlay { width: w, height: h, x: 0, y: 0 },
                        },
                    ),
                },
                params_dirty: true,
                needs_redraw: true,
                ..old(self).gpu
            }),
    {
        self.gpu.set_overlay(image_size);
    }

    /// Moves the cursor overlay's top-left corner to `(x, y)` in source pixels (may be
    /// negative or off-screen); returns whether it moved. Nothing is uploaded for it: the
    /// framebuffer and its damage are untouched.
    pub fn set_cursor_position(&mut self, x: i32, y: i32) -> (moved: bool)
        requires
            old(self).wf(),
        ensures
            final(self).wf(),
            final(self).framebuffer@ == old(self).framebuffer@,
            final(self).dirty@ == old(self).dirty@,
            moved == (old(self).gpu.overlay matches Some(o) && (o.x != x || o.y != y)),
            !moved ==> final(self).gpu == old(self).gpu,
            moved ==> final(self).gpu == (GpuState {
                overlay: Some(crate::gpu::Overlay { x, y, ..old(self).gpu.overlay.unwrap() }),
                params_dirty: true,
                needs_redraw: true,
                ..old(self).gpu
            }),
    {
        self.gpu.set_overlay_position(x, y)
    }

    /// Borrows the owned framebuffer for in-place decoding, allocating it (zeroed) at the frame
    /// length when it has another length. Writes go at their natural offsets (row stride
    /// `width * bytes_per_pixel`; I420 is plane-ordered with luma stride `width`).
    pub fn frame_mut(&mut self) -> (f: FrameMut<'_>)
        requires
            old(self).wf(),
        ensures
            f.width == old(self).gpu.source_width,
            f.height == old(self).gpu.source_height,
            f.row_bytes == old(self).gpu.source_width * match old(self).gpu.format.spec_bytes_per_pixel() {
                Some(b) => b,
                None => 1,
            },
            f.bytes@ == (if old(self).framebuffer@.len() == old(self).gpu.spec_frame_len() {
                old(self).framebuffer@
            } else {
                Seq::new(old(self).gpu.spec_frame_len() as nat, |i: int| 0u8)
            }),
            f.dirty@ == old(self).dirty@,
            final(self).framebuffer@ == final(f.bytes)@,
            final(self).dirty@ == final(f.dirty)@,
            final(self).gpu == old(self).gpu,
    {
        let (width, height) = self.gpu.source_size();
        let format = self.gpu.format();
        let expected = format.frame_len(width, height);
        if self.framebuffer.len() != expected {
            self.framebuffer.clear();
            let mut i: usize = 0;
            while i < expected
                invariant
                    i <= expected,
                    self.gpu == old(self).gpu,
                    self.dirty@ == old(self).dirty@,
                    self.framebuffer@.len() == i,
                    forall|k: int| 0 <= k < i ==> self.framebuffer@[k] == 0u8,
                decreases expected - i,
            {
                self.framebuffer.push(0u8);
                i += 1;
            }
            proof {
                assert(self.framebuffer@ =~= Seq::new(expected as nat, |i: int| 0u8));
            }
        }
        let bpp = match format.bytes_per_pixel() {
            Some(b) => b,
            None => 1,
        };
        proof {
            let f = format.spec_frame_len(width as int, height as int);
            assert((width as int) * (bpp as int) <= f) by {
                if let Some(b) = format.spec_bytes_per_pixel() {
                    assert((width as int) * b <= (width as int) * (height as int) * b) by (nonlinear_arith)
                        requires height >= 1, width >= 0, b >= 1;
                } else {
                    assert((width as int) <= (width as int) * (height as int)) by (nonlinear_arith)
                        requires height >= 1, width >= 0;
                    assert(0 <= crate::format::half_up(width as int) * crate::format::half_up(height as int)) by (nonlinear_arith)
                        requires width >= 0, height >= 0;
                }
            }
        }
        let row_bytes = width as usize * bpp;
        FrameMut {
            bytes: self.framebuffer.as_mut_slice(),
            dirty: &mut self.dirty,
            width,
            height,
            row_bytes,
        }
    }

    /// Plans the present of the owned framebuffer with the accumulated dirty rects
    /// ([`GpuState::begin_present`]). The dirty rects stay until [`SurfaceState::commit_present`]
    /// records that the present went through, so a failed present is retried by the next one.
    pub fn begin_present(&mut self) -> (r: Result<PresentPlan, Error>)
        requires
            old(self).wf(),
            old(self).gpu.can_plan_present(old(self).framebuffer@.len() as int, old(self).dirty@),
        ensures
            final(self).wf(),
            final(self).framebuffer@ == old(self).framebuffer@,
            final(self).dirty@ == old(self).dirty@,
            ({
                let rects = old(self).gpu.spec_present_rects(old(self).dirty@);
                let len = old(self).gpu.spec_frame_len();
                &&& (rects.len() == 0 && !old(self).gpu.needs_redraw) ==> (r matches Ok(
                    PresentPlan::Skip,
                ) && final(self).gpu == old(self).gpu)
                &&& (rects.len() == 0 && old(self).gpu.needs_redraw) ==> (r matches Ok(
                    PresentPlan::Draw { rects: rs, upload: None, bytes_uploaded: 0 },
                ) && rs@ == rects && final(self).gpu == old(self).gpu)
                &&& (rects.len() > 0 && old(self).framebuffer@.len() != len) ==> (r matches Err(
                    Error::BufferSizeMismatch { expected, actual },
                ) && expected == len && actual == old(self).framebuffer@.len() && final(self).gpu
                    == old(self).gpu)
                &&& (rects.len() > 0 && old(self).framebuffer@.len() == len) ==> (r matches Ok(
                    PresentPlan::Draw { rects: rs, upload: Some(plan), bytes_uploaded },
                ) && rs@ == rects && crate::plan::upload_plan_is(
                    old(self).gpu,
                    old(self).framebuffer@,
                    rects,
                    plan,
                    bytes_uploaded as int,
                ) && final(self).gpu == crate::plan::after_upload(old(self).gpu, plan))
                &&& (r matches Ok(PresentPlan::Draw { rects: rs, .. }) ==> rs@.len() <= crate::rect::MAX_RECTS)
            }),
    {
        self.gpu.begin_present(self.framebuffer.as_slice(), self.dirty.as_slice())
    }

    /// Records that a present of the owned framebuffer went through: the dirty rects are
    /// consumed.
    pub fn commit_present(&mut self)
        requires
            old(self).wf(),
        ensures
            final(self).wf(),
            final(self).gpu == old(self).gpu,
            final(self).framebuffer@ == old(self).framebuffer@,
            final(self).dirty@.len() == 0,
    {
        self.dirty.clear();
    }

    /// Plans the present of a caller-owned framebuffer: `bytes` is the full frame in the current
    /// format, `dirty` the damaged rects. A rect reaching outside the source is an
    /// [`Error::InvalidRect`] (the first one); otherwise as [`GpuState::begin_present`].
    pub fn begin_present_external(&mut self, bytes: &[u8], dirty: &[Rect]) -> (r: Result<PresentPlan, Error>)
        requires
            old(self).wf(),
            ({
                let sw = old(self).gpu.source_width as int;
                let sh = old(self).gpu.source_height as int;
                (forall|i: int| 0 <= i < dirty@.len() ==> (#[trigger] dirty@[i]).spec_within(sw, sh))
                    ==> old(self).gpu.can_plan_present(bytes@.len() as int, dirty@)
            }),
        ensures
            final(self).wf(),
            final(self).framebuffer@ == old(self).framebuffer@,
            final(self).dirty@ == old(self).dirty@,
            ({
                let sw = old(self).gpu.source_width as int;
                let sh = old(self).gpu.source_height as int;
                let bad = exists|i: int| 0 <= i < dirty@.len() && !(#[trigger] dirty@[i]).spec_within(sw, sh);
                let rects = old(self).gpu.spec_present_rects(dirty@);
                let len = old(self).gpu.spec_frame_len();
                &&& bad ==> (r matches Err(Error::InvalidRect { rect, bounds }) && bounds == (
                    old(self).gpu.source_width,
                    old(self).gpu.source_height,
                ) && (exists|i: int|
                    0 <= i < dirty@.len() && dirty@[i] == rect && !rect.spec_within(sw, sh)
                        && forall|j: int| 0 <= j < i ==> (#[trigger] dirty@[j]).spec_within(sw, sh))
                    && final(self).gpu == old(self).gpu)
                &&& !bad ==> {
                    &&& (rects.len() == 0 && !old(self).gpu.needs_redraw) ==> (r matches Ok(
                        PresentPlan::Skip,
                    ) && final(self).gpu == old(self).gpu)
                    &&& (rects.len() == 0 && old(self).gpu.needs_redraw) ==> (r matches Ok(
                        PresentPlan::Draw { rects: rs, upload: None, bytes_uploaded: 0 },
                    ) && rs@ == rects && final(self).gpu == old(self).gpu)
                    &&& (rects.len() > 0 && bytes@.len() != len) ==> (r matches Err(
                        Error::BufferSizeMismatch { expected, actual },
                    ) && expected == len && actual == bytes@.len() && final(self).gpu == old(
                        self,
                    ).gpu)
                    &&& (rects.len() > 0 && bytes@.len() == len) ==> (r matches Ok(
                        PresentPlan::Draw { rects: rs, upload: Some(plan), bytes_uploaded },
                    ) && rs@ == rects && crate::plan::upload_plan_is(
                        old(self).gpu,
                        bytes@,
                        rects,
                        plan,
                        bytes_uploaded as int,
                    ) && final(self).gpu == crate::plan::after_upload(old(self).gpu, plan))
                }
                &&& (r matches Ok(PresentPlan::Draw { rects: rs, .. }) ==> rs@.len() <= crate::rect::MAX_RECTS)
            }),
    {
        let (width, height) = self.gpu.source_size();
        let mut i: usize = 0;
        while i < dirty.len()
            invariant
                i <= dirty@.len(),
                width == self.gpu.source_width && height == self.gpu.source_height,
                *self == *old(self),
                self.wf(),
                forall|j: int| 0 <= j < i ==> (#[trigger] dirty@[j]).spec_within(width as int, height as int),
            decreases dirty@.len() - i,
        {
            let r = dirty[i];
            if !r.within(width, height) {
                return Err(Error::InvalidRect { rect: r, bounds: (width, height) });
            }
            i += 1;
        }
        self.gpu.begin_present(bytes, dirty)
    }
}

/// A present with no damage can always be planned and uploads nothing. With the contract of
/// [`SurfaceState::begin_present`] this gives the two idle presents: right after a present
/// that was shown and committed, with nothing changed since (no damage, no pending redraw),
/// the present is a `Skip`; after a redraw request with no damage, it is a draw with no upload
/// and no bytes uploaded.
pub proof fn lemma_undamaged_present(s: SurfaceState)
    requires
        s.wf(),
        s.dirty@.len() == 0,
    ensures
        s.gpu.can_plan_present(s.framebuffer@.len() as int, s.dirty@),
        s.gpu.spec_present_rects(s.dirty@).len() == 0,
{
    crate::rect::lemma_coalesce_laws(s.dirty@, s.gpu.source_width, s.gpu.source_height);
    assert(spec_coalesce(s.dirty@, s.gpu.source_width, s.gpu.source_height).len() == 0);
}

} // verus!
