use softblit::gpu::GpuState;
use softblit::plan::{PresentPlan, UploadPlan};
use softblit::surface::SurfaceState;
use softblit::{Error, PixelFormat, Rect, ScalingMode, SurfaceDescriptor};

fn surface(format: PixelFormat, w: u32, h: u32) -> SurfaceState {
    let desc = SurfaceDescriptor {
        source_size: (w, h),
        format,
        scaling: ScalingMode::Fit,
    };
    SurfaceState::new(GpuState::new((320, 200), &desc, true))
}

#[test]
fn frame_mut_allocates_and_tracks_damage() {
    let mut s = surface(PixelFormat::Rgb24, 10, 4);
    {
        let mut frame = s.frame_mut();
        assert_eq!(frame.width(), 10);
        assert_eq!(frame.height(), 4);
        assert_eq!(frame.stride(), 30);
        assert_eq!(frame.bytes_mut().len(), 120);
        frame.bytes_mut()[0] = 9;
        frame.mark_dirty(Rect::new(8, 3, 5, 5));
        frame.mark_dirty(Rect::new(10, 0, 1, 1));
    }
    assert_eq!(s.framebuffer[0], 9);
    assert_eq!(s.dirty, vec![Rect::new(8, 3, 2, 1)]);
    {
        let mut frame = s.frame_mut();
        frame.mark_full_dirty();
    }
    assert_eq!(s.dirty, vec![Rect::new(0, 0, 10, 4)]);
}

#[test]
fn i420_stride_is_the_luma_width() {
    let mut s = surface(PixelFormat::I420, 5, 3);
    let frame = s.frame_mut();
    assert_eq!(frame.stride(), 5);
    assert_eq!(frame.bytes.len(), 15 + 2 * 6);
}

#[test]
fn owned_present_consumes_damage_on_commit() {
    let mut s = surface(PixelFormat::Rgba8, 4, 4);
    {
        let mut frame = s.frame_mut();
        frame.mark_dirty(Rect::new(0, 0, 2, 2));
    }
    let plan = s.begin_present().unwrap();
    assert_eq!(plan.stats().rects_uploaded, 1);
    assert_eq!(plan.stats().bytes_uploaded, 16);
    assert_eq!(s.dirty.len(), 1);
    s.commit_present();
    assert!(s.dirty.is_empty());
}

#[test]
fn resizing_resets_the_owned_framebuffer() {
    let mut s = surface(PixelFormat::Rgba8, 4, 4);
    // Not yet allocated: nothing to reset.
    s.resize_source(2, 2);
    assert!(s.framebuffer.is_empty() && s.dirty.is_empty());
    {
        let mut frame = s.frame_mut();
        frame.bytes_mut()[3] = 1;
    }
    s.resize_source(3, 2);
    assert_eq!(s.framebuffer, vec![0u8; 24]);
    assert_eq!(s.dirty, vec![Rect::new(0, 0, 3, 2)]);
    assert!(!s.set_format(PixelFormat::Rgba8));
    assert!(s.set_format(PixelFormat::Gray8));
    assert_eq!(s.source_size(), (3, 2));
    assert_eq!(s.framebuffer, vec![0u8; 6]);
    assert_eq!(s.dirty, vec![Rect::new(0, 0, 3, 2)]);
    s.resize_target(0, 0);
    assert_eq!(s.target_size(), (1, 1));
    assert_eq!(s.format(), PixelFormat::Gray8);
    assert_eq!(s.scaling(), ScalingMode::Fit);
    assert_eq!(s.source_size(), (3, 2));
}

#[test]
fn external_present_refuses_out_of_bounds_rects() {
    let mut s = surface(PixelFormat::Rgba8, 4, 4);
    match s.begin_present_external(&[0u8; 64], &[Rect::new(0, 0, 1, 1), Rect::new(3, 3, 2, 1)]) {
        Err(Error::InvalidRect { rect, bounds }) => {
            assert_eq!(rect, Rect::new(3, 3, 2, 1));
            assert_eq!(bounds, (4, 4));
        }
        other => panic!("unexpected {other:?}"),
    }
    match s.begin_present_external(&[0u8; 64], &[Rect::new(0, 0, 4, 4)]).unwrap() {
        PresentPlan::Draw { upload: Some(UploadPlan::Direct { writes }), bytes_uploaded, .. } => {
            assert_eq!(writes.len(), 1);
            assert_eq!(bytes_uploaded, 64);
        }
        other => panic!("unexpected {other:?}"),
    }
}

#[test]
fn cursor_changes_never_touch_the_framebuffer() {
    let mut s = surface(PixelFormat::Rgb24, 8, 8);
    {
        let mut frame = s.frame_mut();
        frame.bytes_mut()[5] = 7;
        frame.mark_dirty(Rect::new(1, 1, 2, 2));
    }
    let before_bytes = s.framebuffer.clone();
    let before_dirty = s.dirty.clone();
    s.set_cursor(Some((16, 16)));
    assert!(s.set_cursor_position(5, -3));
    assert!(!s.set_cursor_position(5, -3));
    s.set_cursor(Some((8, 4)));
    let o = s.gpu.overlay.unwrap();
    assert_eq!((o.width, o.height, o.x, o.y), (8, 4, 5, -3));
    s.set_cursor(None);
    assert!(s.gpu.overlay.is_none());
    assert!(!s.set_cursor_position(1, 1));
    assert_eq!(s.framebuffer, before_bytes);
    assert_eq!(s.dirty, before_dirty);
}

#[test]
fn scaling_change_reports_filter_switch() {
    let mut s = surface(PixelFormat::Rgba8, 4, 4);
    s.gpu.finish_present(true);
    assert!(!s.set_scaling(ScalingMode::Fit));
    assert!(!s.gpu.needs_redraw);
    assert!(!s.set_scaling(ScalingMode::Fill));
    assert!(s.gpu.needs_redraw && s.gpu.params_dirty);
    assert!(s.set_scaling(ScalingMode::Integer));
    assert!(!s.set_scaling(ScalingMode::Native1x));
    assert!(s.set_scaling(ScalingMode::Stretch));
    assert_eq!(s.scaling(), ScalingMode::Stretch);
}

#[test]
fn redraw_request_draws_without_upload() {
    let mut s = surface(PixelFormat::Rgba8, 4, 4);
    s.gpu.finish_present(true);
    assert!(matches!(s.begin_present().unwrap(), PresentPlan::Skip));
    s.request_redraw();
    match s.begin_present().unwrap() {
        PresentPlan::Draw { rects, upload, bytes_uploaded } => {
            assert!(rects.is_empty() && upload.is_none() && bytes_uploaded == 0);
        }
        PresentPlan::Skip => panic!("a redraw was requested"),
    }
}

#[test]
fn failed_present_keeps_damage_for_the_retry() {
    let mut s = surface(PixelFormat::Rgba8, 4, 4);
    {
        let mut frame = s.frame_mut();
        frame.mark_dirty(Rect::new(2, 2, 2, 2));
    }
    // The texture was not available: nothing is committed, the damage stays.
    let first = s.begin_present().unwrap();
    assert_eq!(first.stats().rects_uploaded, 1);
    assert_eq!(s.dirty, vec![Rect::new(2, 2, 2, 2)]);
    let again = s.begin_present().unwrap();
    assert_eq!(again.stats().rects_uploaded, 1);
    s.commit_present();
    assert!(s.dirty.is_empty());
}
