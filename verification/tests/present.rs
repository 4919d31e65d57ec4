use softblit::gpu::{AcquireStep, GpuState, SourceLayout, SurfaceStatus, TextureFormat};
use softblit::plan::{BufferWrite, PresentPlan, UploadPlan};
use softblit::upload::SpanData;
use softblit::{Error, PixelFormat, Rect, ScalingMode, SurfaceDescriptor};

fn state(format: PixelFormat, w: u32, h: u32, compute: bool) -> GpuState {
    let desc = SurfaceDescriptor {
        source_size: (w, h),
        format,
        scaling: ScalingMode::Fit,
    };
    GpuState::new((640, 480), &desc, compute)
}

#[test]
fn new_state_clamps_and_lays_out() {
    let s = state(PixelFormat::Rgb24, 0, 10, true);
    assert_eq!(s.source_size(), (1, 10));
    assert_eq!(s.target_size(), (640, 480));
    assert_eq!(s.source, SourceLayout::Packed { capacity: 32 });
    assert_eq!(s.texture_format(), TextureFormat::Rgba8Unorm);
    assert!(s.params_dirty && s.needs_redraw);
    let s = state(PixelFormat::Rgb24, 10, 10, false);
    assert_eq!(s.source, SourceLayout::Direct { cpu_expand: true });
    let s = state(PixelFormat::Bgrx8, 10, 10, true);
    assert_eq!(s.source, SourceLayout::Direct { cpu_expand: false });
    assert_eq!(s.texture_format(), TextureFormat::Bgra8Unorm);
}

#[test]
fn clean_present_is_skipped() {
    let mut s = state(PixelFormat::Rgba8, 4, 2, true);
    s.finish_present(true);
    let plan = s.begin_present(&[], &[]).unwrap();
    assert!(matches!(plan, PresentPlan::Skip));
    let stats = plan.stats();
    assert!(stats.skipped);
    assert_eq!((stats.rects_uploaded, stats.bytes_uploaded), (0, 0));
    // A pending redraw draws without uploading.
    s.request_redraw();
    let plan = s.begin_present(&[], &[Rect::new(9, 9, 1, 1)]).unwrap();
    match &plan {
        PresentPlan::Draw { rects, upload, bytes_uploaded } => {
            assert!(rects.is_empty() && upload.is_none() && *bytes_uploaded == 0);
        }
        PresentPlan::Skip => panic!("redraw was pending"),
    }
    assert!(!plan.stats().skipped);
}

#[test]
fn direct_writes_read_in_place() {
    let mut s = state(PixelFormat::Rgba8, 4, 2, true);
    let bytes = vec![0u8; 32];
    let plan = s.begin_present(&bytes, &[Rect::new(1, 0, 2, 2)]).unwrap();
    match plan {
        PresentPlan::Draw { rects, upload: Some(UploadPlan::Direct { writes }), bytes_uploaded } => {
            assert_eq!(rects, vec![Rect::new(1, 0, 2, 2)]);
            assert_eq!(writes.len(), 1);
            assert_eq!(writes[0].offset, 4);
            assert_eq!(writes[0].bytes_per_row, 16);
            assert_eq!(bytes_uploaded, 16);
        }
        other => panic!("unexpected plan {other:?}"),
    }
}

#[test]
fn wrong_length_is_a_size_mismatch() {
    let mut s = state(PixelFormat::Rgb24, 10, 10, true);
    match s.begin_present(&[0u8; 10], &[Rect::new(0, 0, 1, 1)]) {
        Err(Error::BufferSizeMismatch { expected, actual }) => {
            assert_eq!((expected, actual), (300, 10));
        }
        other => panic!("unexpected {other:?}"),
    }
}

#[test]
fn packed_spans_and_gathers() {
    let mut s = state(PixelFormat::Rgb24, 800, 100, true);
    let bytes = vec![7u8; 800 * 100 * 3];
    // Full-width rect: one in-place span of the whole frame.
    let plan = s.begin_present(&bytes, &[Rect::new(0, 0, 800, 100)]).unwrap();
    match plan {
        PresentPlan::Draw { upload: Some(UploadPlan::Packed { grow_to, writes, dispatches, uniform }), bytes_uploaded, .. } => {
            assert_eq!(grow_to, None);
            assert_eq!(bytes_uploaded, 240_000);
            match &writes[0] {
                BufferWrite::Span(sp) => {
                    assert_eq!((sp.offset, sp.len), (0, 240_000));
                    assert!(matches!(sp.data, SpanData::InPlace { start: 0, end: 240_000 }));
                }
                other => panic!("unexpected write {other:?}"),
            }
            assert_eq!(dispatches.len(), 1);
            assert_eq!((dispatches[0].workgroups_x, dispatches[0].workgroups_y), (100, 13));
            assert_eq!(uniform.len(), 256);
            assert_eq!(&uniform[28..32], &800u32.to_le_bytes());
        }
        other => panic!("unexpected plan {other:?}"),
    }
    // Narrow tall rect: gathered into the tail, which grows the buffer.
    let plan = s.begin_present(&bytes, &[Rect::new(0, 0, 60, 60)]).unwrap();
    match plan {
        PresentPlan::Draw { upload: Some(UploadPlan::Packed { grow_to, writes, dispatches, .. }), bytes_uploaded, .. } => {
            assert_eq!(grow_to, Some(360_000));
            assert_eq!(bytes_uploaded, 10_800);
            match &writes[0] {
                BufferWrite::Gathered { offset, data } => {
                    assert_eq!(*offset, 240_000);
                    assert_eq!(data.len(), 10_800);
                    assert!(data.iter().all(|b| *b == 7));
                }
                other => panic!("unexpected write {other:?}"),
            }
            let p = &dispatches[0].params;
            assert_eq!(&p[24..28], &240_000u32.to_le_bytes());
            assert_eq!(&p[28..32], &60u32.to_le_bytes());
        }
        other => panic!("unexpected plan {other:?}"),
    }
    assert_eq!(s.source, SourceLayout::Packed { capacity: 360_000 });
}

#[test]
fn gathered_rows_are_tight() {
    let mut s = state(PixelFormat::Gray8, 10, 4, true);
    let bytes: Vec<u8> = (0..40).collect();
    let plan = s.begin_present(&bytes, &[Rect::new(2, 1, 1, 3)]).unwrap();
    match plan {
        PresentPlan::Draw { upload: Some(UploadPlan::Packed { writes, .. }), bytes_uploaded, .. } => {
            match &writes[0] {
                BufferWrite::Gathered { offset, data } => {
                    assert_eq!(*offset, 40);
                    assert_eq!(data, &vec![12, 22, 32, 0]);
                }
                other => panic!("unexpected write {other:?}"),
            }
            assert_eq!(bytes_uploaded, 4);
        }
        other => panic!("unexpected plan {other:?}"),
    }
}

#[test]
fn span_past_the_tail_is_padded() {
    let mut s = state(PixelFormat::Rgb24, 3, 1, true);
    let bytes: Vec<u8> = (1..=9).collect();
    let plan = s.begin_present(&bytes, &[Rect::new(2, 0, 1, 1)]).unwrap();
    match plan {
        PresentPlan::Draw { upload: Some(UploadPlan::Packed { writes, .. }), bytes_uploaded, .. } => {
            match &writes[0] {
                BufferWrite::Span(sp) => {
                    assert_eq!((sp.offset, sp.len), (4, 8));
                    match &sp.data {
                        SpanData::Padded { start, bytes } => {
                            assert_eq!(*start, 4);
                            assert_eq!(bytes, &vec![5, 6, 7, 8, 9, 0, 0, 0]);
                        }
                        other => panic!("unexpected span {other:?}"),
                    }
                }
                other => panic!("unexpected write {other:?}"),
            }
            assert_eq!(bytes_uploaded, 8);
        }
        other => panic!("unexpected plan {other:?}"),
    }
}

#[test]
fn i420_rects_expand_to_even_and_upload_three_planes() {
    let mut s = state(PixelFormat::I420, 4, 4, true);
    let bytes = vec![0u8; 24];
    let plan = s.begin_present(&bytes, &[Rect::new(1, 1, 1, 1)]).unwrap();
    match plan {
        PresentPlan::Draw { rects, upload: Some(UploadPlan::Packed { writes, dispatches, .. }), bytes_uploaded } => {
            assert_eq!(rects, vec![Rect::new(0, 0, 2, 2)]);
            assert_eq!(writes.len(), 3);
            let spans: Vec<(u64, u64)> = writes
                .iter()
                .map(|w| match w {
                    BufferWrite::Span(sp) => (sp.offset, sp.len),
                    other => panic!("unexpected write {other:?}"),
                })
                .collect();
            assert_eq!(spans, vec![(0, 8), (16, 4), (20, 4)]);
            assert_eq!(bytes_uploaded, 16);
            let p = &dispatches[0].params;
            assert_eq!(&p[32..36], &6u32.to_le_bytes());
            assert_eq!(&p[36..40], &16u32.to_le_bytes());
            assert_eq!(&p[40..44], &20u32.to_le_bytes());
            assert_eq!(&p[44..48], &2u32.to_le_bytes());
        }
        other => panic!("unexpected plan {other:?}"),
    }
}

#[test]
fn cpu_expand_path_writes_rgba() {
    let mut s = state(PixelFormat::Gray8, 2, 2, false);
    let plan = s.begin_present(&[1, 2, 3, 4], &[Rect::new(1, 0, 1, 2)]).unwrap();
    match plan {
        PresentPlan::Draw { upload: Some(UploadPlan::Expanded { writes }), bytes_uploaded, .. } => {
            assert_eq!(writes[0].rgba, vec![2, 2, 2, 255, 4, 4, 4, 255]);
            assert_eq!(writes[0].bytes_per_row, 4);
            assert_eq!(bytes_uploaded, 8);
        }
        other => panic!("unexpected plan {other:?}"),
    }
}

#[test]
fn acquire_decisions() {
    let mut s = state(PixelFormat::Rgba8, 4, 4, true);
    s.finish_present(true);
    assert!(matches!(s.acquire_step(SurfaceStatus::Success, false), AcquireStep::Use));
    assert!(matches!(s.acquire_step(SurfaceStatus::Occluded, false), AcquireStep::Skip));
    assert!(!s.needs_redraw);
    assert!(matches!(s.acquire_step(SurfaceStatus::Lost, false), AcquireStep::Reconfigure));
    assert!(s.needs_redraw);
    assert!(matches!(s.acquire_step(SurfaceStatus::Outdated, true), AcquireStep::Fail(Error::SurfaceLost)));
    assert!(matches!(s.acquire_step(SurfaceStatus::Validation, true), AcquireStep::Fail(Error::SurfaceLost)));
    assert!(matches!(s.acquire_step(SurfaceStatus::Validation, false), AcquireStep::Fail(Error::Device { .. })));
    assert!(matches!(s.acquire_step(SurfaceStatus::Timeout, true), AcquireStep::Skip));
}

#[test]
fn redraw_and_parameter_bookkeeping() {
    let mut s = state(PixelFormat::Rgba8, 4, 4, true);
    assert!(s.take_params_dirty());
    assert!(!s.take_params_dirty());
    s.finish_present(false);
    assert!(s.needs_redraw);
    s.finish_present(true);
    assert!(!s.needs_redraw);
    assert!(!s.set_scaling(ScalingMode::Fit));
    assert!(!s.params_dirty);
    assert!(!s.set_scaling(ScalingMode::Stretch));
    assert!(s.params_dirty && s.needs_redraw);
    assert!(s.set_scaling(ScalingMode::Integer));
    s.resize_target(0, 7);
    assert_eq!(s.target_size(), (1, 7));
}

#[test]
fn overlay_position_changes_only_when_moved() {
    let mut s = state(PixelFormat::Rgba8, 4, 4, true);
    s.finish_present(true);
    s.take_params_dirty();
    assert!(!s.set_overlay_position(3, 4));
    assert!(!s.needs_redraw);
    s.set_overlay(Some((16, 16)));
    assert!(s.set_overlay_position(-3, 4));
    s.finish_present(true);
    assert!(!s.set_overlay_position(-3, 4));
    assert!(!s.needs_redraw);
    s.set_overlay(Some((8, 8)));
    let o = s.overlay.unwrap();
    assert_eq!((o.width, o.height, o.x, o.y), (8, 8, -3, 4));
    s.set_overlay(None);
    assert!(s.overlay.is_none());
}

#[test]
fn import_region_clips_to_source() {
    let mut s = state(PixelFormat::Rgba8, 100, 50, true);
    assert_eq!(s.import_region((90, 40), (20, 20)).unwrap(), (10, 10));
    match s.import_region((100, 0), (5, 5)) {
        Err(Error::InvalidRect { rect, bounds }) => {
            assert_eq!(rect, Rect::new(100, 0, 5, 5));
            assert_eq!(bounds, (100, 50));
        }
        other => panic!("unexpected {other:?}"),
    }
}

#[test]
fn format_and_size_changes_recreate_the_source() {
    let mut s = state(PixelFormat::Rgba8, 4, 4, true);
    s.finish_present(true);
    s.take_params_dirty();
    assert!(!s.set_format(PixelFormat::Rgba8));
    assert!(!s.needs_redraw);
    assert!(s.set_format(PixelFormat::Rgb24));
    assert_eq!(s.source, SourceLayout::Packed { capacity: 48 });
    assert!(s.needs_redraw && s.params_dirty);
    s.resize_source(0, 3);
    assert_eq!(s.source_size(), (1, 3));
    assert_eq!(s.source, SourceLayout::Packed { capacity: 12 });
}

#[test]
fn upload_fit_checks_strides_and_offsets() {
    let s = state(PixelFormat::Rgba8, 4, 4, true);
    assert!(s.fits_upload(&[]));
    assert!(s.fits_upload(&[Rect::new(0, 0, 4, 4)]));
    // A row of 2^30 RGBA pixels has a stride of 2^32 bytes: too wide for a texture write.
    let wide = state(PixelFormat::Rgba8, 1 << 30, 1, true);
    assert!(wide.fits_upload(&[]));
    assert!(!wide.fits_upload(&[Rect::new(0, 0, 1, 1)]));
    // I420 plane offsets must fit u32.
    let big = state(PixelFormat::I420, 65536, 65536, true);
    assert!(!big.fits_upload(&[Rect::new(0, 0, 2, 2)]));
    let small = state(PixelFormat::I420, 64, 64, true);
    assert!(small.fits_upload(&[Rect::new(0, 0, 2, 2)]));
    // Gathers beyond a u32 offset are refused, spans are not.
    let tall = state(PixelFormat::Rgb24, 40000, 40000, true);
    assert!(tall.fits_upload(&[Rect::new(0, 0, 40000, 1)]));
    assert!(!tall.fits_upload(&[Rect::new(0, 0, 1, 2)]));
}

#[test]
fn present_rects_stay_inside_the_damage() {
    let s = state(PixelFormat::Rgb24, 100, 100, true);
    let dirty = [Rect::new(10, 10, 5, 5), Rect::new(15, 10, 5, 5), Rect::new(40, 40, 2, 2)];
    let rects = s.present_rects(&dirty);
    assert_eq!(rects, vec![Rect::new(10, 10, 10, 5), Rect::new(40, 40, 2, 2)]);
    let bbox = Rect::new(10, 10, 32, 32);
    for r in &rects {
        assert!(r.x >= bbox.x && r.y >= bbox.y);
        assert!(r.x + r.width <= bbox.x + bbox.width && r.y + r.height <= bbox.y + bbox.height);
    }
    // I420 widens to even coordinates, never past the widened damage.
    let s = state(PixelFormat::I420, 10, 10, true);
    assert_eq!(s.present_rects(&[Rect::new(3, 3, 1, 1)]), vec![Rect::new(2, 2, 2, 2)]);
    assert!(s.present_rects(&[]).is_empty());
}

#[test]
fn planned_writes_land_inside_the_grown_buffer() {
    let mut s = state(PixelFormat::Rgb24, 100, 50, true);
    let bytes = vec![1u8; 100 * 50 * 3];
    let dirty = [Rect::new(0, 0, 10, 40), Rect::new(50, 0, 10, 40), Rect::new(0, 45, 100, 5)];
    let plan = s.begin_present(&bytes, &dirty).unwrap();
    let capacity = match s.source {
        SourceLayout::Packed { capacity } => capacity,
        other => panic!("unexpected source {other:?}"),
    };
    match plan {
        PresentPlan::Draw { upload: Some(UploadPlan::Packed { grow_to, writes, .. }), .. } => {
            assert_eq!(grow_to, Some(capacity));
            // The tail needs 2 400 bytes; the buffer grows by half its size instead.
            assert_eq!(capacity, 22_500);
            for w in &writes {
                let (start, end) = match w {
                    BufferWrite::Span(sp) => (sp.offset, sp.offset + sp.len),
                    BufferWrite::Gathered { offset, data } => (*offset, *offset + data.len() as u64),
                };
                assert!(start <= end && end <= capacity);
            }
        }
        other => panic!("unexpected plan {other:?}"),
    }
}

#[test]
fn overlay_quad_follows_the_source_transform() {
    let desc = SurfaceDescriptor { source_size: (100, 50), format: PixelFormat::Rgba8, scaling: ScalingMode::Fit };
    let mut s = GpuState::new((200, 100), &desc, true);
    assert!(s.overlay_quad().is_none());
    s.set_overlay(Some((10, 10)));
    let q = s.overlay_quad().unwrap();
    let v = |f: softblit::gpu::Fraction| (f.num, f.den);
    assert_eq!(v(q.scale_x), (10, 100));
    assert_eq!(v(q.scale_y), (100_000, 500_000));
    assert_eq!(v(q.offset_x), (-90, 100));
    assert_eq!(v(q.offset_y), (400_000, 500_000));
    // Centered overlay: zero offset.
    s.set_overlay_position(45, 20);
    let q = s.overlay_quad().unwrap();
    assert_eq!((q.offset_x.num, q.offset_y.num), (0, 0));
}

#[test]
fn empty_upload_plans_nothing() {
    let mut s = state(PixelFormat::Rgb24, 8, 8, true);
    let bytes = vec![0u8; 8 * 8 * 3];
    let (plan, bytes_uploaded) = s.plan_upload(&bytes, &Vec::new());
    assert_eq!(bytes_uploaded, 0);
    match plan {
        UploadPlan::Packed { grow_to, writes, dispatches, uniform } => {
            assert!(grow_to.is_none() && writes.is_empty() && dispatches.is_empty() && uniform.is_empty());
        }
        other => panic!("unexpected plan {other:?}"),
    }
    let mut d = state(PixelFormat::Rgba8, 8, 8, true);
    let (plan, bytes_uploaded) = d.plan_upload(&vec![0u8; 256], &Vec::new());
    assert!(matches!(plan, UploadPlan::Direct { ref writes } if writes.is_empty()));
    assert_eq!(bytes_uploaded, 0);
}

#[test]
fn edge_wide_i420_presents_without_damage() {
    let mut s = state(PixelFormat::I420, u32::MAX, 2, true);
    assert!(s.plannable(0, &[]));
    assert!(!s.plannable(0, &[Rect::new(u32::MAX - 1, 0, 1, 1)]));
    assert!(s.plannable(0, &[Rect::new(0, 0, 2, 2)]));
    s.finish_present(true);
    assert!(matches!(s.begin_present(&[], &[]).unwrap(), PresentPlan::Skip));
    s.request_redraw();
    match s.begin_present(&[], &[]).unwrap() {
        PresentPlan::Draw { rects, upload, bytes_uploaded } => {
            assert!(rects.is_empty() && upload.is_none() && bytes_uploaded == 0);
        }
        PresentPlan::Skip => panic!("a redraw was requested"),
    }
}
