use softblit::demo::{fill_rect, paint_background_rect, put_pixel, repaint_full};
use softblit::gpu::GpuState;
use softblit::surface::SurfaceState;
use softblit::{PixelFormat, Rect, ScalingMode, SurfaceDescriptor};

fn surface(format: PixelFormat, w: u32, h: u32) -> SurfaceState {
    let desc = SurfaceDescriptor { source_size: (w, h), format, scaling: ScalingMode::Fit };
    SurfaceState::new(GpuState::new((w, h), &desc, true))
}

#[test]
fn pixels_in_every_paintable_format() {
    let cases: [(PixelFormat, &[u8]); 6] = [
        (PixelFormat::Rgb24, &[1, 2, 3]),
        (PixelFormat::Bgr24, &[3, 2, 1]),
        (PixelFormat::Rgba8, &[1, 2, 3, 0xff]),
        (PixelFormat::Bgra8, &[3, 2, 1, 0xff]),
        (PixelFormat::Rgbx8, &[1, 2, 3, 0]),
        (PixelFormat::Bgrx8, &[3, 2, 1, 0]),
    ];
    for (format, expected) in cases {
        let bpp = expected.len();
        let mut bytes = vec![9u8; 2 * 2 * bpp];
        put_pixel(&mut bytes, 2 * bpp, format, 1, 1, [1, 2, 3]);
        let o = 3 * bpp;
        assert_eq!(&bytes[o..o + bpp], expected);
        assert!(bytes[..o].iter().all(|&v| v == 9));
    }
}

#[test]
fn fill_clips_to_the_frame() {
    let mut s = surface(PixelFormat::Rgb24, 4, 3);
    {
        let mut frame = s.frame_mut();
        fill_rect(&mut frame, PixelFormat::Rgb24, Rect::new(1, 1, 5, 1), [7, 8, 9]);
    }
    for y in 0..3usize {
        for x in 0..4usize {
            let o = (y * 4 + x) * 3;
            let expected: [u8; 3] = if y == 1 && x >= 1 { [7, 8, 9] } else { [0, 0, 0] };
            assert_eq!(&s.framebuffer[o..o + 3], &expected);
        }
    }
    assert!(s.dirty.is_empty());
}

#[test]
fn background_gradient_and_full_repaint() {
    let mut s = surface(PixelFormat::Bgrx8, 800, 500);
    repaint_full(&mut s);
    assert_eq!(s.dirty, vec![Rect::new(0, 0, 800, 500)]);
    let px = |s: &SurfaceState, x: usize, y: usize| {
        let o = (y * 800 + x) * 4;
        [s.framebuffer[o], s.framebuffer[o + 1], s.framebuffer[o + 2], s.framebuffer[o + 3]]
    };
    // Bgrx8: blue, green, red, then X = 0.
    assert_eq!(px(&s, 0, 0), [0x60, 0, 0, 0]);
    assert_eq!(px(&s, 400, 250), [0x60, 127, 127, 0]);
    assert_eq!(px(&s, 799, 499), [0x60, 254, 254, 0]);
    {
        let mut frame = s.frame_mut();
        fill_rect(&mut frame, PixelFormat::Bgrx8, Rect::new(10, 10, 2, 2), [255, 0, 0]);
    }
    assert_eq!(px(&s, 11, 11), [0, 0, 255, 0]);
    {
        let mut frame = s.frame_mut();
        paint_background_rect(&mut frame, PixelFormat::Bgrx8, Rect::new(10, 10, 2, 2));
    }
    assert_eq!(px(&s, 11, 11), [0x60, 5, 3, 0]);
}
