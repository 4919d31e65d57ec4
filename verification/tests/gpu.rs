use softblit::gpu::{choose_alpha_mode, choose_surface_format};
use softblit::expand::expand_rect_to_rgba;
use softblit::upload::{expand_even, pad4, should_gather, ParamsWriter};
use softblit::{PixelFormat, Rect};

#[test]
fn gather_only_when_span_is_wasteful() {
    // Full-width rect: span == tight, never gather.
    assert!(!should_gather(800, 100, 3, 2400));
    // Narrow tall rect on a wide framebuffer: span >> tight.
    assert!(should_gather(60, 60, 3, 2400));
    // Single row: span == tight.
    assert!(!should_gather(60, 1, 3, 2400));
    // Half-width: span ~ 2x tight, at the threshold; not worth the extra CPU pass.
    assert!(!should_gather(400, 100, 3, 2400));
}

#[test]
fn expand_even_rounds_outward_and_clamps() {
    assert_eq!(
        expand_even(Rect::new(3, 5, 4, 4), 100, 100),
        Rect::new(2, 4, 6, 6)
    );
    assert_eq!(
        expand_even(Rect::new(0, 0, 100, 50), 100, 50),
        Rect::new(0, 0, 100, 50)
    );
    // Odd-sized source: clamp keeps the rect in bounds.
    assert_eq!(
        expand_even(Rect::new(4, 2, 1, 1), 5, 3),
        Rect::new(4, 2, 1, 1)
    );
}

#[test]
fn cpu_expand_matches_formats() {
    let mut out = Vec::new();

    // Rgb565: pure red / pure green / pure blue.
    let px = |v: u16| v.to_le_bytes();
    let bytes: Vec<u8> = [px(0xf800), px(0x07e0), px(0x001f)].concat();
    expand_rect_to_rgba(
        &bytes,
        PixelFormat::Rgb565,
        3,
        1,
        Rect::new(0, 0, 3, 1),
        &mut out,
    );
    assert_eq!(&out[0..4], &[255, 0, 0, 255]);
    assert_eq!(&out[4..8], &[0, 255, 0, 255]);
    assert_eq!(&out[8..12], &[0, 0, 255, 255]);

    // Gray8 broadcast.
    expand_rect_to_rgba(
        &[0x80, 0xff],
        PixelFormat::Gray8,
        2,
        1,
        Rect::new(0, 0, 2, 1),
        &mut out,
    );
    assert_eq!(&out[0..4], &[0x80, 0x80, 0x80, 255]);
    assert_eq!(&out[4..8], &[0xff, 0xff, 0xff, 255]);

    // I420 white (Y=235, U=V=128 in limited range).
    let bytes = [235, 235, 235, 235, 128, 128];
    expand_rect_to_rgba(
        &bytes,
        PixelFormat::I420,
        2,
        2,
        Rect::new(0, 0, 2, 2),
        &mut out,
    );
    assert_eq!(&out[0..4], &[254, 254, 254, 255]);
}

#[test]
fn cpu_expand_other_formats_and_subrects() {
    let mut out = Vec::new();
    // Bgr24 2x2, take the bottom-right pixel only.
    let bytes = [1, 2, 3, 4, 5, 6, 7, 8, 9, 10, 11, 12];
    expand_rect_to_rgba(&bytes, PixelFormat::Bgr24, 2, 2, Rect::new(1, 1, 1, 1), &mut out);
    assert_eq!(out, vec![12, 11, 10, 255]);
    expand_rect_to_rgba(&bytes, PixelFormat::Rgb24, 2, 2, Rect::new(0, 1, 2, 1), &mut out);
    assert_eq!(out, vec![7, 8, 9, 255, 10, 11, 12, 255]);
    // Rgb555: pure red, and the ignored top bit.
    let bytes = [0x00, 0x7c, 0x00, 0x80];
    expand_rect_to_rgba(&bytes, PixelFormat::Rgb555, 2, 1, Rect::new(0, 0, 2, 1), &mut out);
    assert_eq!(out, vec![255, 0, 0, 255, 0, 0, 0, 255]);
    // Gray16: full scale and half scale.
    let bytes = [0xff, 0xff, 0x00, 0x80];
    expand_rect_to_rgba(&bytes, PixelFormat::Gray16, 2, 1, Rect::new(0, 0, 2, 1), &mut out);
    assert_eq!(out, vec![255, 255, 255, 255, 127, 127, 127, 255]);
    // I420 black and a saturated red (Y=81, U=90, V=240).
    let bytes = [16, 16, 16, 16, 128, 128];
    expand_rect_to_rgba(&bytes, PixelFormat::I420, 2, 2, Rect::new(1, 1, 1, 1), &mut out);
    assert_eq!(out, vec![0, 0, 0, 255]);
    let bytes = [81, 90, 240];
    expand_rect_to_rgba(&bytes, PixelFormat::I420, 1, 1, Rect::new(0, 0, 1, 1), &mut out);
    // R = 1.164*65 + 1.596*112 = 254.412; G = -0.538 and B = -1.024 clamp to 0.
    assert_eq!(out, vec![254, 0, 0, 255]);
}

#[test]
fn pad4_rounds_up_to_four() {
    assert_eq!(pad4(0), 0);
    assert_eq!(pad4(1), 4);
    assert_eq!(pad4(4), 4);
    assert_eq!(pad4(1_200_001), 1_200_004);
}

#[test]
fn params_writer_encodes_words_little_endian() {
    let mut w = ParamsWriter::new(Rect::new(1, 2, 0x0304, 0x0506_0708), 6);
    w.indexing(9, 10, 0x0102_0304, 800);
    w.planes(11, 12, 13);
    let data = w.finish();
    assert_eq!(&data[0..4], &[1, 0, 0, 0]);
    assert_eq!(&data[8..12], &[4, 3, 0, 0]);
    assert_eq!(&data[12..16], &[8, 7, 6, 5]);
    assert_eq!(&data[16..20], &[9, 0, 0, 0]);
    assert_eq!(&data[24..28], &[4, 3, 2, 1]);
    assert_eq!(&data[28..32], &[0x20, 3, 0, 0]);
    assert_eq!(&data[32..36], &[6, 0, 0, 0]);
    assert_eq!(&data[44..48], &[13, 0, 0, 0]);
}

#[test]
fn boundary_inputs_of_the_upload_helpers() {
    // An odd x one past an even bound widens to a zero-width rect at the bound.
    assert_eq!(expand_even(Rect::new(5, 0, 1, 1), 4, 4), Rect::new(4, 0, 0, 2));
    // An empty span still plans an aligned (possibly empty) window.
    let bytes: Vec<u8> = (0..8).collect();
    let s = softblit::upload::plan_span(&bytes, 4, 4);
    assert_eq!((s.offset, s.len), (4, 0));
    let s = softblit::upload::plan_span(&bytes, 5, 5);
    assert_eq!((s.offset, s.len), (4, 4));
    // Expansion reads only inside the frame; a longer buffer is accepted.
    let mut out = Vec::new();
    expand_rect_to_rgba(&[0x80, 0xff, 9, 9, 9], PixelFormat::Gray8, 2, 1, Rect::new(1, 0, 1, 1), &mut out);
    assert_eq!(out, vec![0xff, 0xff, 0xff, 255]);
}

#[test]
fn swapchain_format_and_alpha_choice() {
    assert_eq!(choose_surface_format(&[true, false, false]), 1);
    assert_eq!(choose_surface_format(&[true, true]), 0);
    assert_eq!(choose_surface_format(&[false]), 0);
    assert_eq!(choose_alpha_mode(&[false, false, true]), 2);
    assert_eq!(choose_alpha_mode(&[false, false]), 0);
}

#[test]
fn empty_rect_of_a_direct_format_expands_to_nothing() {
    let mut out = vec![1u8, 2, 3];
    expand_rect_to_rgba(&[0u8; 16], PixelFormat::Rgba8, 2, 2, Rect::new(1, 1, 0, 1), &mut out);
    assert!(out.is_empty());
}
