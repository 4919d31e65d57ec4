use softblit::format::PackedKind;
use softblit::PixelFormat;

#[test]
fn frame_len_interleaved() {
    assert_eq!(PixelFormat::Rgb24.frame_len(800, 500), 800 * 500 * 3);
    assert_eq!(PixelFormat::Gray8.frame_len(7, 3), 21);
    assert_eq!(PixelFormat::Rgb565.frame_len(4, 4), 32);
}

#[test]
fn frame_len_i420() {
    // Even dimensions: w*h * 1.5.
    assert_eq!(PixelFormat::I420.frame_len(800, 500), 800 * 500 * 3 / 2);
    // Odd dimensions round chroma planes up.
    assert_eq!(PixelFormat::I420.frame_len(5, 3), 15 + 2 * (3 * 2));
}

#[test]
fn bytes_per_pixel_of_every_format() {
    assert_eq!(PixelFormat::Rgba8.bytes_per_pixel(), Some(4));
    assert_eq!(PixelFormat::Bgrx8.bytes_per_pixel(), Some(4));
    assert_eq!(PixelFormat::Bgr24.bytes_per_pixel(), Some(3));
    assert_eq!(PixelFormat::Rgb555.bytes_per_pixel(), Some(2));
    assert_eq!(PixelFormat::Gray16.bytes_per_pixel(), Some(2));
    assert_eq!(PixelFormat::Gray8.bytes_per_pixel(), Some(1));
    assert_eq!(PixelFormat::I420.bytes_per_pixel(), None);
}

#[test]
fn format_classes() {
    assert!(!PixelFormat::Rgba8.force_opaque());
    assert!(!PixelFormat::Bgra8.force_opaque());
    assert!(PixelFormat::Rgbx8.force_opaque());
    assert!(PixelFormat::Rgb24.force_opaque());
    assert_eq!(PixelFormat::Bgra8.packed_kind(), None);
    assert_eq!(
        PixelFormat::Rgb24.packed_kind(),
        Some(PackedKind::Interleaved { bytes_per_pixel: 3 })
    );
    assert_eq!(
        PixelFormat::Gray16.packed_kind(),
        Some(PackedKind::Interleaved { bytes_per_pixel: 2 })
    );
    assert_eq!(PixelFormat::I420.packed_kind(), Some(PackedKind::Planar420));
    assert_eq!(PixelFormat::Rgb24.shader_id(), 0);
    assert_eq!(PixelFormat::Gray16.shader_id(), 5);
    assert_eq!(PixelFormat::I420.shader_id(), 6);
    assert_eq!(PixelFormat::Rgbx8.shader_id(), u32::MAX);
}
