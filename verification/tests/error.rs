use softblit::{Error, Rect};

#[test]
fn error_messages() {
    assert_eq!(
        Error::WebGpuUnavailable { reason: "no adapter".to_owned() }.to_string(),
        "WebGPU is unavailable: no adapter"
    );
    assert_eq!(Error::SurfaceLost.to_string(), "presentation surface lost; recreate the Surface");
    assert_eq!(
        Error::InvalidRect { rect: Rect::new(3, 40, 10, 205), bounds: (100, 0) }.to_string(),
        "dirty rect 10x205@(3,40) exceeds framebuffer bounds 100x0"
    );
    assert_eq!(
        Error::BufferSizeMismatch { expected: 1_234_567, actual: 0 }.to_string(),
        "framebuffer byte size mismatch: expected 1234567, got 0"
    );
    assert_eq!(Error::Device { reason: String::new() }.to_string(), "device error: ");
    assert_eq!(
        Error::InvalidRect { rect: Rect::new(u32::MAX, 9, 10, 1), bounds: (4294967295, 10) }.to_string(),
        "dirty rect 10x1@(4294967295,9) exceeds framebuffer bounds 4294967295x10"
    );
}
