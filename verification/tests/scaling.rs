use softblit::ScalingMode;

fn ndc(mode: ScalingMode, source: (u32, u32), target: (u32, u32)) -> (f32, f32) {
    let (x, y) = mode.ndc_extent(source, target);
    (x.num as f32 / x.den as f32, y.num as f32 / y.den as f32)
}

fn close(a: (f32, f32), b: (f32, f32)) -> bool {
    (a.0 - b.0).abs() < 1e-5 && (a.1 - b.1).abs() < 1e-5
}

#[test]
fn stretch_covers_surface() {
    assert!(close(
        ndc(ScalingMode::Stretch, (800, 500), (1024, 640)),
        (1.0, 1.0)
    ));
}

#[test]
fn fit_letterboxes_wide_target() {
    // 100x100 source on 200x100 target: height-limited, half-width quad.
    assert!(close(
        ndc(ScalingMode::Fit, (100, 100), (200, 100)),
        (0.5, 1.0)
    ));
}

#[test]
fn fill_crops_wide_target() {
    // Same shapes under Fill: width-limited, quad overflows vertically.
    assert!(close(
        ndc(ScalingMode::Fill, (100, 100), (200, 100)),
        (1.0, 2.0)
    ));
}

#[test]
fn integer_floors_scale() {
    // 100x100 in 250x230 -> 2x -> 200x230ths by 200x230ths.
    assert!(close(
        ndc(ScalingMode::Integer, (100, 100), (250, 230)),
        (200.0 / 250.0, 200.0 / 230.0)
    ));
}

#[test]
fn integer_minimum_is_one() {
    // Source larger than target still renders at 1x (cropped).
    assert!(close(
        ndc(ScalingMode::Integer, (400, 400), (200, 200)),
        (2.0, 2.0)
    ));
}

#[test]
fn native_1x_is_exact() {
    assert!(close(
        ndc(ScalingMode::Native1x, (800, 500), (1600, 1000)),
        (0.5, 0.5)
    ));
}

#[test]
fn exact_extents() {
    let (x, y) = ScalingMode::Fit.ndc_extent((800, 500), (1000, 1000));
    assert_eq!((x.num, x.den, y.num, y.den), (1, 1, 500 * 1000, 800 * 1000));
    let (x, y) = ScalingMode::Fill.ndc_extent((800, 500), (1000, 1000));
    assert_eq!((x.num, x.den, y.num, y.den), (800 * 1000, 500 * 1000, 1, 1));
    // Zero sizes count as one pixel.
    let (x, y) = ScalingMode::Native1x.ndc_extent((0, 0), (0, 4));
    assert_eq!((x.num, x.den, y.num, y.den), (1, 1, 1, 4));
    assert!(ScalingMode::Fit.filter_linear());
    assert!(ScalingMode::Stretch.filter_linear());
    assert!(!ScalingMode::Integer.filter_linear());
    assert!(!ScalingMode::Native1x.filter_linear());
}
