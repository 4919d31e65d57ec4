use softblit::ffi::{
    rects_from_quads, share_info_from, Backend, BackendFfi, ErrFfi, FfiError, PixelFormatFfi,
    PresentStatsFfi, ScalingModeFfi, SyncKindFfi,
};
use softblit::native::{SharedFormat, SharedHandle, SyncKind};
use softblit::{Error, PixelFormat, PresentStats, Rect, ScalingMode};

#[test]
fn share_info_carries_only_its_sync_fields() {
    let info = share_info_from(SharedHandle {
        handle: 42,
        width: 800,
        height: 600,
        format: SharedFormat::Bgra8Unorm,
        sync: SyncKind::KeyedMutex {
            consumer_acquire_key: 1,
            consumer_release_key: 0,
        },
    });
    assert_eq!((info.handle, info.width, info.height, info.format), (42, 800, 600, 0));
    assert_eq!(info.sync_kind, SyncKindFfi::KeyedMutex);
    assert_eq!((info.consumer_acquire_key, info.consumer_release_key), (1, 0));
    assert_eq!((info.fence_handle, info.memory_size), (0, 0));

    let info = share_info_from(SharedHandle {
        handle: 7,
        width: 1,
        height: 2,
        format: SharedFormat::Bgra8Unorm,
        sync: SyncKind::VulkanSemaphore {
            memory_size: 4096,
            render_finished_handle: 11,
            image_available_handle: 12,
        },
    });
    assert_eq!(info.sync_kind, SyncKindFfi::VulkanSemaphore);
    assert_eq!(
        (info.memory_size, info.render_finished_handle, info.image_available_handle),
        (4096, 11, 12)
    );
    assert_eq!(info.consumer_acquire_key, 0);

    let info = share_info_from(SharedHandle {
        handle: 3,
        width: 1,
        height: 1,
        format: SharedFormat::Bgra8Unorm,
        sync: SyncKind::D3D12Fence { fence_handle: 99 },
    });
    assert_eq!(info.sync_kind, SyncKindFfi::D3D12Fence);
    assert_eq!(info.fence_handle, 99);
    assert_eq!(info.render_finished_handle, 0);
}

#[test]
fn quads_become_rects() {
    assert_eq!(
        rects_from_quads(&[1, 2, 3, 4, 5, 6, 7, 8]).unwrap(),
        vec![Rect::new(1, 2, 3, 4), Rect::new(5, 6, 7, 8)]
    );
    assert_eq!(rects_from_quads(&[]).unwrap(), vec![]);
    assert_eq!(rects_from_quads(&[1, 2, 3]), Err(ErrFfi::InvalidRect));
}

#[test]
fn conversions() {
    assert_eq!(PixelFormat::from(PixelFormatFfi::Rgb565), PixelFormat::Rgb565);
    assert_eq!(PixelFormat::from(PixelFormatFfi::I420), PixelFormat::I420);
    assert_eq!(ScalingMode::from(ScalingModeFfi::Native1x), ScalingMode::Native1x);
    assert_eq!(Backend::from(BackendFfi::D3D12), Backend::D3D12);
    assert_eq!(ErrFfi::from(FfiError::SurfaceLost), ErrFfi::SurfaceLost);
    assert_eq!(
        FfiError::from(&Error::WebGpuUnavailable { reason: "none".to_owned() }),
        FfiError::NoAdapter
    );
    assert_eq!(
        FfiError::from(&Error::BufferSizeMismatch { expected: 1, actual: 2 }),
        FfiError::BufferSizeMismatch
    );
    let stats = PresentStatsFfi::from(PresentStats {
        rects_uploaded: 3,
        bytes_uploaded: 99,
        skipped: false,
    });
    assert_eq!((stats.rects_uploaded, stats.bytes_uploaded, stats.skipped), (3, 99, false));
}
