use softblit::native::{SharedFormat, SharedHandle, SyncKind};
use softblit::spike::{fill_share_info, ShareInfo};

fn blank() -> ShareInfo {
    ShareInfo {
        handle: -1,
        width: 9,
        height: 9,
        format: 9,
        sync_kind: 9,
        consumer_acquire_key: 9,
        consumer_release_key: 9,
        fence_handle: 9,
        memory_size: 9,
        render_finished_handle: 9,
        image_available_handle: 9,
    }
}

#[test]
fn share_info_overwrites_every_field() {
    let mut out = blank();
    let h = SharedHandle {
        handle: 77,
        width: 640,
        height: 480,
        format: SharedFormat::Bgra8Unorm,
        sync: SyncKind::D3D12Fence { fence_handle: 12 },
    };
    fill_share_info(h, &mut out);
    assert_eq!(
        out,
        ShareInfo {
            handle: 77,
            width: 640,
            height: 480,
            format: 0,
            sync_kind: 1,
            consumer_acquire_key: 0,
            consumer_release_key: 0,
            fence_handle: 12,
            memory_size: 0,
            render_finished_handle: 0,
            image_available_handle: 0,
        }
    );
    let h = SharedHandle {
        sync: SyncKind::KeyedMutex { consumer_acquire_key: 1, consumer_release_key: 0 },
        ..h
    };
    fill_share_info(h, &mut out);
    assert_eq!((out.sync_kind, out.consumer_acquire_key, out.consumer_release_key), (0, 1, 0));
    assert_eq!(out.fence_handle, 0);
    let h = SharedHandle {
        sync: SyncKind::VulkanSemaphore {
            memory_size: 4096,
            render_finished_handle: 5,
            image_available_handle: 6,
        },
        ..h
    };
    fill_share_info(h, &mut out);
    assert_eq!(out.sync_kind, 2);
    assert_eq!((out.memory_size, out.render_finished_handle, out.image_available_handle), (4096, 5, 6));
    assert_eq!((out.consumer_acquire_key, out.consumer_release_key), (0, 0));
}
