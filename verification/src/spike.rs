//! The flat import descriptor that the shared-surface producer hands to a C caller.
use vstd::prelude::*;

use crate::native::{SharedHandle, SyncKind};

verus! {

/// Descriptor the consumer needs to import the shared texture, as flat integer fields.
#[derive(Clone, Copy, Debug, PartialEq, Eq, Structural)]
pub struct ShareInfo {
    /// Keyed mutex / D3D12: shared texture/resource handle. Vulkan: exported image memory
    /// handle.
    pub handle: isize,
    pub width: u32,
    pub height: u32,
    /// 0 = BGRA8Unorm.
    pub format: u32,
    /// 0 = keyed mutex, 1 = D3D12 fence, 2 = Vulkan binary semaphores.
    pub sync_kind: u32,
    /// Keyed mutex: key the consumer acquires. Otherwise 0.
    pub consumer_acquire_key: u64,
    /// Keyed mutex: key the consumer releases. Otherwise 0.
    pub consumer_release_key: u64,
    /// D3D12: shared handle of the fence. Otherwise 0.
    pub fence_handle: isize,
    /// Vulkan: exported image memory size. Otherwise 0.
    pub memory_size: u64,
    /// Vulkan: handle of the "render finished" semaphore (the compositor waits on it).
    pub render_finished_handle: isize,
    /// Vulkan: handle of the "image available" semaphore (the compositor signals it).
    pub image_available_handle: isize,
}

/// The descriptor of `h`: the fields of its synchronization kind set, all others zero.
pub open spec fn spec_share_info(h: SharedHandle) -> ShareInfo {
    let base = ShareInfo {
        handle: h.handle,
        width: h.width,
        height: h.height,
        format: 0,
        sync_kind: 0,
        consumer_acquire_key: 0,
        consumer_release_key: 0,
        fence_handle: 0,
        memory_size: 0,
        render_finished_handle: 0,
        image_available_handle: 0,
    };
    match h.sync {
        SyncKind::KeyedMutex { consumer_acquire_key, consumer_release_key } => ShareInfo {
            sync_kind: 0,
            consumer_acquire_key,
            consumer_release_key,
            ..base
        },
        SyncKind::D3D12Fence { fence_handle } => ShareInfo { sync_kind: 1, fence_handle, ..base },
        SyncKind::VulkanSemaphore { memory_size, render_finished_handle, image_available_handle } =>
            ShareInfo {
            sync_kind: 2,
            memory_size,
            render_finished_handle,
            image_available_handle,
            ..base
        },
    }
}

/// Writes the import descriptor of `h` into `out`, overwriting every field.
pub fn fill_share_info(h: SharedHandle, out: &mut ShareInfo)
    ensures
        *final(out) == spec_share_info(h),
{
    out.handle = h.handle;
    out.width = h.width;
    out.height = h.height;
    out.format = 0;
    out.consumer_acquire_key = 0;
    out.consumer_release_key = 0;
    out.fence_handle = 0;
    out.memory_size = 0;
    out.render_finished_handle = 0;
    out.image_available_handle = 0;
    match h.sync {
        SyncKind::KeyedMutex { consumer_acquire_key, consumer_release_key } => {
            out.sync_kind = 0;
            out.consumer_acquire_key = consumer_acquire_key;
            out.consumer_release_key = consumer_release_key;
        },
        SyncKind::D3D12Fence { fence_handle } => {
            out.sync_kind = 1;
            out.fence_handle = fence_handle;
        },
        SyncKind::VulkanSemaphore { memory_size, render_finished_handle, image_available_handle } => {
            out.sync_kind = 2;
            out.memory_size = memory_size;
            out.render_finished_handle = render_finished_handle;
            out.image_available_handle = image_available_handle;
        },
    }
}

} // verus!
