//! The descriptor of a GPU texture shared between this renderer and a native compositor.
use vstd::prelude::*;

verus! {

/// Pixel layout of the shared texture. Only BGRA8 is wired up.
#[derive(Clone, Copy, Debug, PartialEq, Eq, Structural)]
pub enum SharedFormat {
    Bgra8Unorm,
}

/// How producer and consumer serialize access to the shared texture.
///
/// The keys are the consumer's: it acquires `consumer_acquire_key` and releases
/// `consumer_release_key`; the producer mirrors them.
#[derive(Clone, Copy, Debug, PartialEq, Eq, Structural)]
pub enum SyncKind {
    KeyedMutex { consumer_acquire_key: u64, consumer_release_key: u64 },
    /// A shared D3D12 fence (imported by the consumer as a semaphore); `fence_handle` is a
    /// shared NT handle.
    D3D12Fence { fence_handle: isize },
    /// A pair of exported binary Vulkan semaphores; `memory_size` is the exported image's memory
    /// requirement, which the importer checks.
    VulkanSemaphore { memory_size: u64, render_finished_handle: isize, image_available_handle: isize },
}

/// Everything the consumer needs to import the shared texture; `handle` is a raw OS handle
/// value.
#[derive(Clone, Copy, Debug, PartialEq, Eq, Structural)]
pub struct SharedHandle {
    pub handle: isize,
    pub width: u32,
    pub height: u32,
    pub format: SharedFormat,
    pub sync: SyncKind,
}

} // verus!
