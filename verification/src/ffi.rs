//! Plain values that cross a C-style boundary: flat mirrors of the library's enums and structs,
//! the shared-texture descriptor, and their conversions.
use vstd::prelude::*;

use crate::error::Error;
use crate::format::PixelFormat;
use crate::native::{SharedHandle, SyncKind};
use crate::rect::Rect;
use crate::scaling::ScalingMode;
use crate::PresentStats;

verus! {

/// Source pixel format; mirrors [`PixelFormat`].
#[derive(Clone, Copy, Debug, PartialEq, Eq, Structural)]
pub enum PixelFormatFfi {
    Rgba8,
    Bgra8,
    Rgbx8,
    Bgrx8,
    Rgb24,
    Bgr24,
    Rgb565,
    Rgb555,
    Gray8,
    Gray16,
    I420,
}

/// How the source maps onto the presentation surface; mirrors [`ScalingMode`].
#[derive(Clone, Copy, Debug, PartialEq, Eq, Structural)]
pub enum ScalingModeFfi {
    Fit,
    Fill,
    Stretch,
    Integer,
    Native1x,
}

/// Platform sharing backend to allocate.
#[derive(Clone, Copy, Debug, PartialEq, Eq, Structural)]
pub enum BackendFfi {
    Vulkan,
    D3D11,
    D3D12,
}

/// Which platform sharing backend to allocate. Vulkan is the default; the D3D backends target
/// discrete GPUs.
#[derive(Clone, Copy, Debug, PartialEq, Eq, Structural)]
pub enum Backend {
    Vulkan,
    D3D11,
    D3D12,
}

/// Which cross-API sync primitive the consumer must drive; selects which fields of
/// [`ShareInfoFfi`] are meaningful.
#[derive(Clone, Copy, Debug, PartialEq, Eq, Structural)]
pub enum SyncKindFfi {
    /// D3D11 keyed mutex: `consumer_acquire_key` / `consumer_release_key`.
    KeyedMutex,
    /// Shared D3D12 fence (imported as a semaphore): `fence_handle`.
    D3D12Fence,
    /// Exported Vulkan memory + two binary semaphores: `memory_size`, `render_finished_handle`,
    /// `image_available_handle`; `handle` is the image memory handle.
    VulkanSemaphore,
}

/// Failure discriminator across the boundary.
#[derive(Clone, Copy, Debug, PartialEq, Eq, Structural)]
pub enum ErrFfi {
    NoAdapter,
    Unsupported,
    Platform,
    InvalidRect,
    BufferSizeMismatch,
    SurfaceLost,
    Device,
}

/// Why creating or driving a shared surface failed; a flat discriminator.
#[derive(Clone, Copy, Debug, PartialEq, Eq, Structural)]
pub enum FfiError {
    NoAdapter,
    Unsupported,
    Platform,
    InvalidRect,
    BufferSizeMismatch,
    SurfaceLost,
    Device,
}

/// Everything the consumer needs to import the shared texture. `handle` is the shared-texture
/// handle (keyed mutex / D3D12) or the exported image-memory handle (Vulkan); `sync_kind` says
/// which of the remaining fields apply (the others are 0).
#[derive(Clone, Copy, Debug, PartialEq, Eq, Structural)]
pub struct ShareInfoFfi {
    pub handle: isize,
    pub width: u32,
    pub height: u32,
    /// 0 = BGRA8Unorm.
    pub format: u32,
    pub sync_kind: SyncKindFfi,
    pub consumer_acquire_key: u64,
    pub consumer_release_key: u64,
    pub fence_handle: isize,
    pub memory_size: u64,
    pub render_finished_handle: isize,
    pub image_available_handle: isize,
}

/// What one present did; mirrors [`PresentStats`].
#[derive(Clone, Copy, Debug, PartialEq, Eq, Structural)]
pub struct PresentStatsFfi {
    pub rects_uploaded: u32,
    pub bytes_uploaded: u64,
    pub skipped: bool,
}

pub open spec fn spec_format_from_ffi(f: PixelFormatFfi) -> PixelFormat {
    match f {
        PixelFormatFfi::Rgba8 => PixelFormat::Rgba8,
        PixelFormatFfi::Bgra8 => PixelFormat::Bgra8,
        PixelFormatFfi::Rgbx8 => PixelFormat::Rgbx8,
        PixelFormatFfi::Bgrx8 => PixelFormat::Bgrx8,
        PixelFormatFfi::Rgb24 => PixelFormat::Rgb24,
        PixelFormatFfi::Bgr24 => PixelFormat::Bgr24,
        PixelFormatFfi::Rgb565 => PixelFormat::Rgb565,
        PixelFormatFfi::Rgb555 => PixelFormat::Rgb555,
        PixelFormatFfi::Gray8 => PixelFormat::Gray8,
        PixelFormatFfi::Gray16 => PixelFormat::Gray16,
        PixelFormatFfi::I420 => PixelFormat::I420,
    }
}

impl From<PixelFormatFfi> for PixelFormat {
    fn from(f: PixelFormatFfi) -> (r: PixelFormat) {
        match f {
            PixelFormatFfi::Rgba8 => PixelFormat::Rgba8,
            PixelFormatFfi::Bgra8 => PixelFormat::Bgra8,
            PixelFormatFfi::Rgbx8 => PixelFormat::Rgbx8,
            PixelFormatFfi::Bgrx8 => PixelFormat::Bgrx8,
            PixelFormatFfi::Rgb24 => PixelFormat::Rgb24,
            PixelFormatFfi::Bgr24 => PixelFormat::Bgr24,
            PixelFormatFfi::Rgb565 => PixelFormat::Rgb565,
            PixelFormatFfi::Rgb555 => PixelFormat::Rgb555,
            PixelFormatFfi::Gray8 => PixelFormat::Gray8,
            PixelFormatFfi::Gray16 => PixelFormat::Gray16,
            PixelFormatFfi::I420 => PixelFormat::I420,
        }
    }
}

impl vstd::std_specs::convert::FromSpecImpl<PixelFormatFfi> for PixelFormat {
    open spec fn obeys_from_spec() -> bool {
        true
    }

    open spec fn from_spec(v: PixelFormatFfi) -> PixelFormat {
        spec_format_from_ffi(v)
    }
}

pub open spec fn spec_scaling_from_ffi(s: ScalingModeFfi) -> ScalingMode {
    match s {
        ScalingModeFfi::Fit => ScalingMode::Fit,
        ScalingModeFfi::Fill => ScalingMode::Fill,
        ScalingModeFfi::Stretch => ScalingMode::Stretch,
        ScalingModeFfi::Integer => ScalingMode::Integer,
        ScalingModeFfi::Native1x => ScalingMode::Native1x,
    }
}

impl From<ScalingModeFfi> for ScalingMode {
    fn from(s: ScalingModeFfi) -> (r: ScalingMode) {
        match s {
            ScalingModeFfi::Fit => ScalingMode::Fit,
            ScalingModeFfi::Fill => ScalingMode::Fill,
            ScalingModeFfi::Stretch => ScalingMode::Stretch,
            ScalingModeFfi::Integer => ScalingMode::Integer,
            ScalingModeFfi::Native1x => ScalingMode::Native1x,
        }
    }
}

impl vstd::std_specs::convert::FromSpecImpl<ScalingModeFfi> for ScalingMode {
    open spec fn obeys_from_spec() -> bool {
        true
    }

    open spec fn from_spec(v: ScalingModeFfi) -> ScalingMode {
        spec_scaling_from_ffi(v)
    }
}

pub open spec fn spec_backend_from_ffi(b: BackendFfi) -> Backend {
    match b {
        BackendFfi::Vulkan => Backend::Vulkan,
        BackendFfi::D3D11 => Backend::D3D11,
        BackendFfi::D3D12 => Backend::D3D12,
    }
}

impl From<BackendFfi> for Backend {
    fn from(b: BackendFfi) -> (r: Backend) {
        match b {
            BackendFfi::Vulkan => Backend::Vulkan,
            BackendFfi::D3D11 => Backend::D3D11,
            BackendFfi::D3D12 => Backend::D3D12,
        }
    }
}

impl vstd::std_specs::convert::FromSpecImpl<BackendFfi> for Backend {
    open spec fn obeys_from_spec() -> bool {
        true
    }

    open spec fn from_spec(v: BackendFfi) -> Backend {
        spec_backend_from_ffi(v)
    }
}

pub open spec fn spec_err_from_ffi_error(e: FfiError) -> ErrFfi {
    match e {
        FfiError::NoAdapter => ErrFfi::NoAdapter,
        FfiError::Unsupported => ErrFfi::Unsupported,
        FfiError::Platform => ErrFfi::Platform,
        FfiError::InvalidRect => ErrFfi::InvalidRect,
        FfiError::BufferSizeMismatch => ErrFfi::BufferSizeMismatch,
        FfiError::SurfaceLost => ErrFfi::SurfaceLost,
        FfiError::Device => ErrFfi::Device,
    }
}

impl From<FfiError> for ErrFfi {
    fn from(e: FfiError) -> (r: ErrFfi) {
        match e {
            FfiError::NoAdapter => ErrFfi::NoAdapter,
            FfiError::Unsupported => ErrFfi::Unsupported,
            FfiError::Platform => ErrFfi::Platform,
            FfiError::InvalidRect => ErrFfi::InvalidRect,
            FfiError::BufferSizeMismatch => ErrFfi::BufferSizeMismatch,
            FfiError::SurfaceLost => ErrFfi::SurfaceLost,
            FfiError::Device => ErrFfi::Device,
        }
    }
}

impl vstd::std_specs::convert::FromSpecImpl<FfiError> for ErrFfi {
    open spec fn obeys_from_spec() -> bool {
        true
    }

    open spec fn from_spec(v: FfiError) -> ErrFfi {
        spec_err_from_ffi_error(v)
    }
}

pub open spec fn spec_ffi_error_from(e: &Error) -> FfiError {
    match e {
        Error::WebGpuUnavailable { .. } => FfiError::NoAdapter,
        Error::SurfaceLost => FfiError::SurfaceLost,
        Error::InvalidRect { .. } => FfiError::InvalidRect,
        Error::BufferSizeMismatch { .. } => FfiError::BufferSizeMismatch,
        Error::Device { .. } => FfiError::Device,
    }
}

impl<'a> From<&'a Error> for FfiError {
    fn from(e: &'a Error) -> (r: FfiError) {
        match e {
            Error::WebGpuUnavailable { .. } => FfiError::NoAdapter,
            Error::SurfaceLost => FfiError::SurfaceLost,
            Error::InvalidRect { .. } => FfiError::InvalidRect,
            Error::BufferSizeMismatch { .. } => FfiError::BufferSizeMismatch,
            Error::Device { .. } => FfiError::Device,
        }
    }
}

impl<'a> vstd::std_specs::convert::FromSpecImpl<&'a Error> for FfiError {
    open spec fn obeys_from_spec() -> bool {
        true
    }

    open spec fn from_spec(v: &'a Error) -> FfiError {
        spec_ffi_error_from(v)
    }
}

impl From<PresentStats> for PresentStatsFfi {
    fn from(s: PresentStats) -> (r: PresentStatsFfi) {
        PresentStatsFfi {
            rects_uploaded: s.rects_uploaded,
            bytes_uploaded: s.bytes_uploaded,
            skipped: s.skipped,
        }
    }
}

impl vstd::std_specs::convert::FromSpecImpl<PresentStats> for PresentStatsFfi {
    open spec fn obeys_from_spec() -> bool {
        true
    }

    open spec fn from_spec(v: PresentStats) -> PresentStatsFfi {
        PresentStatsFfi {
            rects_uploaded: v.rects_uploaded,
            bytes_uploaded: v.bytes_uploaded,
            skipped: v.skipped,
        }
    }
}

/// The import descriptor of a shared handle, flattened: the fields of the handle's sync kind
/// carry its values, the others are 0, and the format is 0 (BGRA8).
pub open spec fn spec_share_info_from(h: SharedHandle) -> ShareInfoFfi {
    let base = ShareInfoFfi {
        handle: h.handle,
        width: h.width,
        height: h.height,
        format: 0,
        sync_kind: SyncKindFfi::KeyedMutex,
        consumer_acquire_key: 0,
        consumer_release_key: 0,
        fence_handle: 0,
        memory_size: 0,
        render_finished_handle: 0,
        image_available_handle: 0,
    };
    match h.sync {
        SyncKind::KeyedMutex { consumer_acquire_key, consumer_release_key } => ShareInfoFfi {
            sync_kind: SyncKindFfi::KeyedMutex,
            consumer_acquire_key,
            consumer_release_key,
            ..base
        },
        SyncKind::D3D12Fence { fence_handle } => ShareInfoFfi {
            sync_kind: SyncKindFfi::D3D12Fence,
            fence_handle,
            ..base
        },
        SyncKind::VulkanSemaphore { memory_size, render_finished_handle, image_available_handle } =>
            ShareInfoFfi {
            sync_kind: SyncKindFfi::VulkanSemaphore,
            memory_size,
            render_finished_handle,
            image_available_handle,
            ..base
        },
    }
}

/// Flattens a shared handle into its import descriptor.
pub fn share_info_from(h: SharedHandle) -> (info: ShareInfoFfi)
    ensures
        info == spec_share_info_from(h),
{
    let mut info = ShareInfoFfi {
        handle: h.handle,
        width: h.width,
        height: h.height,
        format: 0,
        sync_kind: SyncKindFfi::KeyedMutex,
        consumer_acquire_key: 0,
        consumer_release_key: 0,
        fence_handle: 0,
        memory_size: 0,
        render_finished_handle: 0,
        image_available_handle: 0,
    };
    match h.sync {
        SyncKind::KeyedMutex { consumer_acquire_key, consumer_release_key } => {
            info.sync_kind = SyncKindFfi::KeyedMutex;
            info.consumer_acquire_key = consumer_acquire_key;
            info.consumer_release_key = consumer_release_key;
        },
        SyncKind::D3D12Fence { fence_handle } => {
            info.sync_kind = SyncKindFfi::D3D12Fence;
            info.fence_handle = fence_handle;
        },
        SyncKind::VulkanSemaphore { memory_size, render_finished_handle, image_available_handle } => {
            info.sync_kind = SyncKindFfi::VulkanSemaphore;
            info.memory_size = memory_size;
            info.render_finished_handle = render_finished_handle;
            info.image_available_handle = image_available_handle;
        },
    }
    info
}

/// The dirty rects of a flat `[x, y, w, h]` sequence; a length that is not a multiple of 4 is
/// refused with [`ErrFfi::InvalidRect`].
pub fn rects_from_quads(quads: &[u32]) -> (r: Result<Vec<Rect>, ErrFfi>)
    ensures
        quads@.len() % 4 != 0 <==> r is Err,
        r matches Err(e) ==> e == ErrFfi::InvalidRect,
        r matches Ok(rects) ==> rects@.len() * 4 == quads@.len() && forall|i: int|
            0 <= i < rects@.len() ==> #[trigger] rects@[i] == (Rect {
                x: quads@[4 * i],
                y: quads@[4 * i + 1],
                width: quads@[4 * i + 2],
                height: quads@[4 * i + 3],
            }),
{
    if quads.len() % 4 != 0 {
        return Err(ErrFfi::InvalidRect);
    }
    let len = quads.len();
    let n = len / 4;
    let mut rects: Vec<Rect> = Vec::new();
    let mut i: usize = 0;
    while i < n
        invariant
            i <= n,
            n * 4 == len,
            len == quads@.len(),
            rects@.len() == i,
            forall|j: int|
                0 <= j < i ==> #[trigger] rects@[j] == (Rect {
                    x: quads@[4 * j],
                    y: quads@[4 * j + 1],
                    width: quads@[4 * j + 2],
                    height: quads@[4 * j + 3],
                }),
        decreases n - i,
    {
        let b = 4 * i;
        rects.push(Rect::new(quads[b], quads[b + 1], quads[b + 2], quads[b + 3]));
        i += 1;
    }
    Ok(rects)
}

/// Every FFI format names a distinct library format and every library format has an FFI name:
/// the conversion is a bijection.
pub proof fn lemma_format_from_ffi_bijective(a: PixelFormatFfi, b: PixelFormatFfi, f: PixelFormat)
    ensures
        spec_format_from_ffi(a) == spec_format_from_ffi(b) ==> a == b,
        exists|c: PixelFormatFfi| spec_format_from_ffi(c) == f,
{
    let c = match f {
        PixelFormat::Rgba8 => PixelFormatFfi::Rgba8,
        PixelFormat::Bgra8 => PixelFormatFfi::Bgra8,
        PixelFormat::Rgbx8 => PixelFormatFfi::Rgbx8,
        PixelFormat::Bgrx8 => PixelFormatFfi::Bgrx8,
        PixelFormat::Rgb24 => PixelFormatFfi::Rgb24,
        PixelFormat::Bgr24 => PixelFormatFfi::Bgr24,
        PixelFormat::Rgb565 => PixelFormatFfi::Rgb565,
        PixelFormat::Rgb555 => PixelFormatFfi::Rgb555,
        PixelFormat::Gray8 => PixelFormatFfi::Gray8,
        PixelFormat::Gray16 => PixelFormatFfi::Gray16,
        PixelFormat::I420 => PixelFormatFfi::I420,
    };
    assert(spec_format_from_ffi(c) == f);
}

/// Likewise for scaling modes.
pub proof fn lemma_scaling_from_ffi_bijective(a: ScalingModeFfi, b: ScalingModeFfi, s: ScalingMode)
    ensures
        spec_scaling_from_ffi(a) == spec_scaling_from_ffi(b) ==> a == b,
        exists|c: ScalingModeFfi| spec_scaling_from_ffi(c) == s,
{
    let c = match s {
        ScalingMode::Fit => ScalingModeFfi::Fit,
        ScalingMode::Fill => ScalingModeFfi::Fill,
        ScalingMode::Stretch => ScalingModeFfi::Stretch,
        ScalingMode::Integer => ScalingModeFfi::Integer,
        ScalingMode::Native1x => ScalingModeFfi::Native1x,
    };
    assert(spec_scaling_from_ffi(c) == s);
}

impl PixelFormatFfi {
    /// The variant's name.
    pub open spec fn name(self) -> Seq<char> {
        match self {
            PixelFormatFfi::Rgba8 => "Rgba8"@,
            PixelFormatFfi::Bgra8 => "Bgra8"@,
            PixelFormatFfi::Rgbx8 => "Rgbx8"@,
            PixelFormatFfi::Bgrx8 => "Bgrx8"@,
            PixelFormatFfi::Rgb24 => "Rgb24"@,
            PixelFormatFfi::Bgr24 => "Bgr24"@,
            PixelFormatFfi::Rgb565 => "Rgb565"@,
            PixelFormatFfi::Rgb555 => "Rgb555"@,
            PixelFormatFfi::Gray8 => "Gray8"@,
            PixelFormatFfi::Gray16 => "Gray16"@,
            PixelFormatFfi::I420 => "I420"@,
        }
    }
}

impl ScalingModeFfi {
    /// The variant's name.
    pub open spec fn name(self) -> Seq<char> {
        match self {
            ScalingModeFfi::Fit => "Fit"@,
            ScalingModeFfi::Fill => "Fill"@,
            ScalingModeFfi::Stretch => "Stretch"@,
            ScalingModeFfi::Integer => "Integer"@,
            ScalingModeFfi::Native1x => "Native1x"@,
        }
    }
}

impl BackendFfi {
    /// The variant's name.
    pub open spec fn name(self) -> Seq<char> {
        match self {
            BackendFfi::Vulkan => "Vulkan"@,
            BackendFfi::D3D11 => "D3D11"@,
            BackendFfi::D3D12 => "D3D12"@,
        }
    }
}

impl Backend {
    /// The variant's name.
    pub open spec fn name(self) -> Seq<char> {
        match self {
            Backend::Vulkan => "Vulkan"@,
            Backend::D3D11 => "D3D11"@,
            Backend::D3D12 => "D3D12"@,
        }
    }
}

impl FfiError {
    /// The variant's name.
    pub open spec fn name(self) -> Seq<char> {
        match self {
            FfiError::NoAdapter => "NoAdapter"@,
            FfiError::Unsupported => "Unsupported"@,
            FfiError::Platform => "Platform"@,
            FfiError::InvalidRect => "InvalidRect"@,
            FfiError::BufferSizeMismatch => "BufferSizeMismatch"@,
            FfiError::SurfaceLost => "SurfaceLost"@,
            FfiError::Device => "Device"@,
        }
    }
}

impl ErrFfi {
    /// The variant's name.
    pub open spec fn name(self) -> Seq<char> {
        match self {
            ErrFfi::NoAdapter => "NoAdapter"@,
            ErrFfi::Unsupported => "Unsupported"@,
            ErrFfi::Platform => "Platform"@,
            ErrFfi::InvalidRect => "InvalidRect"@,
            ErrFfi::BufferSizeMismatch => "BufferSizeMismatch"@,
            ErrFfi::SurfaceLost => "SurfaceLost"@,
            ErrFfi::Device => "Device"@,
        }
    }
}

/// The boundary mirrors the library: every FFI pixel format converts to the library format of
/// the same name (and so the same byte layout).
pub proof fn lemma_format_from_ffi_keeps_name(f: PixelFormatFfi)
    ensures
        spec_format_from_ffi(f).name() == f.name(),
{
}

/// Every FFI scaling mode converts to the library mode of the same name.
pub proof fn lemma_scaling_from_ffi_keeps_name(s: ScalingModeFfi)
    ensures
        spec_scaling_from_ffi(s).name() == s.name(),
{
}

/// Every FFI backend converts to the backend of the same name.
pub proof fn lemma_backend_from_ffi_keeps_name(b: BackendFfi)
    ensures
        spec_backend_from_ffi(b).name() == b.name(),
{
}

/// Every error discriminator crosses the boundary under its own name.
pub proof fn lemma_err_from_ffi_error_keeps_name(e: FfiError)
    ensures
        spec_err_from_ffi_error(e).name() == e.name(),
{
}

} // verus!
