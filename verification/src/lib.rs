//! # softblit: format-aware framebuffer presentation
//!
//! Presents CPU-produced framebuffers (remote desktop clients, emulators, software renderers)
//! with the minimum number of copies. This crate holds the presentation engine's decisions:
//! pixel formats and frame layouts, dirty-rect clipping and coalescing, scaling geometry, the
//! upload plan of each present (direct texture writes, CPU-expanded rects, storage-buffer spans
//! and gathers with their unpack parameters), the surface state machine, and the owned
//! framebuffer with its dirty tracker. The GPU work that executes a plan lives with the caller.
use vstd::prelude::*;

pub mod demo;
pub mod error;
pub mod expand;
pub mod ffi;
pub mod format;
pub mod gpu;
pub mod native;
pub mod plan;
pub mod rect;
pub mod scaling;
pub mod spike;
pub mod surface;
pub mod upload;

pub use error::Error;
pub use format::PixelFormat;
pub use rect::Rect;
pub use scaling::ScalingMode;

verus! {

/// Initial configuration of a surface.
#[derive(Clone, Copy, Debug)]
pub struct SurfaceDescriptor {
    /// Source framebuffer size in pixels (e.g. the remote desktop resolution).
    pub source_size: (u32, u32),
    /// Source pixel format.
    pub format: PixelFormat,
    /// How the source maps onto the presentation surface.
    pub scaling: ScalingMode,
}

/// What one present call did.
#[derive(Clone, Copy, Debug, Default)]
pub struct PresentStats {
    /// Dirty rects uploaded after coalescing.
    pub rects_uploaded: u32,
    /// Bytes copied from the framebuffer toward the GPU.
    pub bytes_uploaded: u64,
    /// True when there was nothing to upload and no pending redraw: the call was a no-op.
    pub skipped: bool,
}

} // verus!
