# softblit

Presents CPU-produced framebuffers (remote desktop clients, emulators, software renderers)
through a persistent GPU texture, uploading only what changed and nothing twice.

The library (`src/`) is written in Verus and holds every decision of the presentation engine,
each with a contract that Verus proves:

| Module | Contents |
|---|---|
| `format` | pixel formats, frame layouts, unpack-pass ids |
| `rect` | dirty rects: clipping, union, coalescing to a fixpoint, bounding-box collapse; its laws |
| `scaling` | exact destination extents of the five scaling modes |
| `upload` | gather heuristic, even-coordinate expansion, aligned spans, unpack parameter blocks |
| `expand` | CPU expansion of packed formats to RGBA (adapters without compute shaders) |
| `gpu` | the surface state machine: source layout, target, overlay, redraw, texture acquisition |
| `plan` | the upload plan of one present, its upload-fidelity and damage laws |
| `surface` | the owned framebuffer, its dirty tracker, and the two presentation paths |
| `error` | errors and their messages |
| `ffi`, `native`, `spike` | flat descriptors and conversions for native hosts |
| `demo` | the demo workload's painting |

The CPU expansion of I420 (used on adapters without compute shaders) evaluates the BT.601
formula exactly, in thousandths; the GPU unpack shader evaluates it in `f32`. On the few inputs
where the exact value sits on a channel boundary the two can differ by one unit on that channel
(for example Y = 14, Cb = 128, Cr = 246: red 186 on the CPU, 185 in `f32`).

`app/` carries the plans out on wgpu (swapchain, pipelines, WGSL shaders, uploads, unpack
dispatches, blit, cursor overlay) and holds the browser demo's entry points. `tests/` runs the
library on concrete values.

Not here: the Windows shared-texture backends (D3D11 keyed mutex, D3D12 fence, Vulkan
semaphores), the C-ABI producer built on them, and the generated C# bridge over a
shared-texture surface. They are platform GPU interop through `unsafe` foreign calls; what
of them is plain data (the shared-handle descriptors, their flat import forms, the format,
scaling and error conversions, the dirty-quad decoding) is in `native`, `spike` and `ffi`.
