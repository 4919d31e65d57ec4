//! The upload plan of one present: which bytes go where, with which unpack parameters, and how
//! many bytes that costs.
use vstd::prelude::*;

use crate::error::Error;
use crate::expand::{bt601_channel, expand_pixel, expand_rect_to_rgba, i_chroma, le16, spec_expanded};
use crate::format::{half_up, PackedKind, PixelFormat};
use crate::gpu::{frame_ok, GpuState, SourceLayout, MAX_FRAME_BYTES};
use crate::rect::{
    all_good, coalesce, lemma_coalesce_laws, spec_coalesce, total_area, Rect, MAX_RECTS,
};
use crate::upload::{
    encode_words, expand_even, lemma_expand_even, pad4, plan_span, round_down4, span_content,
    span_data_content, spec_expand_even, spec_pad4, spec_should_gather, should_gather,
    ParamsWriter, SpanData, SpanUpload, UNPACK_UNIFORM_STRIDE,
};

verus! {

/// A texture write of one rect, read from the framebuffer at `offset` with the framebuffer's
/// own row stride.
#[derive(Debug)]
pub struct TextureWrite {
    pub rect: Rect,
    pub offset: usize,
    pub bytes_per_row: u32,
}

/// A texture write of one CPU-expanded rect (tight RGBA rows).
#[derive(Debug)]
pub struct ExpandedWrite {
    pub rect: Rect,
    pub rgba: Vec<u8>,
    pub bytes_per_row: u32,
}

/// One write into the packed storage buffer.
#[derive(Debug)]
pub enum BufferWrite {
    /// A 4-byte-aligned span of the framebuffer, written at its own offset.
    Span(SpanUpload),
    /// A rect's rows gathered tightly (zero-padded to 4 bytes), written into the buffer's tail
    /// at `offset`.
    Gathered { offset: u64, data: Vec<u8> },
}

/// One dispatch of the unpack pass: `params` sits at `uniform_offset` of the uniform buffer.
#[derive(Debug)]
pub struct UnpackDispatch {
    pub rect: Rect,
    pub params: [u8; 48],
    pub uniform_offset: u32,
    pub workgroups_x: u32,
    pub workgroups_y: u32,
}

/// How one present reaches the persistent texture.
#[derive(Debug)]
pub enum UploadPlan {
    /// One texture write per rect, straight from the framebuffer.
    Direct { writes: Vec<TextureWrite> },
    /// One texture write per CPU-expanded rect.
    Expanded { writes: Vec<ExpandedWrite> },
    /// Buffer writes, then one unpack dispatch per rect reading the uniform block. The storage
    /// buffer must first grow to `grow_to` bytes when that is `Some`.
    Packed {
        grow_to: Option<u64>,
        writes: Vec<BufferWrite>,
        dispatches: Vec<UnpackDispatch>,
        uniform: Vec<u8>,
    },
}

/// What a present must do.
#[derive(Debug)]
pub enum PresentPlan {
    /// Nothing dirty and no pending redraw: a no-op.
    Skip,
    /// Upload `rects` as `upload` says (nothing when `None`), then draw.
    Draw { rects: Vec<Rect>, upload: Option<UploadPlan>, bytes_uploaded: u64 },
}

// ---------------------------------------------------------------------------------------------
// Specification
// ---------------------------------------------------------------------------------------------

pub open spec fn span_start(r: Rect, bpp: int, stride: int) -> int {
    r.y * stride + r.x * bpp
}

pub open spec fn span_end(r: Rect, bpp: int, stride: int) -> int {
    (r.y + r.height - 1) * stride + (r.x + r.width) * bpp
}

/// `s` is the plan of the aligned widening of `bytes[start..end]`.
pub open spec fn span_is(s: SpanUpload, bytes: Seq<u8>, start: int, end: int) -> bool {
    &&& s.offset == round_down4(start)
    &&& s.len == spec_pad4(end) - round_down4(start)
    &&& span_data_content(bytes, s.data) == span_content(bytes, s.offset as int, s.offset + s.len)
    &&& (s.data is InPlace <==> spec_pad4(end) <= bytes.len())
    &&& (s.data matches SpanData::InPlace { start: a, end: b } ==> a == s.offset && b == s.offset
        + s.len)
    &&& (s.data matches SpanData::Padded { start: a, bytes: _ } ==> a == s.offset)
}

pub open spec fn gathered(r: Rect, bpp: int, sw: int) -> bool {
    spec_should_gather(r.width as int, r.height as int, bpp, sw * bpp)
}

pub open spec fn gather_size(r: Rect, bpp: int) -> int {
    spec_pad4(r.width * r.height * bpp)
}

/// Bytes of the buffer tail taken by the gathered rects among the first `i`.
pub open spec fn gather_prefix(rects: Seq<Rect>, bpp: int, sw: int, i: int) -> int
    decreases i,
{
    if i <= 0 {
        0
    } else {
        gather_prefix(rects, bpp, sw, i - 1) + if gathered(rects[i - 1], bpp, sw) {
            gather_size(rects[i - 1], bpp)
        } else {
            0
        }
    }
}

/// The rows of `r` gathered tightly, zero-padded to a multiple of 4.
pub open spec fn gather_content(bytes: Seq<u8>, r: Rect, bpp: int, stride: int) -> Seq<u8> {
    let rb = r.width * bpp;
    Seq::new(
        spec_pad4(rb * r.height) as nat,
        |k: int|
            if k < rb * r.height {
                bytes[(r.y + k / rb) * stride + r.x * bpp + k % rb]
            } else {
                0u8
            },
    )
}

/// Parameter words: rect, index origin, sample base and pitch, shader id, chroma planes.
pub open spec fn indexed_words(
    r: Rect,
    shader: u32,
    ox: u32,
    oy: u32,
    base: u32,
    pitch: u32,
) -> Seq<u32> {
    seq![r.x, r.y, r.width, r.height, 0u32, 0u32, 0u32, 0u32, shader, 0u32, 0u32, 0u32].update(
        4,
        ox,
    ).update(5, oy).update(6, base).update(7, pitch)
}

pub open spec fn dispatch_is(d: UnpackDispatch, r: Rect, words: Seq<u32>, i: int) -> bool {
    &&& d.rect == r
    &&& d.params@ == encode_words(words)
    &&& d.uniform_offset == 256 * i
    &&& d.workgroups_x == (r.width + 7) / 8
    &&& d.workgroups_y == (r.height + 7) / 8
}

pub open spec fn uniform_content(ds: Seq<UnpackDispatch>) -> Seq<u8> {
    Seq::new(
        (256 * ds.len()) as nat,
        |k: int| if k % 256 < 48 { ds[k / 256].params@[k % 256] } else { 0u8 },
    )
}

pub open spec fn write_len(w: BufferWrite) -> int {
    match w {
        BufferWrite::Span(s) => s.len as int,
        BufferWrite::Gathered { offset: _, data } => data@.len() as int,
    }
}

pub open spec fn writes_total(ws: Seq<BufferWrite>) -> int
    decreases ws.len(),
{
    if ws.len() == 0 {
        0
    } else {
        writes_total(ws.drop_last()) + write_len(ws.last())
    }
}

/// The buffer write of interleaved rect `r` whose gathered bytes (if any) go to `tail_offset`.
pub open spec fn interleaved_write_is(
    w: BufferWrite,
    bytes: Seq<u8>,
    r: Rect,
    bpp: int,
    sw: int,
    tail_offset: int,
) -> bool {
    if gathered(r, bpp, sw) {
        w matches BufferWrite::Gathered { offset, data } && offset == tail_offset && data@
            == gather_content(bytes, r, bpp, sw * bpp)
    } else {
        w matches BufferWrite::Span(s) && span_is(
            s,
            bytes,
            span_start(r, bpp, sw * bpp),
            span_end(r, bpp, sw * bpp),
        )
    }
}

pub open spec fn interleaved_words(r: Rect, shader: u32, bpp: int, sw: u32, tail_offset: int) -> Seq<
    u32,
> {
    if gathered(r, bpp, sw as int) {
        indexed_words(r, shader, r.x, r.y, tail_offset as u32, r.width)
    } else {
        indexed_words(r, shader, 0, 0, 0, sw)
    }
}

pub open spec fn luma_len(sw: int, sh: int) -> int {
    sw * sh
}

pub open spec fn chroma_len(sw: int, sh: int) -> int {
    half_up(sw) * half_up(sh)
}

/// Start and end (exclusive) of the bytes of plane `plane` (0 = Y, 1 = U, 2 = V) that rect `r`
/// covers.
pub open spec fn plane_span(r: Rect, sw: int, sh: int, plane: int) -> (int, int) {
    if plane == 0 {
        (r.y * sw + r.x, (r.y + r.height - 1) * sw + r.x + r.width)
    } else {
        let base = if plane == 1 {
            luma_len(sw, sh)
        } else {
            luma_len(sw, sh) + chroma_len(sw, sh)
        };
        let cw = half_up(sw);
        (
            base + (r.y / 2) * cw + r.x / 2,
            base + (half_up(r.y + r.height) - 1) * cw + half_up(r.x + r.width),
        )
    }
}

/// The buffer write of plane `p` of I420 rect `r`.
pub open spec fn planar_write_is(w: BufferWrite, bytes: Seq<u8>, r: Rect, sw: int, sh: int, p: int) -> bool {
    w matches BufferWrite::Span(sp) && span_is(
        sp,
        bytes,
        plane_span(r, sw, sh, p).0,
        plane_span(r, sw, sh, p).1,
    )
}

pub open spec fn planar_words(r: Rect, sw: u32, sh: u32) -> Seq<u32> {
    indexed_words(r, 6, 0, 0, 0, sw).update(9, luma_len(sw as int, sh as int) as u32).update(
        10,
        (luma_len(sw as int, sh as int) + chroma_len(sw as int, sh as int)) as u32,
    ).update(11, half_up(sw as int) as u32)
}

impl GpuState {
    pub open spec fn bpp(&self) -> int {
        self.format.spec_bytes_per_pixel().unwrap() as int
    }

    pub open spec fn frame_region(&self) -> int {
        spec_pad4(self.spec_frame_len())
    }

    /// The rects a present uploads: the dirty rects coalesced, then expanded to even
    /// coordinates for I420.
    pub open spec fn spec_present_rects(&self, dirty: Seq<Rect>) -> Seq<Rect> {
        let c = spec_coalesce(dirty, self.source_width, self.source_height);
        if self.format is I420 {
            Seq::new(
                c.len(),
                |i: int| spec_expand_even(c[i], self.source_width as int, self.source_height as int),
            )
        } else {
            c
        }
    }

    /// Widening the coalesced rects of `dirty` to even coordinates (I420) keeps their right
    /// and bottom edges, plus one, inside `u32`.
    pub open spec fn expansion_fits(&self, dirty: Seq<Rect>) -> bool {
        let c = spec_coalesce(dirty, self.source_width, self.source_height);
        self.format is I420 ==> forall|i: int|
            0 <= i < c.len() ==> (#[trigger] c[i]).spec_right() < u32::MAX && c[i].spec_bottom()
                < u32::MAX
    }

    /// What planning a present of `bytes_len` bytes with the damage `dirty` needs: the even
    /// widening fits, and when the bytes are a frame, so do the planned uploads.
    pub open spec fn can_plan_present(&self, bytes_len: int, dirty: Seq<Rect>) -> bool {
        &&& self.expansion_fits(dirty)
        &&& bytes_len == self.spec_frame_len() ==> self.upload_fits(self.spec_present_rects(dirty))
    }

    /// The planned uploads' offsets and row strides fit the `u32` fields they are given to.
    pub open spec fn upload_fits(&self, rects: Seq<Rect>) -> bool {
        rects.len() > 0 ==> match self.source {
            SourceLayout::Direct { cpu_expand: false } => self.source_width * self.bpp() <= u32::MAX,
            SourceLayout::Direct { cpu_expand: true } => forall|i: int|
                0 <= i < rects.len() ==> #[trigger] rects[i].width * 4 <= u32::MAX && rects[i].width
                    * rects[i].height * 4 <= usize::MAX,
            SourceLayout::Packed { capacity: _ } => if self.format is I420 {
                luma_len(self.source_width as int, self.source_height as int) + chroma_len(
                    self.source_width as int,
                    self.source_height as int,
                ) <= u32::MAX
            } else {
                &&& self.source_width * self.bpp() <= u32::MAX
                &&& forall|i: int|
                    0 <= i < rects.len() && gathered(#[trigger] rects[i], self.bpp(), self.source_width as int)
                        ==> self.frame_region() + gather_prefix(
                        rects,
                        self.bpp(),
                        self.source_width as int,
                        i,
                    ) <= u32::MAX
            },
        }
    }

    /// The packed buffer capacity after a present whose gathers need `gather_total` bytes:
    /// grown to `max(needed, capacity * 1.5)` when too small.
    pub open spec fn grown_capacity(&self, gather_total: int) -> Option<u64> {
        let needed = self.frame_region() + gather_total;
        match self.source {
            SourceLayout::Packed { capacity } => if capacity < needed {
                Some(
                    (if needed >= capacity + capacity / 2 {
                        needed
                    } else {
                        capacity + capacity / 2
                    }) as u64,
                )
            } else {
                None
            },
            _ => None,
        }
    }
}

/// `plan` is what a present of `rects` from `bytes` uploads, starting from state `s`.
pub open spec fn upload_plan_is(
    s: GpuState,
    bytes: Seq<u8>,
    rects: Seq<Rect>,
    plan: UploadPlan,
    bytes_uploaded: int,
) -> bool {
    let sw = s.source_width as int;
    let sh = s.source_height as int;
    match s.source {
        SourceLayout::Direct { cpu_expand: false } => {
            let bpp = s.bpp();
            &&& plan matches UploadPlan::Direct { writes }
            &&& writes@.len() == rects.len()
            &&& forall|i: int|
                0 <= i < rects.len() ==> {
                    let w = #[trigger] writes@[i];
                    &&& w.rect == rects[i]
                    &&& w.offset == span_start(rects[i], bpp, sw * bpp)
                    &&& w.bytes_per_row == sw * bpp
                }
            &&& bytes_uploaded == bpp * total_area(rects)
        },
        SourceLayout::Direct { cpu_expand: true } => {
            &&& plan matches UploadPlan::Expanded { writes }
            &&& writes@.len() == rects.len()
            &&& forall|i: int|
                0 <= i < rects.len() ==> {
                    let w = #[trigger] writes@[i];
                    &&& w.rect == rects[i]
                    &&& w.rgba@ == spec_expanded(bytes, s.format, sw, sh, rects[i])
                    &&& w.bytes_per_row == rects[i].width * 4
                }
            &&& bytes_uploaded == 4 * total_area(rects)
        },
        SourceLayout::Packed { capacity: _ } => {
            &&& plan matches UploadPlan::Packed { grow_to, writes, dispatches, uniform }
            &&& dispatches@.len() == rects.len()
            &&& uniform@ == uniform_content(dispatches@)
            &&& bytes_uploaded == writes_total(writes@)
            &&& if s.format is I420 {
                &&& grow_to == s.grown_capacity(0)
                &&& writes@.len() == 3 * rects.len()
                &&& forall|k: int|
                    0 <= k < 3 * rects.len() ==> planar_write_is(#[trigger] writes@[k], bytes, rects[k / 3], sw, sh, k % 3)
                &&& forall|i: int|
                    0 <= i < rects.len() ==> dispatch_is(
                        #[trigger] dispatches@[i],
                        rects[i],
                        planar_words(rects[i], s.source_width, s.source_height),
                        i,
                    )
            } else {
                let bpp = s.bpp();
                &&& grow_to == s.grown_capacity(gather_prefix(rects, bpp, sw, rects.len() as int))
                &&& writes@.len() == rects.len()
                &&& forall|i: int|
                    0 <= i < rects.len() ==> interleaved_write_is(
                        #[trigger] writes@[i],
                        bytes,
                        rects[i],
                        bpp,
                        sw,
                        s.frame_region() + gather_prefix(rects, bpp, sw, i),
                    )
                &&& forall|i: int|
                    0 <= i < rects.len() ==> dispatch_is(
                        #[trigger] dispatches@[i],
                        rects[i],
                        interleaved_words(
                            rects[i],
                            s.format.spec_shader_id(),
                            bpp,
                            s.source_width,
                            s.frame_region() + gather_prefix(rects, bpp, sw, i),
                        ),
                        i,
                    )
            }
        },
    }
}

/// The state after planning: only a packed buffer that had to grow changes.
pub open spec fn after_upload(s: GpuState, plan: UploadPlan) -> GpuState {
    match plan {
        UploadPlan::Packed { grow_to: Some(c), writes: _, dispatches: _, uniform: _ } => GpuState {
            source: SourceLayout::Packed { capacity: c },
            ..s
        },
        _ => s,
    }
}

// ---------------------------------------------------------------------------------------------
// Arithmetic facts
// ---------------------------------------------------------------------------------------------

/// A rect inside a `sw x sh` frame of `bpp`-byte pixels: its row span lies inside the frame
/// and its tight size is at most the frame's.
proof fn lemma_span_in_frame(r: Rect, sw: int, sh: int, bpp: int)
    requires
        r.good(sw, sh),
        bpp >= 1,
    ensures
        0 <= span_start(r, bpp, sw * bpp) < span_end(r, bpp, sw * bpp) <= sh * (sw * bpp),
        0 <= r.width * r.height * bpp <= sh * (sw * bpp),
        span_end(r, bpp, sw * bpp) - span_start(r, bpp, sw * bpp) == (r.height - 1) * (sw * bpp)
            + r.width * bpp,
        r.width * bpp <= sw * bpp,
{
    let (x, y, w, h) = (r.x as int, r.y as int, r.width as int, r.height as int);
    let s = sw * bpp;
    assert(s >= 0 && (x + w) * bpp <= s && w * bpp <= s && x * bpp >= 0 && w * bpp >= 1)
        by (nonlinear_arith)
        requires x + w <= sw, bpp >= 1, x >= 0, w >= 1, s == sw * bpp;
    assert(y * s >= 0) by (nonlinear_arith)
        requires y >= 0, s >= 0;
    assert((y + h - 1) * s + s == (y + h) * s) by (nonlinear_arith);
    assert((y + h) * s <= sh * s) by (nonlinear_arith)
        requires y + h <= sh, s >= 0;
    assert((y + h - 1) * s >= y * s) by (nonlinear_arith)
        requires h >= 1, s >= 0;
    assert((y + h - 1) * s - y * s == (h - 1) * s) by (nonlinear_arith);
    assert(x * bpp + w * bpp == (x + w) * bpp) by (nonlinear_arith);
    assert(w * h * bpp <= sw * sh * bpp && w * h * bpp >= 0) by (nonlinear_arith)
        requires w <= sw, h <= sh, w >= 0, h >= 0, bpp >= 1;
    assert(sw * sh * bpp == sh * s) by (nonlinear_arith)
        requires s == sw * bpp;
}

proof fn lemma_frame_bpp(format: PixelFormat, sw: int, sh: int)
    requires
        format.spec_bytes_per_pixel() is Some,
        sw >= 0,
        sh >= 0,
    ensures
        format.spec_frame_len(sw, sh) == sh * (sw * format.spec_bytes_per_pixel().unwrap()),
{
    let b = format.spec_bytes_per_pixel().unwrap() as int;
    assert(sw * sh * b == sh * (sw * b)) by (nonlinear_arith);
}

/// Row `row` of rect `r` lies inside the frame of row stride `s`.
proof fn lemma_row_in_frame(r: Rect, sw: int, sh: int, bpp: int, row: int, s: int)
    requires
        r.good(sw, sh),
        bpp >= 1,
        0 <= row < r.height,
        s == sw * bpp,
    ensures
        0 <= (r.y + row) * s,
        0 <= r.x * bpp,
        (r.y + row) * s + r.x * bpp + r.width * bpp <= sh * s,
{
    let (x, y, w) = (r.x as int, r.y as int, r.width as int);
    assert(s >= 0 && (x + w) * bpp <= s && x * bpp >= 0) by (nonlinear_arith)
        requires x + w <= sw, bpp >= 1, x >= 0, w >= 1, s == sw * bpp;
    assert(x * bpp + w * bpp == (x + w) * bpp) by (nonlinear_arith);
    assert((y + row) * s >= 0) by (nonlinear_arith)
        requires y + row >= 0, s >= 0;
    assert((y + row) * s + s <= sh * s) by (nonlinear_arith)
        requires y + row + 1 <= sh, s >= 0;
}

proof fn lemma_div_mod_row(k: int, row: int, col: int, rb: int)
    requires
        rb > 0,
        0 <= col < rb,
        k == row * rb + col,
        row >= 0,
    ensures
        k / rb == row,
        k % rb == col,
{
    vstd::arithmetic::div_mod::lemma_fundamental_div_mod_converse(k, rb, row, col);
}

/// The three plane spans of an I420 rect lie inside the frame, in order.
proof fn lemma_plane_spans(r: Rect, sw: int, sh: int, p: int)
    requires
        r.good(sw, sh),
        0 <= p < 3,
    ensures
        0 <= plane_span(r, sw, sh, p).0 < plane_span(r, sw, sh, p).1 <= PixelFormat::I420.spec_frame_len(sw, sh),
        plane_span(r, sw, sh, p).1 <= luma_len(sw, sh) + chroma_len(sw, sh) * p,
{
    let (x, y, w, h) = (r.x as int, r.y as int, r.width as int, r.height as int);
    let yl = luma_len(sw, sh);
    let cl = chroma_len(sw, sh);
    let cw = half_up(sw);
    let ch = half_up(sh);
    assert(yl >= 0 && cw >= 0 && ch >= 0 && cl == cw * ch && cl >= 0) by (nonlinear_arith)
        requires sw >= 1, sh >= 1, yl == sw * sh, cw == (sw + 1) / 2, ch == (sh + 1) / 2, cl == half_up(sw) * half_up(sh);
    if p == 0 {
        assert(y * sw + x >= 0 && (y + h - 1) * sw + x + w <= yl && (y + h - 1) * sw + x + w > y * sw + x)
            by (nonlinear_arith)
            requires x >= 0, y >= 0, w >= 1, h >= 1, x + w <= sw, y + h <= sh, yl == sw * sh;
    } else {
        let base = if p == 1 { yl } else { yl + cl };
        let cx0 = x / 2;
        let cy0 = y / 2;
        let cx1 = half_up(x + w);
        let cy1 = half_up(y + h);
        assert(cx0 < cx1 <= cw && cy0 < cy1 <= ch && cx0 >= 0 && cy0 >= 0);
        assert(cy0 * cw + cx0 >= 0) by (nonlinear_arith)
            requires cy0 >= 0, cw >= 0, cx0 >= 0;
        assert((cy1 - 1) * cw + cx1 <= ch * cw) by (nonlinear_arith)
            requires cy1 <= ch, cx1 <= cw, cy1 >= 1, cw >= 0;
        assert((cy1 - 1) * cw + cx1 > cy0 * cw + cx0) by (nonlinear_arith)
            requires cy0 <= cy1 - 1, cx0 < cx1, cx0 < cw, cw >= 1;
        assert(ch * cw == cl) by (nonlinear_arith)
            requires cl == cw * ch;
    }
}

// ---------------------------------------------------------------------------------------------
// Planning
// ---------------------------------------------------------------------------------------------

/// Tight rows of `r` (zero-padded to a multiple of 4), read from a frame of row stride `stride`.
fn gather_rect(bytes: &[u8], r: Rect, bpp: usize, sw: u32, sh: u32) -> (data: Vec<u8>)
    requires
        r.good(sw as int, sh as int),
        1 <= bpp <= 4,
        bytes@.len() == sh * (sw * bpp),
        bytes@.len() + 3 <= usize::MAX,
    ensures
        data@ == gather_content(bytes@, r, bpp as int, sw * bpp),
{
    let ghost spec = gather_content(bytes@, r, bpp as int, sw * bpp);
    proof {
        lemma_span_in_frame(r, sw as int, sh as int, bpp as int);
        assert((sw as int) * (bpp as int) <= (sh as int) * ((sw as int) * (bpp as int))) by (nonlinear_arith)
            requires sh >= 1, sw >= 0, bpp >= 0;
        assert((r.width as int) * (bpp as int) * (r.height as int) == (r.width as int) * (r.height as int) * (bpp as int)) by (nonlinear_arith);
    }
    let stride = sw as usize * bpp;
    let rb = r.width as usize * bpp;
    let total = rb * r.height as usize;
    proof {
        assert(rb >= 1) by (nonlinear_arith)
            requires rb == r.width * bpp, r.width >= 1, bpp >= 1;
    }
    let mut data: Vec<u8> = Vec::new();
    let mut row: usize = 0;
    while row < r.height as usize
        invariant
            row <= r.height,
            stride == sw * bpp,
            rb == r.width * bpp,
            rb >= 1,
            total == rb * r.height,
            r.good(sw as int, sh as int),
            1 <= bpp <= 4,
            bytes@.len() == sh * (sw * bpp),
            bytes@.len() + 3 <= usize::MAX,
            spec == gather_content(bytes@, r, bpp as int, sw * bpp),
            data@.len() == row * rb,
            forall|k: int| 0 <= k < data@.len() ==> data@[k] == spec[k],
        decreases r.height - row,
    {
        proof {
            lemma_row_in_frame(r, sw as int, sh as int, bpp as int, row as int, stride as int);
            assert((row as int) * (rb as int) + rb <= total) by (nonlinear_arith)
                requires row + 1 <= r.height, total == rb * r.height, rb >= 0;
        }
        let start = (r.y as usize + row) * stride + r.x as usize * bpp;
        let mut col: usize = 0;
        while col < rb
            invariant
                col <= rb,
                rb >= 1,
                row < r.height,
                stride == sw * bpp,
                rb == r.width * bpp,
                total == rb * r.height,
                start == (r.y + row) * (sw * bpp) + r.x * bpp,
                start + rb <= bytes@.len(),
                bytes@.len() + 3 <= usize::MAX,
                (row as int) * (rb as int) + rb <= total,
                spec == gather_content(bytes@, r, bpp as int, sw * bpp),
                spec.len() == spec_pad4(total as int),
                data@.len() == row * rb + col,
                forall|k: int| 0 <= k < data@.len() ==> data@[k] == spec[k],
            decreases rb - col,
        {
            proof {
                let k = (row as int) * (rb as int) + col as int;
                lemma_div_mod_row(k, row as int, col as int, rb as int);
                assert(k < total);
                assert(spec[k] == bytes@[start + col]);
            }
            data.push(bytes[start + col]);
            col += 1;
        }
        proof {
            assert((row as int) * (rb as int) + rb == (row as int + 1) * (rb as int)) by (nonlinear_arith);
        }
        row += 1;
    }
    proof {
        assert(data@.len() == total) by (nonlinear_arith)
            requires data@.len() == row * rb, row == r.height, total == rb * r.height;
    }
    let padded = pad4(total as u64) as usize;
    proof {
        assert(spec.len() == padded);
    }
    while data.len() < padded
        invariant
            total <= data@.len() <= padded,
            padded == spec_pad4(total as int),
            spec.len() == padded,
            spec == gather_content(bytes@, r, bpp as int, sw * bpp),
            total == rb * r.height,
            rb == r.width * bpp,
            forall|k: int| 0 <= k < data@.len() ==> data@[k] == spec[k],
        decreases padded - data@.len(),
    {
        data.push(0u8);
    }
    proof {
        assert(data@ =~= spec);
    }
    data
}

fn workgroups(v: u32) -> (g: u32)
    ensures
        g == (v + 7) / 8,
{
    v / 8 + if v % 8 == 0 { 0 } else { 1 }
}

/// The uniform block: each dispatch's parameters at 256-byte strides, zeros between.
fn uniform_block(ds: &Vec<UnpackDispatch>) -> (data: Vec<u8>)
    requires
        ds@.len() <= MAX_RECTS,
    ensures
        data@ == uniform_content(ds@),
{
    let ghost spec = uniform_content(ds@);
    let mut data: Vec<u8> = Vec::new();
    let mut i: usize = 0;
    while i < ds.len()
        invariant
            i <= ds@.len() <= MAX_RECTS,
            spec == uniform_content(ds@),
            data@.len() == 256 * i,
            forall|k: int| 0 <= k < data@.len() ==> data@[k] == spec[k],
        decreases ds@.len() - i,
    {
        let mut k: usize = 0;
        while k < UNPACK_UNIFORM_STRIDE
            invariant
                k <= 256,
                i < ds@.len() <= MAX_RECTS,
                spec == uniform_content(ds@),
                data@.len() == 256 * i + k,
                forall|j: int| 0 <= j < data@.len() ==> data@[j] == spec[j],
            decreases 256 - k,
        {
            proof {
                let j = 256 * (i as int) + k as int;
                lemma_div_mod_row(j, i as int, k as int, 256);
            }
            if k < 48 {
                data.push(ds[i].params[k]);
            } else {
                data.push(0u8);
            }
            k += 1;
        }
        i += 1;
    }
    proof {
        assert(data@ =~= spec);
    }
    data
}

impl GpuState {
    /// The rects a present uploads (see [`GpuState::spec_present_rects`]): inside the source,
    /// non-empty, at most [`MAX_RECTS`] of them.
    pub fn present_rects(&self, dirty: &[Rect]) -> (rects: Vec<Rect>)
        requires
            self.wf(),
            self.expansion_fits(dirty@),
        ensures
            rects@ == self.spec_present_rects(dirty@),
            all_good(rects@, self.source_width as int, self.source_height as int),
            rects@.len() <= MAX_RECTS,
    {
        let sw = self.source_width;
        let sh = self.source_height;
        let c = coalesce(dirty, sw, sh);
        proof {
            lemma_coalesce_laws(dirty@, sw, sh);
        }
        if self.format != PixelFormat::I420 {
            return c;
        }
        let mut out: Vec<Rect> = Vec::new();
        let mut i: usize = 0;
        while i < c.len()
            invariant
                i <= c@.len(),
                c@ == spec_coalesce(dirty@, sw, sh),
                all_good(c@, sw as int, sh as int),
                forall|j: int|
                    0 <= j < c@.len() ==> (#[trigger] c@[j]).spec_right() < u32::MAX
                        && c@[j].spec_bottom() < u32::MAX,
                out@.len() == i,
                forall|j: int|
                    0 <= j < i ==> #[trigger] out@[j] == spec_expand_even(c@[j], sw as int, sh as int),
                all_good(out@, sw as int, sh as int),
            decreases c@.len() - i,
        {
            let r = c[i];
            proof {
                assert(c@[i as int].good(sw as int, sh as int));
                lemma_expand_even(r, sw as int, sh as int);
            }
            out.push(expand_even(r, sw, sh));
            proof {
                assert forall|j: int| 0 <= j < out@.len() implies #[trigger] out@[j].good(sw as int, sh as int) by {
                    if j == i as int {
                        let e = out@[j];
                        assert(e.contains_rect(r));
                    }
                }
            }
            i += 1;
        }
        proof {
            assert(out@ =~= self.spec_present_rects(dirty@));
        }
        out
    }
}

impl GpuState {
    /// Whether the upload of `rects` fits the `u32` offsets and row strides it is planned with
    /// ([`GpuState::upload_fits`]).
    pub fn fits_upload(&self, rects: &[Rect]) -> (b: bool)
        requires
            self.wf(),
            all_good(rects@, self.source_width as int, self.source_height as int),
        ensures
            b == self.upload_fits(rects@),
    {
        if rects.len() == 0 {
            return true;
        }
        let sw = self.source_width;
        let sh = self.source_height;
        proof {
            crate::format::lemma_format_classes(self.format);
        }
        match self.source {
            SourceLayout::Direct { cpu_expand: false } => {
                let bpp: u64 = match self.format.bytes_per_pixel() {
                    Some(b) => b as u64,
                    None => 4,
                };
                sw as u64 * bpp <= 0xffff_ffff
            },
            SourceLayout::Direct { cpu_expand: true } => {
                let mut i: usize = 0;
                while i < rects.len()
                    invariant
                        i <= rects@.len(),
                        rects@.len() > 0,
                        self.source == (SourceLayout::Direct { cpu_expand: true }),
                        forall|j: int|
                            0 <= j < i ==> #[trigger] rects@[j].width * 4 <= u32::MAX
                                && rects@[j].width * rects@[j].height * 4 <= usize::MAX,
                    decreases rects@.len() - i,
                {
                    let r = rects[i];
                    let w = r.width as u128;
                    let h = r.height as u128;
                    proof {
                        assert(w * h <= 0xffff_ffffu128 * 0xffff_ffffu128) by (nonlinear_arith)
                            requires w <= 0xffff_ffffu128, h <= 0xffff_ffffu128;
                    }
                    if w * 4 > 0xffff_ffff || w * h * 4 > usize::MAX as u128 {
                        proof {
                            let rr = rects@[i as int];
                            assert(!(rr.width * 4 <= u32::MAX && rr.width * rr.height * 4 <= usize::MAX));
                        }
                        return false;
                    }
                    i += 1;
                }
                true
            },
            SourceLayout::Packed { capacity: _ } => {
                let len = self.format.frame_len(sw, sh) as u64;
                match self.format.bytes_per_pixel() {
                    None => {
                        let cw = (sw as u64 + 1) / 2;
                        let ch = (sh as u64 + 1) / 2;
                        proof {
                            assert(cw * ch <= 0x8000_0000u64 * 0x8000_0000u64) by (nonlinear_arith)
                                requires cw <= 0x8000_0000u64, ch <= 0x8000_0000u64;
                            assert(sw * sh <= 0xffff_ffffu64 * 0xffff_ffffu64) by (nonlinear_arith)
                                requires sw <= 0xffff_ffffu64, sh <= 0xffff_ffffu64;
                        }
                        (sw as u128) * (sh as u128) + (cw as u128) * (ch as u128) <= 0xffff_ffff
                    },
                    Some(b) => {
                        proof {
                            assert(1 <= b <= 4);
                        }
                        let bpp = b as u32;
                        proof {
                            assert(sw as u64 * bpp as u64 <= 4 * 0xffff_ffffu64) by (nonlinear_arith)
                                requires bpp <= 4, sw <= 0xffff_ffffu32;
                        }
                        if sw as u64 * bpp as u64 > 0xffff_ffff {
                            return false;
                        }
                        let stride = sw * bpp;
                        let frame_region = pad4(len);
                        proof {
                            lemma_pad4_facts(len as int);
                        }
                        let mut acc: u64 = 0;
                        let mut i: usize = 0;
                        while i < rects.len()
                            invariant
                                i <= rects@.len(),
                                self.wf(),
                                all_good(rects@, sw as int, sh as int),
                                sw == self.source_width && sh == self.source_height,
                                bpp == self.bpp() && 1 <= bpp <= 4,
                                self.format.spec_bytes_per_pixel() == Some(bpp as nat),
                                !(self.format is I420),
                                self.source is Packed,
                                stride == sw * bpp,
                                frame_region == self.frame_region(),
                                frame_region <= MAX_FRAME_BYTES + 3,
                                acc == gather_prefix(rects@, bpp as int, sw as int, i as int),
                                acc <= u32::MAX + MAX_FRAME_BYTES + 3,
                                forall|j: int|
                                    0 <= j < i && gathered(#[trigger] rects@[j], bpp as int, sw as int)
                                        ==> frame_region + gather_prefix(rects@, bpp as int, sw as int, j)
                                        <= u32::MAX,
                            decreases rects@.len() - i,
                        {
                            let r = rects[i];
                            proof {
                                assert(rects@[i as int].good(sw as int, sh as int));
                                lemma_span_in_frame(r, sw as int, sh as int, bpp as int);
                                lemma_frame_bpp(self.format, sw as int, sh as int);
                            }
                            if should_gather(r.width, r.height, bpp, stride) {
                                let size = pad4(r.width as u64 * r.height as u64 * bpp as u64);
                                proof {
                                    lemma_pad4_facts(r.width * r.height * bpp);
                                }
                                if frame_region + acc > 0xffff_ffff {
                                    proof {
                                        assert(gathered(rects@[i as int], bpp as int, sw as int));
                                    }
                                    return false;
                                }
                                acc = acc + size;
                            }
                            i += 1;
                        }
                        true
                    },
                }
            },
        }
    }
}

impl GpuState {
    /// Whether a present of `bytes_len` bytes with the damage `dirty` can be planned
    /// ([`GpuState::can_plan_present`]).
    pub fn plannable(&self, bytes_len: usize, dirty: &[Rect]) -> (b: bool)
        requires
            self.wf(),
        ensures
            b == self.can_plan_present(bytes_len as int, dirty@),
    {
        if self.format == PixelFormat::I420 {
            let c = coalesce(dirty, self.source_width, self.source_height);
            let mut i: usize = 0;
            while i < c.len()
                invariant
                    i <= c@.len(),
                    self.format is I420,
                    c@ == spec_coalesce(dirty@, self.source_width, self.source_height),
                    forall|j: int|
                        0 <= j < i ==> (#[trigger] c@[j]).spec_right() < u32::MAX && c@[j].spec_bottom()
                            < u32::MAX,
                decreases c@.len() - i,
            {
                if c[i].right() >= 0xffff_ffff || c[i].bottom() >= 0xffff_ffff {
                    proof {
                        assert(!(c@[i as int].spec_right() < u32::MAX && c@[i as int].spec_bottom() < u32::MAX));
                    }
                    return false;
                }
                i += 1;
            }
        }
        if bytes_len != self.format.frame_len(self.source_width, self.source_height) {
            return true;
        }
        let rects = self.present_rects(dirty);
        proof {
            lemma_coalesce_laws(dirty@, self.source_width, self.source_height);
        }
        self.fits_upload(&rects)
    }
}

proof fn lemma_total_area_step(rects: Seq<Rect>, i: int)
    requires
        0 <= i < rects.len(),
    ensures
        total_area(rects.take(i + 1)) == total_area(rects.take(i)) + rects[i].spec_area(),
{
    assert(rects.take(i + 1).drop_last() =~= rects.take(i));
}

proof fn lemma_writes_total_push(ws: Seq<BufferWrite>, w: BufferWrite)
    ensures
        writes_total(ws.push(w)) == writes_total(ws) + write_len(w),
{
    assert(ws.push(w).drop_last() =~= ws);
}

proof fn lemma_area_bound(r: Rect, sw: int, sh: int, bpp: int)
    requires
        r.good(sw, sh),
        bpp >= 1,
    ensures
        0 <= bpp * r.spec_area() <= sh * (sw * bpp),
{
    lemma_span_in_frame(r, sw, sh, bpp);
    assert(bpp * r.spec_area() == r.width * r.height * bpp) by (nonlinear_arith);
}

/// Texture writes of a direct format: each rect read in place with the frame's stride.
fn plan_direct(rects: &Vec<Rect>, sw: u32, sh: u32, bpp: usize) -> (res: (Vec<TextureWrite>, u64))
    requires
        all_good(rects@, sw as int, sh as int),
        rects@.len() <= MAX_RECTS,
        1 <= bpp <= 4,
        sw * bpp <= u32::MAX,
        sh * (sw * bpp) <= MAX_FRAME_BYTES,
        sh * (sw * bpp) <= usize::MAX,
    ensures
        res.0@.len() == rects@.len(),
        forall|i: int|
            0 <= i < rects@.len() ==> {
                let w = #[trigger] res.0@[i];
                &&& w.rect == rects@[i]
                &&& w.offset == span_start(rects@[i], bpp as int, sw * bpp)
                &&& w.bytes_per_row == sw * bpp
            },
        res.1 == bpp * total_area(rects@),
{
    let stride = sw as usize * bpp;
    let mut writes: Vec<TextureWrite> = Vec::new();
    let mut uploaded: u64 = 0;
    let mut i: usize = 0;
    proof {
        assert(rects@.take(0) =~= Seq::<Rect>::empty());
    }
    while i < rects.len()
        invariant
            i <= rects@.len() <= MAX_RECTS,
            all_good(rects@, sw as int, sh as int),
            1 <= bpp <= 4,
            stride == sw * bpp,
            stride <= u32::MAX,
            sh * (sw * bpp) <= MAX_FRAME_BYTES,
            sh * (sw * bpp) <= usize::MAX,
            writes@.len() == i,
            forall|j: int|
                0 <= j < i ==> {
                    let w = #[trigger] writes@[j];
                    &&& w.rect == rects@[j]
                    &&& w.offset == span_start(rects@[j], bpp as int, sw * bpp)
                    &&& w.bytes_per_row == sw * bpp
                },
            uploaded == bpp * total_area(rects@.take(i as int)),
            uploaded <= i * MAX_FRAME_BYTES,
        decreases rects@.len() - i,
    {
        let r = rects[i];
        proof {
            assert(rects@[i as int].good(sw as int, sh as int));
            lemma_span_in_frame(r, sw as int, sh as int, bpp as int);
            lemma_area_bound(r, sw as int, sh as int, bpp as int);
            lemma_total_area_step(rects@, i as int);
            assert(bpp * (total_area(rects@.take(i as int)) + r.spec_area()) == bpp * total_area(
                rects@.take(i as int),
            ) + bpp * r.spec_area()) by (nonlinear_arith);
            assert(r.spec_area() * bpp == bpp * r.spec_area()) by (nonlinear_arith);
            assert((r.y as int) * (stride as int) <= span_start(r, bpp as int, sw * bpp));
        }
        let offset = r.y as usize * stride + r.x as usize * bpp;
        writes.push(TextureWrite { rect: r, offset, bytes_per_row: stride as u32 });
        uploaded = uploaded + r.area() * bpp as u64;
        i += 1;
    }
    proof {
        assert(rects@.take(rects@.len() as int) =~= rects@);
    }
    (writes, uploaded)
}

/// CPU-expanded texture writes (packed formats without compute shaders).
fn plan_expanded(bytes: &[u8], format: PixelFormat, rects: &Vec<Rect>, sw: u32, sh: u32) -> (res: (
    Vec<ExpandedWrite>,
    u64,
))
    requires
        !format.is_direct(),
        all_good(rects@, sw as int, sh as int),
        rects@.len() <= MAX_RECTS,
        bytes@.len() == format.spec_frame_len(sw as int, sh as int),
        frame_ok(format, sw, sh),
        forall|i: int|
            0 <= i < rects@.len() ==> #[trigger] rects@[i].width * 4 <= u32::MAX
                && rects@[i].width * rects@[i].height * 4 <= usize::MAX,
    ensures
        res.0@.len() == rects@.len(),
        forall|i: int|
            0 <= i < rects@.len() ==> {
                let w = #[trigger] res.0@[i];
                &&& w.rect == rects@[i]
                &&& w.rgba@ == spec_expanded(bytes@, format, sw as int, sh as int, rects@[i])
                &&& w.bytes_per_row == rects@[i].width * 4
            },
        res.1 == 4 * total_area(rects@),
{
    let mut writes: Vec<ExpandedWrite> = Vec::new();
    let mut uploaded: u64 = 0;
    let mut i: usize = 0;
    proof {
        assert(rects@.take(0) =~= Seq::<Rect>::empty());
    }
    while i < rects.len()
        invariant
            i <= rects@.len() <= MAX_RECTS,
            !format.is_direct(),
            all_good(rects@, sw as int, sh as int),
            bytes@.len() == format.spec_frame_len(sw as int, sh as int),
            frame_ok(format, sw, sh),
            forall|i: int|
                0 <= i < rects@.len() ==> #[trigger] rects@[i].width * 4 <= u32::MAX
                    && rects@[i].width * rects@[i].height * 4 <= usize::MAX,
            writes@.len() == i,
            forall|j: int|
                0 <= j < i ==> {
                    let w = #[trigger] writes@[j];
                    &&& w.rect == rects@[j]
                    &&& w.rgba@ == spec_expanded(bytes@, format, sw as int, sh as int, rects@[j])
                    &&& w.bytes_per_row == rects@[j].width * 4
                },
            uploaded == 4 * total_area(rects@.take(i as int)),
            uploaded <= i * (4 * MAX_FRAME_BYTES),
        decreases rects@.len() - i,
    {
        let r = rects[i];
        proof {
            assert(rects@[i as int].good(sw as int, sh as int));
            assert(r.width * 4 <= u32::MAX && r.width * r.height * 4 <= usize::MAX);
            lemma_total_area_step(rects@, i as int);
            assert(4 * r.spec_area() == r.width * r.height * 4) by (nonlinear_arith);
            let (gw, gh) = (sw as int, sh as int);
            assert(r.spec_area() <= gw * gh) by (nonlinear_arith)
                requires r.width <= gw, r.height <= gh, r.width >= 0, r.height >= 0;
            assert(gw * gh <= format.spec_frame_len(gw, gh)) by {
                if let Some(b) = format.spec_bytes_per_pixel() {
                    assert(gw * gh <= gw * gh * b) by (nonlinear_arith)
                        requires b >= 1, gw >= 0, gh >= 0;
                } else {
                    assert(half_up(gw) * half_up(gh) >= 0) by (nonlinear_arith)
                        requires gw >= 0, gh >= 0;
                }
            }
            let m = 4 * MAX_FRAME_BYTES as int;
            assert((i as int) * m + m == (i as int + 1) * m) by (nonlinear_arith);
            assert((i as int + 1) * m <= 64 * m) by (nonlinear_arith)
                requires i + 1 <= 64, m >= 0;
        }
        let mut rgba: Vec<u8> = Vec::new();
        expand_rect_to_rgba(bytes, format, sw, sh, r, &mut rgba);
        writes.push(ExpandedWrite { rect: r, rgba, bytes_per_row: r.width * 4 });
        uploaded = uploaded + r.area() * 4;
        i += 1;
    }
    proof {
        assert(rects@.take(rects@.len() as int) =~= rects@);
    }
    (writes, uploaded)
}

proof fn lemma_span_len_bound(start: int, end: int)
    requires
        0 <= start < end,
    ensures
        spec_pad4(end) - round_down4(start) <= end - start + 6,
        spec_pad4(end) - round_down4(start) >= 0,
{
}

/// Buffer writes and unpack dispatches of an interleaved packed format; also returns the bytes
/// uploaded and the size of the gather tail.
fn plan_interleaved(
    bytes: &[u8],
    rects: &Vec<Rect>,
    sw: u32,
    sh: u32,
    bpp: u32,
    shader: u32,
    frame_region: u64,
) -> (res: (Vec<BufferWrite>, Vec<UnpackDispatch>, u64, u64))
    requires
        all_good(rects@, sw as int, sh as int),
        rects@.len() <= MAX_RECTS,
        1 <= bpp <= 3,
        bytes@.len() == sh * (sw * bpp),
        bytes@.len() <= MAX_FRAME_BYTES,
        bytes@.len() + 3 <= usize::MAX,
        frame_region == spec_pad4(bytes@.len() as int),
        sw * bpp <= u32::MAX,
        forall|i: int|
            0 <= i < rects@.len() && gathered(#[trigger] rects@[i], bpp as int, sw as int) ==> frame_region
                + gather_prefix(rects@, bpp as int, sw as int, i) <= u32::MAX,
    ensures
        res.0@.len() == rects@.len(),
        res.1@.len() == rects@.len(),
        forall|i: int|
            0 <= i < rects@.len() ==> interleaved_write_is(
                #[trigger] res.0@[i],
                bytes@,
                rects@[i],
                bpp as int,
                sw as int,
                frame_region + gather_prefix(rects@, bpp as int, sw as int, i),
            ),
        forall|i: int|
            0 <= i < rects@.len() ==> dispatch_is(
                #[trigger] res.1@[i],
                rects@[i],
                interleaved_words(
                    rects@[i],
                    shader,
                    bpp as int,
                    sw,
                    frame_region + gather_prefix(rects@, bpp as int, sw as int, i),
                ),
                i,
            ),
        res.2 == writes_total(res.0@),
        res.3 == gather_prefix(rects@, bpp as int, sw as int, rects@.len() as int),
        res.3 <= rects@.len() * (MAX_FRAME_BYTES + 3),
{
    let ghost bp = bpp as int;
    let ghost gw = sw as int;
    let stride = sw as usize * bpp as usize;
    let mut writes: Vec<BufferWrite> = Vec::new();
    let mut dispatches: Vec<UnpackDispatch> = Vec::new();
    let mut uploaded: u64 = 0;
    let mut gather_total: u64 = 0;
    let mut i: usize = 0;
    while i < rects.len()
        invariant
            i <= rects@.len() <= MAX_RECTS,
            all_good(rects@, sw as int, sh as int),
            1 <= bpp <= 3,
            bp == bpp,
            gw == sw,
            stride == sw * bpp,
            stride <= u32::MAX,
            bytes@.len() == sh * (sw * bpp),
            bytes@.len() <= MAX_FRAME_BYTES,
            bytes@.len() + 3 <= usize::MAX,
            frame_region == spec_pad4(bytes@.len() as int),
            forall|j: int|
                0 <= j < rects@.len() && gathered(#[trigger] rects@[j], bp, gw) ==> frame_region
                    + gather_prefix(rects@, bp, gw, j) <= u32::MAX,
            writes@.len() == i,
            dispatches@.len() == i,
            forall|j: int|
                0 <= j < i ==> interleaved_write_is(
                    #[trigger] writes@[j],
                    bytes@,
                    rects@[j],
                    bp,
                    gw,
                    frame_region + gather_prefix(rects@, bp, gw, j),
                ),
            forall|j: int|
                0 <= j < i ==> dispatch_is(
                    #[trigger] dispatches@[j],
                    rects@[j],
                    interleaved_words(
                        rects@[j],
                        shader,
                        bp,
                        sw,
                        frame_region + gather_prefix(rects@, bp, gw, j),
                    ),
                    j,
                ),
            gather_total == gather_prefix(rects@, bp, gw, i as int),
            gather_total <= i * (MAX_FRAME_BYTES + 3),
            uploaded == writes_total(writes@),
            uploaded <= i * (MAX_FRAME_BYTES + 8),
        decreases rects@.len() - i,
    {
        let r = rects[i];
        let ghost tail = frame_region + gather_prefix(rects@, bp, gw, i as int);
        proof {
            assert(rects@[i as int].good(sw as int, sh as int));
            lemma_span_in_frame(r, sw as int, sh as int, bp);
            lemma_pad4_facts(r.width * r.height * bp);
            lemma_pad4_facts(bytes@.len() as int);
            let m = MAX_FRAME_BYTES as int;
            assert((i as int) * (m + 3) + (m + 3) == (i as int + 1) * (m + 3)) by (nonlinear_arith);
            assert((i as int) * (m + 8) + (m + 8) == (i as int + 1) * (m + 8)) by (nonlinear_arith);
            assert((i as int + 1) * (m + 8) <= 64 * (m + 8)) by (nonlinear_arith)
                requires i + 1 <= 64, m >= 0;
            assert((i as int + 1) * (m + 3) <= 64 * (m + 3)) by (nonlinear_arith)
                requires i + 1 <= 64, m >= 0;
            assert(gather_prefix(rects@, bp, gw, i as int + 1) == gather_prefix(rects@, bp, gw, i as int)
                + if gathered(r, bp, gw) { gather_size(r, bp) } else { 0 });
        }
        let gather = should_gather(r.width, r.height, bpp, stride as u32);
        let mut pw = ParamsWriter::new(r, shader);
        if gather {
            let buffer_offset = frame_region + gather_total;
            let data = gather_rect(bytes, r, bpp as usize, sw, sh);
            let n = data.len() as u64;
            pw.indexing(r.x, r.y, buffer_offset as u32, r.width);
            proof {
                assert((r.width * bp) * r.height == r.width * r.height * bp) by (nonlinear_arith);
                assert(data@.len() == gather_size(r, bp));
                lemma_writes_total_push(writes@, BufferWrite::Gathered { offset: buffer_offset, data });
            }
            writes.push(BufferWrite::Gathered { offset: buffer_offset, data });
            uploaded = uploaded + n;
            gather_total = gather_total + n;
        } else {
            let start = r.y as usize * stride + r.x as usize * bpp as usize;
            let end = (r.y as usize + r.height as usize - 1) * stride + (r.x as usize + r.width as usize)
                * bpp as usize;
            proof {
                assert(start == span_start(r, bp, gw * bp));
                assert(end == span_end(r, bp, gw * bp));
                lemma_span_len_bound(start as int, end as int);
            }
            let sp = plan_span(bytes, start, end);
            let n = sp.len;
            pw.indexing(0, 0, 0, sw);
            proof {
                lemma_writes_total_push(writes@, BufferWrite::Span(sp));
            }
            writes.push(BufferWrite::Span(sp));
            uploaded = uploaded + n;
        }
        let params = pw.finish();
        let wx = workgroups(r.width);
        let wy = workgroups(r.height);
        dispatches.push(
            UnpackDispatch {
                rect: r,
                params,
                uniform_offset: (i * UNPACK_UNIFORM_STRIDE) as u32,
                workgroups_x: wx,
                workgroups_y: wy,
            },
        );
        proof {
            assert(interleaved_write_is(writes@[i as int], bytes@, r, bp, gw, tail));
        }
        i += 1;
    }
    (writes, dispatches, uploaded, gather_total)
}

proof fn lemma_pad4_facts(v: int)
    requires
        v >= 0,
    ensures
        v <= spec_pad4(v) <= v + 3,
{
}

/// Buffer writes (three plane spans per rect) and unpack dispatches of I420.
fn plan_planar(bytes: &[u8], rects: &Vec<Rect>, sw: u32, sh: u32) -> (res: (
    Vec<BufferWrite>,
    Vec<UnpackDispatch>,
    u64,
))
    requires
        all_good(rects@, sw as int, sh as int),
        rects@.len() <= MAX_RECTS,
        bytes@.len() == PixelFormat::I420.spec_frame_len(sw as int, sh as int),
        bytes@.len() <= MAX_FRAME_BYTES,
        bytes@.len() + 3 <= usize::MAX,
        luma_len(sw as int, sh as int) + chroma_len(sw as int, sh as int) <= u32::MAX,
    ensures
        res.0@.len() == 3 * rects@.len(),
        res.1@.len() == rects@.len(),
        forall|k: int|
            0 <= k < 3 * rects@.len() ==> planar_write_is(
                #[trigger] res.0@[k],
                bytes@,
                rects@[k / 3],
                sw as int,
                sh as int,
                k % 3,
            ),
        forall|i: int|
            0 <= i < rects@.len() ==> dispatch_is(
                #[trigger] res.1@[i],
                rects@[i],
                planar_words(rects@[i], sw, sh),
                i,
            ),
        res.2 == writes_total(res.0@),
{
    let ghost gw = sw as int;
    let ghost gh = sh as int;
    let w = sw as usize;
    let h = sh as usize;
    let cw = w / 2 + w % 2;
    let ch = h / 2 + h % 2;
    proof {
        assert(cw == half_up(gw) && ch == half_up(gh));
        assert(0 <= gw * gh && 0 <= (cw as int) * (ch as int)) by (nonlinear_arith)
            requires gw >= 0, gh >= 0, cw >= 0, ch >= 0;
    }
    let y_len = w * h;
    let c_len = cw * ch;
    let mut writes: Vec<BufferWrite> = Vec::new();
    let mut dispatches: Vec<UnpackDispatch> = Vec::new();
    let mut uploaded: u64 = 0;
    let mut i: usize = 0;
    while i < rects.len()
        invariant
            i <= rects@.len() <= MAX_RECTS,
            all_good(rects@, gw, gh),
            gw == sw && gh == sh,
            w == sw && h == sh,
            cw == half_up(gw),
            ch == half_up(gh),
            y_len == luma_len(gw, gh),
            c_len == chroma_len(gw, gh),
            y_len + c_len <= u32::MAX,
            bytes@.len() == PixelFormat::I420.spec_frame_len(gw, gh),
            bytes@.len() <= MAX_FRAME_BYTES,
            bytes@.len() + 3 <= usize::MAX,
            writes@.len() == 3 * i,
            dispatches@.len() == i,
            forall|k: int|
                0 <= k < 3 * i ==> planar_write_is(#[trigger] writes@[k], bytes@, rects@[k / 3], gw, gh, k % 3),
            forall|j: int|
                0 <= j < i ==> dispatch_is(#[trigger] dispatches@[j], rects@[j], planar_words(rects@[j], sw, sh), j),
            uploaded == writes_total(writes@),
            uploaded <= 3 * i * (MAX_FRAME_BYTES + 8),
        decreases rects@.len() - i,
    {
        let r = rects[i];
        proof {
            assert(rects@[i as int].good(gw, gh));
            lemma_plane_spans(r, gw, gh, 0);
            lemma_plane_spans(r, gw, gh, 1);
            lemma_plane_spans(r, gw, gh, 2);
        }
        let cx0 = r.x as usize / 2;
        let cy0 = r.y as usize / 2;
        let xe = r.x as usize + r.width as usize;
        let ye = r.y as usize + r.height as usize;
        let cx1 = xe / 2 + xe % 2;
        let cy1 = ye / 2 + ye % 2;
        let mut p: usize = 0;
        while p < 3
            invariant
                p <= 3,
                i < rects@.len() <= MAX_RECTS,
                r == rects@[i as int],
                r.good(gw, gh),
                gw == sw && gh == sh,
                w == sw && h == sh,
                cw == half_up(gw),
                y_len == luma_len(gw, gh),
                c_len == chroma_len(gw, gh),
                cx0 == r.x / 2 && cy0 == r.y / 2,
                xe == r.x + r.width,
                cx1 == half_up(r.x + r.width) && cy1 == half_up(r.y + r.height),
                bytes@.len() == PixelFormat::I420.spec_frame_len(gw, gh),
                bytes@.len() + 3 <= usize::MAX,
                bytes@.len() <= MAX_FRAME_BYTES,
                forall|q: int| 0 <= q < 3 ==> 0 <= #[trigger] plane_span(r, gw, gh, q).0 < plane_span(r, gw, gh, q).1 <= bytes@.len(),
                writes@.len() == 3 * i + p,
                forall|k: int|
                    0 <= k < 3 * i + p ==> planar_write_is(#[trigger] writes@[k], bytes@, rects@[k / 3], gw, gh, k % 3),
                uploaded == writes_total(writes@),
                uploaded <= (3 * i + p) * (MAX_FRAME_BYTES + 8),
            decreases 3 - p,
        {
            let ghost ps = plane_span(r, gw, gh, p as int);
            let (start, end) = if p == 0 {
                proof {
                    assert(ps.0 == (r.y as int) * gw + r.x);
                    assert(ps.1 == (r.y + r.height - 1) * gw + r.x + r.width);
                    assert(0 <= (r.y as int) * gw <= ps.0);
                    assert(0 <= (r.y + r.height - 1) * gw <= ps.1) by (nonlinear_arith)
                        requires r.y + r.height - 1 >= 0, gw >= 0, ps.1 == (r.y + r.height - 1) * gw + r.x + r.width;
                }
                let a = r.y as usize * w + r.x as usize;
                let b = (r.y as usize + r.height as usize - 1) * w + xe;
                proof {
                    assert(a == ps.0 && b == ps.1);
                }
                (a, b)
            } else {
                let base = if p == 1 { y_len } else { y_len + c_len };
                proof {
                    assert(0 <= (cy0 as int) * (cw as int) <= ps.0 - base);
                    assert(0 <= (cy1 as int - 1) * (cw as int) <= ps.1 - base);
                }
                let a = base + cy0 * cw + cx0;
                let b = base + (cy1 - 1) * cw + cx1;
                proof {
                    assert(base == if p == 1 { luma_len(gw, gh) } else { luma_len(gw, gh) + chroma_len(gw, gh) });
                    assert(a == ps.0 && b == ps.1);
                }
                (a, b)
            };
            proof {
                assert(start == ps.0 && end == ps.1);
                lemma_span_len_bound(start as int, end as int);
                let k = 3 * (i as int) + p as int;
                lemma_div_mod_row(k, i as int, p as int, 3);
                let m = MAX_FRAME_BYTES as int;
                assert((3 * i + p) as int * (m + 8) + (m + 8) == (3 * i + p + 1) as int * (m + 8)) by (nonlinear_arith);
                assert((3 * i + p + 1) as int * (m + 8) <= 192 * (m + 8)) by (nonlinear_arith)
                    requires 3 * i + p + 1 <= 192, m >= 0;
            }
            let sp = plan_span(bytes, start, end);
            let n = sp.len;
            proof {
                lemma_writes_total_push(writes@, BufferWrite::Span(sp));
            }
            writes.push(BufferWrite::Span(sp));
            uploaded = uploaded + n;
            p += 1;
        }
        let mut pw = ParamsWriter::new(r, 6);
        pw.indexing(0, 0, 0, sw);
        pw.planes(y_len as u32, (y_len + c_len) as u32, cw as u32);
        let params = pw.finish();
        let wx = workgroups(r.width);
        let wy = workgroups(r.height);
        dispatches.push(
            UnpackDispatch {
                rect: r,
                params,
                uniform_offset: (i * UNPACK_UNIFORM_STRIDE) as u32,
                workgroups_x: wx,
                workgroups_y: wy,
            },
        );
        i += 1;
    }
    (writes, dispatches, uploaded)
}

impl GpuState {
    fn grow_capacity(&mut self, gather_total: u64) -> (g: Option<u64>)
        requires
            old(self).wf(),
            old(self).source is Packed,
            gather_total <= 64 * (MAX_FRAME_BYTES + 3),
        ensures
            final(self).wf(),
            g == old(self).grown_capacity(gather_total as int),
            *final(self) == match g {
                Some(c) => GpuState { source: SourceLayout::Packed { capacity: c }, ..*old(self) },
                None => *old(self),
            },
    {
        let len = self.format.frame_len(self.source_width, self.source_height) as u64;
        let needed = pad4(len) + gather_total;
        match self.source {
            SourceLayout::Packed { capacity } => {
                if capacity >= needed {
                    return None;
                }
                let grown = capacity + capacity / 2;
                let new_capacity = if needed >= grown { needed } else { grown };
                self.source = SourceLayout::Packed { capacity: new_capacity };
                Some(new_capacity)
            },
            SourceLayout::Direct { .. } => None,
        }
    }

    /// Plans the upload of the (non-empty) `rects` from `bytes`, growing the packed buffer when
    /// its gather tail is too small ([`upload_plan_is`], [`after_upload`]).
    pub fn plan_upload(&mut self, bytes: &[u8], rects: &Vec<Rect>) -> (res: (UploadPlan, u64))
        requires
            old(self).wf(),
            all_good(rects@, old(self).source_width as int, old(self).source_height as int),
            rects@.len() <= MAX_RECTS,
            bytes@.len() == old(self).spec_frame_len(),
            old(self).upload_fits(rects@),
        ensures
            final(self).wf(),
            upload_plan_is(*old(self), bytes@, rects@, res.0, res.1 as int),
            *final(self) == after_upload(*old(self), res.0),
    {
        let sw = self.source_width;
        let sh = self.source_height;
        proof {
            crate::format::lemma_format_classes(self.format);
            if let Some(b) = self.format.spec_bytes_per_pixel() {
                lemma_frame_bpp(self.format, sw as int, sh as int);
            }
        }
        if rects.len() == 0 {
            // Nothing to upload: no writes, no dispatches; the buffer is only held to its frame.
            let plan = match self.source {
                SourceLayout::Direct { cpu_expand: false } => UploadPlan::Direct { writes: Vec::new() },
                SourceLayout::Direct { cpu_expand: true } => UploadPlan::Expanded { writes: Vec::new() },
                SourceLayout::Packed { capacity: _ } => {
                    let grow_to = self.grow_capacity(0);
                    let uniform: Vec<u8> = Vec::new();
                    proof {
                        assert(uniform@ =~= uniform_content(Seq::<UnpackDispatch>::empty()));
                    }
                    UploadPlan::Packed { grow_to, writes: Vec::new(), dispatches: Vec::new(), uniform }
                },
            };
            return (plan, 0);
        }
        match self.source {
            SourceLayout::Direct { cpu_expand: false } => {
                let bpp = match self.format.bytes_per_pixel() {
                    Some(b) => b,
                    None => 4,
                };
                let (writes, up) = plan_direct(rects, sw, sh, bpp);
                (UploadPlan::Direct { writes }, up)
            },
            SourceLayout::Direct { cpu_expand: true } => {
                let (writes, up) = plan_expanded(bytes, self.format, rects, sw, sh);
                (UploadPlan::Expanded { writes }, up)
            },
            SourceLayout::Packed { capacity: _ } => {
                let len = self.format.frame_len(sw, sh) as u64;
                let frame_region = pad4(len);
                match self.format.packed_kind() {
                    Some(PackedKind::Interleaved { bytes_per_pixel }) => {
                        let (writes, dispatches, up, gather_total) = plan_interleaved(
                            bytes,
                            rects,
                            sw,
                            sh,
                            bytes_per_pixel,
                            self.format.shader_id(),
                            frame_region,
                        );
                        let grow_to = self.grow_capacity(gather_total);
                        let uniform = uniform_block(&dispatches);
                        (UploadPlan::Packed { grow_to, writes, dispatches, uniform }, up)
                    },
                    _ => {
                        proof {
                            assert(self.format is I420);
                            assert(bytes@.len() == PixelFormat::I420.spec_frame_len(sw as int, sh as int));
                        }
                        let (writes, dispatches, up) = plan_planar(bytes, rects, sw, sh);
                        let grow_to = self.grow_capacity(0);
                        let uniform = uniform_block(&dispatches);
                        (UploadPlan::Packed { grow_to, writes, dispatches, uniform }, up)
                    },
                }
            },
        }
    }

    /// Plans one present of `bytes` with the damaged rects `dirty`: nothing at all when no rect
    /// survives clipping and no redraw is pending; a draw without uploads when only a redraw is
    /// pending; [`Error::BufferSizeMismatch`] when there is something to upload but `bytes` does
    /// not have the frame's length; otherwise the upload plan of the present's rects.
    pub fn begin_present(&mut self, bytes: &[u8], dirty: &[Rect]) -> (r: Result<PresentPlan, Error>)
        requires
            old(self).wf(),
            old(self).can_plan_present(bytes@.len() as int, dirty@),
        ensures
            final(self).wf(),
            ({
                let rects = old(self).spec_present_rects(dirty@);
                let len = old(self).spec_frame_len();
                &&& (rects.len() == 0 && !old(self).needs_redraw) ==> (r matches Ok(PresentPlan::Skip)
                    && *final(self) == *old(self))
                &&& (rects.len() == 0 && old(self).needs_redraw) ==> (r matches Ok(
                    PresentPlan::Draw { rects: rs, upload: None, bytes_uploaded: 0 },
                ) && rs@ == rects && *final(self) == *old(self))
                &&& (rects.len() > 0 && bytes@.len() != len) ==> (r matches Err(
                    Error::BufferSizeMismatch { expected, actual },
                ) && expected == len && actual == bytes@.len() && *final(self) == *old(self))
                &&& (rects.len() > 0 && bytes@.len() == len) ==> (r matches Ok(
                    PresentPlan::Draw { rects: rs, upload: Some(plan), bytes_uploaded },
                ) && rs@ == rects && upload_plan_is(
                    *old(self),
                    bytes@,
                    rects,
                    plan,
                    bytes_uploaded as int,
                ) && *final(self) == after_upload(*old(self), plan))
                &&& (r matches Ok(PresentPlan::Draw { rects: rs, .. }) ==> rs@.len() <= MAX_RECTS)
            }),
    {
        let rects = self.present_rects(dirty);
        if rects.len() == 0 {
            if !self.needs_redraw {
                return Ok(PresentPlan::Skip);
            }
            return Ok(PresentPlan::Draw { rects, upload: None, bytes_uploaded: 0 });
        }
        let expected = self.format.frame_len(self.source_width, self.source_height);
        if bytes.len() != expected {
            return Err(Error::BufferSizeMismatch { expected, actual: bytes.len() });
        }
        let (plan, bytes_uploaded) = self.plan_upload(bytes, &rects);
        Ok(PresentPlan::Draw { rects, upload: Some(plan), bytes_uploaded })
    }
}

impl PresentPlan {
    /// What the present reports: a skipped no-op, or the number of rects and bytes uploaded.
    pub fn stats(&self) -> (s: crate::PresentStats)
        requires
            self matches PresentPlan::Draw { rects, .. } ==> rects@.len() <= u32::MAX,
        ensures
            match self {
                PresentPlan::Skip => s == (crate::PresentStats { rects_uploaded: 0, bytes_uploaded: 0, skipped: true }),
                PresentPlan::Draw { rects, upload: _, bytes_uploaded } => s == (crate::PresentStats {
                    rects_uploaded: rects@.len() as u32,
                    bytes_uploaded: *bytes_uploaded,
                    skipped: false,
                }),
            },
    {
        match self {
            PresentPlan::Skip => crate::PresentStats { rects_uploaded: 0, bytes_uploaded: 0, skipped: true },
            PresentPlan::Draw { rects, upload: _, bytes_uploaded } => crate::PresentStats {
                rects_uploaded: rects.len() as u32,
                bytes_uploaded: *bytes_uploaded,
                skipped: false,
            },
        }
    }
}

// ---------------------------------------------------------------------------------------------
// Upload fidelity
// ---------------------------------------------------------------------------------------------

/// The storage-buffer byte at `addr` after write `w` (`None` when `w` does not write it).
pub open spec fn written_byte(bytes: Seq<u8>, w: BufferWrite, addr: int) -> Option<u8> {
    match w {
        BufferWrite::Span(sp) => if sp.offset <= addr < sp.offset + sp.len {
            Some(span_data_content(bytes, sp.data)[addr - sp.offset])
        } else {
            None
        },
        BufferWrite::Gathered { offset, data } => if offset <= addr < offset + data@.len() {
            Some(data@[addr - offset])
        } else {
            None
        },
    }
}

/// Byte address of sample `(x, y)` under a parameter block: `src_base + ((y - index_origin_y)
/// * src_pitch + (x - index_origin_x)) * bytes_per_pixel`.
pub open spec fn sample_addr(words: Seq<u32>, bpp: int, x: int, y: int) -> int {
    words[6] + ((y - words[5]) * words[7] + (x - words[4])) * bpp
}

/// Upload fidelity, direct formats: a texture write reads row `j` of its rect at
/// `offset + j * bytes_per_row`; for every pixel of the rect and every byte of it, that address
/// is the pixel's own byte in the framebuffer, inside the frame.
pub proof fn lemma_direct_upload_reads_frame(
    w: TextureWrite,
    bpp: int,
    sw: u32,
    sh: u32,
    x: int,
    y: int,
    c: int,
)
    requires
        w.rect.good(sw as int, sh as int),
        1 <= bpp,
        w.offset == span_start(w.rect, bpp, sw * bpp),
        w.bytes_per_row == sw * bpp,
        w.rect.contains_point(x, y),
        0 <= c < bpp,
    ensures
        w.offset + (y - w.rect.y) * w.bytes_per_row + (x - w.rect.x) * bpp + c == (y * sw + x) * bpp + c,
        0 <= (y * sw + x) * bpp + c < sh * (sw * bpp),
{
    let r = w.rect;
    let s = sw * bpp;
    assert(r.y * s + r.x * bpp + (y - r.y) * s + (x - r.x) * bpp == (y * sw + x) * bpp) by (nonlinear_arith)
        requires s == sw * bpp;
    assert(0 <= y * sw + x < sh * sw) by (nonlinear_arith)
        requires 0 <= x < sw, 0 <= y < sh;
    assert((y * sw + x) * bpp + c < sh * (sw * bpp)) by (nonlinear_arith)
        requires y * sw + x + 1 <= sh * sw, 0 <= c < bpp;
    assert(0 <= (y * sw + x) * bpp) by (nonlinear_arith)
        requires y * sw + x >= 0, bpp >= 1;
}

/// Upload fidelity, interleaved formats: for every pixel of a planned rect and every byte of
/// its sample, the byte that the rect's parameter block addresses in the storage buffer was
/// written by the rect's write and equals that byte of the framebuffer.
pub proof fn lemma_interleaved_upload_reads_frame(
    bytes: Seq<u8>,
    w: BufferWrite,
    r: Rect,
    bpp: int,
    sw: u32,
    sh: u32,
    shader: u32,
    tail: int,
    x: int,
    y: int,
    c: int,
)
    requires
        r.good(sw as int, sh as int),
        1 <= bpp <= 4,
        bytes.len() == sh * (sw * bpp),
        0 <= tail <= u32::MAX,
        interleaved_write_is(w, bytes, r, bpp, sw as int, tail),
        r.contains_point(x, y),
        0 <= c < bpp,
    ensures
        written_byte(
            bytes,
            w,
            sample_addr(interleaved_words(r, shader, bpp, sw, tail), bpp, x, y) + c,
        ) == Some(bytes[(y * sw + x) * bpp + c]),
{
    let words = interleaved_words(r, shader, bpp, sw, tail);
    let a = sample_addr(words, bpp, x, y) + c;
    let s = sw * bpp;
    let target = (y * sw + x) * bpp + c;
    assert(target == y * s + x * bpp + c) by (nonlinear_arith)
        requires s == sw * bpp, target == (y * sw + x) * bpp + c;
    assert(target < bytes.len()) by {
        lemma_row_in_frame(r, sw as int, sh as int, bpp, y - r.y, s);
        assert(x * bpp + c < (r.x + r.width) * bpp) by (nonlinear_arith)
            requires x < r.x + r.width, c < bpp, bpp >= 1;
        assert(r.x * bpp + r.width * bpp == (r.x + r.width) * bpp) by (nonlinear_arith);
    }
    if gathered(r, bpp, sw as int) {
        let rb = r.width * bpp;
        let k = (y - r.y) * rb + (x - r.x) * bpp + c;
        assert(words[4] == r.x && words[5] == r.y && words[6] == tail && words[7] == r.width);
        assert(a == tail + k) by (nonlinear_arith)
            requires
                a == tail + ((y - r.y) * r.width + (x - r.x)) * bpp + c,
                k == (y - r.y) * rb + (x - r.x) * bpp + c,
                rb == r.width * bpp;
        assert(0 <= (x - r.x) * bpp + c < rb) by (nonlinear_arith)
            requires 0 <= x - r.x < r.width, 0 <= c < bpp, rb == r.width * bpp;
        assert(0 <= (y - r.y) * rb) by (nonlinear_arith)
            requires y - r.y >= 0, rb >= 0;
        lemma_div_mod_row(k, y - r.y, (x - r.x) * bpp + c, rb);
        assert(k < rb * r.height) by (nonlinear_arith)
            requires k == (y - r.y) * rb + (x - r.x) * bpp + c, (x - r.x) * bpp + c < rb, y - r.y + 1 <= r.height, rb >= 0;
        lemma_pad4_facts(rb * r.height);
        assert((r.y + (y - r.y)) * s + r.x * bpp + ((x - r.x) * bpp + c) == y * s + x * bpp + c) by (nonlinear_arith);
    } else {
        assert(words[4] == 0 && words[5] == 0 && words[6] == 0 && words[7] == sw);
        assert(a == target) by (nonlinear_arith)
            requires a == 0 + ((y - 0) * sw + (x - 0)) * bpp + c, target == (y * sw + x) * bpp + c;
        let start = span_start(r, bpp, s);
        let end = span_end(r, bpp, s);
        assert(start <= target) by (nonlinear_arith)
            requires start == r.y * s + r.x * bpp, target == y * s + x * bpp + c, y >= r.y, x >= r.x, s >= 0, bpp >= 1, c >= 0;
        assert(y * s <= (r.y + r.height - 1) * s) by (nonlinear_arith)
            requires y <= r.y + r.height - 1, s >= 0;
        assert(x * bpp + c < (r.x + r.width) * bpp) by (nonlinear_arith)
            requires x + 1 <= r.x + r.width, 0 <= c < bpp;
        assert(target < end);
    }
}

/// Upload fidelity, I420: for every pixel of a planned rect, its luma byte and its two chroma
/// bytes, at the addresses the parameter block gives (luma `y * width + x`, chroma
/// `plane_base + (y / 2) * chroma_pitch + x / 2`), were written by the rect's plane writes and
/// equal the framebuffer's bytes there.
pub proof fn lemma_planar_upload_reads_frame(
    bytes: Seq<u8>,
    w0: BufferWrite,
    w1: BufferWrite,
    w2: BufferWrite,
    r: Rect,
    sw: u32,
    sh: u32,
    x: int,
    y: int,
)
    requires
        r.good(sw as int, sh as int),
        bytes.len() == PixelFormat::I420.spec_frame_len(sw as int, sh as int),
        luma_len(sw as int, sh as int) + chroma_len(sw as int, sh as int) <= u32::MAX,
        planar_write_is(w0, bytes, r, sw as int, sh as int, 0),
        planar_write_is(w1, bytes, r, sw as int, sh as int, 1),
        planar_write_is(w2, bytes, r, sw as int, sh as int, 2),
        r.contains_point(x, y),
    ensures
        ({
            let words = planar_words(r, sw, sh);
            let luma = sample_addr(words, 1, x, y);
            let u = words[9] + (y / 2) * words[11] + x / 2;
            let v = words[10] + (y / 2) * words[11] + x / 2;
            &&& luma == y * sw + x
            &&& written_byte(bytes, w0, luma) == Some(bytes[luma])
            &&& written_byte(bytes, w1, u) == Some(bytes[u])
            &&& written_byte(bytes, w2, v) == Some(bytes[v])
        }),
{
    let (gw, gh) = (sw as int, sh as int);
    let words = planar_words(r, sw, sh);
    let cw = half_up(gw);
    let ch = half_up(gh);
    let yl = luma_len(gw, gh);
    let cl = chroma_len(gw, gh);
    lemma_plane_spans(r, gw, gh, 0);
    lemma_plane_spans(r, gw, gh, 1);
    lemma_plane_spans(r, gw, gh, 2);
    assert(yl >= 0 && cl >= 0 && cw >= 1) by (nonlinear_arith)
        requires gw >= 1, gh >= 1, yl == gw * gh, cl == half_up(gw) * half_up(gh), cw == half_up(gw);
    assert(words[4] == 0 && words[5] == 0 && words[6] == 0 && words[7] == sw);
    assert(words[9] == yl && words[10] == yl + cl && words[11] == cw);
    let luma = sample_addr(words, 1, x, y);
    assert(luma == y * gw + x) by (nonlinear_arith)
        requires luma == 0 + ((y - 0) * gw + (x - 0)) * 1;
    // Luma.
    let ps0 = plane_span(r, gw, gh, 0);
    assert(ps0.0 <= luma < ps0.1) by (nonlinear_arith)
        requires
            ps0.0 == r.y * gw + r.x,
            ps0.1 == (r.y + r.height - 1) * gw + r.x + r.width,
            luma == y * gw + x,
            r.y <= y <= r.y + r.height - 1,
            r.x <= x < r.x + r.width,
            gw >= 0;
    // Chroma.
    let cx = x / 2;
    let cy = y / 2;
    let cx0 = r.x / 2;
    let cy0 = r.y / 2;
    let cx1 = half_up(r.x + r.width);
    let cy1 = half_up(r.y + r.height);
    assert(cx0 <= cx < cx1 && cy0 <= cy <= cy1 - 1 && cx < cw);
    assert(cy0 * cw + cx0 <= cy * cw + cx) by (nonlinear_arith)
        requires cy0 <= cy, cx0 <= cx, cw >= 0;
    assert(cy * cw + cx < (cy1 - 1) * cw + cx1) by (nonlinear_arith)
        requires cy <= cy1 - 1, cx < cx1, cx < cw, cw >= 1;
    let ps1 = plane_span(r, gw, gh, 1);
    let ps2 = plane_span(r, gw, gh, 2);
    assert(ps1.0 <= yl + cy * cw + cx < ps1.1);
    assert(ps2.0 <= yl + cl + cy * cw + cx < ps2.1);
}

// ---------------------------------------------------------------------------------------------
// Damage laws
// ---------------------------------------------------------------------------------------------

/// Presenting with no damage uploads nothing: an empty dirty list leaves no rect to upload,
/// so a present is the no-op when no redraw is pending and a bare re-blit when one is (after a
/// redraw request, a scaling, target or cursor change).
pub proof fn lemma_no_damage_no_upload(g: GpuState)
    requires
        g.wf(),
    ensures
        g.spec_present_rects(Seq::<Rect>::empty()).len() == 0,
{
    lemma_coalesce_laws(Seq::<Rect>::empty(), g.source_width, g.source_height);
}

/// Every damaged pixel inside the source is uploaded by the present that plans the damage:
/// each dirty rect, clipped to the source, lies inside one of the present's rects.
pub proof fn lemma_present_covers_damage(g: GpuState, dirty: Seq<Rect>, k: int)
    requires
        g.wf(),
        0 <= k < dirty.len(),
        dirty[k].spec_clipped(g.source_width, g.source_height) is Some,
    ensures
        crate::rect::covers_rect(
            g.spec_present_rects(dirty),
            dirty[k].spec_clipped(g.source_width, g.source_height).unwrap(),
        ),
{
    let (sw, sh) = (g.source_width, g.source_height);
    let c = spec_coalesce(dirty, sw, sh);
    let d = dirty[k].spec_clipped(sw, sh).unwrap();
    lemma_coalesce_laws(dirty, sw, sh);
    assert(crate::rect::covers_rect(c, d));
    if g.format is I420 {
        let j = choose|j: int| 0 <= j < c.len() && #[trigger] c[j].contains_rect(d);
        assert(c[j].good(sw as int, sh as int));
        lemma_expand_even(c[j], sw as int, sh as int);
        let p = g.spec_present_rects(dirty);
        crate::rect::lemma_contains_trans(p[j], c[j], d);
        assert(p[j].contains_rect(d));
    }
}

/// A present uploads nothing outside the damage: if a rect `b` inside the source contains
/// every dirty rect (clipped to the source), it contains every rect the present uploads; for
/// I420, whose rects are widened to even coordinates, `b` widened the same way does.
pub proof fn lemma_present_stays_inside(g: GpuState, dirty: Seq<Rect>, b: Rect)
    requires
        g.wf(),
        b.spec_within(g.source_width as int, g.source_height as int),
        forall|k: int|
            0 <= k < dirty.len() && (#[trigger] dirty[k].spec_clipped(g.source_width, g.source_height))
                is Some ==> b.contains_rect(dirty[k].spec_clipped(g.source_width, g.source_height).unwrap()),
    ensures
        forall|j: int|
            0 <= j < g.spec_present_rects(dirty).len() ==> (if g.format is I420 {
                spec_expand_even(b, g.source_width as int, g.source_height as int)
            } else {
                b
            }).contains_rect(#[trigger] g.spec_present_rects(dirty)[j]),
{
    let (sw, sh) = (g.source_width, g.source_height);
    let c = spec_coalesce(dirty, sw, sh);
    crate::rect::lemma_coalesce_stays_inside(dirty, sw, sh, b);
    lemma_coalesce_laws(dirty, sw, sh);
    let p = g.spec_present_rects(dirty);
    assert forall|j: int| 0 <= j < p.len() implies (if g.format is I420 {
        spec_expand_even(b, sw as int, sh as int)
    } else {
        b
    }).contains_rect(#[trigger] p[j]) by {
        assert(b.contains_rect(c[j]));
        assert(c[j].good(sw as int, sh as int));
    }
}

/// The byte range `[start, end)` of the storage buffer that write `w` fills.
pub open spec fn write_range(w: BufferWrite) -> (int, int) {
    match w {
        BufferWrite::Span(sp) => (sp.offset as int, sp.offset + sp.len),
        BufferWrite::Gathered { offset, data } => (offset as int, offset + data@.len()),
    }
}

/// The storage buffer's size (0 without one).
pub open spec fn buffer_capacity(s: GpuState) -> int {
    match s.source {
        SourceLayout::Packed { capacity } => capacity as int,
        SourceLayout::Direct { .. } => 0,
    }
}

proof fn lemma_gather_prefix_monotone(rects: Seq<Rect>, bpp: int, sw: int, i: int, j: int)
    requires
        0 <= i <= j,
        bpp >= 0,
    ensures
        gather_prefix(rects, bpp, sw, i) <= gather_prefix(rects, bpp, sw, j),
    decreases j - i,
{
    if i < j {
        lemma_gather_prefix_monotone(rects, bpp, sw, i, j - 1);
        let r = rects[j - 1];
        assert(0 <= r.width * r.height * bpp) by (nonlinear_arith)
            requires r.width >= 0, r.height >= 0, bpp >= 0;
    }
}

proof fn lemma_gather_prefix_bounds(rects: Seq<Rect>, bpp: int, sw: int, sh: int, i: int)
    requires
        all_good(rects, sw, sh),
        bpp >= 1,
        0 <= i <= rects.len(),
        sh * (sw * bpp) <= MAX_FRAME_BYTES,
    ensures
        0 <= gather_prefix(rects, bpp, sw, i) <= i * (MAX_FRAME_BYTES + 3),
    decreases i,
{
    if i > 0 {
        lemma_gather_prefix_bounds(rects, bpp, sw, sh, i - 1);
        let r = rects[i - 1];
        assert(r.good(sw, sh));
        lemma_span_in_frame(r, sw, sh, bpp);
        lemma_pad4_facts(r.width * r.height * bpp);
    }
}

proof fn lemma_span_is_inside(sp: SpanUpload, bytes: Seq<u8>, start: int, end: int, limit: int)
    requires
        span_is(sp, bytes, start, end),
        0 <= start < end <= limit,
    ensures
        0 <= sp.offset,
        sp.offset + sp.len <= spec_pad4(limit),
{
}

/// Every planned storage-buffer write lands inside the buffer as it is after the present:
/// frame spans inside the frame region, gathered rects inside the tail, which the plan grows
/// the buffer to hold.
pub proof fn lemma_writes_fit_buffer(
    s: GpuState,
    bytes: Seq<u8>,
    rects: Seq<Rect>,
    plan: UploadPlan,
    bytes_uploaded: int,
)
    requires
        s.wf(),
        all_good(rects, s.source_width as int, s.source_height as int),
        rects.len() <= MAX_RECTS,
        upload_plan_is(s, bytes, rects, plan, bytes_uploaded),
    ensures
        plan matches UploadPlan::Packed { writes, .. } ==> forall|k: int|
            0 <= k < writes@.len() ==> 0 <= (#[trigger] write_range(writes@[k])).0 <= write_range(
                writes@[k],
            ).1 <= buffer_capacity(after_upload(s, plan)),
{
    let sw = s.source_width as int;
    let sh = s.source_height as int;
    if let UploadPlan::Packed { grow_to, writes, dispatches, uniform } = plan {
        assert(s.source is Packed);
        let cap = buffer_capacity(after_upload(s, plan));
        let len = s.spec_frame_len();
        crate::format::lemma_format_classes(s.format);
        if s.format is I420 {
            assert(cap >= s.frame_region());
            assert forall|k: int| 0 <= k < writes@.len() implies 0 <= (#[trigger] write_range(
                writes@[k],
            )).0 <= write_range(writes@[k]).1 <= cap by {
                let r = rects[k / 3];
                assert(r.good(sw, sh));
                lemma_plane_spans(r, sw, sh, k % 3);
                assert(planar_write_is(writes@[k], bytes, r, sw, sh, k % 3));
                if let BufferWrite::Span(sp) = writes@[k] {
                    let ps = plane_span(r, sw, sh, k % 3);
                    lemma_span_is_inside(sp, bytes, ps.0, ps.1, len);
                }
            }
        } else {
            let bpp = s.bpp();
            let n = rects.len() as int;
            lemma_frame_bpp(s.format, sw, sh);
            lemma_gather_prefix_bounds(rects, bpp, sw, sh, n);
            lemma_pad4_facts(len);
            assert(cap >= s.frame_region() + gather_prefix(rects, bpp, sw, n));
            assert forall|k: int| 0 <= k < writes@.len() implies 0 <= (#[trigger] write_range(
                writes@[k],
            )).0 <= write_range(writes@[k]).1 <= cap by {
                let r = rects[k];
                assert(r.good(sw, sh));
                lemma_gather_prefix_monotone(rects, bpp, sw, k + 1, n);
                lemma_gather_prefix_bounds(rects, bpp, sw, sh, k);
                assert(interleaved_write_is(writes@[k], bytes, r, bpp, sw, s.frame_region() + gather_prefix(rects, bpp, sw, k)));
                if gathered(r, bpp, sw) {
                    lemma_pad4_facts(r.width * r.height * bpp);
                    assert(r.width * bpp * r.height == r.width * r.height * bpp) by (nonlinear_arith);
                    assert(gather_prefix(rects, bpp, sw, k + 1) == gather_prefix(rects, bpp, sw, k)
                        + gather_size(r, bpp));
                } else {
                    lemma_span_in_frame(r, sw, sh, bpp);
                    if let BufferWrite::Span(sp) = writes@[k] {
                        lemma_span_is_inside(sp, bytes, span_start(r, bpp, sw * bpp), span_end(r, bpp, sw * bpp), len);
                    }
                }
            }
        }
    }
}

// ---------------------------------------------------------------------------------------------
// The unpack pass agrees with the CPU expansion
// ---------------------------------------------------------------------------------------------

/// A BT.601 channel value in thousandths, clamped to full scale.
pub open spec fn clamp_thousandths(k: int) -> int {
    if k < 0 {
        0
    } else if k > 255000 {
        255000
    } else {
        k
    }
}

/// What the unpack pass decodes at pixel `(x, y)` from the storage buffer `buf` under the
/// parameter block `words`: each of R, G, B as an exact fraction `(num, den)` of full scale,
/// chosen by the decoder id `words[8]`:
/// 0 = 3 bytes R G B, 1 = 3 bytes B G R, 2 = little-endian 5-6-5, 3 = little-endian 1-5-5-5,
/// 4 = one grey byte, 5 = little-endian 16-bit grey, otherwise I420 (luma at the sample, chroma
/// at `u_base` / `v_base` plus `(y / 2) * chroma_pitch + x / 2`, BT.601 limited range).
pub open spec fn unpack_channels(words: Seq<u32>, buf: Seq<u8>, x: int, y: int) -> Seq<(int, int)> {
    let id = words[8];
    if id == 0 {
        let a = sample_addr(words, 3, x, y);
        seq![(buf[a] as int, 255), (buf[a + 1] as int, 255), (buf[a + 2] as int, 255)]
    } else if id == 1 {
        let a = sample_addr(words, 3, x, y);
        seq![(buf[a + 2] as int, 255), (buf[a + 1] as int, 255), (buf[a] as int, 255)]
    } else if id == 2 {
        let v = le16(buf, sample_addr(words, 2, x, y));
        seq![(v / 2048 % 32, 31), (v / 32 % 64, 63), (v % 32, 31)]
    } else if id == 3 {
        let v = le16(buf, sample_addr(words, 2, x, y));
        seq![(v / 1024 % 32, 31), (v / 32 % 32, 31), (v % 32, 31)]
    } else if id == 4 {
        let l = buf[sample_addr(words, 1, x, y)] as int;
        seq![(l, 255), (l, 255), (l, 255)]
    } else if id == 5 {
        let l = le16(buf, sample_addr(words, 2, x, y));
        seq![(l, 65535), (l, 65535), (l, 65535)]
    } else {
        let c_off = (y / 2) * words[11] + x / 2;
        let luma = buf[sample_addr(words, 1, x, y)] as int;
        let cb = buf[words[9] + c_off] as int - 128;
        let cr = buf[words[10] + c_off] as int - 128;
        let base = 1164 * (luma - 16);
        seq![
            (clamp_thousandths(base + 1596 * cr), 255000),
            (clamp_thousandths(base - 391 * cb - 813 * cr), 255000),
            (clamp_thousandths(base + 2018 * cb), 255000),
        ]
    }
}

/// A fraction of full scale as an 8-bit channel, truncated.
pub open spec fn unorm8(f: (int, int)) -> int {
    f.0 * 255 / f.1
}

/// The bytes that the unpack pass reads for pixel `(x, y)` hold the framebuffer's bytes of that
/// pixel: its sample (interleaved formats); its luma and the chroma samples the parameter block
/// addresses, which hold the frame's bytes at the same offsets (I420, whose block indexes the
/// frame in place).
pub open spec fn reads_pixel(
    f: PixelFormat,
    words: Seq<u32>,
    buf: Seq<u8>,
    bytes: Seq<u8>,
    sw: int,
    sh: int,
    x: int,
    y: int,
) -> bool {
    if f is I420 {
        let c_off = (y / 2) * words[11] + x / 2;
        let luma = sample_addr(words, 1, x, y);
        &&& words[4] == 0 && words[5] == 0 && words[6] == 0 && words[7] == sw
        &&& words[9] == luma_len(sw, sh) && words[10] == luma_len(sw, sh) + chroma_len(sw, sh)
        &&& words[11] == half_up(sw)
        &&& buf[luma] == bytes[luma]
        &&& buf[words[9] + c_off] == bytes[words[9] + c_off]
        &&& buf[words[10] + c_off] == bytes[words[10] + c_off]
    } else {
        let b = f.spec_bytes_per_pixel().unwrap() as int;
        forall|k: int|
            0 <= k < b ==> #[trigger] buf[sample_addr(words, b, x, y) + k] == bytes[(y * sw + x) * b
                + k]
    }
}

proof fn lemma_bt601_unorm(k: int)
    ensures
        bt601_channel(k) as int == unorm8((clamp_thousandths(k), 255000)),
{
    if 0 <= k <= 255000 {
        assert(k * 255 / 255000 == k / 1000) by (nonlinear_arith)
            requires 0 <= k;
    }
}

proof fn lemma_fraction_byte(v: int, d: int)
    requires
        0 <= v <= d,
        d > 0,
    ensures
        0 <= v * 255 / d <= 255,
{
    assert(0 <= v * 255 / d <= 255) by (nonlinear_arith)
        requires 0 <= v <= d, d > 0;
}

/// The unpack pass and the CPU expansion decode a pixel alike: for every packed format, when
/// the parameter block carries the format's decoder id and the bytes it reads are the pixel's
/// own, each channel the CPU expansion gives is the unpack pass's value truncated to 8 bits.
/// (The unpack pass stores its fraction into an `rgba8unorm` texture, which rounds; the two
/// therefore differ by at most one unit.)
#[verifier::spinoff_prover]
#[verifier::rlimit(30)]
pub proof fn lemma_unpack_decodes_as_cpu(
    f: PixelFormat,
    bytes: Seq<u8>,
    sw: int,
    sh: int,
    words: Seq<u32>,
    buf: Seq<u8>,
    x: int,
    y: int,
)
    requires
        f.spec_packed_kind() is Some,
        0 <= x < sw,
        0 <= y < sh,
        bytes.len() >= f.spec_frame_len(sw, sh),
        words.len() == 12,
        words[8] == f.spec_shader_id(),
        reads_pixel(f, words, buf, bytes, sw, sh, x, y),
    ensures
        forall|c: int|
            0 <= c < 3 ==> (#[trigger] expand_pixel(bytes, f, sw, sh, x, y)[c]) as int == unorm8(
                unpack_channels(words, buf, x, y)[c],
            ),
{
    crate::format::lemma_format_classes(f);
    let i = y * sw + x;
    let e = expand_pixel(bytes, f, sw, sh, x, y);
    let u = unpack_channels(words, buf, x, y);
    if f is I420 {
        let cw = half_up(sw);
        assert(sample_addr(words, 1, x, y) == i) by (nonlinear_arith)
            requires
                words[4] == 0 && words[5] == 0 && words[6] == 0 && words[7] == sw,
                sample_addr(words, 1, x, y) == words[6] + ((y - words[5]) * words[7] + (x - words[4])) * 1,
                i == y * sw + x;
        let luma = bytes[i] as int;
        let c = i_chroma(x, y, cw);
        let cb = bytes[luma_len(sw, sh) + c] as int - 128;
        let cr = bytes[luma_len(sw, sh) + chroma_len(sw, sh) + c] as int - 128;
        let base = 1164 * (luma - 16);
        lemma_bt601_unorm(base + 1596 * cr);
        lemma_bt601_unorm(base - 391 * cb - 813 * cr);
        lemma_bt601_unorm(base + 2018 * cb);
    } else {
        let b = f.spec_bytes_per_pixel().unwrap() as int;
        let a = sample_addr(words, b, x, y);
        assert(buf[sample_addr(words, b, x, y) + 0] == bytes[(y * sw + x) * b + 0]);
        assert(b >= 2 ==> buf[sample_addr(words, b, x, y) + 1] == bytes[(y * sw + x) * b + 1]);
        assert(b >= 3 ==> buf[sample_addr(words, b, x, y) + 2] == bytes[(y * sw + x) * b + 2]);
        if f is Rgb24 || f is Bgr24 {
            assert(b == 3);
            assert(i * b == 3 * i) by (nonlinear_arith)
                requires b == 3;
            assert forall|v: int| 0 <= v < 256 implies #[trigger] (v * 255 / 255) == v by {}
        } else if f is Gray8 {
            assert(b == 1);
            assert(i * b == i) by (nonlinear_arith)
                requires b == 1;
            assert forall|v: int| 0 <= v < 256 implies #[trigger] (v * 255 / 255) == v by {}
        } else {
            assert(b == 2);
            assert(i * b == 2 * i) by (nonlinear_arith)
                requires b == 2;
            let v = le16(bytes, 2 * i);
            assert(le16(buf, a) == v);
            if f is Gray16 {
                lemma_fraction_byte(v, 65535);
            } else if f is Rgb565 {
                lemma_fraction_byte(v / 2048 % 32, 31);
                lemma_fraction_byte(v / 32 % 64, 63);
                lemma_fraction_byte(v % 32, 31);
            } else {
                lemma_fraction_byte(v / 1024 % 32, 31);
                lemma_fraction_byte(v / 32 % 32, 31);
                lemma_fraction_byte(v % 32, 31);
            }
        }
    }
}

/// The storage buffer `buf` holds every byte that write `w` wrote.
pub open spec fn holds_write(buf: Seq<u8>, bytes: Seq<u8>, w: BufferWrite) -> bool {
    forall|a: int| #[trigger] written_byte(bytes, w, a) matches Some(v) ==> buf[a] == v
}

/// End to end, interleaved packed formats: once the storage buffer holds a planned rect's write,
/// the unpack pass run with the rect's planned parameter block decodes every pixel of the rect
/// to the CPU expansion of that pixel (up to the texture's rounding, see
/// [`lemma_unpack_decodes_as_cpu`]).
pub proof fn lemma_planned_unpack_matches_cpu(
    f: PixelFormat,
    bytes: Seq<u8>,
    w: BufferWrite,
    r: Rect,
    sw: u32,
    sh: u32,
    tail: int,
    buf: Seq<u8>,
    x: int,
    y: int,
)
    requires
        f.spec_packed_kind() matches Some(PackedKind::Interleaved { .. }),
        r.good(sw as int, sh as int),
        bytes.len() == f.spec_frame_len(sw as int, sh as int),
        0 <= tail <= u32::MAX,
        interleaved_write_is(w, bytes, r, f.spec_bytes_per_pixel().unwrap() as int, sw as int, tail),
        holds_write(buf, bytes, w),
        r.contains_point(x, y),
    ensures
        forall|c: int|
            0 <= c < 3 ==> (#[trigger] expand_pixel(bytes, f, sw as int, sh as int, x, y)[c]) as int
                == unorm8(
                unpack_channels(
                    interleaved_words(
                        r,
                        f.spec_shader_id(),
                        f.spec_bytes_per_pixel().unwrap() as int,
                        sw,
                        tail,
                    ),
                    buf,
                    x,
                    y,
                )[c],
            ),
{
    crate::format::lemma_format_classes(f);
    let b = f.spec_bytes_per_pixel().unwrap() as int;
    let words = interleaved_words(r, f.spec_shader_id(), b, sw, tail);
    lemma_frame_bpp(f, sw as int, sh as int);
    assert forall|k: int| 0 <= k < b implies #[trigger] buf[sample_addr(words, b, x, y) + k]
        == bytes[(y * sw + x) * b + k] by {
        lemma_interleaved_upload_reads_frame(bytes, w, r, b, sw, sh, f.spec_shader_id(), tail, x, y, k);
        assert(written_byte(bytes, w, sample_addr(words, b, x, y) + k) matches Some(_));
    }
    assert(words.len() == 12);
    lemma_unpack_decodes_as_cpu(f, bytes, sw as int, sh as int, words, buf, x, y);
}

/// End to end, I420: once the storage buffer holds a planned rect's three plane writes, the
/// unpack pass run with the rect's planned parameter block decodes every pixel of the rect to
/// the CPU expansion of that pixel (up to the texture's rounding).
pub proof fn lemma_planned_planar_unpack_matches_cpu(
    bytes: Seq<u8>,
    w0: BufferWrite,
    w1: BufferWrite,
    w2: BufferWrite,
    r: Rect,
    sw: u32,
    sh: u32,
    buf: Seq<u8>,
    x: int,
    y: int,
)
    requires
        r.good(sw as int, sh as int),
        bytes.len() == PixelFormat::I420.spec_frame_len(sw as int, sh as int),
        luma_len(sw as int, sh as int) + chroma_len(sw as int, sh as int) <= u32::MAX,
        planar_write_is(w0, bytes, r, sw as int, sh as int, 0),
        planar_write_is(w1, bytes, r, sw as int, sh as int, 1),
        planar_write_is(w2, bytes, r, sw as int, sh as int, 2),
        holds_write(buf, bytes, w0),
        holds_write(buf, bytes, w1),
        holds_write(buf, bytes, w2),
        r.contains_point(x, y),
    ensures
        forall|c: int|
            0 <= c < 3 ==> (#[trigger] expand_pixel(
                bytes,
                PixelFormat::I420,
                sw as int,
                sh as int,
                x,
                y,
            )[c]) as int == unorm8(unpack_channels(planar_words(r, sw, sh), buf, x, y)[c]),
{
    let words = planar_words(r, sw, sh);
    lemma_planar_upload_reads_frame(bytes, w0, w1, w2, r, sw, sh, x, y);
    let luma = sample_addr(words, 1, x, y);
    let c_off = (y / 2) * words[11] + x / 2;
    assert(written_byte(bytes, w0, luma) matches Some(_));
    assert(written_byte(bytes, w1, words[9] + c_off) matches Some(_));
    assert(written_byte(bytes, w2, words[10] + c_off) matches Some(_));
    assert(words.len() == 12);
    assert(words[8] == PixelFormat::I420.spec_shader_id());
    lemma_unpack_decodes_as_cpu(PixelFormat::I420, bytes, sw as int, sh as int, words, buf, x, y);
}

} // verus!
