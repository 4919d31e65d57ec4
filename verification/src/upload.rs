use vstd::prelude::*;

use crate::rect::Rect;

verus! {

/// Size in bytes of the unpack-pass parameter block: twelve little-endian `u32` words.
pub const UNPACK_PARAMS_SIZE: usize = 48;

/// Number of `u32` words in the unpack-pass parameter block.
pub const UNPACK_PARAMS_WORDS: usize = 12;

/// Per-rect stride inside the unpack uniform buffer; 256 satisfies every adapter's minimum
/// uniform-buffer offset alignment.
pub const UNPACK_UNIFORM_STRIDE: usize = 256;

pub open spec fn spec_tight(width: int, height: int, bytes_per_pixel: int) -> int {
    width * height * bytes_per_pixel
}

pub open spec fn spec_span(width: int, height: int, bytes_per_pixel: int, stride_bytes: int) -> int {
    (height - 1) * stride_bytes + width * bytes_per_pixel
}

pub open spec fn spec_should_gather(
    width: int,
    height: int,
    bytes_per_pixel: int,
    stride_bytes: int,
) -> bool {
    height > 1 && spec_span(width, height, bytes_per_pixel, stride_bytes) > 2 * spec_tight(
        width,
        height,
        bytes_per_pixel,
    )
}

/// Whether a narrow rect should be CPU-gathered instead of uploading its contiguous row span:
/// gathering costs one extra CPU pass over the rect bytes, so it pays off once the span would
/// upload more than twice the tight size.
pub fn should_gather(width: u32, height: u32, bytes_per_pixel: u32, stride_bytes: u32) -> (b: bool)
    requires
        2 * spec_tight(width as int, height as int, bytes_per_pixel as int) <= u64::MAX,
        spec_span(width as int, height as int, bytes_per_pixel as int, stride_bytes as int)
            <= u64::MAX,
    ensures
        b == spec_should_gather(width as int, height as int, bytes_per_pixel as int, stride_bytes as int),
{
    if height <= 1 {
        return false;
    }
    proof {
        let (w, h, b, s) = (width as int, height as int, bytes_per_pixel as int, stride_bytes as int);
        assert(0 <= w * h <= 0xffff_ffffint * 0xffff_ffffint) by (nonlinear_arith)
            requires 0 <= w <= 0xffff_ffffint, 0 <= h <= 0xffff_ffffint;
        assert(0 <= w * b && w * b <= (h - 1) * s + w * b) by (nonlinear_arith)
            requires w >= 0, h >= 1, b >= 0, s >= 0;
        assert(0 <= (h - 1) * s) by (nonlinear_arith)
            requires h >= 1, s >= 0;
        assert(w * h * b == (w * h) * b);
    }
    let tight = width as u64 * height as u64 * bytes_per_pixel as u64;
    let span = (height - 1) as u64 * stride_bytes as u64 + width as u64 * bytes_per_pixel as u64;
    span > tight * 2
}

/// Full-width rects (stride equal to the row size) and single-row rects are never gathered:
/// their span is exactly their tight size. A gathered rect always saves more than half of its
/// span.
pub proof fn lemma_gather_laws(width: int, height: int, bytes_per_pixel: int, stride_bytes: int)
    requires
        width >= 0,
        height >= 1,
        bytes_per_pixel >= 0,
    ensures
        stride_bytes == width * bytes_per_pixel ==> spec_span(width, height, bytes_per_pixel, stride_bytes)
            == spec_tight(width, height, bytes_per_pixel) && !spec_should_gather(
            width,
            height,
            bytes_per_pixel,
            stride_bytes,
        ),
        height == 1 ==> !spec_should_gather(width, height, bytes_per_pixel, stride_bytes),
        spec_should_gather(width, height, bytes_per_pixel, stride_bytes) ==> 2 * spec_tight(
            width,
            height,
            bytes_per_pixel,
        ) < spec_span(width, height, bytes_per_pixel, stride_bytes),
{
    if stride_bytes == width * bytes_per_pixel {
        assert((height - 1) * (width * bytes_per_pixel) + width * bytes_per_pixel == width * height
            * bytes_per_pixel) by (nonlinear_arith);
        assert(width * height * bytes_per_pixel >= 0) by (nonlinear_arith)
            requires width >= 0, height >= 1, bytes_per_pixel >= 0;
    }
}

pub open spec fn round_down_even(v: int) -> int {
    v - v % 2
}

pub open spec fn round_up_even(v: int) -> int {
    round_down_even(v + 1)
}

pub open spec fn spec_expand_even(r: Rect, bounds_width: int, bounds_height: int) -> Rect {
    let x0 = round_down_even(r.x as int);
    let y0 = round_down_even(r.y as int);
    let x1 = crate::rect::min_int(round_up_even(r.spec_right()), bounds_width);
    let y1 = crate::rect::min_int(round_up_even(r.spec_bottom()), bounds_height);
    Rect { x: x0 as u32, y: y0 as u32, width: (x1 - x0) as u32, height: (y1 - y0) as u32 }
}

/// Expands a rect outward to even coordinates (I420 chroma siting), clamped to the source.
pub fn expand_even(r: Rect, bounds_width: u32, bounds_height: u32) -> (e: Rect)
    requires
        r.spec_right() + 1 <= u32::MAX,
        r.spec_bottom() + 1 <= u32::MAX,
        round_down_even(r.x as int) <= bounds_width,
        round_down_even(r.y as int) <= bounds_height,
    ensures
        e == spec_expand_even(r, bounds_width as int, bounds_height as int),
{
    let x0 = r.x - r.x % 2;
    let y0 = r.y - r.y % 2;
    let xe = r.x + r.width + 1;
    let ye = r.y + r.height + 1;
    let x1 = xe - xe % 2;
    let y1 = ye - ye % 2;
    let cx = if x1 <= bounds_width { x1 } else { bounds_width };
    let cy = if y1 <= bounds_height { y1 } else { bounds_height };
    Rect::new(x0, y0, cx - x0, cy - y0)
}

/// Expanding to even coordinates keeps a rect inside the framebuffer, contains the original
/// rect, starts on even coordinates, and ends on an even coordinate or the framebuffer edge.
pub proof fn lemma_expand_even(r: Rect, bounds_width: int, bounds_height: int)
    requires
        r.spec_within(bounds_width, bounds_height),
        bounds_width <= u32::MAX,
        bounds_height <= u32::MAX,
    ensures
        ({
            let e = spec_expand_even(r, bounds_width, bounds_height);
            &&& e.spec_within(bounds_width, bounds_height)
            &&& e.contains_rect(r)
            &&& e.x % 2 == 0 && e.y % 2 == 0
            &&& (e.spec_right() % 2 == 0 || e.spec_right() == bounds_width)
            &&& (e.spec_bottom() % 2 == 0 || e.spec_bottom() == bounds_height)
        }),
{
}

pub open spec fn spec_pad4(v: int) -> int {
    (v + 3) / 4 * 4
}

/// Rounds up to a multiple of 4 (buffer writes must be 4-byte aligned).
pub fn pad4(v: u64) -> (p: u64)
    requires
        v + 3 <= u64::MAX,
    ensures
        p == spec_pad4(v as int),
        p % 4 == 0,
        v <= p < v + 4,
{
    (v + 3) / 4 * 4
}

/// How one 4-byte-aligned window `[start, end)` of the framebuffer reaches the buffer.
#[derive(Debug)]
pub enum SpanData {
    /// The window lies inside the framebuffer: upload `bytes[start..end]` as is.
    InPlace { start: usize, end: usize },
    /// The window runs past the framebuffer tail: upload `bytes` (the framebuffer's tail from
    /// `start`, zero-padded to the window's length).
    Padded { start: usize, bytes: Vec<u8> },
}

/// A span upload: `data` goes to byte `offset` of the storage buffer.
#[derive(Debug)]
pub struct SpanUpload {
    pub offset: u64,
    pub len: u64,
    pub data: SpanData,
}

pub open spec fn round_down4(v: int) -> int {
    v - v % 4
}

/// The bytes that a span upload writes, given the framebuffer it reads from.
pub open spec fn span_content(bytes: Seq<u8>, start: int, end: int) -> Seq<u8> {
    Seq::new(
        (end - start) as nat,
        |k: int| if start + k < bytes.len() { bytes[start + k] } else { 0u8 },
    )
}

pub open spec fn span_data_content(bytes: Seq<u8>, d: SpanData) -> Seq<u8> {
    match d {
        SpanData::InPlace { start, end } => bytes.subrange(start as int, end as int),
        SpanData::Padded { start: _, bytes: padded } => padded@,
    }
}

/// Plans the upload of the 4-byte-aligned widening of `bytes[start..end]` at the same offset of
/// the storage buffer. The widened bytes are current framebuffer content (harmless); a
/// widening past the framebuffer tail is zero-padded through a small copy.
pub fn plan_span(bytes: &[u8], start: usize, end: usize) -> (s: SpanUpload)
    requires
        start <= end <= bytes@.len(),
        bytes@.len() + 3 <= usize::MAX,
    ensures
        s.offset == round_down4(start as int),
        s.len == spec_pad4(end as int) - round_down4(start as int),
        s.offset % 4 == 0,
        s.len % 4 == 0,
        s.offset <= start,
        end <= s.offset + s.len,
        span_data_content(bytes@, s.data) == span_content(
            bytes@,
            s.offset as int,
            s.offset + s.len,
        ),
        (s.data is InPlace) <==> spec_pad4(end as int) <= bytes@.len(),
        (s.data matches SpanData::InPlace { start: a, end: b } ==> a == s.offset && b == s.offset
            + s.len && b <= bytes@.len()),
        (s.data matches SpanData::Padded { start: a, bytes: _ } ==> a == s.offset),
{
    let aligned_start = start - start % 4;
    let aligned_end = (end + 3) / 4 * 4;
    let len = (aligned_end - aligned_start) as u64;
    if aligned_end <= bytes.len() {
        let s = SpanUpload {
            offset: aligned_start as u64,
            len,
            data: SpanData::InPlace { start: aligned_start, end: aligned_end },
        };
        proof {
            assert(bytes@.subrange(aligned_start as int, aligned_end as int) =~= span_content(
                bytes@,
                aligned_start as int,
                aligned_end as int,
            ));
        }
        s
    } else {
        let mut padded: Vec<u8> = Vec::new();
        let mut i = aligned_start;
        while i < aligned_end
            invariant
                aligned_start <= i <= aligned_end,
                aligned_end <= bytes@.len() + 3,
                padded@ =~= span_content(bytes@, aligned_start as int, i as int),
            decreases aligned_end - i,
        {
            if i < bytes.len() {
                padded.push(bytes[i]);
            } else {
                padded.push(0u8);
            }
            i += 1;
        }
        SpanUpload {
            offset: aligned_start as u64,
            len,
            data: SpanData::Padded { start: aligned_start, bytes: padded },
        }
    }
}

pub open spec fn le_bytes(v: u32) -> Seq<u8> {
    seq![(v % 256) as u8, (v / 256 % 256) as u8, (v / 65536 % 256) as u8, (v / 16777216) as u8]
}

/// Little-endian encoding of a sequence of `u32` words.
pub open spec fn encode_words(words: Seq<u32>) -> Seq<u8> {
    Seq::new(4 * words.len(), |k: int| le_bytes(words[k / 4])[k % 4])
}

/// Serializer for the unpack-pass parameter block: twelve `u32` words
/// `[x, y, width, height, index_origin_x, index_origin_y, src_base, src_pitch, shader_id,
/// u_base, v_base, chroma_pitch]`, little-endian.
pub struct ParamsWriter {
    words: [u32; 12],
}

impl View for ParamsWriter {
    type V = Seq<u32>;

    closed spec fn view(&self) -> Seq<u32> {
        self.words@
    }
}

impl ParamsWriter {
    pub fn new(rect: Rect, shader_id: u32) -> (w: Self)
        ensures
            w@ == seq![rect.x, rect.y, rect.width, rect.height, 0u32, 0u32, 0u32, 0u32, shader_id, 0u32, 0u32, 0u32],
    {
        let mut writer = Self { words: [0u32; 12] };
        writer.put(0, rect.x);
        writer.put(4, rect.y);
        writer.put(8, rect.width);
        writer.put(12, rect.height);
        writer.put(32, shader_id);
        proof {
            assert(writer@ =~= seq![rect.x, rect.y, rect.width, rect.height, 0u32, 0u32, 0u32, 0u32, shader_id, 0u32, 0u32, 0u32]);
        }
        writer
    }

    /// Where the unpack pass finds the rect's samples: pixel `(x, y)` of the rect is read at
    /// `src_base + (y - index_origin_y) * src_pitch + (x - index_origin_x)` samples.
    pub fn indexing(
        &mut self,
        index_origin_x: u32,
        index_origin_y: u32,
        src_base: u32,
        src_pitch: u32,
    )
        requires
            old(self)@.len() == 12,
        ensures
            final(self)@ == old(self)@.update(4, index_origin_x).update(5, index_origin_y).update(
                6,
                src_base,
            ).update(7, src_pitch),
    {
        self.put(16, index_origin_x);
        self.put(20, index_origin_y);
        self.put(24, src_base);
        self.put(28, src_pitch);
    }

    /// Chroma plane offsets and pitch (I420).
    pub fn planes(&mut self, u_base: u32, v_base: u32, chroma_pitch: u32)
        requires
            old(self)@.len() == 12,
        ensures
            final(self)@ == old(self)@.update(9, u_base).update(10, v_base).update(11, chroma_pitch),
    {
        self.put(36, u_base);
        self.put(40, v_base);
        self.put(44, chroma_pitch);
    }

    /// Writes `value` as the word at byte `offset`.
    pub fn put(&mut self, offset: usize, value: u32)
        requires
            offset % 4 == 0,
            offset + 4 <= UNPACK_PARAMS_SIZE,
        ensures
            final(self)@ == old(self)@.update(offset as int / 4, value),
    {
        self.words[offset / 4] = value;
    }

    /// The parameter block: each word little-endian at four times its index.
    pub fn finish(self) -> (data: [u8; 48])
        ensures
            data@ == encode_words(self@),
    {
        let mut data = [0u8; 48];
        let mut i: usize = 0;
        while i < UNPACK_PARAMS_WORDS
            invariant
                i <= 12,
                self.words@.len() == 12,
                data@.len() == 48,
                forall|k: int| 0 <= k < 4 * i ==> data@[k] == #[trigger] le_bytes(self.words@[k / 4])[k % 4],
            decreases 12 - i,
        {
            let v = self.words[i];
            data[4 * i] = (v % 256) as u8;
            data[4 * i + 1] = (v / 256 % 256) as u8;
            data[4 * i + 2] = (v / 65536 % 256) as u8;
            data[4 * i + 3] = (v / 16777216) as u8;
            i += 1;
        }
        proof {
            assert(data@ =~= encode_words(self@));
        }
        data
    }
}

} // verus!
