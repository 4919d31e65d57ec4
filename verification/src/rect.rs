use vstd::prelude::*;

verus! {

/// An axis-aligned rectangle in source-framebuffer pixel coordinates.
#[derive(Clone, Copy, Debug, PartialEq, Eq, Structural)]
pub struct Rect {
    pub x: u32,
    pub y: u32,
    pub width: u32,
    pub height: u32,
}

/// If more than this many rects survive merging, collapse to the bounding box: each upload has a
/// fixed cost, so long tail-lists of small rects lose to one merged upload.
pub const MAX_RECTS: usize = 64;

/// If the merged rects cover more than `DENSITY_NUM / DENSITY_DEN` (four fifths) of their
/// common bounding box, the bounding box is uploaded instead.
pub const DENSITY_NUM: u128 = 4;

/// Denominator of the density threshold.
pub const DENSITY_DEN: u128 = 5;

pub open spec fn min_int(a: int, b: int) -> int {
    if a <= b { a } else { b }
}

pub open spec fn max_int(a: int, b: int) -> int {
    if a >= b { a } else { b }
}

impl Rect {
    pub open spec fn spec_right(self) -> int {
        self.x + self.width
    }

    pub open spec fn spec_bottom(self) -> int {
        self.y + self.height
    }

    pub open spec fn spec_is_empty(self) -> bool {
        self.width == 0 || self.height == 0
    }

    pub open spec fn spec_area(self) -> int {
        self.width * self.height
    }

    pub open spec fn spec_within(self, bounds_width: int, bounds_height: int) -> bool {
        self.spec_right() <= bounds_width && self.spec_bottom() <= bounds_height
    }

    /// Non-empty and inside a `bounds_width` x `bounds_height` framebuffer.
    pub open spec fn good(self, bounds_width: int, bounds_height: int) -> bool {
        !self.spec_is_empty() && self.spec_within(bounds_width, bounds_height)
    }

    pub open spec fn spec_clipped(self, bounds_width: u32, bounds_height: u32) -> Option<Rect> {
        if self.spec_is_empty() || self.x >= bounds_width || self.y >= bounds_height {
            None
        } else {
            Some(
                Rect {
                    x: self.x,
                    y: self.y,
                    width: min_int(self.width as int, bounds_width - self.x) as u32,
                    height: min_int(self.height as int, bounds_height - self.y) as u32,
                },
            )
        }
    }

    /// Whether the bounding box of `self` and `other` has a width and height that fit `u32`.
    pub open spec fn union_fits(self, other: Rect) -> bool {
        max_int(self.spec_right(), other.spec_right()) - min_int(self.x as int, other.x as int)
            <= u32::MAX && max_int(self.spec_bottom(), other.spec_bottom()) - min_int(
            self.y as int,
            other.y as int,
        ) <= u32::MAX
    }

    /// The bounding box of `self` and `other`.
    pub open spec fn spec_union(self, other: Rect) -> Rect {
        let x = min_int(self.x as int, other.x as int);
        let y = min_int(self.y as int, other.y as int);
        Rect {
            x: x as u32,
            y: y as u32,
            width: (max_int(self.spec_right(), other.spec_right()) - x) as u32,
            height: (max_int(self.spec_bottom(), other.spec_bottom()) - y) as u32,
        }
    }

    /// The two rects overlap or share an edge.
    pub open spec fn spec_touches(self, other: Rect) -> bool {
        self.x <= other.spec_right() && other.x <= self.spec_right() && self.y
            <= other.spec_bottom() && other.y <= self.spec_bottom()
    }

    /// Every pixel of `other` lies in `self`.
    pub open spec fn contains_rect(self, other: Rect) -> bool {
        self.x <= other.x && self.y <= other.y && other.spec_right() <= self.spec_right()
            && other.spec_bottom() <= self.spec_bottom()
    }

    pub open spec fn contains_point(self, px: int, py: int) -> bool {
        self.x <= px < self.spec_right() && self.y <= py < self.spec_bottom()
    }

    pub fn new(x: u32, y: u32, width: u32, height: u32) -> (r: Self)
        ensures
            r == (Rect { x, y, width, height }),
    {
        Self { x, y, width, height }
    }

    pub fn is_empty(self) -> (b: bool)
        ensures
            b == self.spec_is_empty(),
    {
        self.width == 0 || self.height == 0
    }

    pub fn right(self) -> (r: u64)
        ensures
            r == self.spec_right(),
    {
        self.x as u64 + self.width as u64
    }

    pub fn bottom(self) -> (b: u64)
        ensures
            b == self.spec_bottom(),
    {
        self.y as u64 + self.height as u64
    }

    pub fn area(self) -> (a: u64)
        ensures
            a == self.spec_area(),
    {
        proof {
            assert((self.width as int) * (self.height as int) <= 0xffff_ffffint * 0xffff_ffffint)
                by (nonlinear_arith)
                requires self.width <= 0xffff_ffffint, self.height <= 0xffff_ffffint;
        }
        self.width as u64 * self.height as u64
    }

    /// Whether `self` fits entirely within a `bounds_width` x `bounds_height` framebuffer.
    pub fn within(self, bounds_width: u32, bounds_height: u32) -> (b: bool)
        ensures
            b == self.spec_within(bounds_width as int, bounds_height as int),
    {
        self.right() <= bounds_width as u64 && self.bottom() <= bounds_height as u64
    }

    /// Clips to a `bounds_width` x `bounds_height` framebuffer. Returns `None` if nothing remains.
    pub fn clipped(self, bounds_width: u32, bounds_height: u32) -> (r: Option<Self>)
        ensures
            r == self.spec_clipped(bounds_width, bounds_height),
    {
        if self.is_empty() || self.x >= bounds_width || self.y >= bounds_height {
            return None;
        }
        let room_x = bounds_width - self.x;
        let room_y = bounds_height - self.y;
        let width = if self.width <= room_x { self.width } else { room_x };
        let height = if self.height <= room_y { self.height } else { room_y };
        Some(Self { x: self.x, y: self.y, width, height })
    }

    /// The bounding box of `self` and `other`.
    pub fn union(self, other: Self) -> (r: Self)
        requires
            self.union_fits(other),
        ensures
            r == self.spec_union(other),
    {
        let x = if self.x <= other.x { self.x } else { other.x };
        let y = if self.y <= other.y { self.y } else { other.y };
        let r1 = self.right();
        let r2 = other.right();
        let b1 = self.bottom();
        let b2 = other.bottom();
        let right = if r1 >= r2 { r1 } else { r2 };
        let bottom = if b1 >= b2 { b1 } else { b2 };
        Self { x, y, width: (right - x as u64) as u32, height: (bottom - y as u64) as u32 }
    }

    /// Whether the two rects overlap or share an edge (merging them loses nothing but
    /// interior-free corner area).
    pub fn overlaps_or_touches(self, other: Self) -> (b: bool)
        ensures
            b == self.spec_touches(other),
    {
        (self.x as u64) <= other.right() && (other.x as u64) <= self.right() && (self.y as u64)
            <= other.bottom() && (other.y as u64) <= self.bottom()
    }
}

// ---------------------------------------------------------------------------------------------
// Rect laws
// ---------------------------------------------------------------------------------------------

/// Clipping keeps exactly the part of a rect that lies inside the framebuffer: the result is
/// non-empty, inside the bounds, inside the original rect, and holds every in-bounds pixel of
/// it; nothing remains exactly when the rect is empty or starts outside the bounds. A rect that
/// is already non-empty and in bounds clips to itself.
pub proof fn lemma_clipped(r: Rect, bounds_width: u32, bounds_height: u32)
    ensures
        r.spec_clipped(bounds_width, bounds_height) is None <==> (r.spec_is_empty() || r.x
            >= bounds_width || r.y >= bounds_height),
        r.spec_clipped(bounds_width, bounds_height) matches Some(c) ==> {
            &&& c.good(bounds_width as int, bounds_height as int)
            &&& r.contains_rect(c)
            &&& forall|px: int, py: int|
                r.contains_point(px, py) && px < bounds_width && py < bounds_height
                    ==> #[trigger] c.contains_point(px, py)
        },
        r.good(bounds_width as int, bounds_height as int) ==> r.spec_clipped(
            bounds_width,
            bounds_height,
        ) == Some(r),
{
}

/// Two rects inside the same framebuffer have a bounding box that fits, lies inside the
/// framebuffer, and contains both; it is non-empty when either is.
pub proof fn lemma_union_good(a: Rect, b: Rect, bounds_width: int, bounds_height: int)
    requires
        a.good(bounds_width, bounds_height),
        b.good(bounds_width, bounds_height),
        bounds_width <= u32::MAX,
        bounds_height <= u32::MAX,
    ensures
        a.union_fits(b),
        a.spec_union(b).good(bounds_width, bounds_height),
        a.spec_union(b).contains_rect(a),
        a.spec_union(b).contains_rect(b),
{
}

/// The bounding box is the smallest rect containing both operands, and it does not depend on
/// their order.
pub proof fn lemma_union_least(a: Rect, b: Rect, c: Rect)
    requires
        a.union_fits(b),
    ensures
        a.spec_union(b).contains_rect(a),
        a.spec_union(b).contains_rect(b),
        c.contains_rect(a) && c.contains_rect(b) ==> c.contains_rect(a.spec_union(b)),
        a.spec_union(b) == b.spec_union(a),
{
}

/// Touching is symmetric, and two rects touch exactly when they overlap or are adjacent:
/// a rect touches every rect it contains.
pub proof fn lemma_touches(a: Rect, b: Rect)
    ensures
        a.spec_touches(b) == b.spec_touches(a),
        a.contains_rect(b) ==> a.spec_touches(b),
{
}

pub proof fn lemma_contains_trans(a: Rect, b: Rect, c: Rect)
    requires
        a.contains_rect(b),
        b.contains_rect(c),
    ensures
        a.contains_rect(c),
{
}

// ---------------------------------------------------------------------------------------------
// Coalescing: specification
// ---------------------------------------------------------------------------------------------

/// Every rect of `s` is non-empty and within bounds.
pub open spec fn all_good(s: Seq<Rect>, bounds_width: int, bounds_height: int) -> bool {
    forall|i: int| 0 <= i < s.len() ==> #[trigger] s[i].good(bounds_width, bounds_height)
}

/// No two rects of `s` overlap or touch.
pub open spec fn pairwise_apart(s: Seq<Rect>) -> bool {
    forall|i: int, j: int| 0 <= i < j < s.len() ==> !#[trigger] s[i].spec_touches(#[trigger] s[j])
}

/// Some rect of `s` contains `r`.
pub open spec fn covers_rect(s: Seq<Rect>, r: Rect) -> bool {
    exists|j: int| 0 <= j < s.len() && #[trigger] s[j].contains_rect(r)
}

/// One left-to-right scan: every rect of `s` that touches the growing `cur` is absorbed into it
/// (`cur` becomes the bounding box of both); the others are kept in order.
pub open spec fn absorb_pass(s: Seq<Rect>, cur: Rect) -> (Seq<Rect>, Rect)
    decreases s.len(),
{
    if s.len() == 0 {
        (s, cur)
    } else if s[0].spec_touches(cur) {
        absorb_pass(s.drop_first(), cur.spec_union(s[0]))
    } else {
        let t = absorb_pass(s.drop_first(), cur);
        (seq![s[0]] + t.0, t.1)
    }
}

/// Scans repeatedly until a scan absorbs nothing (merging can make `cur` touch rects that an
/// earlier scan kept).
pub open spec fn settle(s: Seq<Rect>, cur: Rect) -> (Seq<Rect>, Rect)
    decreases s.len(),
{
    let t = absorb_pass(s, cur);
    if t.0.len() < s.len() {
        settle(t.0, t.1)
    } else {
        (s, cur)
    }
}

/// Clips each rect in turn and merges it into the list built so far.
pub open spec fn merge_all(rects: Seq<Rect>, bounds_width: u32, bounds_height: u32) -> Seq<Rect>
    decreases rects.len(),
{
    if rects.len() == 0 {
        Seq::empty()
    } else {
        let m = merge_all(rects.drop_last(), bounds_width, bounds_height);
        match rects.last().spec_clipped(bounds_width, bounds_height) {
            None => m,
            Some(c) => {
                let t = settle(m, c);
                t.0.push(t.1)
            },
        }
    }
}

/// Bounding box of a non-empty list (folded left to right).
pub open spec fn bbox_of(s: Seq<Rect>) -> Rect
    decreases s.len(),
{
    if s.len() <= 1 {
        s[0]
    } else {
        bbox_of(s.drop_last()).spec_union(s.last())
    }
}

/// Sum of the areas of the rects of `s`.
pub open spec fn total_area(s: Seq<Rect>) -> int
    decreases s.len(),
{
    if s.len() == 0 {
        0
    } else {
        total_area(s.drop_last()) + s.last().spec_area()
    }
}

/// The merged list collapses to its bounding box when it is too long or covers more than four
/// fifths of the bounding box.
pub open spec fn collapses(m: Seq<Rect>) -> bool {
    m.len() > MAX_RECTS || DENSITY_DEN * total_area(m) > DENSITY_NUM * bbox_of(m).spec_area()
}

/// The result of [`coalesce`].
pub open spec fn spec_coalesce(rects: Seq<Rect>, bounds_width: u32, bounds_height: u32) -> Seq<
    Rect,
> {
    let m = merge_all(rects, bounds_width, bounds_height);
    if m.len() <= 1 {
        m
    } else if collapses(m) {
        seq![bbox_of(m)]
    } else {
        m
    }
}

// ---------------------------------------------------------------------------------------------
// Coalescing: proofs
// ---------------------------------------------------------------------------------------------

proof fn lemma_covers_trans(s: Seq<Rect>, t: Seq<Rect>, r: Rect)
    requires
        covers_rect(s, r),
        forall|j: int| 0 <= j < s.len() ==> covers_rect(t, #[trigger] s[j]),
    ensures
        covers_rect(t, r),
{
    let j = choose|j: int| 0 <= j < s.len() && #[trigger] s[j].contains_rect(r);
    assert(covers_rect(t, s[j]));
    let k = choose|k: int| 0 <= k < t.len() && #[trigger] t[k].contains_rect(s[j]);
    lemma_contains_trans(t[k], s[j], r);
}

/// Facts about one scan: rects stay good; kept rects come from `s`; every rect of `s` ends up
/// inside a kept rect or inside the grown `cur`; and a scan that absorbs nothing leaves
/// everything unchanged and proves that nothing in `s` touches `cur`.
#[verifier::spinoff_prover]
#[verifier::rlimit(50)]
proof fn lemma_absorb_pass(s: Seq<Rect>, cur: Rect, bw: int, bh: int)
    requires
        all_good(s, bw, bh),
        cur.good(bw, bh),
        bw <= u32::MAX,
        bh <= u32::MAX,
    ensures
        ({
            let (r, c) = absorb_pass(s, cur);
            &&& r.len() <= s.len()
            &&& all_good(r, bw, bh)
            &&& c.good(bw, bh)
            &&& c.contains_rect(cur)
            &&& forall|j: int| 0 <= j < r.len() ==> s.contains(#[trigger] r[j])
            &&& forall|k: int| 0 <= k < s.len() ==> covers_rect(#[trigger] r.push(c), s[k])
            &&& (r.len() == s.len() ==> r == s && c == cur && forall|k: int|
                0 <= k < s.len() ==> !#[trigger] s[k].spec_touches(cur))
            &&& (pairwise_apart(s) ==> pairwise_apart(r))
        }),
    decreases s.len(),
{
    let (r, c) = absorb_pass(s, cur);
    if s.len() == 0 {
        assert(r.push(c)[0] == c);
        assert(c.contains_rect(cur));
    } else {
        let e = s[0];
        let rest = s.drop_first();
        assert(all_good(rest, bw, bh)) by {
            assert forall|i: int| 0 <= i < rest.len() implies #[trigger] rest[i].good(bw, bh) by {
                assert(rest[i] == s[i + 1]);
            }
        }
        assert(pairwise_apart(s) ==> pairwise_apart(rest)) by {
            if pairwise_apart(s) {
                assert forall|i: int, j: int| 0 <= i < j < rest.len() implies !#[trigger] rest[i].spec_touches(
                    #[trigger] rest[j],
                ) by {
                    assert(rest[i] == s[i + 1] && rest[j] == s[j + 1]);
                }
            }
        }
        if e.spec_touches(cur) {
            lemma_union_good(cur, e, bw, bh);
            let cur2 = cur.spec_union(e);
            lemma_absorb_pass(rest, cur2, bw, bh);
            assert(absorb_pass(s, cur) == absorb_pass(rest, cur2));
            lemma_contains_trans(c, cur2, cur);
            assert forall|j: int| 0 <= j < r.len() implies s.contains(#[trigger] r[j]) by {
                assert(rest.contains(r[j]));
                let k = choose|k: int| 0 <= k < rest.len() && rest[k] == r[j];
                assert(s[k + 1] == r[j]);
            }
            assert forall|k: int| 0 <= k < s.len() implies covers_rect(#[trigger] r.push(c), s[k]) by {
                if k == 0 {
                    lemma_contains_trans(c, cur2, e);
                    assert(r.push(c)[r.len() as int] == c);
                } else {
                    assert(s[k] == rest[k - 1]);
                }
            }
        } else {
            lemma_absorb_pass(rest, cur, bw, bh);
            let t = absorb_pass(rest, cur);
            assert(r == seq![e] + t.0);
            assert(c == t.1);
            assert(all_good(r, bw, bh)) by {
                assert forall|i: int| 0 <= i < r.len() implies #[trigger] r[i].good(bw, bh) by {
                    if i > 0 {
                        assert(r[i] == t.0[i - 1]);
                    }
                }
            }
            assert forall|j: int| 0 <= j < r.len() implies s.contains(#[trigger] r[j]) by {
                if j == 0 {
                    assert(s[0] == r[j]);
                } else {
                    assert(r[j] == t.0[j - 1]);
                    assert(rest.contains(t.0[j - 1]));
                    let k = choose|k: int| 0 <= k < rest.len() && rest[k] == t.0[j - 1];
                    assert(s[k + 1] == r[j]);
                }
            }
            assert forall|k: int| 0 <= k < s.len() implies covers_rect(#[trigger] r.push(c), s[k]) by {
                if k == 0 {
                    assert(r.push(c)[0] == e);
                    assert(r.push(c)[0].contains_rect(s[k]));
                } else {
                    assert(s[k] == rest[k - 1]);
                    assert(covers_rect(t.0.push(t.1), rest[k - 1]));
                    let j = choose|j: int|
                        0 <= j < t.0.push(t.1).len() && #[trigger] t.0.push(t.1)[j].contains_rect(
                            rest[k - 1],
                        );
                    assert(r.push(c)[j + 1] == t.0.push(t.1)[j]);
                }
            }
            if r.len() == s.len() {
                assert(t.0.len() == rest.len());
                assert(r =~= s);
                assert forall|k: int| 0 <= k < s.len() implies !#[trigger] s[k].spec_touches(cur) by {
                    if k > 0 {
                        assert(s[k] == rest[k - 1]);
                    }
                }
            }
            if pairwise_apart(s) {
                assert forall|i: int, j: int| 0 <= i < j < r.len() implies !#[trigger] r[i].spec_touches(
                    #[trigger] r[j],
                ) by {
                    if i == 0 {
                        assert(r[j] == t.0[j - 1]);
                        assert(rest.contains(t.0[j - 1]));
                        let k = choose|k: int| 0 <= k < rest.len() && rest[k] == t.0[j - 1];
                        assert(s[k + 1] == r[j]);
                        assert(!s[0].spec_touches(s[k + 1]));
                    } else {
                        assert(r[i] == t.0[i - 1] && r[j] == t.0[j - 1]);
                    }
                }
            }
        }
    }
}

/// Facts about settling: the result is good, apart from one another and from the settled rect
/// (when the input was pairwise apart), every input rect and `cur` end up covered.
proof fn lemma_settle(s: Seq<Rect>, cur: Rect, bw: int, bh: int)
    requires
        all_good(s, bw, bh),
        cur.good(bw, bh),
        bw <= u32::MAX,
        bh <= u32::MAX,
    ensures
        ({
            let (r, c) = settle(s, cur);
            &&& all_good(r.push(c), bw, bh)
            &&& c.contains_rect(cur)
            &&& forall|k: int| 0 <= k < s.len() ==> covers_rect(r.push(c), #[trigger] s[k])
            &&& (pairwise_apart(s) ==> pairwise_apart(r.push(c)))
        }),
    decreases s.len(),
{
    let (r1, c1) = absorb_pass(s, cur);
    lemma_absorb_pass(s, cur, bw, bh);
    let (r, c) = settle(s, cur);
    if r1.len() < s.len() {
        lemma_settle(r1, c1, bw, bh);
        assert(settle(s, cur) == settle(r1, c1));
        lemma_contains_trans(c, c1, cur);
        let out = r.push(c);
        assert forall|k: int| 0 <= k < s.len() implies covers_rect(out, #[trigger] s[k]) by {
            assert(covers_rect(r1.push(c1), s[k]));
            assert forall|j: int| 0 <= j < r1.push(c1).len() implies covers_rect(
                out,
                #[trigger] r1.push(c1)[j],
            ) by {
                if j < r1.len() {
                    assert(r1.push(c1)[j] == r1[j]);
                } else {
                    assert(r1.push(c1)[j] == c1);
                    assert(out[r.len() as int] == c);
                }
            }
            lemma_covers_trans(r1.push(c1), out, s[k]);
        }
    } else {
        assert(r == s && c == cur);
        let out = s.push(cur);
        assert(all_good(out, bw, bh)) by {
            assert forall|i: int| 0 <= i < out.len() implies #[trigger] out[i].good(bw, bh) by {
                if i < s.len() {
                    assert(out[i] == s[i]);
                }
            }
        }
        assert forall|k: int| 0 <= k < s.len() implies covers_rect(out, #[trigger] s[k]) by {
            assert(out[k] == s[k]);
            assert(out[k].contains_rect(s[k]));
        }
        if pairwise_apart(s) {
            assert forall|i: int, j: int| 0 <= i < j < out.len() implies !#[trigger] out[i].spec_touches(
                #[trigger] out[j],
            ) by {
                assert(out[i] == s[i]);
                if j == s.len() {
                    assert(out[j] == cur);
                    assert(!s[i].spec_touches(cur));
                } else {
                    assert(out[j] == s[j]);
                }
            }
        }
    }
}

/// Facts about the merged list before the bounding-box collapse.
proof fn lemma_merge_all(rects: Seq<Rect>, bw: u32, bh: u32)
    ensures
        ({
            let m = merge_all(rects, bw, bh);
            &&& all_good(m, bw as int, bh as int)
            &&& pairwise_apart(m)
            &&& forall|k: int|
                0 <= k < rects.len() && (#[trigger] rects[k].spec_clipped(bw, bh)) is Some
                    ==> covers_rect(m, rects[k].spec_clipped(bw, bh).unwrap())
            &&& (m.len() == 0 <==> forall|k: int|
                0 <= k < rects.len() ==> (#[trigger] rects[k].spec_clipped(bw, bh)) is None)
        }),
    decreases rects.len(),
{
    if rects.len() == 0 {
    } else {
        let prev = rects.drop_last();
        lemma_merge_all(prev, bw, bh);
        let m0 = merge_all(prev, bw, bh);
        let m = merge_all(rects, bw, bh);
        let n = rects.len() - 1;
        assert forall|k: int| 0 <= k < n implies rects[k] == #[trigger] prev[k] by {}
        match rects.last().spec_clipped(bw, bh) {
            None => {
                assert(m == m0);
                assert forall|k: int|
                    0 <= k < rects.len() && (#[trigger] rects[k].spec_clipped(bw, bh)) is Some
                        implies covers_rect(m, rects[k].spec_clipped(bw, bh).unwrap()) by {
                    assert(prev[k] == rects[k]);
                }
                if m.len() == 0 {
                    assert forall|k: int| 0 <= k < rects.len() implies (
                    #[trigger] rects[k].spec_clipped(bw, bh)) is None by {
                        if k < n {
                            assert(prev[k] == rects[k]);
                        }
                    }
                } else {
                    let k0 = choose|k: int|
                        0 <= k < prev.len() && !((#[trigger] prev[k].spec_clipped(bw, bh)) is None);
                    assert(rects[k0] == prev[k0]);
                    assert(!(rects[k0].spec_clipped(bw, bh) is None));
                }
            },
            Some(c) => {
                lemma_clipped(rects.last(), bw, bh);
                lemma_settle(m0, c, bw as int, bh as int);
                let (r, c2) = settle(m0, c);
                assert(m == r.push(c2));
                assert forall|k: int|
                    0 <= k < rects.len() && (#[trigger] rects[k].spec_clipped(bw, bh)) is Some
                        implies covers_rect(m, rects[k].spec_clipped(bw, bh).unwrap()) by {
                    if k == n {
                        assert(m[r.len() as int] == c2);
                        assert(m[r.len() as int].contains_rect(c));
                    } else {
                        assert(prev[k] == rects[k]);
                        let cc = rects[k].spec_clipped(bw, bh).unwrap();
                        assert(covers_rect(m0, cc));
                        assert forall|j: int| 0 <= j < m0.len() implies covers_rect(
                            m,
                            #[trigger] m0[j],
                        ) by {}
                        lemma_covers_trans(m0, m, cc);
                    }
                }
                assert(m.len() > 0);
                assert(!(rects[n].spec_clipped(bw, bh) is None));
            },
        }
    }
}

/// The bounding box of a good list is good and contains every rect of the list.
proof fn lemma_bbox(s: Seq<Rect>, bw: int, bh: int)
    requires
        s.len() >= 1,
        all_good(s, bw, bh),
        bw <= u32::MAX,
        bh <= u32::MAX,
    ensures
        bbox_of(s).good(bw, bh),
        forall|j: int| 0 <= j < s.len() ==> bbox_of(s).contains_rect(#[trigger] s[j]),
    decreases s.len(),
{
    if s.len() == 1 {
        assert(s[0].good(bw, bh));
    } else {
        let p = s.drop_last();
        assert(all_good(p, bw, bh)) by {
            assert forall|i: int| 0 <= i < p.len() implies #[trigger] p[i].good(bw, bh) by {
                assert(p[i] == s[i]);
            }
        }
        lemma_bbox(p, bw, bh);
        assert(s.last().good(bw, bh));
        lemma_union_good(bbox_of(p), s.last(), bw, bh);
        assert forall|j: int| 0 <= j < s.len() implies bbox_of(s).contains_rect(#[trigger] s[j]) by {
            if j < p.len() {
                assert(p[j] == s[j]);
                lemma_contains_trans(bbox_of(s), bbox_of(p), s[j]);
            }
        }
    }
}

/// The laws of dirty-rect coalescing: the result is a list of non-empty rects inside the
/// framebuffer, no two of which overlap or touch; it is never longer than `MAX_RECTS`; every
/// in-bounds part of every input rect lies inside some result rect (no damage is lost); and the
/// result is empty exactly when no input rect has an in-bounds part.
pub proof fn lemma_coalesce_laws(rects: Seq<Rect>, bounds_width: u32, bounds_height: u32)
    ensures
        ({
            let out = spec_coalesce(rects, bounds_width, bounds_height);
            &&& all_good(out, bounds_width as int, bounds_height as int)
            &&& pairwise_apart(out)
            &&& out.len() <= MAX_RECTS
            &&& forall|k: int|
                0 <= k < rects.len() && (#[trigger] rects[k].spec_clipped(
                    bounds_width,
                    bounds_height,
                )) is Some ==> covers_rect(
                    out,
                    rects[k].spec_clipped(bounds_width, bounds_height).unwrap(),
                )
            &&& (out.len() == 0 <==> forall|k: int|
                0 <= k < rects.len() ==> (#[trigger] rects[k].spec_clipped(
                    bounds_width,
                    bounds_height,
                )) is None)
        }),
{
    let bw = bounds_width;
    let bh = bounds_height;
    lemma_merge_all(rects, bw, bh);
    let m = merge_all(rects, bw, bh);
    if m.len() > 1 && collapses(m) {
        lemma_bbox(m, bw as int, bh as int);
        let out = seq![bbox_of(m)];
        assert(out[0] == bbox_of(m));
        assert forall|k: int|
            0 <= k < rects.len() && (#[trigger] rects[k].spec_clipped(bw, bh)) is Some implies covers_rect(
            out,
            rects[k].spec_clipped(bw, bh).unwrap(),
        ) by {
            let cc = rects[k].spec_clipped(bw, bh).unwrap();
            assert forall|j: int| 0 <= j < m.len() implies covers_rect(out, #[trigger] m[j]) by {
                assert(out[0].contains_rect(m[j]));
            }
            lemma_covers_trans(m, out, cc);
        }
    }
}

// ---------------------------------------------------------------------------------------------
// Coalescing: implementation
// ---------------------------------------------------------------------------------------------

/// One scan of [`absorb_pass`].
fn absorb_touching(s: &Vec<Rect>, cur: Rect, bw: u32, bh: u32) -> (res: (Vec<Rect>, Rect))
    requires
        all_good(s@, bw as int, bh as int),
        cur.good(bw as int, bh as int),
    ensures
        res.0@ == absorb_pass(s@, cur).0,
        res.1 == absorb_pass(s@, cur).1,
        all_good(res.0@, bw as int, bh as int),
        res.1.good(bw as int, bh as int),
{
    let mut kept: Vec<Rect> = Vec::new();
    let mut c = cur;
    let mut i: usize = 0;
    let n = s.len();
    proof {
        assert(s@.subrange(0, n as int) =~= s@);
        assert(kept@ + absorb_pass(s@, cur).0 =~= absorb_pass(s@, cur).0);
    }
    while i < n
        invariant
            n == s.len(),
            i <= n,
            all_good(s@, bw as int, bh as int),
            c.good(bw as int, bh as int),
            all_good(kept@, bw as int, bh as int),
            absorb_pass(s@, cur).0 == kept@ + absorb_pass(s@.subrange(i as int, n as int), c).0,
            absorb_pass(s@, cur).1 == absorb_pass(s@.subrange(i as int, n as int), c).1,
        decreases n - i,
    {
        let e = s[i];
        let ghost tail = s@.subrange(i as int, n as int);
        let ghost next = s@.subrange(i as int + 1, n as int);
        proof {
            assert(tail[0] == e);
            assert(tail.drop_first() =~= next);
            assert(e.good(bw as int, bh as int));
        }
        if e.overlaps_or_touches(c) {
            proof {
                lemma_union_good(c, e, bw as int, bh as int);
            }
            c = c.union(e);
        } else {
            proof {
                let t = absorb_pass(next, c);
                assert(absorb_pass(tail, c).0 == seq![e] + t.0);
                assert(kept@ + (seq![e] + t.0) =~= kept@.push(e) + t.0);
            }
            kept.push(e);
        }
        i += 1;
    }
    proof {
        assert(s@.subrange(n as int, n as int) =~= Seq::<Rect>::empty());
        assert(kept@ + Seq::<Rect>::empty() =~= kept@);
    }
    (kept, c)
}

/// Repeats [`absorb_touching`] until a scan absorbs nothing ([`settle`]).
fn settle_merge(start: Vec<Rect>, first: Rect, bw: u32, bh: u32) -> (res: (Vec<Rect>, Rect))
    requires
        all_good(start@, bw as int, bh as int),
        first.good(bw as int, bh as int),
    ensures
        res.0@ == settle(start@, first).0,
        res.1 == settle(start@, first).1,
{
    let ghost s0 = start@;
    let mut s = start;
    let mut cur = first;
    loop
        invariant
            all_good(s@, bw as int, bh as int),
            cur.good(bw as int, bh as int),
            settle(s@, cur) == settle(s0, first),
            s0 == start@,
        decreases s.len(),
    {
        let (r, c) = absorb_touching(&s, cur, bw, bh);
        if r.len() < s.len() {
            s = r;
            cur = c;
        } else {
            proof {
                let t = absorb_pass(s@, cur);
                assert(t.0 == r@);
                assert(!(t.0.len() < s@.len()));
                assert(settle(s@, cur) == (s@, cur));
            }
            return (s, cur);
        }
    }
}

/// Clips `rects` to the framebuffer bounds and coalesces them: overlapping/touching rects are
/// merged to fixpoint, then the list collapses to its bounding box if it is dense (covers more
/// than four fifths of it) or longer than [`MAX_RECTS`].
///
/// The result is a list of disjoint (non-touching) rects, each within bounds
/// ([`lemma_coalesce_laws`]).
pub fn coalesce(rects: &[Rect], bounds_width: u32, bounds_height: u32) -> (out: Vec<Rect>)
    ensures
        out@ == spec_coalesce(rects@, bounds_width, bounds_height),
{
    let bw = bounds_width;
    let bh = bounds_height;
    let mut merged: Vec<Rect> = Vec::new();
    let mut i: usize = 0;
    proof {
        assert(rects@.take(0) =~= Seq::<Rect>::empty());
    }
    while i < rects.len()
        invariant
            i <= rects@.len(),
            merged@ == merge_all(rects@.take(i as int), bw, bh),
            all_good(merged@, bw as int, bh as int),
        decreases rects@.len() - i,
    {
        let r = rects[i];
        proof {
            assert(rects@.take(i as int + 1).drop_last() =~= rects@.take(i as int));
            assert(rects@.take(i as int + 1).last() == r);
        }
        match r.clipped(bw, bh) {
            None => {},
            Some(c) => {
                proof {
                    lemma_clipped(r, bw, bh);
                    lemma_settle(merged@, c, bw as int, bh as int);
                }
                let (kept, settled) = settle_merge(merged, c, bw, bh);
                merged = kept;
                merged.push(settled);
            },
        }
        i += 1;
    }
    proof {
        assert(rects@.take(rects@.len() as int) =~= rects@);
    }
    if merged.len() <= 1 {
        return merged;
    }
    let ghost m = merged@;
    proof {
        lemma_bbox(m, bw as int, bh as int);
    }
    // Bounding box, folded left to right.
    let mut bbox = merged[0];
    let mut j: usize = 1;
    while j < merged.len()
        invariant
            m == merged@,
            m.len() >= 2,
            1 <= j <= m.len(),
            all_good(m, bw as int, bh as int),
            bbox == bbox_of(m.take(j as int)),
            bbox.good(bw as int, bh as int),
        decreases m.len() - j,
    {
        proof {
            assert(m.take(j as int + 1).drop_last() =~= m.take(j as int));
            assert(m.take(j as int + 1).last() == m[j as int]);
            assert(m[j as int].good(bw as int, bh as int));
            lemma_union_good(bbox, m[j as int], bw as int, bh as int);
        }
        bbox = bbox.union(merged[j]);
        j += 1;
    }
    proof {
        assert(m.take(m.len() as int) =~= m);
    }
    if merged.len() > MAX_RECTS {
        return vec![bbox];
    }
    // At most MAX_RECTS areas below 2^64 each: the sum fits comfortably in u128.
    let mut covered: u128 = 0;
    let mut k: usize = 0;
    while k < merged.len()
        invariant
            m == merged@,
            m.len() <= MAX_RECTS,
            k <= m.len(),
            covered == total_area(m.take(k as int)),
            covered <= k * 0x1_0000_0000_0000_0000,
        decreases m.len() - k,
    {
        proof {
            assert(m.take(k as int + 1).drop_last() =~= m.take(k as int));
            assert(m.take(k as int + 1).last() == m[k as int]);
        }
        let a = merged[k].area();
        covered = covered + a as u128;
        k += 1;
    }
    proof {
        assert(m.take(m.len() as int) =~= m);
    }
    let bbox_area = bbox.area() as u128;
    if DENSITY_DEN * covered > DENSITY_NUM * bbox_area {
        return vec![bbox];
    }
    merged
}

// ---------------------------------------------------------------------------------------------
// Coalescing stays inside the damage
// ---------------------------------------------------------------------------------------------

/// Every rect of `s` lies inside `b`.
pub open spec fn all_inside(s: Seq<Rect>, b: Rect) -> bool {
    forall|j: int| 0 <= j < s.len() ==> b.contains_rect(#[trigger] s[j])
}

proof fn lemma_absorb_inside(s: Seq<Rect>, cur: Rect, b: Rect, bw: int, bh: int)
    requires
        all_good(s, bw, bh),
        cur.good(bw, bh),
        bw <= u32::MAX,
        bh <= u32::MAX,
        all_inside(s, b),
        b.contains_rect(cur),
    ensures
        all_inside(absorb_pass(s, cur).0, b),
        b.contains_rect(absorb_pass(s, cur).1),
    decreases s.len(),
{
    if s.len() > 0 {
        let rest = s.drop_first();
        assert(s[0].good(bw, bh) && b.contains_rect(s[0]));
        assert forall|j: int| 0 <= j < rest.len() implies #[trigger] rest[j].good(bw, bh)
            && b.contains_rect(rest[j]) by {
            assert(rest[j] == s[j + 1]);
        }
        if s[0].spec_touches(cur) {
            lemma_union_good(cur, s[0], bw, bh);
            lemma_union_least(cur, s[0], b);
            lemma_absorb_inside(rest, cur.spec_union(s[0]), b, bw, bh);
        } else {
            lemma_absorb_inside(rest, cur, b, bw, bh);
            let t = absorb_pass(rest, cur);
            let out = seq![s[0]] + t.0;
            assert forall|j: int| 0 <= j < out.len() implies b.contains_rect(#[trigger] out[j]) by {
                if j > 0 {
                    assert(out[j] == t.0[j - 1]);
                }
            }
        }
    }
}

proof fn lemma_settle_inside(s: Seq<Rect>, cur: Rect, b: Rect, bw: int, bh: int)
    requires
        all_good(s, bw, bh),
        cur.good(bw, bh),
        bw <= u32::MAX,
        bh <= u32::MAX,
        all_inside(s, b),
        b.contains_rect(cur),
    ensures
        all_inside(settle(s, cur).0.push(settle(s, cur).1), b),
    decreases s.len(),
{
    let t = absorb_pass(s, cur);
    lemma_absorb_pass(s, cur, bw, bh);
    lemma_absorb_inside(s, cur, b, bw, bh);
    if t.0.len() < s.len() {
        lemma_settle_inside(t.0, t.1, b, bw, bh);
    } else {
        let out = s.push(cur);
        assert forall|j: int| 0 <= j < out.len() implies b.contains_rect(#[trigger] out[j]) by {
            if j < s.len() {
                assert(out[j] == s[j]);
            }
        }
    }
}

proof fn lemma_merge_all_inside(rects: Seq<Rect>, bw: u32, bh: u32, b: Rect)
    requires
        forall|k: int|
            0 <= k < rects.len() && (#[trigger] rects[k].spec_clipped(bw, bh)) is Some
                ==> b.contains_rect(rects[k].spec_clipped(bw, bh).unwrap()),
    ensures
        all_inside(merge_all(rects, bw, bh), b),
    decreases rects.len(),
{
    if rects.len() > 0 {
        let p = rects.drop_last();
        assert forall|k: int|
            0 <= k < p.len() && (#[trigger] p[k].spec_clipped(bw, bh)) is Some implies b.contains_rect(
            p[k].spec_clipped(bw, bh).unwrap(),
        ) by {
            assert(p[k] == rects[k]);
        }
        lemma_merge_all_inside(p, bw, bh, b);
        lemma_merge_all(p, bw, bh);
        let m = merge_all(p, bw, bh);
        let last = rects[rects.len() - 1];
        lemma_clipped(last, bw, bh);
        if let Some(c) = last.spec_clipped(bw, bh) {
            lemma_settle_inside(m, c, b, bw as int, bh as int);
        }
    }
}

proof fn lemma_bbox_inside(s: Seq<Rect>, b: Rect, bw: int, bh: int)
    requires
        s.len() >= 1,
        all_good(s, bw, bh),
        bw <= u32::MAX,
        bh <= u32::MAX,
        all_inside(s, b),
    ensures
        b.contains_rect(bbox_of(s)),
    decreases s.len(),
{
    if s.len() == 1 {
        assert(b.contains_rect(s[0]));
    } else {
        let p = s.drop_last();
        assert forall|j: int| 0 <= j < p.len() implies #[trigger] p[j].good(bw, bh)
            && b.contains_rect(p[j]) by {
            assert(p[j] == s[j]);
        }
        lemma_bbox_inside(p, b, bw, bh);
        lemma_bbox(p, bw, bh);
        assert(s.last().good(bw, bh) && b.contains_rect(s.last()));
        lemma_union_good(bbox_of(p), s.last(), bw, bh);
        lemma_union_least(bbox_of(p), s.last(), b);
    }
}

/// Coalescing never reaches outside the damage: a rect that contains every dirty rect (each
/// clipped to the bounds) contains every coalesced rect. Merging and the bounding-box
/// collapse only ever upload pixels inside the bounding box of what was marked dirty.
pub proof fn lemma_coalesce_stays_inside(rects: Seq<Rect>, bounds_width: u32, bounds_height: u32, b: Rect)
    requires
        forall|k: int|
            0 <= k < rects.len() && (#[trigger] rects[k].spec_clipped(bounds_width, bounds_height))
                is Some ==> b.contains_rect(rects[k].spec_clipped(bounds_width, bounds_height).unwrap()),
    ensures
        all_inside(spec_coalesce(rects, bounds_width, bounds_height), b),
{
    let m = merge_all(rects, bounds_width, bounds_height);
    lemma_merge_all_inside(rects, bounds_width, bounds_height, b);
    lemma_merge_all(rects, bounds_width, bounds_height);
    if m.len() > 1 && collapses(m) {
        lemma_bbox_inside(m, b, bounds_width as int, bounds_height as int);
        let out = seq![bbox_of(m)];
        assert(out[0] == bbox_of(m));
    }
}

// ---------------------------------------------------------------------------------------------
// Coalescing is a fixpoint
// ---------------------------------------------------------------------------------------------

proof fn lemma_absorb_none(s: Seq<Rect>, cur: Rect)
    requires
        forall|k: int| 0 <= k < s.len() ==> !(#[trigger] s[k]).spec_touches(cur),
    ensures
        absorb_pass(s, cur) == (s, cur),
    decreases s.len(),
{
    if s.len() > 0 {
        let rest = s.drop_first();
        assert forall|k: int| 0 <= k < rest.len() implies !(#[trigger] rest[k]).spec_touches(cur) by {
            assert(rest[k] == s[k + 1]);
        }
        lemma_absorb_none(rest, cur);
        assert(seq![s[0]] + rest =~= s);
    }
}

proof fn lemma_merge_all_apart(s: Seq<Rect>, bw: u32, bh: u32)
    requires
        all_good(s, bw as int, bh as int),
        pairwise_apart(s),
    ensures
        merge_all(s, bw, bh) == s,
    decreases s.len(),
{
    if s.len() > 0 {
        let p = s.drop_last();
        let last = s[s.len() - 1];
        assert forall|i: int| 0 <= i < p.len() implies #[trigger] p[i].good(bw as int, bh as int) by {
            assert(p[i] == s[i]);
        }
        assert forall|i: int, j: int| 0 <= i < j < p.len() implies !#[trigger] p[i].spec_touches(
            #[trigger] p[j],
        ) by {
            assert(p[i] == s[i] && p[j] == s[j]);
        }
        lemma_merge_all_apart(p, bw, bh);
        assert(last.good(bw as int, bh as int));
        lemma_clipped(last, bw, bh);
        assert forall|k: int| 0 <= k < p.len() implies !(#[trigger] p[k]).spec_touches(last) by {
            assert(p[k] == s[k]);
            assert(!s[k].spec_touches(s[s.len() - 1]));
        }
        lemma_absorb_none(p, last);
        assert(settle(p, last) == (p, last));
        assert(p.push(last) =~= s);
    }
}

/// Coalescing reaches a fixpoint: coalescing already coalesced rects changes nothing.
pub proof fn lemma_coalesce_idempotent(rects: Seq<Rect>, bounds_width: u32, bounds_height: u32)
    ensures
        spec_coalesce(spec_coalesce(rects, bounds_width, bounds_height), bounds_width, bounds_height)
            == spec_coalesce(rects, bounds_width, bounds_height),
{
    let out = spec_coalesce(rects, bounds_width, bounds_height);
    lemma_coalesce_laws(rects, bounds_width, bounds_height);
    lemma_merge_all_apart(out, bounds_width, bounds_height);
}

} // verus!
