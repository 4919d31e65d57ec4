use vstd::prelude::*;

verus! {

/// How the source framebuffer maps onto the presentation surface.
#[derive(Clone, Copy, Debug, PartialEq, Eq, Structural)]
pub enum ScalingMode {
    /// Letterbox: preserve aspect ratio, fit entirely within the surface, linear filtering.
    Fit,
    /// Crop: preserve aspect ratio, cover the entire surface, linear filtering.
    Fill,
    /// Ignore aspect ratio, fill the surface exactly, linear filtering.
    Stretch,
    /// Integer multiples only, nearest filtering, centered (emulators).
    /// Uses the largest integer scale that fits, with a minimum of 1x (cropping if needed).
    Integer,
    /// 1:1 pixels, centered, nearest filtering (cropping if the source is larger).
    Native1x,
}

/// An exact non-negative rational `num / den` (`den > 0`).
#[derive(Clone, Copy, Debug, PartialEq, Eq, Structural)]
pub struct Ratio {
    pub num: u64,
    pub den: u64,
}

pub open spec fn at_least_one(v: u32) -> int {
    if v == 0 { 1 } else { v as int }
}

/// `(num, den)` pairs of the two half-extents.
pub open spec fn spec_extent(mode: ScalingMode, sw: int, sh: int, tw: int, th: int) -> (
    (int, int),
    (int, int),
) {
    match mode {
        ScalingMode::Stretch => ((1, 1), (1, 1)),
        ScalingMode::Fit => if tw * sh <= th * sw {
            ((1, 1), (sh * tw, sw * th))
        } else {
            ((sw * th, sh * tw), (1, 1))
        },
        ScalingMode::Fill => if tw * sh >= th * sw {
            ((1, 1), (sh * tw, sw * th))
        } else {
            ((sw * th, sh * tw), (1, 1))
        },
        ScalingMode::Integer => {
            let k = integer_factor(sw, sh, tw, th);
            ((sw * k, tw), (sh * k, th))
        },
        ScalingMode::Native1x => ((sw, tw), (sh, th)),
    }
}

/// The largest integer scale at which the source fits the target on both axes, but at least 1.
pub open spec fn integer_factor(sw: int, sh: int, tw: int, th: int) -> int {
    let k = min_i(tw / sw, th / sh);
    if k >= 1 { k } else { 1 }
}

pub open spec fn min_i(a: int, b: int) -> int {
    if a <= b { a } else { b }
}

pub open spec fn ratio_is(r: Ratio, p: (int, int)) -> bool {
    r.num == p.0 && r.den == p.1
}

impl ScalingMode {
    /// The variant's name.
    pub open spec fn name(self) -> Seq<char> {
        match self {
            ScalingMode::Fit => "Fit"@,
            ScalingMode::Fill => "Fill"@,
            ScalingMode::Stretch => "Stretch"@,
            ScalingMode::Integer => "Integer"@,
            ScalingMode::Native1x => "Native1x"@,
        }
    }

    pub open spec fn spec_filter_linear(self) -> bool {
        !(self is Integer || self is Native1x)
    }

    /// Nearest-neighbour modes must never interpolate.
    pub fn filter_linear(self) -> (b: bool)
        ensures
            b == self.spec_filter_linear(),
    {
        match self {
            ScalingMode::Fit | ScalingMode::Fill | ScalingMode::Stretch => true,
            ScalingMode::Integer | ScalingMode::Native1x => false,
        }
    }

    /// Exact half-extents of the destination quad in normalized device coordinates: the quad
    /// spans `[-x, x] x [-y, y]`, centered; values above 1 crop (Fill / oversized Native1x).
    /// Zero sizes count as 1.
    pub fn ndc_extent(self, source: (u32, u32), target: (u32, u32)) -> (r: (Ratio, Ratio))
        ensures
            ({
                let e = spec_extent(
                    self,
                    at_least_one(source.0),
                    at_least_one(source.1),
                    at_least_one(target.0),
                    at_least_one(target.1),
                );
                ratio_is(r.0, e.0) && ratio_is(r.1, e.1)
            }),
            r.0.den > 0,
            r.1.den > 0,
    {
        let sw: u64 = if source.0 == 0 { 1 } else { source.0 as u64 };
        let sh: u64 = if source.1 == 0 { 1 } else { source.1 as u64 };
        let tw: u64 = if target.0 == 0 { 1 } else { target.0 as u64 };
        let th: u64 = if target.1 == 0 { 1 } else { target.1 as u64 };
        proof {
            lemma_small_products(sw, sh, tw, th);
        }
        let one = Ratio { num: 1, den: 1 };
        match self {
            ScalingMode::Stretch => (one, one),
            ScalingMode::Fit => {
                if tw * sh <= th * sw {
                    (one, Ratio { num: sh * tw, den: sw * th })
                } else {
                    (Ratio { num: sw * th, den: sh * tw }, one)
                }
            },
            ScalingMode::Fill => {
                if tw * sh >= th * sw {
                    (one, Ratio { num: sh * tw, den: sw * th })
                } else {
                    (Ratio { num: sw * th, den: sh * tw }, one)
                }
            },
            ScalingMode::Integer => {
                let kx = tw / sw;
                let ky = th / sh;
                let k0 = if kx <= ky { kx } else { ky };
                let k = if k0 >= 1 { k0 } else { 1 };
                proof {
                    lemma_integer_factor_bounds(sw as int, sh as int, tw as int, th as int);
                }
                (Ratio { num: sw * k, den: tw }, Ratio { num: sh * k, den: th })
            },
            ScalingMode::Native1x => (Ratio { num: sw, den: tw }, Ratio { num: sh, den: th }),
        }
    }
}

proof fn lemma_small_products(sw: u64, sh: u64, tw: u64, th: u64)
    requires
        1 <= sw <= u32::MAX,
        1 <= sh <= u32::MAX,
        1 <= tw <= u32::MAX,
        1 <= th <= u32::MAX,
    ensures
        tw * sh <= u64::MAX,
        th * sw <= u64::MAX,
        sh * tw >= 1,
        sw * th >= 1,
{
    assert(tw * sh <= 0xffff_ffffint * 0xffff_ffffint) by (nonlinear_arith)
        requires tw <= 0xffff_ffffint, sh <= 0xffff_ffffint, tw >= 1, sh >= 1;
    assert(th * sw <= 0xffff_ffffint * 0xffff_ffffint) by (nonlinear_arith)
        requires th <= 0xffff_ffffint, sw <= 0xffff_ffffint, th >= 1, sw >= 1;
    assert(sh * tw >= 1) by (nonlinear_arith)
        requires tw >= 1, sh >= 1;
    assert(sw * th >= 1) by (nonlinear_arith)
        requires th >= 1, sw >= 1;
}

proof fn lemma_integer_factor_bounds(sw: int, sh: int, tw: int, th: int)
    requires
        1 <= sw <= u32::MAX,
        1 <= sh <= u32::MAX,
        1 <= tw <= u32::MAX,
        1 <= th <= u32::MAX,
    ensures
        1 <= integer_factor(sw, sh, tw, th),
        sw * integer_factor(sw, sh, tw, th) <= u32::MAX,
        sh * integer_factor(sw, sh, tw, th) <= u32::MAX,
{
    let k = integer_factor(sw, sh, tw, th);
    if min_i(tw / sw, th / sh) >= 1 {
        assert(k <= tw / sw && k <= th / sh);
        assert(sw * (tw / sw) <= tw) by (nonlinear_arith)
            requires sw >= 1, tw >= 0;
        assert(sh * (th / sh) <= th) by (nonlinear_arith)
            requires sh >= 1, th >= 0;
        assert(sw * k <= sw * (tw / sw)) by (nonlinear_arith)
            requires k <= tw / sw, sw >= 1;
        assert(sh * k <= sh * (th / sh)) by (nonlinear_arith)
            requires k <= th / sh, sh >= 1;
    }
}

/// The value of a ratio compared with 1.
pub open spec fn le_one(p: (int, int)) -> bool {
    p.0 <= p.1
}

pub open spec fn ge_one(p: (int, int)) -> bool {
    p.0 >= p.1
}

pub open spec fn is_one(p: (int, int)) -> bool {
    p.0 == p.1
}

/// The quad's aspect ratio equals the source's: `x / y == (sw / tw) / (sh / th)`.
pub open spec fn keeps_aspect(x: (int, int), y: (int, int), sw: int, sh: int, tw: int, th: int) -> bool {
    x.0 * y.1 * tw * sh == y.0 * x.1 * sw * th
}

/// The scaling laws: Stretch covers the surface exactly; Fit stays within the surface and
/// touches it on one axis; Fill covers the surface and matches it on one axis; Fit, Fill,
/// Integer and Native1x preserve the source's aspect ratio; Integer scales by a whole factor
/// of at least 1 that is the largest one fitting both axes whenever any factor fits; Native1x
/// maps one source pixel to one target pixel.
pub proof fn lemma_scaling_laws(mode: ScalingMode, sw: int, sh: int, tw: int, th: int)
    requires
        sw >= 1,
        sh >= 1,
        tw >= 1,
        th >= 1,
    ensures
        ({
            let (x, y) = spec_extent(mode, sw, sh, tw, th);
            &&& x.1 > 0 && y.1 > 0
            &&& (mode is Stretch ==> is_one(x) && is_one(y))
            &&& (mode is Fit ==> le_one(x) && le_one(y) && (is_one(x) || is_one(y)))
            &&& (mode is Fill ==> ge_one(x) && ge_one(y) && (is_one(x) || is_one(y)))
            &&& (!(mode is Stretch) ==> keeps_aspect(x, y, sw, sh, tw, th))
            &&& (mode is Integer ==> {
                let k = integer_factor(sw, sh, tw, th);
                &&& k >= 1
                &&& x == (sw * k, tw) && y == (sh * k, th)
                &&& (sw <= tw && sh <= th ==> sw * k <= tw && sh * k <= th && !(sw * (k + 1) <= tw
                    && sh * (k + 1) <= th))
            })
            &&& (mode is Native1x ==> x == (sw, tw) && y == (sh, th))
        }),
{
    let (x, y) = spec_extent(mode, sw, sh, tw, th);
    assert(sh * tw > 0 && sw * th > 0) by (nonlinear_arith)
        requires sw >= 1, sh >= 1, tw >= 1, th >= 1;
    match mode {
        ScalingMode::Stretch => {},
        ScalingMode::Fit => {
            if tw * sh <= th * sw {
                assert(sh * tw <= sw * th) by (nonlinear_arith)
                    requires tw * sh <= th * sw;
                assert(1 * (sw * th) * tw * sh == (sh * tw) * 1 * sw * th) by (nonlinear_arith);
            } else {
                assert(sw * th <= sh * tw) by (nonlinear_arith)
                    requires tw * sh > th * sw;
                assert((sw * th) * 1 * tw * sh == 1 * (sh * tw) * sw * th) by (nonlinear_arith);
            }
        },
        ScalingMode::Fill => {
            if tw * sh >= th * sw {
                assert(sh * tw >= sw * th) by (nonlinear_arith)
                    requires tw * sh >= th * sw;
                assert(1 * (sw * th) * tw * sh == (sh * tw) * 1 * sw * th) by (nonlinear_arith);
            } else {
                assert(sw * th >= sh * tw) by (nonlinear_arith)
                    requires tw * sh < th * sw;
                assert((sw * th) * 1 * tw * sh == 1 * (sh * tw) * sw * th) by (nonlinear_arith);
            }
        },
        ScalingMode::Integer => {
            let k = integer_factor(sw, sh, tw, th);
            assert((sw * k) * th * tw * sh == (sh * k) * tw * sw * th) by (nonlinear_arith);
            if sw <= tw && sh <= th {
                let a = tw / sw;
                let b = th / sh;
                assert(a >= 1 && b >= 1) by (nonlinear_arith)
                    requires sw <= tw, sh <= th, sw >= 1, sh >= 1, a == tw / sw, b == th / sh;
                assert(sw * a <= tw < sw * (a + 1)) by (nonlinear_arith)
                    requires sw >= 1, a == tw / sw, tw >= 0;
                assert(sh * b <= th < sh * (b + 1)) by (nonlinear_arith)
                    requires sh >= 1, b == th / sh, th >= 0;
                assert(k == min_i(a, b));
                assert(sw * k <= sw * a) by (nonlinear_arith)
                    requires k <= a, sw >= 1;
                assert(sh * k <= sh * b) by (nonlinear_arith)
                    requires k <= b, sh >= 1;
                if k == a {
                    assert(sw * (k + 1) > tw);
                } else {
                    assert(sh * (k + 1) > th);
                }
            }
        },
        ScalingMode::Native1x => {
            assert(sw * th * tw * sh == sh * tw * sw * th) by (nonlinear_arith);
        },
    }
}

} // verus!
