//! Detection boxes with exact integer coordinates, and intersection-over-union.
//!
//! Coordinates are numerators of exact rationals over a per-image common
//! denominator (sub-pixel units), so every geometric quantity here is computed
//! exactly.  The common denominator cancels inside the IoU ratio, which is why
//! none of the functions below needs to know it.

use vstd::prelude::*;

verus! {

/// Bound on every coordinate a box may carry; keeps all intermediate
/// products (areas, cross-multiplied threshold comparisons) inside `i128`.
pub const COORD_BOUND: i64 = 0x8_0000_0000_0000;

/// Bound on the numerator and denominator of a `Ratio` threshold.
pub const RATIO_BOUND: i64 = 2_000_000;

/// A detection box in corner form with its confidence.
///
/// `x1, y1, x2, y2` are exact sub-pixel coordinate numerators; `conf` is the
/// confidence in fixed-point units.  A box is not required to be well-ordered
/// (`x1 <= x2`): inverted boxes are treated as having zero area.
#[derive(Clone, Copy, PartialEq, Eq, Structural, Debug)]
pub struct DetBox {
    pub x1: i64,
    pub y1: i64,
    pub x2: i64,
    pub y2: i64,
    pub conf: i64,
}

/// An exact rational threshold, `num / den`.
#[derive(Clone, Copy, PartialEq, Eq, Structural, Debug)]
pub struct Ratio {
    pub num: i64,
    pub den: i64,
}

impl Ratio {
    /// A threshold is well formed when its denominator is positive and both
    /// parts are small enough for cross-multiplication in `i128`.
    pub open spec fn wf(self) -> bool {
        0 < self.den <= RATIO_BOUND && -RATIO_BOUND <= self.num <= RATIO_BOUND
    }
}

impl DetBox {
    /// All coordinates small enough for exact area arithmetic in `i128`.
    pub open spec fn bounded(self) -> bool {
        &&& -COORD_BOUND <= self.x1 <= COORD_BOUND
        &&& -COORD_BOUND <= self.y1 <= COORD_BOUND
        &&& -COORD_BOUND <= self.x2 <= COORD_BOUND
        &&& -COORD_BOUND <= self.y2 <= COORD_BOUND
    }
}

/// Length of an interval, clamped to zero for inverted intervals.
pub open spec fn span(lo: int, hi: int) -> int {
    if hi - lo > 0 {
        hi - lo
    } else {
        0
    }
}

/// Area of a box; inverted or degenerate boxes count as zero area.
pub open spec fn box_area(b: DetBox) -> int {
    span(b.x1 as int, b.x2 as int) * span(b.y1 as int, b.y2 as int)
}

pub open spec fn max_int(a: int, b: int) -> int {
    if a > b {
        a
    } else {
        b
    }
}

pub open spec fn min_int(a: int, b: int) -> int {
    if a < b {
        a
    } else {
        b
    }
}

/// Area of the overlap of two boxes (zero when they do not overlap).
pub open spec fn inter_area(a: DetBox, b: DetBox) -> int {
    span(max_int(a.x1 as int, b.x1 as int), min_int(a.x2 as int, b.x2 as int)) * span(
        max_int(a.y1 as int, b.y1 as int),
        min_int(a.y2 as int, b.y2 as int),
    )
}

/// Numerator of IoU: the intersection area.
pub open spec fn iou_num(a: DetBox, b: DetBox) -> int {
    inter_area(a, b)
}

/// Denominator of IoU: the union area.
pub open spec fn iou_den(a: DetBox, b: DetBox) -> int {
    box_area(a) + box_area(b) - inter_area(a, b)
}

/// `IoU(a, b) >= t`, with IoU defined as 0 whenever the union area is not
/// positive (so the comparison degenerates to `0 >= t`).
pub open spec fn iou_ge_spec(a: DetBox, b: DetBox, t: Ratio) -> bool {
    if iou_den(a, b) > 0 {
        iou_num(a, b) * t.den >= t.num * iou_den(a, b)
    } else {
        t.num <= 0
    }
}

proof fn lemma_mul_le(x: int, y: int, bx: int, b2: int)
    requires
        0 <= x <= bx,
        0 <= y <= b2,
    ensures
        0 <= x * y <= bx * b2,
{
    assert(0 <= x * y <= bx * b2) by (nonlinear_arith)
        requires
            0 <= x <= bx,
            0 <= y <= b2,
    ;
}

proof fn lemma_mul_mono(x1: int, y1: int, x2: int, y2: int)
    requires
        0 <= x1 <= x2,
        0 <= y1 <= y2,
    ensures
        x1 * y1 <= x2 * y2,
{
    assert(x1 * y1 <= x2 * y2) by (nonlinear_arith)
        requires
            0 <= x1 <= x2,
            0 <= y1 <= y2,
    ;
}

/// Every quantity entering the IoU comparison stays far inside `i128`.
pub proof fn lemma_iou_range(a: DetBox, b: DetBox)
    requires
        a.bounded(),
        b.bounded(),
    ensures
        0 <= iou_num(a, b) <= 0x100_0000_0000_0000_0000_0000_0000,
        0 <= box_area(a) <= 0x100_0000_0000_0000_0000_0000_0000,
        0 <= box_area(b) <= 0x100_0000_0000_0000_0000_0000_0000,
        0 <= iou_den(a, b) <= 0x200_0000_0000_0000_0000_0000_0000,
{
    let big: int = 0x10_0000_0000_0000;
    lemma_mul_le(
        span(max_int(a.x1 as int, b.x1 as int), min_int(a.x2 as int, b.x2 as int)),
        span(max_int(a.y1 as int, b.y1 as int), min_int(a.y2 as int, b.y2 as int)),
        big,
        big,
    );
    lemma_mul_le(span(a.x1 as int, a.x2 as int), span(a.y1 as int, a.y2 as int), big, big);
    lemma_mul_le(span(b.x1 as int, b.x2 as int), span(b.y1 as int, b.y2 as int), big, big);
    lemma_inter_le_area(a, b);
}

/// The intersection area never exceeds either box's own area.
pub proof fn lemma_inter_le_area(a: DetBox, b: DetBox)
    ensures
        inter_area(a, b) <= box_area(a),
        inter_area(a, b) <= box_area(b),
        0 <= inter_area(a, b),
{
    lemma_mul_mono(
        span(max_int(a.x1 as int, b.x1 as int), min_int(a.x2 as int, b.x2 as int)),
        span(max_int(a.y1 as int, b.y1 as int), min_int(a.y2 as int, b.y2 as int)),
        span(a.x1 as int, a.x2 as int),
        span(a.y1 as int, a.y2 as int),
    );
    lemma_mul_mono(
        span(max_int(a.x1 as int, b.x1 as int), min_int(a.x2 as int, b.x2 as int)),
        span(max_int(a.y1 as int, b.y1 as int), min_int(a.y2 as int, b.y2 as int)),
        span(b.x1 as int, b.x2 as int),
        span(b.y1 as int, b.y2 as int),
    );
    lemma_iou_num_nonneg(a, b);
}

/// The intersection area is never negative, whatever the boxes look like.
pub proof fn lemma_iou_num_nonneg(a: DetBox, b: DetBox)
    ensures
        iou_num(a, b) >= 0,
{
    let sx = span(max_int(a.x1 as int, b.x1 as int), min_int(a.x2 as int, b.x2 as int));
    let sy = span(max_int(a.y1 as int, b.y1 as int), min_int(a.y2 as int, b.y2 as int));
    assert(sx * sy >= 0) by (nonlinear_arith)
        requires
            sx >= 0,
            sy >= 0,
    ;
}

/// IoU of a box with itself is exactly one whenever the box has positive area.
pub proof fn lemma_iou_self(a: DetBox)
    requires
        box_area(a) > 0,
    ensures
        iou_num(a, a) == iou_den(a, a),
        iou_den(a, a) > 0,
{
}

/// IoU is symmetric: numerator and denominator are unchanged when the two
/// boxes swap places.
pub proof fn lemma_iou_sym(a: DetBox, b: DetBox)
    ensures
        iou_num(a, b) == iou_num(b, a),
        iou_den(a, b) == iou_den(b, a),
{
}

/// IoU always lies in [0, 1] for every pair of boxes, overlapping,
/// disjoint, inverted or degenerate: the numerator is at most the
/// denominator, and both are non-negative (a non-positive union is read as
/// IoU = 0).
pub proof fn lemma_iou_bounds(a: DetBox, b: DetBox)
    ensures
        0 <= iou_num(a, b),
        iou_num(a, b) <= iou_den(a, b),
{
    lemma_inter_le_area(a, b);
}

/// Computes the exact IoU of two boxes as an unreduced fraction
/// (intersection area, union area).  A non-positive union means the IoU is
/// defined as zero.
pub fn iou(a: &DetBox, b: &DetBox) -> (r: (i128, i128))
    requires
        a.bounded(),
        b.bounded(),
    ensures
        r.0 == iou_num(*a, *b),
        r.1 == iou_den(*a, *b),
{
    proof {
        lemma_iou_range(*a, *b);
        lemma_inter_le_area(*a, *b);
    }
    let ax1 = a.x1 as i128;
    let ay1 = a.y1 as i128;
    let ax2 = a.x2 as i128;
    let ay2 = a.y2 as i128;
    let bx1 = b.x1 as i128;
    let by1 = b.y1 as i128;
    let bx2 = b.x2 as i128;
    let by2 = b.y2 as i128;

    let ix1 = if ax1 > bx1 {
        ax1
    } else {
        bx1
    };
    let iy1 = if ay1 > by1 {
        ay1
    } else {
        by1
    };
    let ix2 = if ax2 < bx2 {
        ax2
    } else {
        bx2
    };
    let iy2 = if ay2 < by2 {
        ay2
    } else {
        by2
    };

    let iw = if ix2 - ix1 > 0 {
        ix2 - ix1
    } else {
        0
    };
    let ih = if iy2 - iy1 > 0 {
        iy2 - iy1
    } else {
        0
    };
    proof {
        lemma_mul_le(iw as int, ih as int, 0x10_0000_0000_0000, 0x10_0000_0000_0000);
    }
    let inter = iw * ih;

    let aw = if ax2 - ax1 > 0 {
        ax2 - ax1
    } else {
        0
    };
    let ah = if ay2 - ay1 > 0 {
        ay2 - ay1
    } else {
        0
    };
    proof {
        lemma_mul_le(aw as int, ah as int, 0x10_0000_0000_0000, 0x10_0000_0000_0000);
    }
    let area_a = aw * ah;

    let bw = if bx2 - bx1 > 0 {
        bx2 - bx1
    } else {
        0
    };
    let bh = if by2 - by1 > 0 {
        by2 - by1
    } else {
        0
    };
    proof {
        lemma_mul_le(bw as int, bh as int, 0x10_0000_0000_0000, 0x10_0000_0000_0000);
    }
    let area_b = bw * bh;

    (inter, area_a + area_b - inter)
}

/// Decides `IoU(a, b) >= t` exactly, by cross-multiplication.
pub fn iou_ge(a: &DetBox, b: &DetBox, t: &Ratio) -> (r: bool)
    requires
        a.bounded(),
        b.bounded(),
        t.wf(),
    ensures
        r == iou_ge_spec(*a, *b, *t),
{
    proof {
        lemma_iou_range(*a, *b);
        let n = iou_num(*a, *b);
        let d = iou_den(*a, *b);
        assert(0 <= n * (t.den as int) <= 0x4000_0000_0000_0000_0000_0000_0000_0000)
            by (nonlinear_arith)
            requires
                0 <= n <= 0x100_0000_0000_0000_0000_0000_0000,
                0 < t.den <= RATIO_BOUND,
        ;
        assert(-0x4000_0000_0000_0000_0000_0000_0000_0000 <= (t.num as int) * d
            <= 0x4000_0000_0000_0000_0000_0000_0000_0000) by (nonlinear_arith)
            requires
                0 <= d <= 0x200_0000_0000_0000_0000_0000_0000,
                -RATIO_BOUND <= t.num <= RATIO_BOUND,
        ;
    }
    let (num, den) = iou(a, b);
    if den > 0 {
        num * (t.den as i128) >= (t.num as i128) * den
    } else {
        t.num <= 0
    }
}

} // verus!
