//! Scoring of raw detection rows: confidence filtering, center-form to
//! corner-form conversion, and exact rescaling into original-image space.
//!
//! A raw row is `[cx, cy, w, h, conf, ...]` in model-input units.  The
//! corner coordinates `cx - w/2` etc. are kept exact by doubling (`2*cx - w`
//! over an implicit denominator of 2), and the rescale to the original image
//! multiplies by the original dimension, leaving the model size in the
//! denominator.  A surviving box therefore carries exact numerators over the
//! per-image denominator `2 * model_size`, and projecting back to model
//! space is exact division — the rescale is invertible.

use vstd::prelude::*;
use vstd::arithmetic::div_mod::{lemma_fundamental_div_mod, lemma_div_multiples_vanish};
use crate::boxes::{DetBox, COORD_BOUND};

verus! {

/// Bound on the raw fixed-point values a detection row may carry.
pub const RAW_BOUND: i64 = 0x20_0000;

/// Bound on original image dimensions accepted by the scorer.
pub const DIM_BOUND: u32 = 0x1000_0000;

/// Bound on the sub-pixel denominator (`2 * model_size`).
pub const DEN_BOUND: i64 = 0x80_0000;

/// All raw values of a row lie within `RAW_BOUND`.
pub open spec fn row_bounded(row: Seq<i64>) -> bool {
    forall|k: int| 0 <= k < row.len() ==> -RAW_BOUND <= #[trigger] row[k] <= RAW_BOUND
}

/// Corner-form box of a raw row, doubled so that `cx - w/2` stays exact:
/// coordinates are numerators over an implicit denominator of 2 model units.
pub open spec fn corner_box(row: Seq<i64>) -> DetBox {
    DetBox {
        x1: (2 * row[0] - row[2]) as i64,
        y1: (2 * row[1] - row[3]) as i64,
        x2: (2 * row[0] + row[2]) as i64,
        y2: (2 * row[1] + row[3]) as i64,
        conf: row[4],
    }
}

/// Exact rescale from model space into original-image space: each axis is
/// multiplied by the original dimension (the model size stays in the
/// denominator, common to the whole image).
pub open spec fn rescale_spec(b: DetBox, orig_w: u32, orig_h: u32) -> DetBox {
    DetBox {
        x1: (b.x1 * orig_w) as i64,
        y1: (b.y1 * orig_h) as i64,
        x2: (b.x2 * orig_w) as i64,
        y2: (b.y2 * orig_h) as i64,
        conf: b.conf,
    }
}

/// The inverse of `rescale_spec`: exact division by the original dimension.
pub open spec fn to_model_spec(b: DetBox, orig_w: u32, orig_h: u32) -> DetBox {
    DetBox {
        x1: ((b.x1 as int) / (orig_w as int)) as i64,
        y1: ((b.y1 as int) / (orig_h as int)) as i64,
        x2: ((b.x2 as int) / (orig_w as int)) as i64,
        y2: ((b.y2 as int) / (orig_h as int)) as i64,
        conf: b.conf,
    }
}

/// A model-space corner box is small: its coordinates fit in three raw units.
pub open spec fn model_box_bounded(b: DetBox) -> bool {
    &&& -3 * RAW_BOUND <= b.x1 <= 3 * RAW_BOUND
    &&& -3 * RAW_BOUND <= b.y1 <= 3 * RAW_BOUND
    &&& -3 * RAW_BOUND <= b.x2 <= 3 * RAW_BOUND
    &&& -3 * RAW_BOUND <= b.y2 <= 3 * RAW_BOUND
}

proof fn lemma_scale_fits(v: int, d: int)
    requires
        -3 * RAW_BOUND <= v <= 3 * RAW_BOUND,
        1 <= d <= DIM_BOUND,
    ensures
        -COORD_BOUND <= v * d <= COORD_BOUND,
{
    assert(-COORD_BOUND <= v * d <= COORD_BOUND) by (nonlinear_arith)
        requires
            -3 * RAW_BOUND <= v <= 3 * RAW_BOUND,
            1 <= d <= DIM_BOUND,
    ;
}

/// Rescales a model-space corner box into original-image space, exactly.
pub fn rescale_box(b: &DetBox, orig_w: u32, orig_h: u32) -> (r: DetBox)
    requires
        model_box_bounded(*b),
        1 <= orig_w <= DIM_BOUND,
        1 <= orig_h <= DIM_BOUND,
    ensures
        r == rescale_spec(*b, orig_w, orig_h),
        r.bounded(),
{
    proof {
        lemma_scale_fits(b.x1 as int, orig_w as int);
        lemma_scale_fits(b.y1 as int, orig_h as int);
        lemma_scale_fits(b.x2 as int, orig_w as int);
        lemma_scale_fits(b.y2 as int, orig_h as int);
    }
    DetBox {
        x1: b.x1 * (orig_w as i64),
        y1: b.y1 * (orig_h as i64),
        x2: b.x2 * (orig_w as i64),
        y2: b.y2 * (orig_h as i64),
        conf: b.conf,
    }
}

/// Divides one exactly-scaled coordinate back down.
fn exact_unscale(x: i64, d: u32) -> (r: i64)
    requires
        1 <= d,
        -COORD_BOUND <= x <= COORD_BOUND,
        (x as int) % (d as int) == 0,
    ensures
        r as int == (x as int) / (d as int),
{
    proof {
        lemma_fundamental_div_mod(x as int, d as int);
        if x >= 0 {
            vstd::arithmetic::div_mod::lemma_div_pos_is_pos(x as int, d as int);
            assert((x as int) / (d as int) <= x) by (nonlinear_arith)
                requires
                    x >= 0,
                    d >= 1,
                    x as int == (d as int) * ((x as int) / (d as int)) + (x as int) % (d as int),
                    (x as int) / (d as int) >= 0,
            ;
        } else {
            let q = (x as int) / (d as int);
            assert(x <= q <= 0) by (nonlinear_arith)
                requires
                    x < 0,
                    d >= 1,
                    x as int == (d as int) * q,
            ;
        }
    }
    if x >= 0 {
        ((x as u64) / (d as u64)) as i64
    } else {
        let q = ((-x) as u64) / (d as u64);
        proof {
            let a = (x as int) / (d as int);
            assert(x as int == (d as int) * a);
            assert(-(x as int) == (d as int) * (-a)) by (nonlinear_arith)
                requires
                    x as int == (d as int) * a,
            ;
            lemma_div_multiples_vanish(-a, d as int);
            assert(q as int == -a);
        }
        -(q as i64)
    }
}

/// Projects a rescaled box back into model space; exact on boxes produced
/// by `rescale_box`.
pub fn to_model_box(b: &DetBox, orig_w: u32, orig_h: u32) -> (r: DetBox)
    requires
        b.bounded(),
        1 <= orig_w,
        1 <= orig_h,
        (b.x1 as int) % (orig_w as int) == 0,
        (b.y1 as int) % (orig_h as int) == 0,
        (b.x2 as int) % (orig_w as int) == 0,
        (b.y2 as int) % (orig_h as int) == 0,
    ensures
        r == to_model_spec(*b, orig_w, orig_h),
{
    proof {
        lemma_unscale_in_range(b.x1 as int, orig_w as int);
        lemma_unscale_in_range(b.y1 as int, orig_h as int);
        lemma_unscale_in_range(b.x2 as int, orig_w as int);
        lemma_unscale_in_range(b.y2 as int, orig_h as int);
    }
    DetBox {
        x1: exact_unscale(b.x1, orig_w),
        y1: exact_unscale(b.y1, orig_h),
        x2: exact_unscale(b.x2, orig_w),
        y2: exact_unscale(b.y2, orig_h),
        conf: b.conf,
    }
}

proof fn lemma_unscale_in_range(x: int, d: int)
    requires
        -COORD_BOUND <= x <= COORD_BOUND,
        1 <= d,
    ensures
        -COORD_BOUND <= x / d <= COORD_BOUND,
{
    lemma_fundamental_div_mod(x, d);
    assert(-COORD_BOUND <= x / d <= COORD_BOUND) by (nonlinear_arith)
        requires
            -COORD_BOUND <= x <= COORD_BOUND,
            1 <= d,
            x == d * (x / d) + x % d,
            0 <= x % d < d,
    ;
}

/// Rescaling is linear and invertible: projecting a rescaled box back into
/// model space recovers the original coordinates exactly.
pub proof fn lemma_rescale_round_trip(b: DetBox, orig_w: u32, orig_h: u32)
    requires
        model_box_bounded(b),
        1 <= orig_w <= DIM_BOUND,
        1 <= orig_h <= DIM_BOUND,
    ensures
        to_model_spec(rescale_spec(b, orig_w, orig_h), orig_w, orig_h) == b,
        rescale_spec(b, orig_w, orig_h).bounded(),
        (rescale_spec(b, orig_w, orig_h).x1 as int) % (orig_w as int) == 0,
        (rescale_spec(b, orig_w, orig_h).y1 as int) % (orig_h as int) == 0,
        (rescale_spec(b, orig_w, orig_h).x2 as int) % (orig_w as int) == 0,
        (rescale_spec(b, orig_w, orig_h).y2 as int) % (orig_h as int) == 0,
{
    lemma_scale_fits(b.x1 as int, orig_w as int);
    lemma_scale_fits(b.y1 as int, orig_h as int);
    lemma_scale_fits(b.x2 as int, orig_w as int);
    lemma_scale_fits(b.y2 as int, orig_h as int);
    lemma_exact_multiple(b.x1 as int, orig_w as int);
    lemma_exact_multiple(b.y1 as int, orig_h as int);
    lemma_exact_multiple(b.x2 as int, orig_w as int);
    lemma_exact_multiple(b.y2 as int, orig_h as int);
}

proof fn lemma_exact_multiple(v: int, d: int)
    requires
        1 <= d,
    ensures
        (v * d) / d == v,
        (v * d) % d == 0,
{
    lemma_div_multiples_vanish(v, d);
    assert(v * d == d * v) by (nonlinear_arith);
    lemma_fundamental_div_mod(v * d, d);
    assert((v * d) % d == 0) by (nonlinear_arith)
        requires
            (v * d) / d == v,
            v * d == d * ((v * d) / d) + (v * d) % d,
    ;
}

/// The view of a vector of rows as a sequence of sequences.
pub open spec fn row_views(rows: Seq<Vec<i64>>) -> Seq<Seq<i64>> {
    rows.map_values(|v: Vec<i64>| v@)
}

/// The scored candidates of a row sequence: rows that are long enough and
/// reach the confidence threshold become corner-form boxes rescaled into
/// original-image space, in row order.
pub open spec fn score_spec(rows: Seq<Seq<i64>>, orig_w: u32, orig_h: u32, conf_thr: i64) -> Seq<
    DetBox,
>
    decreases rows.len(),
{
    if rows.len() == 0 {
        Seq::empty()
    } else {
        let init = score_spec(rows.drop_last(), orig_w, orig_h, conf_thr);
        let row = rows.last();
        if row.len() >= 5 && row[4] >= conf_thr {
            init.push(rescale_spec(corner_box(row), orig_w, orig_h))
        } else {
            init
        }
    }
}

/// Filters rows by confidence and produces their boxes in original-image
/// space.  Rows shorter than five values are skipped, as are rows whose
/// confidence is below the threshold.
pub fn score(rows: &Vec<Vec<i64>>, orig_w: u32, orig_h: u32, conf_thr: i64) -> (r: Vec<DetBox>)
    requires
        1 <= orig_w <= DIM_BOUND,
        1 <= orig_h <= DIM_BOUND,
        forall|i: int| 0 <= i < rows@.len() ==> row_bounded(#[trigger] rows@[i]@),
    ensures
        r@ == score_spec(row_views(rows@), orig_w, orig_h, conf_thr),
        forall|i: int| 0 <= i < r@.len() ==> (#[trigger] r@[i]).bounded(),
{
    let mut r: Vec<DetBox> = Vec::new();
    let mut i: usize = 0;
    while i < rows.len()
        invariant
            i <= rows@.len(),
            1 <= orig_w <= DIM_BOUND,
            1 <= orig_h <= DIM_BOUND,
            forall|a: int| 0 <= a < rows@.len() ==> row_bounded(#[trigger] rows@[a]@),
            r@ == score_spec(row_views(rows@).take(i as int), orig_w, orig_h, conf_thr),
            forall|a: int| 0 <= a < r@.len() ==> (#[trigger] r@[a]).bounded(),
        decreases rows@.len() - i,
    {
        let row = &rows[i];
        if row.len() >= 5 {
            let conf = row[4];
            if conf >= conf_thr {
                let cb = DetBox {
                    x1: 2 * row[0] - row[2],
                    y1: 2 * row[1] - row[3],
                    x2: 2 * row[0] + row[2],
                    y2: 2 * row[1] + row[3],
                    conf,
                };
                assert(cb == corner_box(rows@[i as int]@));
                assert(model_box_bounded(cb));
                let sb = rescale_box(&cb, orig_w, orig_h);
                r.push(sb);
            }
        }
        proof {
            let views = row_views(rows@);
            assert(views.take(i + 1).drop_last() =~= views.take(i as int));
            assert(views.take(i + 1).last() == rows@[i as int]@);
        }
        i += 1;
    }
    proof {
        assert(row_views(rows@).take(rows@.len() as int) =~= row_views(rows@));
    }
    r
}

/// The pixel coordinate of one box corner: the exact sub-pixel value is
/// clamped to `[0, dim-1]` and rounded half-up, all in integer arithmetic.
pub open spec fn clamp_round_spec(num: int, den: int, dim: int) -> int {
    let hi = (dim - 1) * den;
    let cl = if num < 0 {
        0
    } else if num > hi {
        hi
    } else {
        num
    };
    (2 * cl + den) / (2 * den)
}

/// The rounded pixel corner always lands inside the image.
pub proof fn lemma_clamp_round_range(num: int, den: int, dim: int)
    requires
        0 < den,
        1 <= dim,
    ensures
        0 <= clamp_round_spec(num, den, dim) < dim,
{
    assert((dim - 1) * den >= 0) by (nonlinear_arith)
        requires
            dim >= 1,
            den > 0,
    ;
    let hi = (dim - 1) * den;
    let cl = if num < 0 {
        0
    } else if num > hi {
        hi
    } else {
        num
    };
    let x = 2 * cl + den;
    let q = x / (2 * den);
    lemma_fundamental_div_mod(x, 2 * den);
    assert(0 <= q < dim) by (nonlinear_arith)
        requires
            den > 0,
            dim >= 1,
            0 <= cl <= (dim - 1) * den,
            x == 2 * cl + den,
            x == (2 * den) * q + x % (2 * den),
            0 <= x % (2 * den) < 2 * den,
    ;
}

/// Computes `clamp_round_spec` exactly.
pub fn clamp_round(num: i64, den: i64, dim: u32) -> (r: u32)
    requires
        0 < den <= DEN_BOUND,
        1 <= dim <= DIM_BOUND,
    ensures
        r as int == clamp_round_spec(num as int, den as int, dim as int),
        r < dim,
{
    proof {
        assert((dim - 1) * den <= 0x8_0000_0000_0000) by (nonlinear_arith)
            requires
                1 <= dim <= DIM_BOUND,
                0 < den <= DEN_BOUND,
        ;
        lemma_clamp_round_range(num as int, den as int, dim as int);
    }
    let hi = (dim as i64 - 1) * den;
    let cl = if num < 0 {
        0
    } else if num > hi {
        hi
    } else {
        num
    };
    (((2 * cl + den) as u64) / ((2 * den) as u64)) as u32
}

} // verus!
