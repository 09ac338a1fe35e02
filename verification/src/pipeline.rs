//! The per-image and per-batch pipeline: score the decoded rows, suppress
//! overlaps, clamp the survivors to pixel rectangles, and crop each one.

use vstd::prelude::*;
use vstd::arithmetic::div_mod::lemma_fundamental_div_mod;
use crate::boxes::{DetBox, Ratio};
use crate::nms::{nms_spec, sort_desc, suppress};
use crate::score::{
    score, score_spec, row_views, row_bounded, clamp_round, clamp_round_spec,
    lemma_clamp_round_range, DIM_BOUND, DEN_BOUND, RAW_BOUND,
};
use crate::decode::{
    decode, DecodeError, shape_ok, len_matches, shape_rows, shape_cols, decoded_ok, vec3_views,
    lemma_flat_index,
};
use crate::img::{image_width, image_height, width_of, height_of, crop_and_augment, transform_spec, jitter_choice, CROP_SIZE};
use image::DynamicImage;

verus! {

/// The boxes a single image keeps: its rows scored and rescaled, stably
/// sorted by confidence, then greedily suppressed.
pub open spec fn final_boxes_spec(
    rows: Seq<Seq<i64>>,
    orig_w: u32,
    orig_h: u32,
    conf_thr: i64,
    iou_thr: Ratio,
) -> Seq<DetBox> {
    nms_spec(sort_desc(score_spec(rows, orig_w, orig_h, conf_thr)), iou_thr)
}

/// The integer pixel rectangle of a surviving box: each corner clamped to
/// the image and rounded.
pub open spec fn rect_of(b: DetBox, den: int, w: int, h: int) -> (u32, u32, u32, u32) {
    (
        clamp_round_spec(b.x1 as int, den, w) as u32,
        clamp_round_spec(b.y1 as int, den, h) as u32,
        clamp_round_spec(b.x2 as int, den, w) as u32,
        clamp_round_spec(b.y2 as int, den, h) as u32,
    )
}

pub open spec fn rect_nondegenerate(r: (u32, u32, u32, u32)) -> bool {
    r.0 < r.2 && r.1 < r.3
}

/// The crop is the transform of this rectangle under some admissible
/// random draw (a flip choice, and a brightness amount within the jitter).
pub open spec fn is_transform_of(
    crop: DynamicImage,
    img: DynamicImage,
    rect: (u32, u32, u32, u32),
    brightness_jitter: i32,
) -> bool {
    exists|flip: bool, brighten_by: Option<i32>|
        jitter_choice(brighten_by, brightness_jitter) && crop == transform_spec(
            img,
            rect,
            flip,
            brighten_by,
        )
}

/// The pixel rectangles of the non-degenerate surviving boxes, in order.
pub open spec fn rects_spec(boxes: Seq<DetBox>, den: int, w: int, h: int) -> Seq<
    (u32, u32, u32, u32),
>
    decreases boxes.len(),
{
    if boxes.len() == 0 {
        Seq::empty()
    } else {
        let init = rects_spec(boxes.drop_last(), den, w, h);
        let rc = rect_of(boxes.last(), den, w, h);
        if rect_nondegenerate(rc) {
            init.push(rc)
        } else {
            init
        }
    }
}

/// Clamps and rounds one box into an integer pixel rectangle; a degenerate
/// rectangle (no area left after clamping) yields `None` and is skipped.
pub fn pixel_rect(b: &DetBox, den: i64, orig_w: u32, orig_h: u32) -> (r: Option<
    (u32, u32, u32, u32),
>)
    requires
        0 < den <= DEN_BOUND,
        1 <= orig_w <= DIM_BOUND,
        1 <= orig_h <= DIM_BOUND,
    ensures
        (match r {
            Some(rc) => rc == rect_of(*b, den as int, orig_w as int, orig_h as int)
                && rect_nondegenerate(rc) && rc.2 < orig_w && rc.3 < orig_h,
            None => !rect_nondegenerate(rect_of(*b, den as int, orig_w as int, orig_h as int)),
        }),
{
    proof {
        lemma_clamp_round_range(b.x1 as int, den as int, orig_w as int);
        lemma_clamp_round_range(b.y1 as int, den as int, orig_h as int);
        lemma_clamp_round_range(b.x2 as int, den as int, orig_w as int);
        lemma_clamp_round_range(b.y2 as int, den as int, orig_h as int);
    }
    let x1 = clamp_round(b.x1, den, orig_w);
    let y1 = clamp_round(b.y1, den, orig_h);
    let x2 = clamp_round(b.x2, den, orig_w);
    let y2 = clamp_round(b.y2, den, orig_h);
    if x1 < x2 && y1 < y2 {
        Some((x1, y1, x2, y2))
    } else {
        None
    }
}

/// Runs one image's rows through scoring, suppression and clamping, and
/// returns the pixel rectangles to crop, confidence-descending.
pub fn detect_faces(
    rows: &Vec<Vec<i64>>,
    orig_w: u32,
    orig_h: u32,
    conf_thr: i64,
    iou_thr: &Ratio,
    den: i64,
) -> (r: Vec<(u32, u32, u32, u32)>)
    requires
        1 <= orig_w <= DIM_BOUND,
        1 <= orig_h <= DIM_BOUND,
        0 < den <= DEN_BOUND,
        iou_thr.wf(),
        forall|i: int| 0 <= i < rows@.len() ==> row_bounded(#[trigger] rows@[i]@),
    ensures
        r@ == rects_spec(
            final_boxes_spec(row_views(rows@), orig_w, orig_h, conf_thr, *iou_thr),
            den as int,
            orig_w as int,
            orig_h as int,
        ),
        forall|i: int|
            0 <= i < r@.len() ==> rect_nondegenerate(#[trigger] r@[i]) && r@[i].2 < orig_w
                && r@[i].3 < orig_h,
{
    let boxes = score(rows, orig_w, orig_h, conf_thr);
    let kept = suppress(&boxes, iou_thr);
    let ghost target = final_boxes_spec(row_views(rows@), orig_w, orig_h, conf_thr, *iou_thr);
    let mut out: Vec<(u32, u32, u32, u32)> = Vec::new();
    let mut i: usize = 0;
    while i < kept.len()
        invariant
            i <= kept@.len(),
            kept@ == target,
            0 < den <= DEN_BOUND,
            1 <= orig_w <= DIM_BOUND,
            1 <= orig_h <= DIM_BOUND,
            out@ == rects_spec(kept@.take(i as int), den as int, orig_w as int, orig_h as int),
            forall|k: int|
                0 <= k < out@.len() ==> rect_nondegenerate(#[trigger] out@[k]) && out@[k].2 < orig_w
                    && out@[k].3 < orig_h,
        decreases kept@.len() - i,
    {
        let b = kept[i];
        match pixel_rect(&b, den, orig_w, orig_h) {
            Some(rc) => {
                out.push(rc);
            },
            None => {},
        }
        proof {
            assert(kept@.take(i + 1).drop_last() =~= kept@.take(i as int));
            assert(kept@.take(i + 1).last() == kept@[i as int]);
        }
        i += 1;
    }
    proof {
        assert(kept@.take(kept@.len() as int) =~= kept@);
    }
    out
}

/// Detects the faces of one decoded image and crops each surviving
/// rectangle into a square augmented face image.  `None` when the image's
/// dimensions are outside the supported range (zero-sized or too large);
/// otherwise exactly one crop per surviving rectangle, each of the fixed
/// output size.
pub fn process_image(
    img: &DynamicImage,
    rows: &Vec<Vec<i64>>,
    conf_thr: i64,
    iou_thr: &Ratio,
    den: i64,
    brightness_jitter: i32,
) -> (r: Option<Vec<DynamicImage>>)
    requires
        0 < den <= DEN_BOUND,
        iou_thr.wf(),
        brightness_jitter >= 0,
        forall|i: int| 0 <= i < rows@.len() ==> row_bounded(#[trigger] rows@[i]@),
    ensures
        (match r {
            Some(crops) => {
                &&& 1 <= image_width(*img) <= DIM_BOUND
                &&& 1 <= image_height(*img) <= DIM_BOUND
                &&& crops@.len() == rects_spec(
                    final_boxes_spec(
                        row_views(rows@),
                        image_width(*img),
                        image_height(*img),
                        conf_thr,
                        *iou_thr,
                    ),
                    den as int,
                    image_width(*img) as int,
                    image_height(*img) as int,
                ).len()
                &&& forall|i: int|
                    0 <= i < crops@.len() ==> image_width(#[trigger] crops@[i]) == CROP_SIZE
                        && image_height(crops@[i]) == CROP_SIZE
                &&& forall|i: int|
                    0 <= i < crops@.len() ==> is_transform_of(
                        #[trigger] crops@[i],
                        *img,
                        rects_spec(
                            final_boxes_spec(
                                row_views(rows@),
                                image_width(*img),
                                image_height(*img),
                                conf_thr,
                                *iou_thr,
                            ),
                            den as int,
                            image_width(*img) as int,
                            image_height(*img) as int,
                        )[i],
                        brightness_jitter,
                    )
            },
            None => !(1 <= image_width(*img) <= DIM_BOUND && 1 <= image_height(*img)
                <= DIM_BOUND),
        }),
{
    let w = width_of(img);
    let h = height_of(img);
    if w < 1 || w > DIM_BOUND || h < 1 || h > DIM_BOUND {
        return None;
    }
    let rects = detect_faces(rows, w, h, conf_thr, iou_thr, den);
    let ghost rspec = rects@;
    let mut crops: Vec<DynamicImage> = Vec::new();
    let mut i: usize = 0;
    while i < rects.len()
        invariant
            i <= rects@.len(),
            rects@ == rspec,
            crops@.len() == i,
            brightness_jitter >= 0,
            w == image_width(*img),
            h == image_height(*img),
            forall|k: int|
                0 <= k < rects@.len() ==> rect_nondegenerate(#[trigger] rects@[k]) && rects@[k].2
                    < w && rects@[k].3 < h,
            forall|k: int|
                0 <= k < crops@.len() ==> image_width(#[trigger] crops@[k]) == CROP_SIZE
                    && image_height(crops@[k]) == CROP_SIZE,
            forall|k: int|
                0 <= k < crops@.len() ==> is_transform_of(
                    #[trigger] crops@[k],
                    *img,
                    rspec[k],
                    brightness_jitter,
                ),
        decreases rects@.len() - i,
    {
        let rc = rects[i];
        let crop = crop_and_augment(img, rc, brightness_jitter);
        crops.push(crop);
        i += 1;
    }
    Some(crops)
}

/// The rows of image `i` within the flat raw output, as values.
pub open spec fn image_rows(raw: Seq<i64>, shape: Seq<usize>, batch: int, i: int) -> Seq<
    Seq<i64>,
> {
    let rpi = shape_rows(shape) / batch;
    let cols = shape_cols(shape);
    Seq::new(
        rpi as nat,
        |j: int| Seq::new(cols as nat, |k: int| raw[(i * rpi + j) * cols + k]),
    )
}

proof fn lemma_group_rows(
    groups: Seq<Seq<Seq<i64>>>,
    raw: Seq<i64>,
    shape: Seq<usize>,
    batch: int,
    i: int,
)
    requires
        decoded_ok(groups, raw, shape, batch),
        batch >= 1,
        0 <= i < batch,
    ensures
        groups[i] == image_rows(raw, shape, batch, i),
{
    let rpi = shape_rows(shape) / batch;
    let cols = shape_cols(shape);
    let gi = groups[i];
    let ir = image_rows(raw, shape, batch, i);
    assert forall|j: int| 0 <= j < rpi implies gi[j] == ir[j] by {
        assert(gi[j].len() == cols);
        assert forall|k: int| 0 <= k < cols implies gi[j][k] == ir[j][k] by {
            assert(groups[i][j][k] == raw[(i * rpi + j) * cols + k]);
        }
        assert(gi[j] =~= ir[j]);
    }
    assert(gi =~= ir);
}

/// What holds of one image's slot in a processed batch: a skipped image
/// (dimensions out of range) contributes no crops; any other image
/// contributes one fixed-size crop per surviving rectangle of its rows.
pub open spec fn per_image_ok(
    crops: Seq<DynamicImage>,
    img: DynamicImage,
    rows: Seq<Seq<i64>>,
    conf_thr: i64,
    iou_thr: Ratio,
    den: int,
    brightness_jitter: i32,
) -> bool {
    &&& (1 <= image_width(img) <= DIM_BOUND && 1 <= image_height(img) <= DIM_BOUND) ==> {
        &&& crops.len() == rects_spec(
            final_boxes_spec(rows, image_width(img), image_height(img), conf_thr, iou_thr),
            den,
            image_width(img) as int,
            image_height(img) as int,
        ).len()
        &&& forall|i: int|
            0 <= i < crops.len() ==> image_width(#[trigger] crops[i]) == CROP_SIZE
                && image_height(crops[i]) == CROP_SIZE
        &&& forall|i: int|
            0 <= i < crops.len() ==> is_transform_of(
                #[trigger] crops[i],
                img,
                rects_spec(
                    final_boxes_spec(rows, image_width(img), image_height(img), conf_thr, iou_thr),
                    den,
                    image_width(img) as int,
                    image_height(img) as int,
                )[i],
                brightness_jitter,
            )
    }
    &&& !(1 <= image_width(img) <= DIM_BOUND && 1 <= image_height(img) <= DIM_BOUND)
        ==> crops.len() == 0
}

/// Processes one whole batch: decodes the raw detector output into one row
/// block per image, and crops each image's surviving detections.  A failed
/// image (unsupported dimensions) is skipped without touching the others;
/// an undecodable output shape fails the whole batch.
pub fn process_batch(
    images: &Vec<DynamicImage>,
    raw: &Vec<i64>,
    shape: &Vec<usize>,
    conf_thr: i64,
    iou_thr: &Ratio,
    den: i64,
    brightness_jitter: i32,
) -> (r: Result<Vec<Vec<DynamicImage>>, DecodeError>)
    requires
        images@.len() >= 1,
        0 < den <= DEN_BOUND,
        iou_thr.wf(),
        brightness_jitter >= 0,
        forall|i: int| 0 <= i < raw@.len() ==> -RAW_BOUND <= #[trigger] raw@[i] <= RAW_BOUND,
    ensures
        r is Ok <==> shape_ok(shape@) && len_matches(raw@, shape@) && shape_rows(shape@) % (
        images@.len() as int) == 0,
        (match r {
            Ok(out) => {
                &&& out@.len() == images@.len()
                &&& forall|i: int|
                    0 <= i < out@.len() ==> per_image_ok(
                        (#[trigger] out@[i])@,
                        images@[i],
                        image_rows(raw@, shape@, images@.len() as int, i),
                        conf_thr,
                        *iou_thr,
                        den as int,
                        brightness_jitter,
                    )
            },
            Err(e) => e == DecodeError::BadShape <==> !(shape_ok(shape@) && len_matches(
                raw@,
                shape@,
            )),
        }),
{
    let batch = images.len();
    let groups = match decode(raw, shape, batch) {
        Ok(g) => g,
        Err(e) => {
            return Err(e);
        },
    };
    proof {
        lemma_fundamental_div_mod(shape_rows(shape@), batch as int);
    }
    let mut out: Vec<Vec<DynamicImage>> = Vec::new();
    let mut i: usize = 0;
    while i < batch
        invariant
            i <= batch,
            batch == images@.len(),
            batch >= 1,
            0 < den <= DEN_BOUND,
            iou_thr.wf(),
            brightness_jitter >= 0,
            shape_ok(shape@) && len_matches(raw@, shape@),
            shape_rows(shape@) == (batch as int) * (shape_rows(shape@) / (batch as int)),
            forall|k: int| 0 <= k < raw@.len() ==> -RAW_BOUND <= #[trigger] raw@[k] <= RAW_BOUND,
            decoded_ok(vec3_views(groups@), raw@, shape@, batch as int),
            groups@.len() == batch,
            out@.len() == i,
            forall|k: int|
                0 <= k < i ==> per_image_ok(
                    (#[trigger] out@[k])@,
                    images@[k],
                    image_rows(raw@, shape@, batch as int, k),
                    conf_thr,
                    *iou_thr,
                    den as int,
                    brightness_jitter,
                ),
        decreases batch - i,
    {
        let ghost rowseq = image_rows(raw@, shape@, batch as int, i as int);
        proof {
            lemma_group_rows(vec3_views(groups@), raw@, shape@, batch as int, i as int);
            let rpi = shape_rows(shape@) / (batch as int);
            let cols = shape_cols(shape@);
            assert forall|j: int| 0 <= j < groups@[i as int]@.len() implies row_bounded(
                #[trigger] groups@[i as int]@[j]@,
            ) by {
                assert(vec3_views(groups@)[i as int] == rowseq);
                assert forall|k: int|
                    0 <= k < groups@[i as int]@[j]@.len() implies -RAW_BOUND <= #[trigger] groups@[
                    i as int]@[j]@[k] <= RAW_BOUND by {
                    assert(groups@[i as int]@[j]@ == rowseq[j]);
                    lemma_flat_index(i as int, j, k, rpi, cols, shape_rows(shape@), batch as int);
                }
            }
        }
        let crops = match process_image(
            &images[i],
            &groups[i],
            conf_thr,
            iou_thr,
            den,
            brightness_jitter,
        ) {
            Some(c) => c,
            None => Vec::new(),
        };
        proof {
            assert(vec3_views(groups@)[i as int] == row_views(groups@[i as int]@));
        }
        out.push(crops);
        i += 1;
    }
    Ok(out)
}

} // verus!
