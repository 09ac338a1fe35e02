use face_cropper::boxes::{iou, iou_ge, DetBox, Ratio};
use face_cropper::nms::suppress;
use face_cropper::score::{clamp_round, rescale_box, score, to_model_box};

fn bx(x1: i64, y1: i64, x2: i64, y2: i64, conf: i64) -> DetBox {
    DetBox { x1, y1, x2, y2, conf }
}

#[test]
fn iou_of_box_with_itself_is_one() {
    let a = bx(0, 0, 10, 10, 500);
    let (num, den) = iou(&a, &a);
    assert_eq!(num, 100);
    assert_eq!(den, 100);
}

#[test]
fn iou_is_symmetric() {
    let a = bx(0, 0, 10, 10, 500);
    let b = bx(5, 5, 20, 18, 400);
    assert_eq!(iou(&a, &b), iou(&b, &a));
}

#[test]
fn iou_of_disjoint_boxes_is_zero() {
    let a = bx(0, 0, 10, 10, 500);
    let b = bx(20, 20, 30, 30, 400);
    let (num, den) = iou(&a, &b);
    assert_eq!(num, 0);
    assert_eq!(den, 200);
}

#[test]
fn iou_treats_inverted_box_as_zero_area() {
    let a = bx(10, 10, 0, 0, 500);
    let b = bx(0, 0, 10, 10, 400);
    let (num, den) = iou(&a, &b);
    assert_eq!(num, 0);
    assert_eq!(den, 100);
}

#[test]
fn iou_of_two_degenerate_boxes_is_defined() {
    let a = bx(5, 5, 5, 5, 500);
    let (num, den) = iou(&a, &a);
    assert_eq!(num, 0);
    assert_eq!(den, 0);
    // union <= 0 reads as IoU = 0, which is below any positive threshold
    let t = Ratio { num: 700_000, den: 1_000_000 };
    assert!(!iou_ge(&a, &a, &t));
}

#[test]
fn iou_exact_partial_overlap() {
    // 10x10 boxes offset by 5 in x: intersection 50, union 150
    let a = bx(0, 0, 10, 10, 500);
    let b = bx(5, 0, 15, 10, 400);
    let (num, den) = iou(&a, &b);
    assert_eq!(num, 50);
    assert_eq!(den, 150);
    let third = Ratio { num: 1, den: 3 };
    assert!(iou_ge(&a, &b, &third));
    let half = Ratio { num: 1, den: 2 };
    assert!(!iou_ge(&a, &b, &half));
}

#[test]
fn nms_suppresses_overlapping_lower_confidence() {
    let a = bx(0, 0, 100, 100, 900);
    let b = bx(2, 0, 102, 100, 800); // IoU with a is 98*100/10200, about 0.96
    let c = bx(500, 500, 600, 600, 700); // disjoint from both
    let t = Ratio { num: 700_000, den: 1_000_000 };
    let out = suppress(&vec![b, c, a], &t);
    assert_eq!(out, vec![a, c]);
}

#[test]
fn nms_output_is_confidence_descending_subset() {
    let boxes = vec![
        bx(0, 0, 10, 10, 100),
        bx(100, 100, 110, 110, 900),
        bx(200, 200, 210, 210, 500),
    ];
    let t = Ratio { num: 700_000, den: 1_000_000 };
    let out = suppress(&boxes, &t);
    assert_eq!(out.len(), 3);
    for w in out.windows(2) {
        assert!(w[0].conf >= w[1].conf);
    }
    for b in &out {
        assert!(boxes.contains(b));
    }
}

#[test]
fn nms_threshold_one_keeps_all_without_exact_ties() {
    let boxes = vec![
        bx(0, 0, 10, 10, 300),
        bx(5, 0, 15, 10, 900), // partial overlap, IoU well below 1
        bx(8, 2, 18, 12, 600),
    ];
    let t = Ratio { num: 1, den: 1 };
    let out = suppress(&boxes, &t);
    assert_eq!(out.len(), 3);
    assert_eq!(out[0].conf, 900);
    assert_eq!(out[1].conf, 600);
    assert_eq!(out[2].conf, 300);
}

#[test]
fn nms_threshold_zero_keeps_a_single_box() {
    let boxes = vec![
        bx(0, 0, 10, 10, 300),
        bx(1000, 1000, 1010, 1010, 900),
        bx(8, 2, 18, 12, 600),
    ];
    let t = Ratio { num: 0, den: 1 };
    let out = suppress(&boxes, &t);
    assert_eq!(out, vec![bx(1000, 1000, 1010, 1010, 900)]);
}

#[test]
fn nms_sort_is_stable_on_equal_confidence() {
    let a = bx(0, 0, 10, 10, 500);
    let b = bx(1000, 0, 1010, 10, 500);
    let t = Ratio { num: 700_000, den: 1_000_000 };
    let out = suppress(&vec![a, b], &t);
    assert_eq!(out, vec![a, b]);
}

#[test]
fn nms_empty_input_gives_empty_output() {
    let t = Ratio { num: 700_000, den: 1_000_000 };
    let out = suppress(&Vec::new(), &t);
    assert!(out.is_empty());
}

#[test]
fn score_filters_by_confidence_and_rescales() {
    // rows are [cx, cy, w, h, conf] in plain model units
    let rows = vec![
        vec![100, 200, 50, 80, 900],
        vec![100, 200, 50, 80, 400], // below threshold
        vec![1, 2, 3],               // too short, skipped
    ];
    let out = score(&rows, 1000, 800, 500);
    assert_eq!(out.len(), 1);
    // doubled corner coordinates times the original dimension
    assert_eq!(out[0], bx(150 * 1000, 320 * 800, 250 * 1000, 480 * 800, 900));
}

#[test]
fn score_keeps_rows_at_exact_threshold() {
    let rows = vec![vec![10, 10, 4, 4, 500]];
    let out = score(&rows, 640, 640, 500);
    assert_eq!(out.len(), 1);
}

#[test]
fn rescale_round_trips_exactly() {
    let b = bx(150, 320, 250, 480, 900);
    let scaled = rescale_box(&b, 1000, 800);
    assert_eq!(scaled, bx(150_000, 256_000, 250_000, 384_000, 900));
    let back = to_model_box(&scaled, 1000, 800);
    assert_eq!(back, b);
}

#[test]
fn clamp_round_rounds_half_up_and_clamps() {
    // den 2: value 7.5 rounds away from zero to 8
    assert_eq!(clamp_round(15, 2, 100), 8);
    // value 7.25 rounds down to 7 (den 4)
    assert_eq!(clamp_round(29, 4, 100), 7);
    // negative values clamp to 0
    assert_eq!(clamp_round(-50, 2, 100), 0);
    // values past the right edge clamp to dim - 1
    assert_eq!(clamp_round(100_000, 2, 100), 99);
}
