use face_cropper::boxes::Ratio;
use face_cropper::decode::DecodeError;
use face_cropper::img::{crop_and_augment, transform_with};
use face_cropper::pipeline::{detect_faces, pixel_rect, process_batch, process_image};
use face_cropper::utils::is_image_file;
use image::{DynamicImage, GenericImageView};
use std::path::PathBuf;

// Detections below are plain model units over a 640-unit model input, so
// the sub-pixel denominator is 2 * 640.
const DEN: i64 = 1280;

fn iou_thr() -> Ratio {
    Ratio { num: 700_000, den: 1_000_000 }
}

#[test]
fn transform_output_is_always_square() {
    let img = DynamicImage::new_rgb8(600, 600);
    // an extreme 10 x 500 rectangle still comes out 128 x 128
    let out = crop_and_augment(&img, (10, 50, 20, 550), 20);
    assert_eq!(out.dimensions(), (128, 128));
    // so do deterministic variants, flipped or brightened or neither
    assert_eq!(transform_with(&img, (0, 0, 599, 1), true, None).dimensions(), (128, 128));
    assert_eq!(transform_with(&img, (0, 0, 1, 599), false, Some(-15)).dimensions(), (128, 128));
}

#[test]
fn transform_with_zero_jitter_is_square_too() {
    let img = DynamicImage::new_rgb8(64, 64);
    let out = crop_and_augment(&img, (1, 1, 63, 63), 0);
    assert_eq!(out.dimensions(), (128, 128));
}

#[test]
fn pixel_rect_skips_degenerate_boxes() {
    // a box far outside the image clamps to a zero-area rectangle
    let b = face_cropper::boxes::DetBox {
        x1: -4_000_000,
        y1: -4_000_000,
        x2: -3_000_000,
        y2: -3_000_000,
        conf: 900,
    };
    assert_eq!(pixel_rect(&b, DEN, 1000, 800), None);
}

#[test]
fn overlapping_detections_yield_one_crop() {
    // one 1000 x 800 image, two heavily overlapping detections above the
    // confidence threshold: exactly one crop is produced
    let img = DynamicImage::new_rgb8(1000, 800);
    let rows = vec![
        vec![320, 240, 100, 100, 900],
        vec![322, 240, 100, 100, 800],
    ];
    let crops = process_image(&img, &rows, 500, &iou_thr(), DEN, 20).unwrap();
    assert_eq!(crops.len(), 1);
    assert_eq!(crops[0].dimensions(), (128, 128));

    let rects = detect_faces(&rows, 1000, 800, 500, &iou_thr(), DEN);
    assert_eq!(rects.len(), 1);
    // the surviving rectangle comes from the higher-confidence row:
    // x spans (320 +/- 50) / 640 * 1000, y spans (240 +/- 50) / 640 * 800
    assert_eq!(rects[0], (422, 238, 578, 363));
}

#[test]
fn all_detections_below_threshold_yield_no_crops() {
    // confidence threshold 0.9 on a 0..1000 fixed-point scale
    let img = DynamicImage::new_rgb8(1000, 800);
    let rows = vec![
        vec![320, 240, 100, 100, 850],
        vec![100, 100, 40, 40, 200],
    ];
    let crops = process_image(&img, &rows, 900, &iou_thr(), DEN, 20).unwrap();
    assert_eq!(crops.len(), 0);
}

#[test]
fn batch_processes_images_independently() {
    // four files were listed; one failed to decode and was dropped by the
    // caller, so the batch holds the three decodable images
    let images = vec![
        DynamicImage::new_rgb8(1000, 800),
        DynamicImage::new_rgb8(640, 640),
        DynamicImage::new_rgb8(320, 200),
    ];
    // one detection row per image, shape [3, 5, 1]
    let raw: Vec<i64> = vec![
        320, 240, 100, 100, 900, // image 0
        100, 100, 40, 40, 950, // image 1
        160, 100, 60, 60, 990, // image 2
    ];
    let shape: Vec<usize> = vec![3, 5, 1];
    let out = process_batch(&images, &raw, &shape, 500, &iou_thr(), DEN, 0).unwrap();
    assert_eq!(out.len(), 3);
    for crops in &out {
        assert_eq!(crops.len(), 1);
        assert_eq!(crops[0].dimensions(), (128, 128));
    }
}

#[test]
fn batch_fails_on_uneven_rows() {
    let images = vec![DynamicImage::new_rgb8(100, 100), DynamicImage::new_rgb8(100, 100)];
    let raw: Vec<i64> = (0..35).collect();
    let shape: Vec<usize> = vec![7, 5];
    assert_eq!(
        process_batch(&images, &raw, &shape, 500, &iou_thr(), DEN, 0),
        Err(DecodeError::UnevenRows)
    );
}

#[test]
fn image_file_names_are_matched_case_insensitively() {
    assert!(is_image_file(&PathBuf::from("photos/holiday.jpg")));
    assert!(is_image_file(&PathBuf::from("photos/holiday.JPG")));
    assert!(is_image_file(&PathBuf::from("a/b/c.jpeg")));
    assert!(is_image_file(&PathBuf::from("x.PnG")));
    assert!(is_image_file(&PathBuf::from("x.bmp")));
    assert!(!is_image_file(&PathBuf::from("x.txt")));
    assert!(!is_image_file(&PathBuf::from("x.jpg.gz")));
    assert!(!is_image_file(&PathBuf::from("no_extension")));
    assert!(!is_image_file(&PathBuf::from(".jpg")));
}
