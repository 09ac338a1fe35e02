use face_cropper::decode::{decode, DecodeError};
use face_cropper::tensor::{image_to_tensor, preprocess, stack};
use image::{DynamicImage, Rgba, RgbaImage};

#[test]
fn decode_squeezes_and_splits_rows_evenly() {
    // raw output of shape [6, 5, 1] for a batch of 2 images
    let raw: Vec<i64> = (0..30).collect();
    let shape: Vec<usize> = vec![6, 5, 1];
    let groups = decode(&raw, &shape, 2).unwrap();
    assert_eq!(groups.len(), 2);
    for g in &groups {
        assert_eq!(g.len(), 3);
    }
    // rows stay in original order, partitioned contiguously
    assert_eq!(groups[0][0], vec![0, 1, 2, 3, 4]);
    assert_eq!(groups[0][2], vec![10, 11, 12, 13, 14]);
    assert_eq!(groups[1][0], vec![15, 16, 17, 18, 19]);
    assert_eq!(groups[1][2], vec![25, 26, 27, 28, 29]);
}

#[test]
fn decode_accepts_two_dimensional_shape() {
    let raw: Vec<i64> = (0..10).collect();
    let shape: Vec<usize> = vec![2, 5];
    let groups = decode(&raw, &shape, 1).unwrap();
    assert_eq!(groups.len(), 1);
    assert_eq!(groups[0].len(), 2);
    assert_eq!(groups[0][1], vec![5, 6, 7, 8, 9]);
}

#[test]
fn decode_rejects_unknown_shape() {
    let raw: Vec<i64> = (0..30).collect();
    let shape: Vec<usize> = vec![6, 5, 2];
    assert_eq!(decode(&raw, &shape, 2), Err(DecodeError::BadShape));
    let shape1: Vec<usize> = vec![30];
    assert_eq!(decode(&raw, &shape1, 2), Err(DecodeError::BadShape));
}

#[test]
fn decode_rejects_length_mismatch() {
    let raw: Vec<i64> = (0..29).collect();
    let shape: Vec<usize> = vec![6, 5];
    assert_eq!(decode(&raw, &shape, 2), Err(DecodeError::BadShape));
}

#[test]
fn decode_rejects_rows_not_divisible_by_batch() {
    let raw: Vec<i64> = (0..35).collect();
    let shape: Vec<usize> = vec![7, 5];
    assert_eq!(decode(&raw, &shape, 2), Err(DecodeError::UnevenRows));
}

fn tiny_image() -> DynamicImage {
    let mut buf = RgbaImage::new(2, 2);
    buf.put_pixel(0, 0, Rgba([10, 20, 30, 255]));
    buf.put_pixel(1, 0, Rgba([40, 50, 60, 255]));
    buf.put_pixel(0, 1, Rgba([70, 80, 90, 255]));
    buf.put_pixel(1, 1, Rgba([100, 110, 120, 255]));
    DynamicImage::ImageRgba8(buf)
}

#[test]
fn tensor_is_channel_first_rgb_with_alpha_dropped() {
    let img = tiny_image();
    let t = image_to_tensor(&img, 2);
    assert_eq!(
        t,
        vec![
            10, 40, 70, 100, // red plane, row-major
            20, 50, 80, 110, // green plane
            30, 60, 90, 120, // blue plane
        ]
    );
}

#[test]
fn preprocess_always_yields_model_sized_tensor() {
    let img = DynamicImage::new_rgb8(123, 77);
    let t = preprocess(&img, 640);
    assert_eq!(t.len(), 3 * 640 * 640);
}

#[test]
fn stack_concatenates_in_input_order() {
    let tensors = vec![vec![1u8, 2, 3], vec![4, 5, 6], vec![7, 8, 9]];
    let batch = stack(&tensors, 3);
    assert_eq!(batch, vec![1, 2, 3, 4, 5, 6, 7, 8, 9]);
}
