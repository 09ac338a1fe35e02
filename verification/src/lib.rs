//! Core of a face-cropping pipeline: detection boxes in exact integer
//! arithmetic, greedy non-maximum suppression, decoding of raw detector
//! output, rescaling into original-image coordinates, and the crop /
//! augment / resize transform that yields fixed-size face images.

pub mod boxes;
pub mod decode;
pub mod img;
pub mod nms;
pub mod pipeline;
pub mod score;
pub mod tensor;
pub mod utils;
