//! The pixel-buffer side of the pipeline: trusted declarations over the
//! `image` crate, and the verified crop / augment / resize transform.
//!
//! An image value is opaque here; its dimensions and pixels are reached
//! through the named functions below, and every trusted wrapper states what
//! the `image` crate's own source shows of the call it makes.

use vstd::prelude::*;
use image::DynamicImage;
use image::GenericImageView;
use rand::Rng;

verus! {

#[verifier::external_type_specification]
#[verifier::external_body]
pub struct ExDynamicImage(DynamicImage);

/// Width in pixels of an image value.
pub uninterp spec fn image_width(img: DynamicImage) -> u32;

/// Height in pixels of an image value.
pub uninterp spec fn image_height(img: DynamicImage) -> u32;

/// The RGBA channels of the pixel at `(x, y)`.
pub uninterp spec fn image_pixel(img: DynamicImage, x: u32, y: u32) -> (u8, u8, u8, u8);

/// The image resampled, aspect-distorting, to exactly `w` by `h` pixels.
pub uninterp spec fn resized_image(img: DynamicImage, w: u32, h: u32) -> DynamicImage;

/// The cut-out of the image at `(x, y)` of size `w` by `h`.
pub uninterp spec fn cropped_image(img: DynamicImage, x: u32, y: u32, w: u32, h: u32) -> DynamicImage;

/// The image mirrored left-to-right.
pub uninterp spec fn flipped_image(img: DynamicImage) -> DynamicImage;

/// The image with every channel adjusted by the signed amount.
pub uninterp spec fn brightened_image(img: DynamicImage, value: i32) -> DynamicImage;

/// The image resampled by the sampling resize into `w` by `h` pixels.
pub uninterp spec fn resampled_image(img: DynamicImage, w: u32, h: u32) -> DynamicImage;

/// Relies on `image::DynamicImage::width`: the width of the pixel buffer.
#[verifier::external_body]
pub(crate) fn width_of(img: &DynamicImage) -> (r: u32)
    ensures
        r == image_width(*img),
{
    img.width()
}

/// Relies on `image::DynamicImage::height`: the height of the pixel buffer.
#[verifier::external_body]
pub(crate) fn height_of(img: &DynamicImage) -> (r: u32)
    ensures
        r == image_height(*img),
{
    img.height()
}

/// Relies on `image::DynamicImage::get_pixel`: the RGBA value at `(x, y)`.
/// The call panics outside the buffer, so the bounds are required.
#[verifier::external_body]
pub(crate) fn pixel_rgba(img: &DynamicImage, x: u32, y: u32) -> (r: (u8, u8, u8, u8))
    requires
        x < image_width(*img),
        y < image_height(*img),
    ensures
        r == image_pixel(*img, x, y),
{
    let p = img.get_pixel(x, y);
    (p.0[0], p.0[1], p.0[2], p.0[3])
}

/// Relies on `image::DynamicImage::resize_exact`: returns a new image whose
/// dimensions are exactly the requested ones, resampled with the
/// Catmull-Rom filter (the one interpolation filter this pipeline uses).
#[verifier::external_body]
pub(crate) fn resize_exact_px(img: &DynamicImage, w: u32, h: u32) -> (r: DynamicImage)
    ensures
        r == resized_image(*img, w, h),
        image_width(r) == w,
        image_height(r) == h,
{
    img.resize_exact(w, h, image::imageops::FilterType::CatmullRom)
}

/// Relies on `image::DynamicImage::crop_imm`: a cut-out at `(x, y)` of size
/// `w` by `h`.  The crate clips the rectangle to the buffer, so with the
/// required bounds the cut-out has exactly the requested size.
#[verifier::external_body]
fn crop_px(img: &DynamicImage, x: u32, y: u32, w: u32, h: u32) -> (r: DynamicImage)
    requires
        x + w <= image_width(*img),
        y + h <= image_height(*img),
    ensures
        r == cropped_image(*img, x, y, w, h),
        image_width(r) == w,
        image_height(r) == h,
{
    img.crop_imm(x, y, w, h)
}

/// Relies on `image::imageops::flip_horizontal_in_place`: mirrors the
/// pixels in place, leaving the dimensions unchanged.
#[verifier::external_body]
fn flip_horizontal(img: &mut DynamicImage)
    ensures
        *final(img) == flipped_image(*old(img)),
        image_width(*final(img)) == image_width(*old(img)),
        image_height(*final(img)) == image_height(*old(img)),
{
    image::imageops::flip_horizontal_in_place(img)
}

/// Relies on `image::imageops::brighten`: adjusts every pixel by the signed
/// amount into a fresh buffer of the same dimensions.
#[verifier::external_body]
fn brighten_px(img: &DynamicImage, value: i32) -> (r: DynamicImage)
    ensures
        r == brightened_image(*img, value),
        image_width(r) == image_width(*img),
        image_height(r) == image_height(*img),
{
    DynamicImage::ImageRgba8(image::imageops::brighten(img, value))
}

/// Relies on `image::imageops::resize`: resamples into a fresh buffer of
/// exactly the requested dimensions (Catmull-Rom, as everywhere here).
#[verifier::external_body]
fn resize_px(img: &DynamicImage, w: u32, h: u32) -> (r: DynamicImage)
    ensures
        r == resampled_image(*img, w, h),
        image_width(r) == w,
        image_height(r) == h,
{
    DynamicImage::ImageRgba8(image::imageops::resize(img, w, h, image::imageops::FilterType::CatmullRom))
}

/// Relies on `rand::random::<bool>`: a fair coin.  Nothing is promised of
/// the outcome; callers must be correct for either value.
#[verifier::external_body]
fn coin_flip() -> bool {
    rand::random::<bool>()
}

/// Relies on `rand::Rng::gen_range` over an inclusive range: returns a value
/// inside the range, and panics on an empty one, so the order is required.
#[verifier::external_body]
fn draw_in_range(lo: i32, hi: i32) -> (r: i32)
    requires
        lo <= hi,
    ensures
        lo <= r <= hi,
{
    rand::thread_rng().gen_range(lo..=hi)
}

/// Side length of the final square face crop.
pub const CROP_SIZE: u32 = 128;

/// The transform's fixed order of steps: crop, then the optional mirror,
/// then the optional brightness adjustment, then the resample to the fixed
/// square output size.
pub open spec fn transform_spec(
    img: DynamicImage,
    rect: (u32, u32, u32, u32),
    flip: bool,
    brighten_by: Option<i32>,
) -> DynamicImage {
    let cropped = cropped_image(
        img,
        rect.0,
        rect.1,
        (rect.2 - rect.0) as u32,
        (rect.3 - rect.1) as u32,
    );
    let mirrored = if flip {
        flipped_image(cropped)
    } else {
        cropped
    };
    let adjusted = match brighten_by {
        Some(v) => brightened_image(mirrored, v),
        None => mirrored,
    };
    resampled_image(adjusted, CROP_SIZE, CROP_SIZE)
}

/// The brightness amounts the transform may draw for a given jitter
/// setting: none when the jitter is zero, else any amount within it.
pub open spec fn jitter_choice(brighten_by: Option<i32>, brightness_jitter: i32) -> bool {
    match brighten_by {
        None => brightness_jitter == 0,
        Some(v) => brightness_jitter != 0 && -brightness_jitter <= v <= brightness_jitter,
    }
}

/// The deterministic core of the transform: crop to the rectangle, mirror
/// when asked, brighten by the given amount when one is given, and resample
/// to the fixed output size.  Always yields an image of exactly
/// `CROP_SIZE` by `CROP_SIZE` pixels, whatever the rectangle's aspect ratio.
pub fn transform_with(
    orig: &DynamicImage,
    rect: (u32, u32, u32, u32),
    flip: bool,
    brighten_by: Option<i32>,
) -> (r: DynamicImage)
    requires
        rect.0 < rect.2,
        rect.1 < rect.3,
        rect.2 <= image_width(*orig),
        rect.3 <= image_height(*orig),
    ensures
        r == transform_spec(*orig, rect, flip, brighten_by),
        image_width(r) == CROP_SIZE,
        image_height(r) == CROP_SIZE,
{
    let (x1, y1, x2, y2) = rect;
    let w = x2 - x1;
    let h = y2 - y1;
    let mut face = crop_px(orig, x1, y1, w, h);
    if flip {
        flip_horizontal(&mut face);
    }
    match brighten_by {
        Some(v) => {
            face = brighten_px(&face, v);
        },
        None => {},
    }
    resize_px(&face, CROP_SIZE, CROP_SIZE)
}

/// Crops the rectangle out of the original, flips it with even chance,
/// jitters its brightness by a uniform amount in
/// `[-brightness_jitter, +brightness_jitter]` when the jitter is non-zero,
/// and resamples to the fixed square output size.
pub fn crop_and_augment(orig: &DynamicImage, rect: (u32, u32, u32, u32), brightness_jitter: i32) -> (r:
    DynamicImage)
    requires
        rect.0 < rect.2,
        rect.1 < rect.3,
        rect.2 <= image_width(*orig),
        rect.3 <= image_height(*orig),
        brightness_jitter >= 0,
    ensures
        image_width(r) == CROP_SIZE,
        image_height(r) == CROP_SIZE,
        exists|flip: bool, brighten_by: Option<i32>|
            jitter_choice(brighten_by, brightness_jitter) && r == transform_spec(
                *orig,
                rect,
                flip,
                brighten_by,
            ),
{
    let flip = coin_flip();
    let jitter = if brightness_jitter != 0 {
        Some(draw_in_range(-brightness_jitter, brightness_jitter))
    } else {
        None
    };
    let r = transform_with(orig, rect, flip, jitter);
    proof {
        assert(jitter_choice(jitter, brightness_jitter) && r == transform_spec(
            *orig,
            rect,
            flip,
            jitter,
        ));
    }
    r
}

} // verus!
