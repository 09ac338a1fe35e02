//! Preprocessing into model-ready tensors, and batching.
//!
//! The model takes channel-first `[B, 3, S, S]` tensors.  The verified part
//! works on the 8-bit channel values in that exact layout; dividing each by
//! 255 into a float buffer is a one-for-one conversion at the caller's edge.

use vstd::prelude::*;
use vstd::arithmetic::div_mod::lemma_fundamental_div_mod_converse;
use crate::img::{image_width, image_height, image_pixel, resized_image, resize_exact_px};
use image::DynamicImage;

verus! {

/// Largest model input resolution the preprocessor accepts.
pub const SIZE_BOUND: u32 = 4096;

/// One RGB channel of an RGBA pixel; the alpha channel is dropped.
pub open spec fn rgb_channel(p: (u8, u8, u8, u8), c: int) -> u8 {
    if c == 0 {
        p.0
    } else if c == 1 {
        p.1
    } else {
        p.2
    }
}

/// The value at flat index `i` of the channel-first `[3, size, size]`
/// tensor of an image: channel `i / size²` of the pixel at column
/// `i % size` of row `(i % size²) / size`.
pub open spec fn tensor_at(img: DynamicImage, size: u32, i: int) -> u8 {
    let s = size as int;
    let c = i / (s * s);
    let rem = i % (s * s);
    rgb_channel(image_pixel(img, (rem % s) as u32, (rem / s) as u32), c)
}

proof fn lemma_tensor_index(c: int, y: int, x: int, s: int)
    requires
        0 <= c < 3,
        0 <= y < s,
        0 <= x < s,
    ensures
        ((c * s + y) * s + x) / (s * s) == c,
        (((c * s + y) * s + x) % (s * s)) / s == y,
        (((c * s + y) * s + x) % (s * s)) % s == x,
{
    let i = (c * s + y) * s + x;
    assert(i == c * (s * s) + (y * s + x) && 0 <= y * s + x < s * s) by (nonlinear_arith)
        requires
            0 <= c < 3,
            0 <= y < s,
            0 <= x < s,
            i == (c * s + y) * s + x,
    ;
    lemma_fundamental_div_mod_converse(i, s * s, c, y * s + x);
    lemma_fundamental_div_mod_converse(y * s + x, s, y, x);
}

/// Reads an image of exactly `size` by `size` pixels into a channel-first
/// `[3, size, size]` tensor of 8-bit channel values, channels in R, G, B
/// order, alpha dropped.
pub fn image_to_tensor(img: &DynamicImage, size: u32) -> (t: Vec<u8>)
    requires
        image_width(*img) == size,
        image_height(*img) == size,
        1 <= size <= SIZE_BOUND,
    ensures
        t@.len() == 3 * (size as int) * (size as int),
        forall|i: int| 0 <= i < t@.len() ==> #[trigger] t@[i] == tensor_at(*img, size, i),
{
    let s = size as usize;
    let mut t: Vec<u8> = Vec::new();
    let mut c: usize = 0;
    while c < 3
        invariant
            c <= 3,
            s == size as int,
            1 <= size <= SIZE_BOUND,
            image_width(*img) == size,
            image_height(*img) == size,
            t@.len() == c * s * s,
            forall|i: int| 0 <= i < t@.len() ==> #[trigger] t@[i] == tensor_at(*img, size, i),
        decreases 3 - c,
    {
        let mut y: usize = 0;
        while y < s
            invariant
                c < 3,
                y <= s,
                s == size as int,
                1 <= size <= SIZE_BOUND,
                image_width(*img) == size,
                image_height(*img) == size,
                t@.len() == (c * s + y) * s,
                forall|i: int| 0 <= i < t@.len() ==> #[trigger] t@[i] == tensor_at(*img, size, i),
            decreases s - y,
        {
            let mut x: usize = 0;
            while x < s
                invariant
                    c < 3,
                    y < s,
                    x <= s,
                    s == size as int,
                    1 <= size <= SIZE_BOUND,
                    image_width(*img) == size,
                    image_height(*img) == size,
                    t@.len() == (c * s + y) * s + x,
                    forall|i: int| 0 <= i < t@.len() ==> #[trigger] t@[i] == tensor_at(
                        *img,
                        size,
                        i,
                    ),
                decreases s - x,
            {
                proof {
                    assert((c * s + y) * s + x < 3 * s * s && (c * s + y) * s + x + 1 <= (c * s + y
                        + 1) * s && (c * s + y + 1) * s <= 3 * s * s) by (nonlinear_arith)
                        requires
                            0 <= c < 3,
                            0 <= y < s,
                            0 <= x < s,
                            s >= 1,
                    ;
                    lemma_tensor_index(c as int, y as int, x as int, s as int);
                }
                let p = crate::img::pixel_rgba(img, x as u32, y as u32);
                let v = if c == 0 {
                    p.0
                } else if c == 1 {
                    p.1
                } else {
                    p.2
                };
                t.push(v);
                x += 1;
            }
            proof {
                assert((c * s + y) * s + s == (c * s + y + 1) * s) by (nonlinear_arith);
            }
            y += 1;
        }
        proof {
            assert((c * s + s) * s == (c + 1) * s * s) by (nonlinear_arith);
        }
        c += 1;
    }
    proof {
        assert(3 * s * s == 3 * (size as int) * (size as int)) by (nonlinear_arith)
            requires
                s == size as int,
        ;
    }
    t
}

/// Resizes an image, distorting its aspect ratio if necessary, to the model
/// input resolution and reads it into a `[1, 3, size, size]` channel-first
/// tensor of 8-bit channel values (the caller divides by 255 for the model).
pub fn preprocess(img: &DynamicImage, size: u32) -> (t: Vec<u8>)
    requires
        1 <= size <= SIZE_BOUND,
    ensures
        t@.len() == 3 * (size as int) * (size as int),
        forall|i: int|
            0 <= i < t@.len() ==> #[trigger] t@[i] == tensor_at(resized_image(*img, size, size), size, i),
{
    let resized = resize_exact_px(img, size, size);
    image_to_tensor(&resized, size)
}

/// Stacks `B` single-image tensors of equal length into one batch buffer,
/// in input order: the batch is the concatenation of the inputs.
pub fn stack(tensors: &Vec<Vec<u8>>, chunk: usize) -> (r: Vec<u8>)
    requires
        tensors@.len() >= 1,
        forall|i: int| 0 <= i < tensors@.len() ==> (#[trigger] tensors@[i]@).len() == chunk,
        tensors@.len() * chunk <= usize::MAX,
    ensures
        r@.len() == tensors@.len() * chunk,
        forall|i: int, j: int|
            0 <= i < tensors@.len() && 0 <= j < chunk ==> #[trigger] r@[i * chunk + j]
                == tensors@[i]@[j],
{
    let n = tensors.len();
    let mut r: Vec<u8> = Vec::new();
    let mut i: usize = 0;
    while i < n
        invariant
            i <= n,
            n == tensors@.len(),
            forall|a: int| 0 <= a < n ==> (#[trigger] tensors@[a]@).len() == chunk,
            n * chunk <= usize::MAX,
            r@.len() == i * chunk,
            forall|a: int, b: int|
                0 <= a < i && 0 <= b < chunk ==> #[trigger] r@[a * chunk + b] == tensors@[a]@[b],
        decreases n - i,
    {
        let ghost prev = r@;
        let ghost plen = r@.len() as int;
        let row = &tensors[i];
        let mut j: usize = 0;
        while j < chunk
            invariant
                j <= chunk,
                i < n,
                n == tensors@.len(),
                row@ == tensors@[i as int]@,
                row@.len() == chunk,
                r@.len() == plen + j,
                r@.take(plen) == prev,
                prev.len() == plen,
                forall|b: int| 0 <= b < j ==> #[trigger] r@[plen + b] == row@[b],
            decreases chunk - j,
        {
            r.push(row[j]);
            proof {
                assert(r@.take(plen) =~= prev);
            }
            j += 1;
        }
        proof {
            assert(i * chunk + chunk == (i + 1) * chunk) by (nonlinear_arith);
            assert forall|a: int, b: int|
                0 <= a < i + 1 && 0 <= b < chunk implies #[trigger] r@[a * chunk + b]
                == tensors@[a]@[b] by {
                assert(0 <= a * chunk + b < (a + 1) * chunk && (a + 1) * chunk <= (i + 1) * chunk
                    && (a < i ==> (a + 1) * chunk <= i * chunk)) by (nonlinear_arith)
                    requires
                        0 <= a <= i,
                        0 <= b < chunk,
                ;
                if a < i {
                    assert(r@[a * chunk + b] == r@.take(plen)[a * chunk + b]);
                    assert(prev[a * chunk + b] == tensors@[a]@[b]);
                } else {
                    assert(r@[plen + b] == row@[b]);
                }
            }
        }
        i += 1;
    }
    r
}

} // verus!
