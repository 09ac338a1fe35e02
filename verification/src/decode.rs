//! Decoding of the raw, flat detector output into per-image rows.
//!
//! The detector hands back one flat buffer whose logical shape is either
//! `[N, C]` or `[N, C, 1]`; the trailing unit axis is squeezed away and the
//! `N` rows are split into `B` equal contiguous blocks, one per image.

use vstd::prelude::*;
use vstd::arithmetic::div_mod::lemma_fundamental_div_mod;

verus! {

/// Why a raw output buffer could not be decoded.
#[derive(Clone, Copy, PartialEq, Eq, Structural, Debug)]
pub enum DecodeError {
    /// The shape is not `[N, C]` or `[N, C, 1]`, or the buffer length does
    /// not equal `N * C`.
    BadShape,
    /// The row count is not an exact multiple of the batch size.
    UnevenRows,
}

/// The two accepted output shapes: `[N, C]`, or `[N, C, 1]` squeezed.
pub open spec fn shape_ok(shape: Seq<usize>) -> bool {
    shape.len() == 2 || (shape.len() == 3 && shape[2] == 1)
}

pub open spec fn shape_rows(shape: Seq<usize>) -> int {
    shape[0] as int
}

pub open spec fn shape_cols(shape: Seq<usize>) -> int {
    shape[1] as int
}

/// The flat buffer holds exactly one value per cell of the shape.
pub open spec fn len_matches(raw: Seq<i64>, shape: Seq<usize>) -> bool {
    raw.len() == shape_rows(shape) * shape_cols(shape)
}

/// A fully decoded output: `groups[i][j][k]` is the `k`-th value of the
/// `j`-th row of image `i`, read off the flat buffer in row-major order.
pub open spec fn decoded_ok(
    groups: Seq<Seq<Seq<i64>>>,
    raw: Seq<i64>,
    shape: Seq<usize>,
    batch: int,
) -> bool {
    let rpi = shape_rows(shape) / batch;
    let cols = shape_cols(shape);
    &&& groups.len() == batch
    &&& forall|i: int| 0 <= i < batch ==> (#[trigger] groups[i]).len() == rpi
    &&& forall|i: int, j: int|
        0 <= i < batch && 0 <= j < rpi ==> (#[trigger] groups[i][j]).len() == cols
    &&& forall|i: int, j: int, k: int|
        0 <= i < batch && 0 <= j < rpi && 0 <= k < cols ==> #[trigger] groups[i][j][k] == raw[(i
            * rpi + j) * cols + k]
}

pub(crate) proof fn lemma_flat_index(i: int, j: int, k: int, rpi: int, cols: int, rows: int, batch: int)
    requires
        0 <= i < batch,
        0 <= j < rpi,
        0 <= k < cols,
        rows == batch * rpi,
    ensures
        0 <= i * rpi + j < rows,
        0 <= (i * rpi + j) * cols + k < rows * cols,
{
    assert(0 <= i * rpi + j < rows && 0 <= (i * rpi + j) * cols + k < rows * cols)
        by (nonlinear_arith)
        requires
            0 <= i < batch,
            0 <= j < rpi,
            0 <= k < cols,
            rows == batch * rpi,
    ;
}

/// Squeezes and partitions the flat detector output into `batch` contiguous
/// groups of rows.  Rejects any shape other than the two documented ones,
/// and a row count that does not divide evenly by the batch size.
pub fn decode(raw: &Vec<i64>, shape: &Vec<usize>, batch: usize) -> (r: Result<
    Vec<Vec<Vec<i64>>>,
    DecodeError,
>)
    requires
        batch >= 1,
    ensures
        r is Ok <==> shape_ok(shape@) && len_matches(raw@, shape@) && shape_rows(shape@) % (
        batch as int) == 0,
        r == Result::<Vec<Vec<Vec<i64>>>, DecodeError>::Err(DecodeError::BadShape) <==> !(shape_ok(
            shape@,
        ) && len_matches(raw@, shape@)),
        r == Result::<Vec<Vec<Vec<i64>>>, DecodeError>::Err(DecodeError::UnevenRows) <==> shape_ok(
            shape@,
        ) && len_matches(raw@, shape@) && shape_rows(shape@) % (batch as int) != 0,
        r is Ok ==> decoded_ok(
            vec3_views(r->Ok_0@),
            raw@,
            shape@,
            batch as int,
        ),
{
    let dims = shape.len();
    if !(dims == 2 || (dims == 3 && shape[2] == 1)) {
        return Err(DecodeError::BadShape);
    }
    let rows = shape[0];
    let cols = shape[1];
    let total = match rows.checked_mul(cols) {
        Some(t) => t,
        None => {
            // The buffer can hold at most `usize::MAX` values, so a product
            // beyond that range can never match its length.
            let _len: usize = raw.len();
            return Err(DecodeError::BadShape);
        },
    };
    if raw.len() != total {
        return Err(DecodeError::BadShape);
    }
    if rows % batch != 0 {
        return Err(DecodeError::UnevenRows);
    }
    let rpi = rows / batch;
    proof {
        lemma_fundamental_div_mod(rows as int, batch as int);
    }
    let mut groups: Vec<Vec<Vec<i64>>> = Vec::new();
    let mut i: usize = 0;
    while i < batch
        invariant
            i <= batch,
            batch >= 1,
            rows as int == (batch as int) * (rpi as int),
            rpi == rows as int / batch as int,
            raw@.len() == (rows as int) * (cols as int),
            raw@.len() <= usize::MAX,
            groups@.len() == i,
            forall|a: int| 0 <= a < i ==> (#[trigger] groups@[a]@).len() == rpi,
            forall|a: int, b: int|
                0 <= a < i && 0 <= b < rpi ==> (#[trigger] groups@[a]@[b]@).len() == cols,
            forall|a: int, b: int, c: int|
                0 <= a < i && 0 <= b < rpi && 0 <= c < cols ==> #[trigger] groups@[a]@[b]@[c]
                    == raw@[(a * (rpi as int) + b) * (cols as int) + c],
        decreases batch - i,
    {
        let mut img: Vec<Vec<i64>> = Vec::new();
        let mut j: usize = 0;
        while j < rpi
            invariant
                j <= rpi,
                i < batch,
                rows as int == (batch as int) * (rpi as int),
                raw@.len() == (rows as int) * (cols as int),
                raw@.len() <= usize::MAX,
                img@.len() == j,
                forall|b: int| 0 <= b < j ==> (#[trigger] img@[b]@).len() == cols,
                forall|b: int, c: int|
                    0 <= b < j && 0 <= c < cols ==> #[trigger] img@[b]@[c] == raw@[((i as int) * (
                    rpi as int) + b) * (cols as int) + c],
            decreases rpi - j,
        {
            let mut row: Vec<i64> = Vec::new();
            let mut k: usize = 0;
            proof {
                lemma_flat_index(
                    i as int,
                    j as int,
                    0,
                    rpi as int,
                    if cols > 0 {
                        cols as int
                    } else {
                        1
                    },
                    rows as int,
                    batch as int,
                );
            }
            let base = (i * rpi + j) * cols;
            while k < cols
                invariant
                    k <= cols,
                    i < batch,
                    j < rpi,
                    rows as int == (batch as int) * (rpi as int),
                    raw@.len() == (rows as int) * (cols as int),
                    raw@.len() <= usize::MAX,
                    base == ((i as int) * (rpi as int) + j as int) * (cols as int),
                    row@.len() == k,
                    forall|c: int| 0 <= c < k ==> #[trigger] row@[c] == raw@[base as int + c],
                decreases cols - k,
            {
                proof {
                    lemma_flat_index(
                        i as int,
                        j as int,
                        k as int,
                        rpi as int,
                        cols as int,
                        rows as int,
                        batch as int,
                    );
                }
                row.push(raw[base + k]);
                k += 1;
            }
            img.push(row);
            j += 1;
        }
        groups.push(img);
        i += 1;
    }
    Ok(groups)
}

/// The sequence-of-sequences view of a nested vector of rows.
pub open spec fn vec3_views(groups: Seq<Vec<Vec<i64>>>) -> Seq<Seq<Seq<i64>>> {
    groups.map_values(|img: Vec<Vec<i64>>| img@.map_values(|row: Vec<i64>| row@))
}

} // verus!
