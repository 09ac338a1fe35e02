//! File-name filtering: which paths look like images this pipeline reads.

use vstd::prelude::*;
use std::path::PathBuf;

verus! {

#[verifier::external_type_specification]
#[verifier::external_body]
pub struct ExPathBuf(PathBuf);

/// The extension of the path's file name — what follows the final dot — as
/// UTF-8 bytes; `None` when there is no extension or it is not UTF-8.
pub uninterp spec fn path_extension(p: PathBuf) -> Option<Seq<u8>>;

/// Relies on `std::path::Path::extension`: the part of the file name after
/// its final dot, if any; converted to bytes, with a non-UTF-8 extension
/// mapped to `None` (such an extension cannot equal any ASCII name).
#[verifier::external_body]
fn extension_bytes(path: &PathBuf) -> (r: Option<Vec<u8>>)
    ensures
        (match r {
            Some(v) => path_extension(*path) == Some(v@),
            None => path_extension(*path) is None,
        }),
{
    match path.extension().and_then(|s| s.to_str()) {
        Some(s) => Some(s.as_bytes().to_vec()),
        None => None,
    }
}

/// ASCII lower-casing of one byte.
pub open spec fn ascii_lower(b: u8) -> u8 {
    if 65 <= b <= 90 {
        (b + 32) as u8
    } else {
        b
    }
}

pub open spec fn lower_bytes(s: Seq<u8>) -> Seq<u8> {
    s.map_values(|b: u8| ascii_lower(b))
}

/// The accepted image extensions, ASCII case-insensitively:
/// `jpg`, `jpeg`, `png`, `bmp`.
pub open spec fn is_supported_ext(s: Seq<u8>) -> bool {
    ||| lower_bytes(s) == seq![106u8, 112u8, 103u8]
    ||| lower_bytes(s) == seq![106u8, 112u8, 101u8, 103u8]
    ||| lower_bytes(s) == seq![112u8, 110u8, 103u8]
    ||| lower_bytes(s) == seq![98u8, 109u8, 112u8]
}

/// A path is an image file when its extension is one of the accepted names.
pub open spec fn is_image_path(p: PathBuf) -> bool {
    match path_extension(p) {
        Some(e) => is_supported_ext(e),
        None => false,
    }
}

/// Returns `true` exactly when the file has an image extension this
/// pipeline supports.
pub fn is_image_file(path: &PathBuf) -> (r: bool)
    ensures
        r == is_image_path(*path),
{
    match extension_bytes(path) {
        None => false,
        Some(v) => {
            let mut low: Vec<u8> = Vec::new();
            let mut i: usize = 0;
            while i < v.len()
                invariant
                    i <= v@.len(),
                    low@ == lower_bytes(v@.take(i as int)),
                decreases v@.len() - i,
            {
                let b = v[i];
                let lb = if b >= 65 && b <= 90 {
                    b + 32
                } else {
                    b
                };
                low.push(lb);
                proof {
                    assert(lower_bytes(v@.take(i + 1)) =~= lower_bytes(v@.take(i as int)).push(
                        ascii_lower(v@[i as int]),
                    ));
                }
                i += 1;
            }
            proof {
                assert(v@.take(v@.len() as int) =~= v@);
            }
            let m = (low.len() == 3 && low[0] == 106 && low[1] == 112 && low[2] == 103) || (
            low.len() == 4 && low[0] == 106 && low[1] == 112 && low[2] == 101 && low[3] == 103) || (
            low.len() == 3 && low[0] == 112 && low[1] == 110 && low[2] == 103) || (low.len() == 3
                && low[0] == 98 && low[1] == 109 && low[2] == 112);
            proof {
                if low@.len() == 3 && low@[0] == 106 && low@[1] == 112 && low@[2] == 103 {
                    assert(low@ =~= seq![106u8, 112u8, 103u8]);
                }
                if low@.len() == 4 && low@[0] == 106 && low@[1] == 112 && low@[2] == 101 && low@[3]
                    == 103 {
                    assert(low@ =~= seq![106u8, 112u8, 101u8, 103u8]);
                }
                if low@.len() == 3 && low@[0] == 112 && low@[1] == 110 && low@[2] == 103 {
                    assert(low@ =~= seq![112u8, 110u8, 103u8]);
                }
                if low@.len() == 3 && low@[0] == 98 && low@[1] == 109 && low@[2] == 112 {
                    assert(low@ =~= seq![98u8, 109u8, 112u8]);
                }
            }
            m
        },
    }
}

} // verus!
