use vstd::prelude::*;
use vstd::slice::slice_subrange;
use crate::accumulate::{apply_diffs, blank_map, DiffAccumulator};
use crate::compare::{compare_rows, row_diffs};
use crate::format::{
    get_bytes_per_pixel,
    spec_bytes_per_pixel,
    spec_validate_pair,
    validate_pair,
    DiffError,
    ImageInfo,
};

verus! {

/// Row `r` of an image whose rows are `row_len` bytes long.
pub open spec fn image_row(data: Seq<u8>, row_len: nat, r: nat) -> Seq<u8> {
    data.subrange((r * row_len) as int, (r * row_len + row_len) as int)
}

/// The differing pixels of row `r` of the two images.
pub open spec fn image_row_diffs(l: Seq<u8>, r: Seq<u8>, width: nat, bpp: nat, row: nat) -> Seq<
    (usize, u8),
> {
    row_diffs(image_row(l, width * bpp, row), image_row(r, width * bpp, row), bpp, width)
}

/// The difference map once the first `n` rows have been compared.
pub open spec fn map_after(
    l: Seq<u8>,
    r: Seq<u8>,
    width: nat,
    height: nat,
    bpp: nat,
    n: nat,
) -> Seq<u8>
    decreases n,
{
    if n == 0 {
        blank_map(width * height)
    } else {
        apply_diffs(
            map_after(l, r, width, height, bpp, (n - 1) as nat),
            (n - 1) * width,
            image_row_diffs(l, r, width, bpp, (n - 1) as nat),
        )
    }
}

/// The number of differing pixels in the first `n` rows.
pub open spec fn count_after(l: Seq<u8>, r: Seq<u8>, width: nat, bpp: nat, n: nat) -> nat
    decreases n,
{
    if n == 0 {
        0
    } else {
        count_after(l, r, width, bpp, (n - 1) as nat) + image_row_diffs(
            l,
            r,
            width,
            bpp,
            (n - 1) as nat,
        ).len()
    }
}

/// Whether an input supplies fewer bytes than `height` rows of `row_len`.
pub open spec fn too_short(data: Seq<u8>, row_len: nat, height: nat) -> bool {
    data.len() < height * row_len
}

/// What comparing two decoded images yields: the difference map and the
/// number of differing pixels, or the first error met.
pub open spec fn spec_diff_images(
    left: ImageInfo,
    left_data: Seq<u8>,
    right: ImageInfo,
    right_data: Seq<u8>,
) -> Result<(Seq<u8>, nat), DiffError> {
    if spec_validate_pair(left, right) is Err {
        Err(spec_validate_pair(left, right)->Err_0)
    } else {
        match spec_bytes_per_pixel(left.format) {
            Err(e) => Err(e),
            Ok(bpp) => {
                let w = left.width as nat;
                let h = left.height as nat;
                let row_len = w * bpp as nat;
                if too_short(left_data, row_len, h) || too_short(right_data, row_len, h) {
                    Err(DiffError::ReadError)
                } else {
                    Ok(
                        (
                            map_after(left_data, right_data, w, h, bpp as nat, h),
                            count_after(left_data, right_data, w, bpp as nat, h),
                        ),
                    )
                }
            },
        }
    }
}

/// The result of a completed comparison.
pub struct DiffReport {
    pub width: u32,
    pub height: u32,
    /// One byte per pixel, row after row: 0xFF where the images agree,
    /// the difference intensity elsewhere.
    pub diff_map: Vec<u8>,
    /// Number of differing pixels.
    pub diff_count: usize,
}

impl DiffReport {
    /// Whether the map is worth writing out: only when some pixel differs.
    pub fn has_output(&self) -> (r: bool)
        ensures
            r == (self.diff_count > 0),
    {
        self.diff_count > 0
    }
}

/// A row's differing pixels are at most one per column, each inside the row.
pub proof fn lemma_row_diffs_shape(l: Seq<u8>, r: Seq<u8>, bpp: nat, n: nat)
    ensures
        row_diffs(l, r, bpp, n).len() <= n,
        forall|k: int|
            0 <= k < row_diffs(l, r, bpp, n).len() ==> (#[trigger] row_diffs(l, r, bpp, n)[k]).0
                < n,
    decreases n,
{
    if n > 0 {
        lemma_row_diffs_shape(l, r, bpp, (n - 1) as nat);
    }
}

/// Compares two decoded images row by row. Geometry and format are checked
/// before any pixel data is looked at; an input shorter than `height` rows
/// is a read failure, and on any failure no map is produced.
pub fn diff_images(left: &ImageInfo, left_data: &[u8], right: &ImageInfo, right_data: &[u8]) -> (r:
    Result<DiffReport, DiffError>)
    ensures
        match spec_diff_images(*left, left_data@, *right, right_data@) {
            Err(e) => r == Err::<DiffReport, DiffError>(e),
            Ok((m, c)) => r matches Ok(rep) && rep.diff_map@ == m && rep.diff_count == c
                && rep.width == left.width && rep.height == left.height,
        },
{
    match validate_pair(left, right) {
        Err(e) => {
            return Err(e);
        },
        Ok(()) => {},
    }
    let bpp = match get_bytes_per_pixel(left.format) {
        Err(e) => {
            return Err(e);
        },
        Ok(n) => n,
    };
    let w = left.width as usize;
    let h = left.height as usize;
    let ghost row_len_spec = w as nat * bpp as nat;
    let left_len = left_data.len();
    let right_len = right_data.len();
    let mut row_len: usize = 0;
    if h > 0 {
        match w.checked_mul(bpp) {
            None => {
                proof {
                    assert(row_len_spec <= h as nat * row_len_spec) by (nonlinear_arith)
                        requires h >= 1;
                    assert(too_short(left_data@, row_len_spec, h as nat));
                }
                return Err(DiffError::ReadError);
            },
            Some(n) => {
                row_len = n;
            },
        }
        match row_len.checked_mul(h) {
            None => {
                proof {
                    assert(h as nat * row_len_spec == row_len_spec * h as nat) by (nonlinear_arith);
                    assert(too_short(left_data@, row_len_spec, h as nat));
                }
                return Err(DiffError::ReadError);
            },
            Some(total) => {
                if left_data.len() < total || right_data.len() < total {
                    proof {
                        assert(h as nat * row_len_spec == row_len_spec * h as nat) by (nonlinear_arith);
                    }
                    return Err(DiffError::ReadError);
                }
                proof {
                    assert(h as nat * row_len_spec == row_len_spec * h as nat) by (nonlinear_arith);
                }
            },
        }
    }
    proof {
        assert(w as nat * h as nat <= usize::MAX) by (nonlinear_arith)
            requires
                h == 0 || w * bpp * h <= usize::MAX,
                bpp >= 1,
        ;
    }
    let mut acc = DiffAccumulator::new(w, h);
    let mut row: usize = 0;
    while row < h
        invariant
            row <= h,
            bpp >= 1,
            left_len == left_data@.len(),
            right_len == right_data@.len(),
            w as nat * h as nat <= usize::MAX,
            h > 0 ==> row_len == w * bpp,
            h > 0 ==> h * row_len <= left_data@.len(),
            h > 0 ==> h * row_len <= right_data@.len(),
            acc.well_formed(),
            acc.spec_width() == w,
            acc.spec_height() == h,
            acc.spec_map() == map_after(left_data@, right_data@, w as nat, h as nat, bpp as nat, row as nat),
            acc.spec_count() == count_after(left_data@, right_data@, w as nat, bpp as nat, row as nat),
            acc.spec_count() <= row * w,
        decreases h - row,
    {
        proof {
            assert(row * row_len + row_len <= h * row_len) by (nonlinear_arith)
                requires row < h;
            assert(row * row_len <= row * row_len + row_len) by (nonlinear_arith)
                requires row_len >= 0;
            assert(row * w + w <= w * h) by (nonlinear_arith)
                requires row < h;
        }
        let start = row * row_len;
        let left_row = slice_subrange(left_data, start, start + row_len);
        let right_row = slice_subrange(right_data, start, start + row_len);
        let diffs = match compare_rows(left_row, right_row, w, bpp) {
            Ok(d) => d,
            Err(e) => {
                return Err(e);
            },
        };
        proof {
            lemma_row_diffs_shape(left_row@, right_row@, bpp as nat, w as nat);
        }
        acc.apply_row(row, &diffs);
        proof {
            assert((row + 1) * w == row * w + w) by (nonlinear_arith);
        }
        row = row + 1;
    }
    proof {
        if h == 0 {
            assert(h as nat * row_len_spec == 0) by (nonlinear_arith)
                requires h == 0;
        }
    }
    let diff_count = acc.diff_count();
    let diff_map = acc.into_map();
    Ok(DiffReport { width: left.width, height: left.height, diff_map, diff_count })
}

} // verus!
