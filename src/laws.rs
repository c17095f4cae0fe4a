use vstd::prelude::*;
use crate::accumulate::{apply_diffs, blank_map};
use crate::compare::{abs_diff, abs_diff_sum, pixel, row_diffs, row_error};
use crate::format::{ColorFormat, DiffError, ImageInfo};
use crate::orchestrate::{count_after, image_row, map_after, spec_diff_images};

verus! {

/// A row compared with itself has no differing pixel.
pub proof fn lemma_row_diffs_self(l: Seq<u8>, bpp: nat, n: nat)
    ensures
        row_diffs(l, l, bpp, n) == Seq::<(usize, u8)>::empty(),
    decreases n,
{
    if n > 0 {
        lemma_row_diffs_self(l, bpp, (n - 1) as nat);
    }
}

/// Comparing image data with itself leaves the map white and the count at zero.
pub proof fn lemma_same_data_no_diff(d: Seq<u8>, width: nat, height: nat, bpp: nat, n: nat)
    ensures
        map_after(d, d, width, height, bpp, n) == blank_map(width * height),
        count_after(d, d, width, bpp, n) == 0,
    decreases n,
{
    if n > 0 {
        lemma_same_data_no_diff(d, width, height, bpp, (n - 1) as nat);
        lemma_row_diffs_self(
            image_row(d, width * bpp, (n - 1) as nat),
            bpp,
            width,
        );
    }
}

/// Two byte-identical images of the same geometry and format have no
/// differing pixel, and the map, all white, is not worth writing out.
pub proof fn lemma_identical_images(info: ImageInfo, data: Seq<u8>)
    ensures
        spec_diff_images(info, data, info, data) matches Ok((m, c)) ==> c == 0 && m == blank_map(
            info.width as nat * info.height as nat,
        ),
{
    let bpp = crate::format::spec_bytes_per_pixel(info.format);
    if bpp is Ok {
        lemma_same_data_no_diff(
            data,
            info.width as nat,
            info.height as nat,
            bpp->Ok_0 as nat,
            info.height as nat,
        );
    }
}

/// The absolute differences of two pixels sum the same in either order.
pub proof fn lemma_abs_diff_sum_symmetric(a: Seq<u8>, b: Seq<u8>, n: nat)
    ensures
        abs_diff_sum(a, b, n) == abs_diff_sum(b, a, n),
    decreases n,
{
    if n > 0 {
        lemma_abs_diff_sum_symmetric(a, b, (n - 1) as nat);
    }
}

/// The first `n` columns of two rows of whole pixels compare alike in
/// either order.
proof fn lemma_row_diffs_symmetric(a: Seq<u8>, b: Seq<u8>, bpp: nat, width: nat, n: nat)
    requires
        a.len() == width * bpp,
        b.len() == width * bpp,
        n <= width,
    ensures
        row_diffs(a, b, bpp, n) == row_diffs(b, a, bpp, n),
    decreases n,
{
    if n > 0 {
        lemma_row_diffs_symmetric(a, b, bpp, width, (n - 1) as nat);
        let c = (n - 1) as nat;
        assert(c * bpp + bpp <= width * bpp) by (nonlinear_arith)
            requires c < width;
        let pa = pixel(a, bpp, c);
        let pb = pixel(b, bpp, c);
        lemma_abs_diff_sum_symmetric(pa, pb, pa.len());
    }
}

/// Comparing `b` with `a` fails exactly as comparing `a` with `b` does and,
/// where both succeed, reports the same columns with the same intensities.
pub proof fn lemma_compare_symmetric(a: Seq<u8>, b: Seq<u8>, width: nat, bpp: nat)
    ensures
        row_error(a.len(), b.len(), width, bpp) == row_error(b.len(), a.len(), width, bpp),
        row_error(a.len(), b.len(), width, bpp) is None ==> row_diffs(a, b, bpp, width)
            == row_diffs(b, a, bpp, width),
{
    if row_error(a.len(), b.len(), width, bpp) is None {
        lemma_row_diffs_symmetric(a, b, bpp, width, width);
    }
}

/// Images whose width, height or format differ are refused with the
/// validator's error, whatever their pixel data: no row is looked at.
pub proof fn lemma_mismatch_refused_before_rows(
    left: ImageInfo,
    left_data: Seq<u8>,
    right: ImageInfo,
    right_data: Seq<u8>,
)
    requires
        left.width != right.width || left.height != right.height || left.format != right.format,
    ensures
        spec_diff_images(left, left_data, right, right_data) == spec_diff_images(
            left,
            Seq::empty(),
            right,
            Seq::empty(),
        ),
        spec_diff_images(left, left_data, right, right_data) == Err::<(Seq<u8>, nat), DiffError>(
            if left.width != right.width || left.height != right.height {
                DiffError::DimensionMismatch
            } else {
                DiffError::FormatMismatch
            },
        ),
{
}

/// In a row of one-byte pixels, changing the byte of column `i` makes that
/// column, and only it, differ, with the absolute change as intensity.
proof fn lemma_one_changed_column(x: Seq<u8>, i: nat, v: u8, n: nat)
    requires
        i < x.len(),
        n <= x.len(),
        x[i as int] != v,
    ensures
        row_diffs(x, x.update(i as int, v), 1, n) == (if n <= i {
            Seq::<(usize, u8)>::empty()
        } else {
            seq![(i as usize, abs_diff(x[i as int], v) as u8)]
        }),
    decreases n,
{
    if n > 0 {
        lemma_one_changed_column(x, i, v, (n - 1) as nat);
        let y = x.update(i as int, v);
        let c = (n - 1) as nat;
        let a = pixel(x, 1, c);
        let b = pixel(y, 1, c);
        if c != i {
            assert(a =~= b);
        } else {
            assert(a.len() == 1);
            assert(a[0] == x[i as int]);
            assert(b[0] == v);
            assert(abs_diff_sum(a, b, 0) == 0);
            assert(abs_diff_sum(a, b, 1) == abs_diff(x[i as int], v));
        }
    }
}

/// Rows of an image where only the byte at `q * w + i` changed: the first
/// `n` rows hold one difference once row `q` is among them.
proof fn lemma_one_changed_pixel_rows(l: Seq<u8>, w: nat, h: nat, q: nat, i: nat, v: u8, n: nat)
    requires
        l.len() == w * h,
        w <= usize::MAX,
        q < h,
        i < w,
        n <= h,
        l[(q * w + i) as int] != v,
    ensures
        count_after(l, l.update((q * w + i) as int, v), w, 1, n) == (if n <= q {
            0nat
        } else {
            1nat
        }),
        map_after(l, l.update((q * w + i) as int, v), w, h, 1, n) == (if n <= q {
            blank_map(w * h)
        } else {
            blank_map(w * h).update(
                (q * w + i) as int,
                abs_diff(l[(q * w + i) as int], v) as u8,
            )
        }),
    decreases n,
{
    if n > 0 {
        lemma_one_changed_pixel_rows(l, w, h, q, i, v, (n - 1) as nat);
        let p = (q * w + i) as int;
        assert(q * w + i < w * h) by (nonlinear_arith)
            requires q < h, i < w;
        let r = l.update(p, v);
        let k = (n - 1) as nat;
        assert(w * 1 == w);
        assert(k * w + w <= w * h) by (nonlinear_arith)
            requires k < h;
        let lr = image_row(l, w, k);
        let rr = image_row(r, w, k);
        if k != q {
            if k < q {
                assert(k * w + w <= q * w) by (nonlinear_arith)
                    requires k < q;
            } else {
                assert(q * w + w <= k * w) by (nonlinear_arith)
                    requires q < k;
            }
            assert forall|j: int| 0 <= j < w implies lr[j] == rr[j] by {
                assert(k * w + j != p);
            }
            assert(lr =~= rr);
            lemma_row_diffs_self(lr, 1, w);
        } else {
            assert(rr =~= lr.update(i as int, v));
            assert(lr[i as int] == l[p]);
            lemma_one_changed_column(lr, i, v, w);
            let d = seq![(i as usize, abs_diff(l[p], v) as u8)];
            assert(d.drop_last() =~= Seq::<(usize, u8)>::empty());
            let blank = blank_map(w * h);
            assert(apply_diffs(blank, (q * w) as int, d.drop_last()) == blank);
            assert(row_diffs(lr, rr, 1, w) == d);
            assert(apply_diffs(blank, (q * w) as int, d) == blank.update(p, abs_diff(l[p], v) as u8));
        }
    }
}

/// Two single-channel 8-bit images that differ in one pixel only, by `d`,
/// give one differing pixel of intensity `d`, at that pixel's position of an
/// otherwise white map.
pub proof fn lemma_single_pixel_change(info: ImageInfo, data: Seq<u8>, col: nat, row: nat, v: u8)
    requires
        info.format == ColorFormat::Gray(8),
        data.len() == info.width as nat * info.height as nat,
        col < info.width,
        row < info.height,
        data[(row * info.width + col) as int] != v,
    ensures
        ({
            let w = info.width as nat;
            let h = info.height as nat;
            let p = (row * w + col) as int;
            spec_diff_images(info, data, info, data.update(p, v)) == Ok::<(Seq<u8>, nat), DiffError>(
                (blank_map(w * h).update(p, abs_diff(data[p], v) as u8), 1),
            )
        }),
{
    let w = info.width as nat;
    let h = info.height as nat;
    let p = (row * w + col) as int;
    assert(w <= usize::MAX);
    lemma_one_changed_pixel_rows(data, w, h, row, col, v, h);
    assert(crate::format::spec_bytes_per_pixel(info.format) == Ok::<usize, DiffError>(1));
    assert(w * 1 == w);
    assert(h * w == w * h) by (nonlinear_arith);
    assert(row * w + col < w * h) by (nonlinear_arith)
        requires row < h, col < w;
}

} // verus!
