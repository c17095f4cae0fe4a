use vstd::prelude::*;
use vstd::slice::slice_subrange;
use crate::format::DiffError;

verus! {

/// Absolute difference of two bytes.
pub open spec fn abs_diff(a: u8, b: u8) -> nat {
    if a >= b {
        (a - b) as nat
    } else {
        (b - a) as nat
    }
}

/// Sum of the absolute byte differences over the first `n` positions.
pub open spec fn abs_diff_sum(a: Seq<u8>, b: Seq<u8>, n: nat) -> nat
    decreases n,
{
    if n == 0 {
        0
    } else {
        abs_diff_sum(a, b, (n - 1) as nat) + abs_diff(a[n - 1], b[n - 1])
    }
}

/// Difference intensity of two pixels: the mean absolute byte difference,
/// truncated toward zero.
pub open spec fn intensity(a: Seq<u8>, b: Seq<u8>) -> int {
    abs_diff_sum(a, b, a.len()) as int / a.len() as int
}

/// The bytes of pixel column `col` in a row of `bpp`-byte pixels.
pub open spec fn pixel(row: Seq<u8>, bpp: nat, col: nat) -> Seq<u8> {
    row.subrange((col * bpp) as int, (col * bpp + bpp) as int)
}

/// The `(column, intensity)` pairs of the differing pixels among the first
/// `n` columns, in ascending column order.
pub open spec fn row_diffs(l: Seq<u8>, r: Seq<u8>, bpp: nat, n: nat) -> Seq<(usize, u8)>
    decreases n,
{
    if n == 0 {
        seq![]
    } else {
        let prev = row_diffs(l, r, bpp, (n - 1) as nat);
        let a = pixel(l, bpp, (n - 1) as nat);
        let b = pixel(r, bpp, (n - 1) as nat);
        if a == b {
            prev
        } else {
            prev.push(((n - 1) as usize, intensity(a, b) as u8))
        }
    }
}

/// The error that comparing rows of these lengths gives, if any.
pub open spec fn row_error(left_len: nat, right_len: nat, width: nat, bpp: nat) -> Option<DiffError> {
    if bpp == 0 {
        Some(DiffError::InvalidFormat)
    } else if left_len != right_len || left_len != width * bpp {
        Some(DiffError::LengthMismatch)
    } else {
        None
    }
}

pub proof fn lemma_abs_diff_sum_bound(a: Seq<u8>, b: Seq<u8>, n: nat)
    ensures
        abs_diff_sum(a, b, n) <= 255 * n,
    decreases n,
{
    if n > 0 {
        lemma_abs_diff_sum_bound(a, b, (n - 1) as nat);
    }
}

/// The intensity of two equally long, non-empty pixels lies in `0..=255`.
pub proof fn lemma_intensity_in_byte_range(a: Seq<u8>, b: Seq<u8>)
    requires
        a.len() == b.len(),
        a.len() > 0,
    ensures
        0 <= intensity(a, b) <= 255,
{
    lemma_abs_diff_sum_bound(a, b, a.len());
    let s = abs_diff_sum(a, b, a.len()) as int;
    let m = a.len() as int;
    assert(s / m <= 255) by (nonlinear_arith)
        requires
            s <= 255 * m,
            m > 0,
    ;
    assert(s / m >= 0) by (nonlinear_arith)
        requires
            s >= 0,
            m > 0,
    ;
}

/// Reserved for a threshold-based black/white metric; it currently reports
/// every pixel pair as intensity zero.
pub fn diff_bw(left: &[u8], right: &[u8]) -> (r: u8)
    ensures
        r == 0,
{
    0x00
}

/// Mean absolute difference of two equally long, non-empty pixels.
pub fn diff_avg(left: &[u8], right: &[u8]) -> (r: u8)
    requires
        left@.len() == right@.len(),
        left@.len() > 0,
    ensures
        r as int == intensity(left@, right@),
{
    let n = left.len();
    let mut sum: u128 = 0;
    let mut i: usize = 0;
    while i < n
        invariant
            n == left@.len(),
            n == right@.len(),
            i <= n,
            sum == abs_diff_sum(left@, right@, i as nat),
        decreases n - i,
    {
        proof {
            lemma_abs_diff_sum_bound(left@, right@, i as nat);
        }
        let l = left[i];
        let r = right[i];
        let d: u8 = if l >= r { l - r } else { r - l };
        sum = sum + d as u128;
        i = i + 1;
    }
    proof {
        lemma_intensity_in_byte_range(left@, right@);
    }
    (sum / (n as u128)) as u8
}

/// Whether two pixels hold the same bytes.
fn same_pixel(a: &[u8], b: &[u8]) -> (r: bool)
    requires
        a@.len() == b@.len(),
    ensures
        r == (a@ == b@),
{
    let mut i: usize = 0;
    while i < a.len()
        invariant
            a@.len() == b@.len(),
            i <= a@.len(),
            a@.subrange(0, i as int) == b@.subrange(0, i as int),
        decreases a@.len() - i,
    {
        if a[i] != b[i] {
            assert(a@[i as int] != b@[i as int]);
            return false;
        }
        assert(a@.subrange(0, i + 1) == a@.subrange(0, i as int).push(a@[i as int]));
        assert(b@.subrange(0, i + 1) == b@.subrange(0, i as int).push(b@[i as int]));
        i = i + 1;
    }
    assert(a@.subrange(0, a@.len() as int) == a@);
    assert(b@.subrange(0, b@.len() as int) == b@);
    true
}

/// Compares two rows of `width` pixels of `bytes_per_pixel` bytes each and
/// returns, in ascending column order, the column and intensity of every
/// pixel whose bytes differ.
pub fn compare_rows(left: &[u8], right: &[u8], width: usize, bytes_per_pixel: usize) -> (r: Result<
    Vec<(usize, u8)>,
    DiffError,
>)
    ensures
        row_error(left@.len(), right@.len(), width as nat, bytes_per_pixel as nat) matches Some(
            e,
        ) ==> r == Err::<Vec<(usize, u8)>, DiffError>(e),
        row_error(left@.len(), right@.len(), width as nat, bytes_per_pixel as nat) is None ==> (
        r matches Ok(v) && v@ == row_diffs(left@, right@, bytes_per_pixel as nat, width as nat)),
{
    if bytes_per_pixel == 0 {
        return Err(DiffError::InvalidFormat);
    }
    if left.len() != right.len() {
        return Err(DiffError::LengthMismatch);
    }
    match width.checked_mul(bytes_per_pixel) {
        None => {
            return Err(DiffError::LengthMismatch);
        },
        Some(len) => {
            if len != left.len() {
                return Err(DiffError::LengthMismatch);
            }
        },
    }
    let bpp = bytes_per_pixel;
    let n = left.len();
    let mut out: Vec<(usize, u8)> = Vec::new();
    let mut col: usize = 0;
    while col < width
        invariant
            bpp > 0,
            left@.len() == right@.len(),
            left@.len() == width * bpp,
            n == left@.len(),
            col <= width,
            out@ == row_diffs(left@, right@, bpp as nat, col as nat),
        decreases width - col,
    {
        assert(col * bpp + bpp <= width * bpp) by (nonlinear_arith)
            requires col < width, bpp > 0;
        assert(col * bpp <= col * bpp + bpp) by (nonlinear_arith)
            requires bpp > 0;
        let start = col * bpp;
        let a = slice_subrange(left, start, start + bpp);
        let b = slice_subrange(right, start, start + bpp);
        if !same_pixel(a, b) {
            let v = diff_avg(a, b);
            out.push((col, v));
        }
        col = col + 1;
    }
    Ok(out)
}

} // verus!
