use imgdiff::{
    compare_rows, diff_avg, diff_bw, diff_images, get_bytes_per_pixel, validate_pair, ColorFormat,
    DiffAccumulator, DiffError, ImageInfo,
};

fn info(width: u32, height: u32, format: ColorFormat) -> ImageInfo {
    ImageInfo { width, height, format }
}

#[test]
fn bytes_per_pixel_of_supported_formats() {
    assert_eq!(get_bytes_per_pixel(ColorFormat::Rgb(8)), Ok(3));
    assert_eq!(get_bytes_per_pixel(ColorFormat::Rgba(8)), Ok(4));
    assert_eq!(get_bytes_per_pixel(ColorFormat::Gray(8)), Ok(1));
    assert_eq!(get_bytes_per_pixel(ColorFormat::GrayAlpha(8)), Ok(2));
    assert_eq!(get_bytes_per_pixel(ColorFormat::Rgb(16)), Ok(6));
    assert_eq!(get_bytes_per_pixel(ColorFormat::Rgba(16)), Ok(8));
}

#[test]
fn bytes_per_pixel_refuses_other_formats() {
    assert_eq!(get_bytes_per_pixel(ColorFormat::Palette(8)), Err(DiffError::UnsupportedFormat));
    assert_eq!(get_bytes_per_pixel(ColorFormat::Other), Err(DiffError::UnsupportedFormat));
}

#[test]
fn bytes_per_pixel_refuses_unaligned_depth() {
    assert_eq!(get_bytes_per_pixel(ColorFormat::Gray(0)), Err(DiffError::InvalidFormat));
    assert_eq!(get_bytes_per_pixel(ColorFormat::Gray(4)), Err(DiffError::InvalidFormat));
    assert_eq!(get_bytes_per_pixel(ColorFormat::Rgb(12)), Err(DiffError::InvalidFormat));
}

#[test]
fn validator_accepts_matching_pair() {
    let a = info(4, 3, ColorFormat::Rgb(8));
    assert_eq!(validate_pair(&a, &a), Ok(()));
}

#[test]
fn validator_refuses_mismatches() {
    let a = info(4, 3, ColorFormat::Rgb(8));
    assert_eq!(validate_pair(&a, &info(5, 3, ColorFormat::Rgb(8))), Err(DiffError::DimensionMismatch));
    assert_eq!(validate_pair(&a, &info(4, 2, ColorFormat::Rgb(8))), Err(DiffError::DimensionMismatch));
    assert_eq!(validate_pair(&a, &info(4, 3, ColorFormat::Rgba(8))), Err(DiffError::FormatMismatch));
    assert_eq!(validate_pair(&a, &info(4, 3, ColorFormat::Rgb(16))), Err(DiffError::FormatMismatch));
    // geometry is checked before format
    assert_eq!(validate_pair(&a, &info(1, 1, ColorFormat::Gray(8))), Err(DiffError::DimensionMismatch));
}

#[test]
fn average_difference_truncates() {
    assert_eq!(diff_avg(&[10, 20, 30], &[0, 0, 0]), 20);
    assert_eq!(diff_avg(&[0, 0, 0], &[10, 20, 30]), 20);
    assert_eq!(diff_avg(&[1, 0, 0], &[0, 0, 0]), 0);
    assert_eq!(diff_avg(&[5, 5], &[0, 0]), 5);
    assert_eq!(diff_avg(&[100, 0], &[0, 101]), 100);
}

#[test]
fn average_difference_stays_in_byte_range() {
    assert_eq!(diff_avg(&[0], &[255]), 255);
    assert_eq!(diff_avg(&[255, 0, 255, 0], &[0, 255, 0, 255]), 255);
    assert_eq!(diff_avg(&[7], &[7]), 0);
}

#[test]
fn black_white_metric_is_zero() {
    assert_eq!(diff_bw(&[0, 0, 0], &[255, 255, 255]), 0);
}

#[test]
fn identical_rows_have_no_difference() {
    let row = vec![1u8, 2, 3, 4, 5, 6];
    assert_eq!(compare_rows(&row, &row, 2, 3), Ok(vec![]));
}

#[test]
fn single_channel_delta_is_the_intensity() {
    let left = vec![10u8, 20, 30, 40];
    let right = vec![10u8, 20, 37, 40];
    assert_eq!(compare_rows(&left, &right, 4, 1), Ok(vec![(2, 7)]));
}

#[test]
fn differing_pixels_come_in_column_order() {
    let left = vec![0u8, 0, 9, 9, 4, 4];
    let right = vec![2u8, 0, 9, 9, 0, 0];
    assert_eq!(compare_rows(&left, &right, 3, 2), Ok(vec![(0, 1), (2, 4)]));
}

#[test]
fn pixel_with_tiny_change_is_counted_at_zero() {
    let left = vec![1u8, 0, 0];
    let right = vec![0u8, 0, 0];
    assert_eq!(compare_rows(&left, &right, 1, 3), Ok(vec![(0, 0)]));
}

#[test]
fn comparison_is_symmetric() {
    let a = vec![0u8, 50, 100, 150, 200, 250];
    let b = vec![10u8, 50, 90, 150, 255, 0];
    let ab = compare_rows(&a, &b, 3, 2);
    let ba = compare_rows(&b, &a, 3, 2);
    assert_eq!(ab, ba);
    assert_eq!(ab, Ok(vec![(0, 5), (1, 5), (2, 152)]));
}

#[test]
fn row_of_wrong_length_is_refused() {
    let a = vec![0u8; 6];
    let b = vec![0u8; 6];
    assert_eq!(compare_rows(&a, &b, 3, 3), Err(DiffError::LengthMismatch));
    assert_eq!(compare_rows(&a, &b[..5], 2, 3), Err(DiffError::LengthMismatch));
    assert_eq!(compare_rows(&a, &b, usize::MAX, 2), Err(DiffError::LengthMismatch));
}

#[test]
fn zero_bytes_per_pixel_is_invalid() {
    let a: Vec<u8> = vec![];
    assert_eq!(compare_rows(&a, &a, 0, 0), Err(DiffError::InvalidFormat));
}

#[test]
fn fresh_accumulator_is_white() {
    let acc = DiffAccumulator::new(3, 2);
    assert_eq!(acc.diff_map(), &vec![0xFFu8; 6]);
    assert_eq!(acc.diff_count(), 0);
    assert_eq!(acc.width(), 3);
    assert_eq!(acc.height(), 2);
}

#[test]
fn accumulator_writes_and_counts() {
    let mut acc = DiffAccumulator::new(3, 2);
    acc.apply_row(1, &vec![(0, 7), (2, 9)]);
    acc.apply_row(0, &vec![(1, 0)]);
    assert_eq!(acc.diff_count(), 3);
    assert_eq!(acc.into_map(), vec![0xFF, 0, 0xFF, 7, 0xFF, 9]);
}

#[test]
fn end_to_end_rgb_single_pixel() {
    let i = info(2, 2, ColorFormat::Rgb(8));
    let left = vec![0u8; 12];
    let mut right = left.clone();
    right[0] = 10;
    right[1] = 20;
    right[2] = 30;
    let report = diff_images(&i, &left, &i, &right).unwrap();
    assert_eq!(report.diff_map, vec![20, 255, 255, 255]);
    assert_eq!(report.diff_count, 1);
    assert!(report.has_output());
    assert_eq!((report.width, report.height), (2, 2));
}

#[test]
fn end_to_end_identical_images() {
    let i = info(2, 2, ColorFormat::Rgb(8));
    let data: Vec<u8> = (0..12).collect();
    let report = diff_images(&i, &data, &i, &data.clone()).unwrap();
    assert_eq!(report.diff_map, vec![255; 4]);
    assert_eq!(report.diff_count, 0);
    assert!(!report.has_output());
}

#[test]
fn gray_image_one_pixel_changed_by_delta() {
    let i = info(3, 2, ColorFormat::Gray(8));
    let left = vec![50u8, 60, 70, 80, 90, 100];
    let mut right = left.clone();
    right[4] = 77;
    let report = diff_images(&i, &left, &i, &right).unwrap();
    assert_eq!(report.diff_count, 1);
    assert_eq!(report.diff_map, vec![255, 255, 255, 255, 13, 255]);
}

#[test]
fn mismatch_is_refused_without_reading_rows() {
    let a = info(2, 2, ColorFormat::Rgb(8));
    let b = info(2, 3, ColorFormat::Rgb(8));
    let c = info(2, 2, ColorFormat::Rgba(8));
    // no pixel data at all: a row read would fail, the mismatch comes first
    assert_eq!(diff_images(&a, &[], &b, &[]).map(|r| r.diff_count), Err(DiffError::DimensionMismatch));
    assert_eq!(diff_images(&a, &[], &c, &[]).map(|r| r.diff_count), Err(DiffError::FormatMismatch));
}

#[test]
fn unsupported_format_is_refused() {
    let a = info(1, 1, ColorFormat::Palette(8));
    assert_eq!(diff_images(&a, &[0], &a, &[0]).map(|r| r.diff_count), Err(DiffError::UnsupportedFormat));
    let g = info(1, 1, ColorFormat::Gray(1));
    assert_eq!(diff_images(&g, &[0], &g, &[0]).map(|r| r.diff_count), Err(DiffError::InvalidFormat));
}

#[test]
fn short_input_is_a_read_error() {
    let a = info(2, 2, ColorFormat::Gray(8));
    let full = vec![0u8; 4];
    let short = vec![0u8; 3];
    assert_eq!(diff_images(&a, &full, &a, &short).map(|r| r.diff_count), Err(DiffError::ReadError));
    assert_eq!(diff_images(&a, &short, &a, &full).map(|r| r.diff_count), Err(DiffError::ReadError));
}

#[test]
fn empty_image_has_no_difference() {
    let a = info(5, 0, ColorFormat::Rgba(8));
    let report = diff_images(&a, &[], &a, &[]).unwrap();
    assert_eq!(report.diff_count, 0);
    assert!(report.diff_map.is_empty());
}

#[test]
fn sixteen_bit_pixels_average_over_bytes() {
    let a = info(1, 1, ColorFormat::Gray(16));
    let report = diff_images(&a, &[0, 0], &a, &[10, 30]).unwrap();
    assert_eq!(report.diff_map, vec![20]);
    assert_eq!(report.diff_count, 1);
}
