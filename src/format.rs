use vstd::prelude::*;

verus! {

/// Everything that can stop a comparison.
#[derive(Debug, Clone, Copy, PartialEq, Eq, Structural)]
pub enum DiffError {
    /// The colour layout is not one of the four byte-aligned layouts handled here.
    UnsupportedFormat,
    /// The two images differ in width or height.
    DimensionMismatch,
    /// The two images differ in colour layout or bit depth.
    FormatMismatch,
    /// A row buffer does not hold exactly `width * bytes_per_pixel` bytes.
    LengthMismatch,
    /// The layout resolves to zero bytes per pixel, or its depth is not byte-aligned.
    InvalidFormat,
    /// A row could not be read from an input.
    ReadError,
    /// The difference map could not be written out.
    WriteError,
}

/// Channel layout of a pixel, with the bit depth of each channel.
#[derive(Debug, Clone, Copy, PartialEq, Eq, Structural)]
pub enum ColorFormat {
    Rgb(u8),
    Rgba(u8),
    Gray(u8),
    GrayAlpha(u8),
    /// Indexed colour; never handled.
    Palette(u8),
    /// Any other layout (floating point channels, non-standard orders).
    Other,
}

/// Width, height and colour layout of one input image.
#[derive(Debug, Clone, Copy, PartialEq, Eq, Structural)]
pub struct ImageInfo {
    pub width: u32,
    pub height: u32,
    pub format: ColorFormat,
}

/// Channel count and depth of a supported layout, `None` for any other.
pub open spec fn channels_and_depth(f: ColorFormat) -> Option<(nat, nat)> {
    match f {
        ColorFormat::Rgb(d) => Some((3, d as nat)),
        ColorFormat::Rgba(d) => Some((4, d as nat)),
        ColorFormat::Gray(d) => Some((1, d as nat)),
        ColorFormat::GrayAlpha(d) => Some((2, d as nat)),
        _ => None,
    }
}

/// A depth is usable when it is a positive whole number of bytes.
pub open spec fn depth_ok(d: nat) -> bool {
    d > 0 && d % 8 == 0
}

/// Bytes per pixel of a format, or the error that resolving it gives.
pub open spec fn spec_bytes_per_pixel(f: ColorFormat) -> Result<usize, DiffError> {
    match channels_and_depth(f) {
        None => Err(DiffError::UnsupportedFormat),
        Some((c, d)) => if depth_ok(d) {
            Ok(((c * d) / 8) as usize)
        } else {
            Err(DiffError::InvalidFormat)
        },
    }
}

/// Outcome of checking that two images can be compared position by position.
pub open spec fn spec_validate_pair(a: ImageInfo, b: ImageInfo) -> Result<(), DiffError> {
    if a.width != b.width || a.height != b.height {
        Err(DiffError::DimensionMismatch)
    } else if a.format != b.format {
        Err(DiffError::FormatMismatch)
    } else {
        Ok(())
    }
}

/// Resolves how many bytes one pixel of `format` takes:
/// `(channels * depth) / 8` for the four supported layouts.
pub fn get_bytes_per_pixel(format: ColorFormat) -> (r: Result<usize, DiffError>)
    ensures
        r == spec_bytes_per_pixel(format),
        r matches Ok(n) ==> 1 <= n <= 128,
{
    let (channels, depth): (u32, u32) = match format {
        ColorFormat::Rgb(d) => (3, d as u32),
        ColorFormat::Rgba(d) => (4, d as u32),
        ColorFormat::Gray(d) => (1, d as u32),
        ColorFormat::GrayAlpha(d) => (2, d as u32),
        _ => {
            return Err(DiffError::UnsupportedFormat);
        },
    };
    if depth == 0 || depth % 8 != 0 {
        return Err(DiffError::InvalidFormat);
    }
    assert(channels * depth <= 4 * 255) by (nonlinear_arith)
        requires channels <= 4, depth <= 255;
    assert(channels * depth >= 8) by (nonlinear_arith)
        requires channels >= 1, depth >= 8;
    Ok(((channels * depth) / 8) as usize)
}

/// Checks width, then height, then format equality of the two images.
pub fn validate_pair(a: &ImageInfo, b: &ImageInfo) -> (r: Result<(), DiffError>)
    ensures
        r == spec_validate_pair(*a, *b),
{
    if a.width != b.width || a.height != b.height {
        Err(DiffError::DimensionMismatch)
    } else if a.format != b.format {
        Err(DiffError::FormatMismatch)
    } else {
        Ok(())
    }
}

} // verus!
