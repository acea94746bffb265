//! Decoding pixel buffers: the checks on a buffer, its conversion to luminance and to a
//! black-and-white image, and the order in which that image and its inverse are handed to a
//! reader that locates and samples the code in it.

use vstd::prelude::*;

use crate::binary::{binarize, binary_pixel, BinaryImage};
use crate::raster::{
    check_luma, luma_accepted, luma_alpha_pixel, luma_from_luma_alpha, luma_from_rgb, luma_from_rgba, raster_len,
    rgb_pixel, rgba_pixel, DecodeOptions, RasterError,
};
use crate::error::QrError;
use crate::types::DecodedQr;

verus! {

/// `image` is the black-and-white image that `binarize` makes of `luma`.
pub open spec fn binarized(image: BinaryImage, width: nat, height: nat, luma: Seq<u8>) -> bool {
    &&& image.width == width
    &&& image.height == height
    &&& !image.inverted
    &&& image.pixels@.len() == width * height
    &&& forall|x: int, y: int|
        0 <= x < width && 0 <= y < height ==> #[trigger] image.pixels@[y * width + x] == binary_pixel(
            luma,
            width as int,
            height as int,
            x,
            y,
        )
}

/// `inverse` holds the pixels of `image` with dark and light swapped.
pub open spec fn inverse_image(inverse: BinaryImage, image: BinaryImage) -> bool {
    &&& inverse.width == image.width
    &&& inverse.height == image.height
    &&& inverse.pixels@ == image.pixels@
    &&& inverse.inverted == !image.inverted
}

/// The error of a search that found nothing.
pub open spec fn not_found(r: Result<DecodedQr, RasterError>) -> bool {
    r matches Err(RasterError::Detector(m)) && m@ == "unable to locate a QR code in the image"@
}

/// The error of a failed search, from the reader's errors on the image (`first`) and, where
/// tried, on its inverse (`second`): the error of reading a located candidate (`Qr`), the
/// image's first, else "not found".
pub open spec fn failed_search(first: RasterError, second: Option<RasterError>, r: Result<DecodedQr, RasterError>) -> bool {
    match first {
        RasterError::Qr(e) => r == Err::<DecodedQr, RasterError>(RasterError::Qr(e)),
        _ => match second {
            Some(RasterError::Qr(e)) => r == Err::<DecodedQr, RasterError>(RasterError::Qr(e)),
            _ => not_found(r),
        },
    }
}

/// What the search gives once the reader has given `first` on the image: that success; else,
/// where asked, the reader's success on the inverse; else the failure of the search.
pub open spec fn after_first<F: Fn(&BinaryImage) -> Result<DecodedQr, RasterError>>(
    read: F,
    image: BinaryImage,
    try_invert: bool,
    first: Result<DecodedQr, RasterError>,
    r: Result<DecodedQr, RasterError>,
) -> bool {
    match first {
        Ok(_) => r == first,
        Err(e1) => if try_invert {
            exists|inverse: BinaryImage, second: Result<DecodedQr, RasterError>|
                inverse_image(inverse, image) && #[trigger] read.ensures((&inverse,), second) && match second {
                    Ok(_) => r == second,
                    Err(e2) => failed_search(e1, Some(e2), r),
                }
        } else {
            failed_search(e1, None, r)
        },
    }
}

/// What searching `image` gives: some outcome of the reader on it, and what follows from it.
pub open spec fn search_outcome<F: Fn(&BinaryImage) -> Result<DecodedQr, RasterError>>(
    read: F,
    image: BinaryImage,
    try_invert: bool,
    r: Result<DecodedQr, RasterError>,
) -> bool {
    exists|first: Result<DecodedQr, RasterError>| #[trigger] read.ensures((&image,), first) && after_first(read, image, try_invert, first, r)
}

/// What decoding a luminance buffer gives: the error of the checks, or the outcome of the
/// search in its black-and-white image.
pub open spec fn luma_outcome<F: Fn(&BinaryImage) -> Result<DecodedQr, RasterError>>(
    width: nat,
    height: nat,
    luma: Seq<u8>,
    options: DecodeOptions,
    read: F,
    r: Result<DecodedQr, RasterError>,
) -> bool {
    match luma_accepted(width, height, luma.len(), options.max_pixels) {
        Err(RasterError::InvalidDimensions) => r matches Err(RasterError::InvalidDimensions),
        Err(_) => r matches Err(RasterError::InvalidBuffer),
        Ok(()) => exists|image: BinaryImage| #[trigger] binarized(image, width, height, luma) && search_outcome(read, image, options.try_invert, r),
    }
}

/// Decodes a luminance buffer of `width` by `height` pixels. The buffer is checked, turned
/// black and white and handed to `read`, which locates and reads the code; where that fails
/// and `options` ask for it, the inverted image is tried too. A failure to read a located
/// candidate (a `Qr` error) is reported as such; otherwise nothing was found.
pub fn decode_luma<F: Fn(&BinaryImage) -> Result<DecodedQr, RasterError>>(
    width: usize,
    height: usize,
    luma: &[u8],
    options: DecodeOptions,
    read: F,
) -> (r: Result<DecodedQr, RasterError>)
    requires
        forall|image: &BinaryImage| read.requires((image,)),
    ensures
        luma_outcome(width as nat, height as nat, luma@, options, read, r),
{
    match check_luma(width, height, luma.len(), options) {
        Ok(()) => {},
        Err(e) => {
            return Err(e);
        },
    }
    let binary = binarize(width, height, luma);
    let ghost image = binary;
    assert(binarized(image, width as nat, height as nat, luma@));
    let first = read(&binary);
    let ghost g1 = first;
    let first_error = match first {
        Ok(decoded) => {
            assert(after_first(read, image, options.try_invert, g1, Ok::<DecodedQr, RasterError>(decoded)));
            return Ok(decoded);
        },
        Err(e) => e,
    };
    if options.try_invert {
        let inverted = binary.into_inverted();
        assert(inverse_image(inverted, image));
        let second = read(&inverted);
        let ghost g2 = second;
        let second_error = match second {
            Ok(decoded) => {
                assert(read.ensures((&inverted,), g2));
                assert(after_first(read, image, true, g1, Ok::<DecodedQr, RasterError>(decoded)));
                return Ok(decoded);
            },
            Err(e) => e,
        };
        let r = match first_error {
            RasterError::Qr(e) => Err(RasterError::Qr(e)),
            _ => match second_error {
                RasterError::Qr(e) => Err(RasterError::Qr(e)),
                _ => Err(RasterError::Detector("unable to locate a QR code in the image")),
            },
        };
        assert(read.ensures((&inverted,), g2));
        assert(after_first(read, image, true, g1, r));
        r
    } else {
        let r = match first_error {
            RasterError::Qr(e) => Err(RasterError::Qr(e)),
            _ => Err(RasterError::Detector("unable to locate a QR code in the image")),
        };
        assert(after_first(read, image, false, g1, r));
        r
    }
}

/// The error of a reader that could not locate the finder patterns of a code: the error of
/// reading the candidate taken as a code drawn straight, where one was read, else the error of
/// the search.
pub fn unlocated_error(candidate: Option<QrError>, search_error: RasterError) -> (r: RasterError)
    ensures
        r == match candidate {
            Some(e) => RasterError::Qr(e),
            None => search_error,
        },
{
    match candidate {
        Some(e) => RasterError::Qr(e),
        None => search_error,
    }
}

/// What decoding a raster of `channels` bytes per pixel gives: the error of its dimensions or
/// length, or the outcome of decoding its luminance, pixel `i` converting to `pixel(input, i)`.
pub open spec fn raster_outcome<F: Fn(&BinaryImage) -> Result<DecodedQr, RasterError>>(
    width: nat,
    height: nat,
    channels: nat,
    input: Seq<u8>,
    pixel: spec_fn(Seq<u8>, int) -> u8,
    options: DecodeOptions,
    read: F,
    r: Result<DecodedQr, RasterError>,
) -> bool {
    if raster_len(width, height, 1) is None || raster_len(width, height, channels) is None {
        r matches Err(RasterError::InvalidDimensions)
    } else if input.len() != width * height * channels {
        r matches Err(RasterError::InvalidBuffer)
    } else {
        luma_outcome(width, height, Seq::new(width * height, |i: int| pixel(input, i)), options, read, r)
    }
}

/// Decodes an RGBA buffer: each pixel composited over white and converted to luminance, then
/// decoded as `decode_luma` does.
pub fn decode_rgba<F: Fn(&BinaryImage) -> Result<DecodedQr, RasterError>>(
    width: usize,
    height: usize,
    rgba: &[u8],
    options: DecodeOptions,
    read: F,
) -> (r: Result<DecodedQr, RasterError>)
    requires
        forall|image: &BinaryImage| read.requires((image,)),
    ensures
        raster_outcome(width as nat, height as nat, 4, rgba@, |s: Seq<u8>, i: int| rgba_pixel(s, i), options, read, r),
{
    let ghost pixel = |s: Seq<u8>, i: int| rgba_pixel(s, i);
    let luma = match luma_from_rgba(width, height, rgba) {
        Ok(luma) => luma,
        Err(e) => {
            return Err(e);
        },
    };
    assert(luma@ =~= Seq::new((width * height) as nat, |i: int| pixel(rgba@, i)));
    decode_luma(width, height, luma.as_slice(), options, read)
}

/// Decodes an RGB buffer: each pixel converted to luminance, then decoded as `decode_luma`
/// does.
pub fn decode_rgb<F: Fn(&BinaryImage) -> Result<DecodedQr, RasterError>>(
    width: usize,
    height: usize,
    rgb: &[u8],
    options: DecodeOptions,
    read: F,
) -> (r: Result<DecodedQr, RasterError>)
    requires
        forall|image: &BinaryImage| read.requires((image,)),
    ensures
        raster_outcome(width as nat, height as nat, 3, rgb@, |s: Seq<u8>, i: int| rgb_pixel(s, i), options, read, r),
{
    let ghost pixel = |s: Seq<u8>, i: int| rgb_pixel(s, i);
    let luma = match luma_from_rgb(width, height, rgb) {
        Ok(luma) => luma,
        Err(e) => {
            return Err(e);
        },
    };
    assert(luma@ =~= Seq::new((width * height) as nat, |i: int| pixel(rgb@, i)));
    decode_luma(width, height, luma.as_slice(), options, read)
}

/// Decodes a luminance-alpha buffer: each pixel composited over white, then decoded as
/// `decode_luma` does.
pub fn decode_luma_alpha<F: Fn(&BinaryImage) -> Result<DecodedQr, RasterError>>(
    width: usize,
    height: usize,
    luma_alpha: &[u8],
    options: DecodeOptions,
    read: F,
) -> (r: Result<DecodedQr, RasterError>)
    requires
        forall|image: &BinaryImage| read.requires((image,)),
    ensures
        raster_outcome(width as nat, height as nat, 2, luma_alpha@, |s: Seq<u8>, i: int| luma_alpha_pixel(s, i), options, read, r),
{
    let ghost pixel = |s: Seq<u8>, i: int| luma_alpha_pixel(s, i);
    let luma = match luma_from_luma_alpha(width, height, luma_alpha) {
        Ok(luma) => luma,
        Err(e) => {
            return Err(e);
        },
    };
    assert(luma@ =~= Seq::new((width * height) as nat, |i: int| pixel(luma_alpha@, i)));
    decode_luma(width, height, luma.as_slice(), options, read)
}

/// The QR side length (one more than a multiple of four) that a measured side of `d`
/// modules is taken for: `d` itself, or the nearest such length, rounding a tie upwards.
pub open spec fn snapped_dimension(d: int) -> int {
    let r = d % 4;
    if r == 0 {
        d + 1
    } else if r == 2 {
        d - 1
    } else if r == 3 {
        d + 2
    } else {
        d
    }
}

/// Snaps a measured side length to a QR side length, as `snapped_dimension` says.
pub fn snap_dimension(d: i32) -> (r: i32)
    requires
        i32::MIN + 1 <= d <= i32::MAX - 2,
    ensures
        r == snapped_dimension(d as int),
        r % 4 == 1,
{
    let r = d % 4;
    let r = if r < 0 {
        r + 4
    } else {
        r
    };
    if r == 0 {
        d + 1
    } else if r == 2 {
        d - 1
    } else if r == 3 {
        d + 2
    } else {
        d
    }
}

} // verus!
