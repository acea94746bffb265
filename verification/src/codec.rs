//! Image files of codes: rendering a code into an RGBA image and encoding it as PNG, JPEG or
//! WebP, and decoding such bytes into the pixel buffers that the reader works on. The
//! codecs themselves are those of the `image` crate.

use vstd::prelude::*;

use crate::binary::BinaryImage;
use crate::encode::{encode_bytes, encode_result, encode_text, encoded_as, first_fit, text_mode};
use crate::error::QrError;
use crate::raster::{
    luma_alpha_pixel, render_side, render_to_rgba, renderable, rendered_byte, rgb_pixel, rgba_pixel, DecodeOptions,
    RasterError, RasterFormat, RenderOptions,
};
use crate::scan::{decode_luma, decode_luma_alpha, decode_rgb, decode_rgba, luma_outcome, raster_outcome};
use crate::types::{DataMode, DecodedQr, EncodeOptions, ErrorCorrectionLevel, QrCode};
use vstd::string::StringSliceAdditionalSpecFns;

verus! {

/// An RGBA image of the `image` crate (`image::RgbaImage`), held whole; Verus reads nothing
/// of it but what `rgba_contents` names.
#[verifier::external_body]
#[derive(Debug)]
pub struct RenderedImage {
    pub image: image::RgbaImage,
}

/// `image::DynamicImage`, a decoded image in one of the codecs' pixel layouts.
#[verifier::external_type_specification]
#[verifier::external_body]
pub struct ExDynamicImage(image::DynamicImage);

/// What an RGBA image holds: its width, its height and its pixel bytes, row by row.
pub uninterp spec fn rgba_contents(image: RenderedImage) -> (u32, u32, Seq<u8>);

/// What the codecs make of `width` by `height` RGBA pixels in `format`: the encoded bytes, or
/// none where the encoder fails.
pub uninterp spec fn encoded_image(width: u32, height: u32, rgba: Seq<u8>, format: RasterFormat) -> Option<Seq<u8>>;

/// How the pixels of a raster are laid out: one, two, three or four bytes each.
#[derive(Clone, Copy, Debug, PartialEq, Eq, Structural)]
pub enum PixelLayout {
    Luma,
    LumaAlpha,
    Rgb,
    Rgba,
}

/// A decoded raster: its layout, its dimensions and its pixel bytes, row by row.
pub struct Raster {
    pub layout: PixelLayout,
    pub width: usize,
    pub height: usize,
    pub bytes: Vec<u8>,
}

/// The eight-bit pixels of a decoded image: its own where it has eight-bit channels of a gray,
/// gray-alpha, RGB or RGBA layout, else its pixels converted to eight-bit RGBA.
pub uninterp spec fn image_raster(image: image::DynamicImage) -> (PixelLayout, usize, usize, Seq<u8>);

/// What the codecs decode from `bytes`, the format guessed from them: the image's eight-bit
/// pixels, or none where decoding fails.
pub uninterp spec fn decoded_image(bytes: Seq<u8>) -> Option<(PixelLayout, usize, usize, Seq<u8>)>;

/// What the codec of `format` decodes from `bytes`: the image's eight-bit pixels, or none where
/// decoding fails.
pub uninterp spec fn decoded_image_as(bytes: Seq<u8>, format: RasterFormat) -> Option<(PixelLayout, usize, usize, Seq<u8>)>;

/// The width and height that the header of `bytes` gives, the format guessed from them; none
/// where no header can be read.
pub uninterp spec fn header_size(bytes: Seq<u8>) -> Option<(u32, u32)>;

/// The width and height that the header of `bytes` gives, read as `format`; none where no
/// header can be read.
pub uninterp spec fn header_size_as(bytes: Seq<u8>, format: RasterFormat) -> Option<(u32, u32)>;

/// `image::ImageBuffer::from_vec` for RGBA pixels: an image of the given size over the bytes,
/// made when the bytes hold at least four per pixel, the count computed as 4 · width, then
/// times height, each step without overflow.
#[verifier::external_body]
fn rgba_image(width: u32, height: u32, rgba: Vec<u8>) -> (r: Option<RenderedImage>)
    ensures
        r is Some <==> (4 * width as int <= usize::MAX && width as int * height as int * 4 <= usize::MAX && rgba@.len()
            >= width as int * height as int * 4),
        r matches Some(image) ==> rgba_contents(image) == (width, height, rgba@),
{
    image::RgbaImage::from_vec(width, height, rgba).map(|image| RenderedImage { image })
}

/// `image::DynamicImage::write_to` on an RGBA image: the encoded bytes of `format`. The
/// encoders take a buffer of exactly four bytes per pixel (they panic on any other length).
#[verifier::external_body]
fn write_image(image: RenderedImage, format: RasterFormat) -> (r: Result<Vec<u8>, image::ImageError>)
    requires
        rgba_contents(image).2.len() == rgba_contents(image).0 as int * rgba_contents(image).1 as int * 4,
    ensures
        match encoded_image(rgba_contents(image).0, rgba_contents(image).1, rgba_contents(image).2, format) {
            Some(bytes) => r matches Ok(written) && written@ == bytes,
            None => r is Err,
        },
{
    let format = match format {
        RasterFormat::Png => image::ImageFormat::Png,
        RasterFormat::Jpeg => image::ImageFormat::Jpeg,
        RasterFormat::WebP => image::ImageFormat::WebP,
    };
    let mut cursor = std::io::Cursor::new(Vec::new());
    image::DynamicImage::ImageRgba8(image.image).write_to(&mut cursor, format)?;
    Ok(cursor.into_inner())
}

/// `image::ImageReader::into_dimensions`, the format guessed from `bytes`: the image's width
/// and height read from its header, before any pixel is decoded.
#[verifier::external_body]
fn dimensions_guessed(bytes: &[u8]) -> (r: Result<(u32, u32), image::ImageError>)
    ensures
        match header_size(bytes@) {
            Some(size) => r matches Ok(found) && found == size,
            None => r is Err,
        },
{
    image::ImageReader::new(std::io::Cursor::new(bytes)).with_guessed_format().map_err(image::ImageError::IoError)?.into_dimensions()
}

/// `image::ImageReader::into_dimensions` for `format`: the image's width and height read from
/// its header, before any pixel is decoded.
#[verifier::external_body]
fn dimensions_as(bytes: &[u8], format: RasterFormat) -> (r: Result<(u32, u32), image::ImageError>)
    ensures
        match header_size_as(bytes@, format) {
            Some(size) => r matches Ok(found) && found == size,
            None => r is Err,
        },
{
    let format = match format {
        RasterFormat::Png => image::ImageFormat::Png,
        RasterFormat::Jpeg => image::ImageFormat::Jpeg,
        RasterFormat::WebP => image::ImageFormat::WebP,
    };
    image::ImageReader::with_format(std::io::Cursor::new(bytes), format).into_dimensions()
}

/// How the area limit treats an image whose header gives `header`: refused where the header
/// cannot be read (`Some(false)`) or the area exceeds the limit (`Some(true)`); let through
/// (`None`) where there is no limit or the area is within it.
pub open spec fn header_refusal(header: Option<(u32, u32)>, max_pixels: Option<usize>) -> Option<bool> {
    match max_pixels {
        None => None,
        Some(m) => match header {
            None => Some(false),
            Some((w, h)) => if w * h > m {
                Some(true)
            } else {
                None
            },
        },
    }
}

/// Checks the area limit against the dimensions a header gave, before decoding.
fn check_header(size: Result<(u32, u32), image::ImageError>, max_pixels: usize) -> (r: Result<(), RasterError>)
    ensures
        match size {
            Err(_) => r matches Err(RasterError::Image(_)),
            Ok((w, h)) => if w * h > max_pixels {
                r matches Err(RasterError::InvalidDimensions)
            } else {
                r is Ok
            },
        },
{
    match size {
        Ok((w, h)) => {
            assert(w as int * h as int <= 0xffff_ffff * 0xffff_ffff) by (nonlinear_arith)
                requires
                    w <= 0xffff_ffff,
                    h <= 0xffff_ffff,
            ;
            let area = (w as u64) * (h as u64);
            if area > max_pixels as u64 {
                Err(RasterError::InvalidDimensions)
            } else {
                Ok(())
            }
        },
        Err(e) => Err(RasterError::Image(e)),
    }
}

/// `image::load_from_memory`: the image decoded from `bytes`, its format guessed from them.
#[verifier::external_body]
fn load_guessed(bytes: &[u8]) -> (r: Result<image::DynamicImage, image::ImageError>)
    ensures
        match decoded_image(bytes@) {
            Some(pixels) => r matches Ok(image) && image_raster(image) == pixels,
            None => r is Err,
        },
{
    image::load_from_memory(bytes)
}

/// `image::load_from_memory_with_format`: the image decoded from `bytes` by the codec of
/// `format`.
#[verifier::external_body]
fn load_as(bytes: &[u8], format: RasterFormat) -> (r: Result<image::DynamicImage, image::ImageError>)
    ensures
        match decoded_image_as(bytes@, format) {
            Some(pixels) => r matches Ok(image) && image_raster(image) == pixels,
            None => r is Err,
        },
{
    let format = match format {
        RasterFormat::Png => image::ImageFormat::Png,
        RasterFormat::Jpeg => image::ImageFormat::Jpeg,
        RasterFormat::WebP => image::ImageFormat::WebP,
    };
    image::load_from_memory_with_format(bytes, format)
}

/// The eight-bit pixels of a decoded image (`image::DynamicImage::to_rgba8` for the layouts
/// without eight-bit channels).
#[verifier::external_body]
fn raster_of(image: &image::DynamicImage) -> (r: Raster)
    ensures
        (r.layout, r.width, r.height, r.bytes@) == image_raster(*image),
{
    let (layout, bytes) = match image {
        image::DynamicImage::ImageLuma8(pixels) => (PixelLayout::Luma, pixels.as_raw().to_vec()),
        image::DynamicImage::ImageLumaA8(pixels) => (PixelLayout::LumaAlpha, pixels.as_raw().to_vec()),
        image::DynamicImage::ImageRgb8(pixels) => (PixelLayout::Rgb, pixels.as_raw().to_vec()),
        image::DynamicImage::ImageRgba8(pixels) => (PixelLayout::Rgba, pixels.as_raw().to_vec()),
        other => (PixelLayout::Rgba, other.to_rgba8().into_raw()),
    };
    Raster { layout, width: image.width() as usize, height: image.height() as usize, bytes }
}

/// The RGBA bytes of a code rendered with the options.
pub open spec fn rendered_rgba(g: Seq<Seq<bool>>, size: int, options: RenderOptions) -> Seq<u8> {
    let side = render_side(size, options);
    Seq::new((side * side * 4) as nat, |i: int| rendered_byte(g, size, options, i))
}

/// Renders the code into an RGBA image, as `render_to_rgba` renders its pixels.
pub fn render_to_image(code: &QrCode, render: RenderOptions) -> (r: Result<RenderedImage, RasterError>)
    requires
        code.wf(),
    ensures
        renderable(code.spec_modules().spec_size() as int, render) ==> (r matches Ok(image) && rgba_contents(image) == (
            render_side(code.spec_modules().spec_size() as int, render) as u32,
            render_side(code.spec_modules().spec_size() as int, render) as u32,
            rendered_rgba(code.spec_modules()@, code.spec_modules().spec_size() as int, render),
        )),
        !renderable(code.spec_modules().spec_size() as int, render) ==> r matches Err(RasterError::InvalidDimensions),
{
    let rgba = match render_to_rgba(code, render) {
        Ok(rgba) => rgba,
        Err(e) => {
            return Err(e);
        },
    };
    let ghost size = code.spec_modules().spec_size() as int;
    let ghost expected = rendered_rgba(code.spec_modules()@, size, render);
    assert(rgba@ =~= expected);
    let modules = code.size() as u64 + 2 * render.border as u64;
    let side = (modules * render.scale as u64) as u32;
    match rgba_image(side, side, rgba) {
        Some(image) => Ok(image),
        None => Err(RasterError::InvalidBuffer),
    }
}

/// Renders the code and encodes the image in `format`; the codec's error where it fails.
pub fn write_to_bytes(code: &QrCode, format: RasterFormat, render: RenderOptions) -> (r: Result<Vec<u8>, RasterError>)
    requires
        code.wf(),
    ensures
        !renderable(code.spec_modules().spec_size() as int, render) ==> r matches Err(RasterError::InvalidDimensions),
        renderable(code.spec_modules().spec_size() as int, render) ==> match encoded_image(
            render_side(code.spec_modules().spec_size() as int, render) as u32,
            render_side(code.spec_modules().spec_size() as int, render) as u32,
            rendered_rgba(code.spec_modules()@, code.spec_modules().spec_size() as int, render),
            format,
        ) {
            Some(bytes) => r matches Ok(written) && written@ == bytes,
            None => r matches Err(RasterError::Image(_)),
        },
{
    let image = render_to_image(code, render)?;
    match write_image(image, format) {
        Ok(bytes) => Ok(bytes),
        Err(e) => Err(RasterError::Image(e)),
    }
}

/// The default encoding options: versions 1 to 40, level Medium or stronger, any mask.
pub open spec fn default_encoding(options: EncodeOptions) -> bool {
    &&& options.min_version@ == 1
    &&& options.max_version@ == 40
    &&& options.min_error_correction == ErrorCorrectionLevel::Medium
    &&& options.boost_error_correction
    &&& options.mask is None
}

/// The image of an encoding outcome: the encoder's error, or the code rendered as
/// `render_to_image` renders it.
pub open spec fn image_of(encoded: Result<QrCode, QrError>, render: RenderOptions, r: Result<RenderedImage, RasterError>) -> bool {
    match encoded {
        Err(e) => r == Err::<RenderedImage, RasterError>(RasterError::Qr(e)),
        Ok(code) => {
            let size = code.spec_modules().spec_size() as int;
            &&& renderable(size, render) ==> (r matches Ok(image) && rgba_contents(image) == (
                render_side(size, render) as u32,
                render_side(size, render) as u32,
                rendered_rgba(code.spec_modules()@, size, render),
            ))
            &&& !renderable(size, render) ==> r matches Err(RasterError::InvalidDimensions)
        },
    }
}

/// Encodes text with the default options and renders the code into an RGBA image.
pub fn encode_text_to_image(text: &str, render: RenderOptions) -> (r: Result<RenderedImage, RasterError>)
    ensures
        exists|options: EncodeOptions, encoded: Result<QrCode, QrError>|
            default_encoding(options) && #[trigger] encode_result(text_mode(text.spec_bytes()), text.spec_bytes(), options, encoded)
                && image_of(encoded, render, r),
{
    let options = EncodeOptions::default();
    let encoded = encode_text(text, options);
    let ghost outcome = encoded;
    let r = match encoded {
        Ok(code) => {
            proof {
                lemma_encoded_wf(text_mode(text.spec_bytes()), text.spec_bytes(), options, code);
            }
            render_to_image(&code, render)
        },
        Err(e) => Err(RasterError::Qr(e)),
    };
    assert(default_encoding(options) && encode_result(text_mode(text.spec_bytes()), text.spec_bytes(), options, outcome) && image_of(outcome, render, r));
    r
}

/// Encodes bytes with the default options and renders the code into an RGBA image.
pub fn encode_bytes_to_image(data: &[u8], render: RenderOptions) -> (r: Result<RenderedImage, RasterError>)
    ensures
        exists|options: EncodeOptions, encoded: Result<QrCode, QrError>|
            default_encoding(options) && #[trigger] encode_result(DataMode::Byte, data@, options, encoded) && image_of(encoded, render, r),
{
    let options = EncodeOptions::default();
    let encoded = encode_bytes(data, options);
    let ghost outcome = encoded;
    let r = match encoded {
        Ok(code) => {
            proof {
                lemma_encoded_wf(DataMode::Byte, data@, options, code);
            }
            render_to_image(&code, render)
        },
        Err(e) => Err(RasterError::Qr(e)),
    };
    assert(default_encoding(options) && encode_result(DataMode::Byte, data@, options, outcome) && image_of(outcome, render, r));
    r
}

/// An encoded code is well formed.
proof fn lemma_encoded_wf(mode: DataMode, data: Seq<u8>, options: EncodeOptions, code: QrCode)
    requires
        encode_result(mode, data, options, Ok::<QrCode, QrError>(code)),
    ensures
        code.wf(),
{
    if options.min_version@ <= options.max_version@ {
        let found = first_fit(options.min_version@ as nat, options.max_version@ as nat, mode, data.len(), options.min_error_correction);
        if let Some(v) = found {
            assert(encoded_as(v, mode, data, options, Ok::<QrCode, QrError>(code)));
        }
    }
}

/// What decoding a raster gives: as `decode_luma`, `decode_luma_alpha`, `decode_rgb` or
/// `decode_rgba` do, by its layout.
pub open spec fn pixels_outcome<F: Fn(&BinaryImage) -> Result<DecodedQr, RasterError>>(
    layout: PixelLayout,
    width: usize,
    height: usize,
    bytes: Seq<u8>,
    options: DecodeOptions,
    read: F,
    r: Result<DecodedQr, RasterError>,
) -> bool {
    match layout {
        PixelLayout::Luma => luma_outcome(width as nat, height as nat, bytes, options, read, r),
        PixelLayout::LumaAlpha => raster_outcome(width as nat, height as nat, 2, bytes, |s: Seq<u8>, i: int| luma_alpha_pixel(s, i), options, read, r),
        PixelLayout::Rgb => raster_outcome(width as nat, height as nat, 3, bytes, |s: Seq<u8>, i: int| rgb_pixel(s, i), options, read, r),
        PixelLayout::Rgba => raster_outcome(width as nat, height as nat, 4, bytes, |s: Seq<u8>, i: int| rgba_pixel(s, i), options, read, r),
    }
}

/// Decodes a raster by its layout.
pub fn decode_raster<F: Fn(&BinaryImage) -> Result<DecodedQr, RasterError>>(
    raster: &Raster,
    options: DecodeOptions,
    read: F,
) -> (r: Result<DecodedQr, RasterError>)
    requires
        forall|image: &BinaryImage| read.requires((image,)),
    ensures
        pixels_outcome(raster.layout, raster.width, raster.height, raster.bytes@, options, read, r),
{
    match raster.layout {
        PixelLayout::Luma => decode_luma(raster.width, raster.height, raster.bytes.as_slice(), options, read),
        PixelLayout::LumaAlpha => decode_luma_alpha(raster.width, raster.height, raster.bytes.as_slice(), options, read),
        PixelLayout::Rgb => decode_rgb(raster.width, raster.height, raster.bytes.as_slice(), options, read),
        PixelLayout::Rgba => decode_rgba(raster.width, raster.height, raster.bytes.as_slice(), options, read),
    }
}

/// Decodes a decoded image: its eight-bit pixels, by their layout.
pub fn decode_dynamic_image<F: Fn(&BinaryImage) -> Result<DecodedQr, RasterError>>(
    image: &image::DynamicImage,
    options: DecodeOptions,
    read: F,
) -> (r: Result<DecodedQr, RasterError>)
    requires
        forall|b: &BinaryImage| read.requires((b,)),
    ensures
        pixels_outcome(image_raster(*image).0, image_raster(*image).1, image_raster(*image).2, image_raster(*image).3, options, read, r),
{
    let raster = raster_of(image);
    decode_raster(&raster, options, read)
}

/// Decodes image bytes, their format guessed from them; the codec's error where decoding fails.
/// Under an area limit, the dimensions are read from the header first, and an image above the
/// limit is refused before its pixels are decoded.
pub fn decode_bytes<F: Fn(&BinaryImage) -> Result<DecodedQr, RasterError>>(
    bytes: &[u8],
    options: DecodeOptions,
    read: F,
) -> (r: Result<DecodedQr, RasterError>)
    requires
        forall|b: &BinaryImage| read.requires((b,)),
    ensures
        match header_refusal(header_size(bytes@), options.max_pixels) {
            Some(false) => r matches Err(RasterError::Image(_)),
            Some(true) => r matches Err(RasterError::InvalidDimensions),
            None => match decoded_image(bytes@) {
                None => r matches Err(RasterError::Image(_)),
                Some((layout, width, height, pixels)) => pixels_outcome(layout, width, height, pixels, options, read, r),
            },
        },
{
    if let Some(max) = options.max_pixels {
        match check_header(dimensions_guessed(bytes), max) {
            Ok(()) => {},
            Err(e) => {
                return Err(e);
            },
        }
    }
    match load_guessed(bytes) {
        Ok(image) => decode_dynamic_image(&image, options, read),
        Err(e) => Err(RasterError::Image(e)),
    }
}

/// Decodes image bytes of the given format; the codec's error where decoding fails. Under an
/// area limit, an image whose header gives an area above it is refused before decoding.
pub fn decode_bytes_with_format<F: Fn(&BinaryImage) -> Result<DecodedQr, RasterError>>(
    bytes: &[u8],
    format: RasterFormat,
    options: DecodeOptions,
    read: F,
) -> (r: Result<DecodedQr, RasterError>)
    requires
        forall|b: &BinaryImage| read.requires((b,)),
    ensures
        match header_refusal(header_size_as(bytes@, format), options.max_pixels) {
            Some(false) => r matches Err(RasterError::Image(_)),
            Some(true) => r matches Err(RasterError::InvalidDimensions),
            None => match decoded_image_as(bytes@, format) {
                None => r matches Err(RasterError::Image(_)),
                Some((layout, width, height, pixels)) => pixels_outcome(layout, width, height, pixels, options, read, r),
            },
        },
{
    if let Some(max) = options.max_pixels {
        match check_header(dimensions_as(bytes, format), max) {
            Ok(()) => {},
            Err(e) => {
                return Err(e);
            },
        }
    }
    match load_as(bytes, format) {
        Ok(image) => decode_dynamic_image(&image, options, read),
        Err(e) => Err(RasterError::Image(e)),
    }
}

} // verus!
