//! Raster images of codes: the options of rendering and decoding, the errors,
//! the pixel buffer of a rendered code, the conversion of pixels to luminance,
//! and the adaptive binarization that the detector works on.

use vstd::prelude::*;

use crate::error::{error_text, QrError};
use vstd::string::{StrSliceExecFns, StringExecFns};
use crate::strings::{ascii_lower, extension_of, path_extension, str_equals, to_ascii_lowercase};
use crate::tui::{bordered, module_with_border};
use crate::types::QrCode;

verus! {

/// `image::ImageError`, the error of the image codecs.
#[verifier::external_type_specification]
#[verifier::external_body]
pub struct ExImageError(image::ImageError);

/// `std::path::PathBuf`, an owned file system path.
#[verifier::external_type_specification]
#[verifier::external_body]
pub struct ExPathBuf(std::path::PathBuf);

/// The encoded raster formats.
#[derive(Clone, Copy, Debug, PartialEq, Eq, Structural)]
pub enum RasterFormat {
    Png,
    Jpeg,
    WebP,
}

/// How a code is rendered: pixels per module, modules of quiet border, and the two colours.
#[derive(Clone, Copy, Debug, PartialEq, Eq)]
pub struct RenderOptions {
    pub scale: u32,
    pub border: u32,
    pub dark: [u8; 4],
    pub light: [u8; 4],
}

impl Default for RenderOptions {
    /// Eight pixels per module, four modules of border, opaque black on opaque white.
    fn default() -> (r: Self)
        ensures
            r.scale == 8,
            r.border == 4,
            r.dark@ == seq![0u8, 0u8, 0u8, 255u8],
            r.light@ == seq![255u8, 255u8, 255u8, 255u8],
    {
        let r = RenderOptions { scale: 8, border: 4, dark: [0, 0, 0, 255], light: [255, 255, 255, 255] };
        proof {
            assert(r.dark@ =~= seq![0u8, 0u8, 0u8, 255u8]);
            assert(r.light@ =~= seq![255u8, 255u8, 255u8, 255u8]);
        }
        r
    }
}

/// The default limit on decoded image area: 2048 by 2048 pixels.
pub const DEFAULT_DECODE_MAX_PIXELS: usize = 4194304;

/// How images are decoded: whether the inverted image is tried too, and the largest image area
/// accepted (`None` for no limit). The area limit is checked on pixel buffers, and on image
/// bytes against the dimensions in their header before any pixel is decoded.
#[derive(Clone, Copy, Debug, PartialEq, Eq)]
pub struct DecodeOptions {
    pub try_invert: bool,
    pub max_pixels: Option<usize>,
}

impl Default for DecodeOptions {
    /// Try the inverted image; accept up to 2048 by 2048 pixels.
    fn default() -> (r: Self)
        ensures
            r.try_invert,
            r.max_pixels == Some(DEFAULT_DECODE_MAX_PIXELS),
    {
        DecodeOptions { try_invert: true, max_pixels: Some(DEFAULT_DECODE_MAX_PIXELS) }
    }
}

/// What can go wrong between a code and a raster image.
#[derive(Debug)]
pub enum RasterError {
    /// The image codec failed.
    Image(image::ImageError),
    /// A pixel buffer of the wrong length.
    InvalidBuffer,
    /// Zero, overflowing or too large dimensions.
    InvalidDimensions,
    /// No raster format can be told from the path.
    MissingExtension(std::path::PathBuf),
    /// Encoding or decoding the code failed.
    Qr(QrError),
    /// No code was found in the image.
    Detector(&'static str),
}

/// `Display` of `image::ImageError`: the codec's description of the error.
#[verifier::external_body]
fn image_error_text(error: &image::ImageError) -> (r: String) {
    format!("{error}")
}

/// `std::path::Path::display` of a path, as text.
#[verifier::external_body]
fn path_text(path: &std::path::PathBuf) -> (r: String) {
    format!("{}", path.display())
}

/// The message of a raster error, for the variants that hold no outside value.
pub open spec fn raster_error_text(error: RasterError) -> Option<Seq<char>> {
    match error {
        RasterError::InvalidBuffer => Some("invalid image buffer dimensions"@),
        RasterError::InvalidDimensions => Some("invalid or unsupported image dimensions"@),
        RasterError::Qr(e) => Some(error_text(e)),
        RasterError::Detector(m) => Some(m@),
        _ => None,
    }
}

impl RasterError {
    /// The message describing the error: the codec's own for a codec error, and the path for a
    /// missing extension.
    pub fn message(&self) -> (r: String)
        ensures
            raster_error_text(*self) matches Some(text) ==> r@ == text,
            *self is MissingExtension ==> exists|shown: Seq<char>| r@ == "could not infer image format from path "@ + shown,
    {
        match self {
            RasterError::Image(error) => image_error_text(error),
            RasterError::InvalidBuffer => String::from_str("invalid image buffer dimensions"),
            RasterError::InvalidDimensions => String::from_str("invalid or unsupported image dimensions"),
            RasterError::MissingExtension(path) => {
                let mut text = String::from_str("could not infer image format from path ");
                let shown = path_text(path);
                let ghost start = text@;
                text.append(shown.as_str());
                assert(text@ == start + shown@);
                text
            },
            RasterError::Qr(error) => error.message(),
            RasterError::Detector(message) => String::from_str(message),
        }
    }
}

/// The length of a raster of `width` by `height` pixels of `channels` bytes, if neither side is
/// zero and it fits a `usize`.
pub open spec fn raster_len(width: nat, height: nat, channels: nat) -> Option<nat> {
    if width == 0 || height == 0 || width * height > usize::MAX || width * height * channels > usize::MAX {
        None
    } else {
        Some(width * height * channels)
    }
}

/// The byte length of a raster; `InvalidDimensions` for a zero side or an overflow.
pub fn checked_raster_len(width: usize, height: usize, channels: usize) -> (r: Result<usize, RasterError>)
    ensures
        match raster_len(width as nat, height as nat, channels as nat) {
            Some(n) => r matches Ok(len) && len == n,
            None => r matches Err(RasterError::InvalidDimensions),
        },
{
    if width == 0 || height == 0 {
        return Err(RasterError::InvalidDimensions);
    }
    match width.checked_mul(height) {
        Some(pixels) => match pixels.checked_mul(channels) {
            Some(len) => Ok(len),
            None => Err(RasterError::InvalidDimensions),
        },
        None => Err(RasterError::InvalidDimensions),
    }
}

/// Whether a luminance buffer of `len` bytes for `width` by `height` pixels may be decoded:
/// valid dimensions, an area within the limit, and the right length.
pub open spec fn luma_accepted(width: nat, height: nat, len: nat, max_pixels: Option<usize>) -> Result<(), RasterError> {
    match raster_len(width, height, 1) {
        None => Err(RasterError::InvalidDimensions),
        Some(area) => if max_pixels matches Some(m) && area > m {
            Err(RasterError::InvalidDimensions)
        } else if len != area {
            Err(RasterError::InvalidBuffer)
        } else {
            Ok(())
        },
    }
}

/// Checks a luminance buffer before decoding: `InvalidDimensions` for a zero or overflowing
/// side or an area above the limit, `InvalidBuffer` for a length that is not the area.
pub fn check_luma(width: usize, height: usize, len: usize, options: DecodeOptions) -> (r: Result<(), RasterError>)
    ensures
        match luma_accepted(width as nat, height as nat, len as nat, options.max_pixels) {
            Ok(()) => r is Ok,
            Err(RasterError::InvalidDimensions) => r matches Err(RasterError::InvalidDimensions),
            Err(_) => r matches Err(RasterError::InvalidBuffer),
        },
{
    let area = checked_raster_len(width, height, 1)?;
    if let Some(max) = options.max_pixels {
        if area > max {
            return Err(RasterError::InvalidDimensions);
        }
    }
    if len != area {
        return Err(RasterError::InvalidBuffer);
    }
    Ok(())
}

/// Fills the buffer with repetitions of the four channel bytes.
pub fn fill_rgba(bytes: &mut [u8], rgba: [u8; 4])
    requires
        old(bytes)@.len() == 0 || old(bytes)@.len() >= 4,
    ensures
        final(bytes)@.len() == old(bytes)@.len(),
        forall|i: int| 0 <= i < final(bytes)@.len() ==> #[trigger] final(bytes)@[i] == rgba@[i % 4],
{
    let mut i: usize = 0;
    while i < bytes.len()
        invariant
            bytes@.len() == old(bytes)@.len(),
            i <= bytes@.len(),
            forall|j: int| 0 <= j < i ==> #[trigger] bytes@[j] == rgba@[j % 4],
        decreases bytes@.len() - i,
    {
        bytes[i] = rgba[i % 4];
        i = i + 1;
    }
}

/// The largest side, in pixels, of a rendered image.
pub const MAX_RENDER_SIDE: usize = 65535;

/// Side in pixels of a code of `size` modules rendered with the options.
pub open spec fn render_side(size: int, options: RenderOptions) -> int {
    (size + 2 * options.border) * options.scale
}

/// Whether a code of `size` modules can be rendered with the options: a non-zero scale, a side
/// of at most `MAX_RENDER_SIDE` pixels, and a buffer that fits a `usize`.
pub open spec fn renderable(size: int, options: RenderOptions) -> bool {
    options.scale > 0 && render_side(size, options) <= MAX_RENDER_SIDE && render_side(size, options)
        * render_side(size, options) * 4 <= usize::MAX
}

/// Byte `i` of the rendering: channel `i % 4` of the colour of the module under the pixel.
pub open spec fn rendered_byte(g: Seq<Seq<bool>>, size: int, options: RenderOptions, i: int) -> u8 {
    let side = render_side(size, options);
    let pixel = i / 4;
    let x = pixel % side;
    let y = pixel / side;
    if bordered(g, size, options.border as int, x / (options.scale as int), y / (options.scale as int)) {
        options.dark@[i % 4]
    } else {
        options.light@[i % 4]
    }
}

/// Renders the code as RGBA pixels, row by row: each module a square of `scale` pixels, with
/// `border` light modules around the code. `InvalidDimensions` when it cannot be rendered.
pub fn render_to_rgba(code: &QrCode, render: RenderOptions) -> (r: Result<Vec<u8>, RasterError>)
    requires
        code.wf(),
    ensures
        renderable(code.spec_modules().spec_size() as int, render) ==> (r matches Ok(bytes) && bytes@.len()
            == render_side(code.spec_modules().spec_size() as int, render) * render_side(code.spec_modules().spec_size() as int, render) * 4
            && forall|i: int| 0 <= i < bytes@.len() ==> #[trigger] bytes@[i] == rendered_byte(code.spec_modules()@, code.spec_modules().spec_size() as int, render, i)),
        !renderable(code.spec_modules().spec_size() as int, render) ==> r matches Err(RasterError::InvalidDimensions),
{
    let ghost g = code.spec_modules()@;
    let size = code.size();
    let _ = code.version().value();
    if render.scale == 0 {
        return Err(RasterError::InvalidDimensions);
    }
    let border = render.border as u64;
    let scale = render.scale as u64;
    let modules = size as u64 + 2 * border;
    proof {
        assert(modules <= 65535 ==> modules * scale <= 65535 * 4294967295) by (nonlinear_arith)
            requires
                scale <= 4294967295,
        ;
    }
    if modules > MAX_RENDER_SIDE as u64 || modules * scale > MAX_RENDER_SIDE as u64 {
        proof {
            assert(modules * scale >= modules) by (nonlinear_arith)
                requires
                    scale >= 1,
            ;
        }
        return Err(RasterError::InvalidDimensions);
    }
    let side = (modules * scale) as usize;
    proof {
        assert(modules * scale >= 21) by (nonlinear_arith)
            requires
                modules >= 21,
                scale >= 1,
        ;
    }
    let len = match side.checked_mul(side) {
        Some(area) => match area.checked_mul(4) {
            Some(len) => len,
            None => {
                return Err(RasterError::InvalidDimensions);
            },
        },
        None => {
            proof {
                assert(side * side * 4 > usize::MAX) by (nonlinear_arith)
                    requires
                        side * side > usize::MAX,
                ;
            }
            return Err(RasterError::InvalidDimensions);
        },
    };
    let scale = render.scale as usize;
    let border = render.border as usize;
    let mut bytes: Vec<u8> = Vec::new();
    let mut i: usize = 0;
    while i < len
        invariant
            code.wf(),
            g == code.spec_modules()@,
            size == code.spec_modules().spec_size(),
            side == render_side(size as int, render),
            side > 0,
            len == side * side * 4,
            scale == render.scale,
            scale > 0,
            border == render.border,
            border <= 65535,
            i <= len,
            bytes@.len() == i,
            forall|j: int| 0 <= j < i ==> #[trigger] bytes@[j] == rendered_byte(g, size as int, render, j),
        decreases len - i,
    {
        let pixel = i / 4;
        let x = pixel % side;
        let y = pixel / side;
        let dark = module_with_border(code, x / scale, y / scale, border);
        let channel = i % 4;
        let value = if dark {
            render.dark[channel]
        } else {
            render.light[channel]
        };
        bytes.push(value);
        i = i + 1;
    }
    Ok(bytes)
}

/// A channel composited over white by its alpha.
pub open spec fn over_white(value: int, alpha: int) -> int {
    (value * alpha + 255 * (255 - alpha)) / 255
}

/// Luminance of a colour: (77 R + 150 G + 29 B) / 256, rounded down.
pub open spec fn luminance(red: int, green: int, blue: int) -> u8 {
    ((red * 77 + green * 150 + blue * 29) / 256) as u8
}

/// The outcome of converting a raster of `channels` bytes per pixel to luminance, given how
/// each pixel converts.
pub open spec fn converted(
    width: nat,
    height: nat,
    channels: nat,
    input: Seq<u8>,
    pixel: spec_fn(Seq<u8>, int) -> u8,
    r: Result<Vec<u8>, RasterError>,
) -> bool {
    if raster_len(width, height, 1) is None || raster_len(width, height, channels) is None {
        r matches Err(RasterError::InvalidDimensions)
    } else if input.len() != width * height * channels {
        r matches Err(RasterError::InvalidBuffer)
    } else {
        r matches Ok(luma) && luma@.len() == width * height && forall|i: int|
            0 <= i < luma@.len() ==> #[trigger] luma@[i] == pixel(input, i)
    }
}

/// Luminance of RGBA pixel `i`, composited over white.
pub open spec fn rgba_pixel(rgba: Seq<u8>, i: int) -> u8 {
    let alpha = rgba[4 * i + 3] as int;
    luminance(over_white(rgba[4 * i] as int, alpha), over_white(rgba[4 * i + 1] as int, alpha), over_white(rgba[4 * i + 2] as int, alpha))
}

/// Luminance of RGB pixel `i`.
pub open spec fn rgb_pixel(rgb: Seq<u8>, i: int) -> u8 {
    luminance(rgb[3 * i] as int, rgb[3 * i + 1] as int, rgb[3 * i + 2] as int)
}

/// Grey of luminance-alpha pixel `i`, composited over white.
pub open spec fn luma_alpha_pixel(la: Seq<u8>, i: int) -> u8 {
    over_white(la[2 * i] as int, la[2 * i + 1] as int) as u8
}

/// A channel composited over white.
fn composite(value: u8, alpha: u8) -> (r: u32)
    ensures
        r == over_white(value as int, alpha as int),
        r <= 255,
{
    let value = value as u32;
    let alpha = alpha as u32;
    proof {
        assert(value * alpha + 255 * (255 - alpha) <= 255 * 255) by (nonlinear_arith)
            requires
                value <= 255,
                alpha <= 255,
        ;
    }
    (value * alpha + 255 * (255 - alpha)) / 255
}

/// Converts RGBA pixels to luminance, each composited over white first.
pub fn luma_from_rgba(width: usize, height: usize, rgba: &[u8]) -> (r: Result<Vec<u8>, RasterError>)
    ensures
        converted(width as nat, height as nat, 4, rgba@, |s: Seq<u8>, i: int| rgba_pixel(s, i), r),
{
    let pixels = checked_raster_len(width, height, 1)?;
    let expected = checked_raster_len(width, height, 4)?;
    if rgba.len() != expected {
        return Err(RasterError::InvalidBuffer);
    }
    let mut luma: Vec<u8> = Vec::new();
    let mut i: usize = 0;
    while i < pixels
        invariant
            pixels == width * height,
            rgba@.len() == pixels * 4,
            expected == pixels * 4,
            i <= pixels,
            luma@.len() == i,
            forall|j: int| 0 <= j < i ==> #[trigger] luma@[j] == rgba_pixel(rgba@, j),
        decreases pixels - i,
    {
        let alpha = rgba[4 * i + 3];
        let red = composite(rgba[4 * i], alpha);
        let green = composite(rgba[4 * i + 1], alpha);
        let blue = composite(rgba[4 * i + 2], alpha);
        luma.push(((red * 77 + green * 150 + blue * 29) / 256) as u8);
        i = i + 1;
    }
    Ok(luma)
}

/// Converts RGB pixels to luminance.
pub fn luma_from_rgb(width: usize, height: usize, rgb: &[u8]) -> (r: Result<Vec<u8>, RasterError>)
    ensures
        converted(width as nat, height as nat, 3, rgb@, |s: Seq<u8>, i: int| rgb_pixel(s, i), r),
{
    let pixels = checked_raster_len(width, height, 1)?;
    let expected = checked_raster_len(width, height, 3)?;
    if rgb.len() != expected {
        return Err(RasterError::InvalidBuffer);
    }
    let mut luma: Vec<u8> = Vec::new();
    let mut i: usize = 0;
    while i < pixels
        invariant
            pixels == width * height,
            rgb@.len() == pixels * 3,
            expected == pixels * 3,
            i <= pixels,
            luma@.len() == i,
            forall|j: int| 0 <= j < i ==> #[trigger] luma@[j] == rgb_pixel(rgb@, j),
        decreases pixels - i,
    {
        let red = rgb[3 * i] as u32;
        let green = rgb[3 * i + 1] as u32;
        let blue = rgb[3 * i + 2] as u32;
        luma.push(((red * 77 + green * 150 + blue * 29) / 256) as u8);
        i = i + 1;
    }
    Ok(luma)
}

/// Converts luminance-alpha pixels to luminance, composited over white.
pub fn luma_from_luma_alpha(width: usize, height: usize, luma_alpha: &[u8]) -> (r: Result<Vec<u8>, RasterError>)
    ensures
        converted(width as nat, height as nat, 2, luma_alpha@, |s: Seq<u8>, i: int| luma_alpha_pixel(s, i), r),
{
    let pixels = checked_raster_len(width, height, 1)?;
    let expected = checked_raster_len(width, height, 2)?;
    if luma_alpha.len() != expected {
        return Err(RasterError::InvalidBuffer);
    }
    let mut luma: Vec<u8> = Vec::new();
    let mut i: usize = 0;
    while i < pixels
        invariant
            pixels == width * height,
            luma_alpha@.len() == pixels * 2,
            expected == pixels * 2,
            i <= pixels,
            luma@.len() == i,
            forall|j: int| 0 <= j < i ==> #[trigger] luma@[j] == luma_alpha_pixel(luma_alpha@, j),
        decreases pixels - i,
    {
        let grey = composite(luma_alpha[2 * i], luma_alpha[2 * i + 1]);
        luma.push(grey as u8);
        i = i + 1;
    }
    Ok(luma)
}

/// The raster format a lower-case extension names.
pub open spec fn raster_named(lower: Seq<char>) -> Option<RasterFormat> {
    if lower == "png"@ {
        Some(RasterFormat::Png)
    } else if lower == "jpg"@ || lower == "jpeg"@ {
        Some(RasterFormat::Jpeg)
    } else if lower == "webp"@ || lower == "wep"@ {
        Some(RasterFormat::WebP)
    } else {
        None
    }
}

/// The raster format an extension names, in any ASCII case.
pub fn raster_format_for_extension(extension: &str) -> (r: Option<RasterFormat>)
    ensures
        r == raster_named(extension@.map_values(|c: char| ascii_lower(c))),
{
    let lower = to_ascii_lowercase(extension);
    let lower = lower.as_str();
    if str_equals(lower, "png") {
        Some(RasterFormat::Png)
    } else if str_equals(lower, "jpg") || str_equals(lower, "jpeg") {
        Some(RasterFormat::Jpeg)
    } else if str_equals(lower, "webp") || str_equals(lower, "wep") {
        Some(RasterFormat::WebP)
    } else {
        None
    }
}

/// `std::path::PathBuf::from`: an owned path with the same text.
#[verifier::external_body]
fn path_buf(path: &str) -> (r: std::path::PathBuf) {
    std::path::PathBuf::from(path)
}

/// The raster format a path's extension names; `MissingExtension` with the path otherwise.
pub fn infer_format(path: &str) -> (r: Result<RasterFormat, RasterError>)
    ensures
        match path_extension(path@) {
            Some(extension) if raster_named(extension.map_values(|c: char| ascii_lower(c))) is Some => r
                == Ok::<RasterFormat, RasterError>(raster_named(extension.map_values(|c: char| ascii_lower(c))).unwrap()),
            _ => r matches Err(RasterError::MissingExtension(_)),
        },
{
    match extension_of(path) {
        Some(extension) => match raster_format_for_extension(extension.as_str()) {
            Some(format) => Ok(format),
            None => Err(RasterError::MissingExtension(path_buf(path))),
        },
        None => Err(RasterError::MissingExtension(path_buf(path))),
    }
}

/// Moves the first five run counts two places left, opening a new pair of runs: the third
/// becomes the first, the fourth the second, the fifth the third, then 1 and 0.
pub fn shift_counts(counts: &mut [usize; 5])
    ensures
        final(counts)@ == seq![old(counts)@[2], old(counts)@[3], old(counts)@[4], 1usize, 0usize],
{
    counts[0] = counts[2];
    counts[1] = counts[3];
    counts[2] = counts[4];
    counts[3] = 1;
    counts[4] = 0;
    proof {
        assert(counts@ =~= seq![old(counts)@[2], old(counts)@[3], old(counts)@[4], 1usize, 0usize]);
    }
}

} // verus!
