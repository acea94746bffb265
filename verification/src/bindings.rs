//! The option records and checks shared by the JavaScript bindings: level
//! names, colours in hex, canvas sizes, and the plain option records of the
//! Node.js binding with their conversion to encoding, rendering and decoding
//! options. Errors are messages; the bindings turn them into their own errors.

use vstd::prelude::*;
use vstd::string::{StrSliceExecFns, StringExecFns, StringSliceAdditionalSpecFns};

use crate::cli::level_named;
use crate::error::{error_text, QrError};
use crate::raster::{DecodeOptions, RenderOptions, DEFAULT_DECODE_MAX_PIXELS};
use crate::strings::{ascii_upper, str_equals, to_ascii_uppercase};
use crate::types::{EncodeOptions, ErrorCorrectionLevel, MaskPattern, QrCode, Version};

verus! {

/// The one-letter name of a level.
pub open spec fn level_letter(level: ErrorCorrectionLevel) -> Seq<char> {
    match level {
        ErrorCorrectionLevel::Low => "L"@,
        ErrorCorrectionLevel::Medium => "M"@,
        ErrorCorrectionLevel::Quartile => "Q"@,
        ErrorCorrectionLevel::High => "H"@,
    }
}

/// The one-letter name of a level: L, M, Q or H.
pub fn ecc_to_str(level: ErrorCorrectionLevel) -> (r: &'static str)
    ensures
        r@ == level_letter(level),
{
    match level {
        ErrorCorrectionLevel::Low => "L",
        ErrorCorrectionLevel::Medium => "M",
        ErrorCorrectionLevel::Quartile => "Q",
        ErrorCorrectionLevel::High => "H",
    }
}

/// The level named `value` in any ASCII case; the bindings' message otherwise.
pub fn parse_level(value: &str) -> (r: Result<ErrorCorrectionLevel, String>)
    ensures
        match level_named(value@.map_values(|c: char| ascii_upper(c))) {
            Some(l) => r == Ok::<ErrorCorrectionLevel, String>(l),
            None => r matches Err(m) && m@ == "unknown error correction level"@,
        },
{
    let upper = to_ascii_uppercase(value);
    let upper = upper.as_str();
    if str_equals(upper, "L") || str_equals(upper, "LOW") {
        Ok(ErrorCorrectionLevel::Low)
    } else if str_equals(upper, "M") || str_equals(upper, "MEDIUM") {
        Ok(ErrorCorrectionLevel::Medium)
    } else if str_equals(upper, "Q") || str_equals(upper, "QUARTILE") {
        Ok(ErrorCorrectionLevel::Quartile)
    } else if str_equals(upper, "H") || str_equals(upper, "HIGH") {
        Ok(ErrorCorrectionLevel::High)
    } else {
        Err(String::from_str("unknown error correction level"))
    }
}

/// Value of an ASCII hex digit.
pub open spec fn hex_value(c: u8) -> Option<u8> {
    if 48 <= c <= 57 {
        Some((c - 48) as u8)
    } else if 97 <= c <= 102 {
        Some((c - 87) as u8)
    } else if 65 <= c <= 70 {
        Some((c - 55) as u8)
    } else {
        None
    }
}

/// The byte that two bytes spell in hex, as `u8::from_str_radix(.., 16)` reads them: two hex
/// digits, or `+` and one.
pub open spec fn hex_pair(a: u8, b: u8) -> Option<u8> {
    if a == 43 {
        hex_value(b)
    } else if hex_value(a) is Some && hex_value(b) is Some {
        Some((hex_value(a).unwrap() * 16 + hex_value(b).unwrap()) as u8)
    } else {
        None
    }
}

/// The value of one hex digit.
fn hex_digit_value(c: u8) -> (r: Option<u8>)
    ensures
        r == hex_value(c),
{
    if 48 <= c && c <= 57 {
        Some(c - 48)
    } else if 97 <= c && c <= 102 {
        Some(c - 87)
    } else if 65 <= c && c <= 70 {
        Some(c - 55)
    } else {
        None
    }
}

/// A colour channel from two bytes of hex.
pub fn parse_hex_channel(a: u8, b: u8) -> (r: Result<u8, String>)
    ensures
        match hex_pair(a, b) {
            Some(v) => r == Ok::<u8, String>(v),
            None => r matches Err(m) && m@ == "invalid hex color channel"@,
        },
{
    if a == 43 {
        match hex_digit_value(b) {
            Some(v) => Ok(v),
            None => Err(String::from_str("invalid hex color channel")),
        }
    } else {
        match (hex_digit_value(a), hex_digit_value(b)) {
            (Some(high), Some(low)) => Ok(high * 16 + low),
            _ => Err(String::from_str("invalid hex color channel")),
        }
    }
}

/// The colour text without a leading `#`.
pub open spec fn color_digits(bytes: Seq<u8>) -> Seq<u8> {
    if bytes.len() > 0 && bytes[0] == 35 {
        bytes.drop_first()
    } else {
        bytes
    }
}

/// The channels of the first `n` byte pairs of `hex`, or none if one is no hex byte.
pub open spec fn hex_channels(hex: Seq<u8>, n: int) -> Option<Seq<u8>>
    decreases n,
{
    if n <= 0 {
        Some(Seq::empty())
    } else {
        match hex_channels(hex, n - 1) {
            Some(c) => match hex_pair(hex[2 * n - 2], hex[2 * n - 1]) {
                Some(v) => Some(c.push(v)),
                None => None,
            },
            None => None,
        }
    }
}

/// What a colour text gives: `#RRGGBB` (opaque) or `#RRGGBBAA`, the `#` optional.
pub open spec fn color_parsed(bytes: Seq<u8>) -> Result<Seq<u8>, Seq<char>> {
    let hex = color_digits(bytes);
    if hex.len() == 6 {
        match hex_channels(hex, 3) {
            Some(c) => Ok(c.push(255u8)),
            None => Err("invalid hex color channel"@),
        }
    } else if hex.len() == 8 {
        match hex_channels(hex, 4) {
            Some(c) => Ok(c),
            None => Err("invalid hex color channel"@),
        }
    } else {
        Err("expected #RRGGBB or #RRGGBBAA color"@)
    }
}

/// The text cuts between the byte pairs of its colour digits fall on character boundaries
/// (else slicing the text would fail).
pub open spec fn color_cuts_ok(bytes: Seq<u8>) -> bool {
    let hex = color_digits(bytes);
    &&& (hex.len() == 6 || hex.len() == 8) ==> vstd::utf8::is_char_boundary(hex, 2)
        && vstd::utf8::is_char_boundary(hex, 4)
    &&& hex.len() == 8 ==> vstd::utf8::is_char_boundary(hex, 6)
}

/// Parses a colour: `#RRGGBB` or `#RRGGBBAA`, the `#` optional.
pub fn parse_rgba(value: &str) -> (r: Result<[u8; 4], String>)
    requires
        color_cuts_ok(value.spec_bytes()),
    ensures
        match color_parsed(value.spec_bytes()) {
            Ok(c) => r matches Ok(channels) && channels@ == c,
            Err(m) => r matches Err(e) && e@ == m,
        },
{
    let bytes = value.as_bytes();
    let start: usize = if bytes.len() > 0 && bytes[0] == 35 {
        1
    } else {
        0
    };
    let ghost hex = color_digits(bytes@);
    proof {
        if start == 1 {
            assert(hex =~= bytes@.subrange(1, bytes@.len() as int));
        } else {
            assert(hex =~= bytes@);
        }
    }
    let len = bytes.len() - start;
    if len != 6 && len != 8 {
        return Err(String::from_str("expected #RRGGBB or #RRGGBBAA color"));
    }
    let pairs = len / 2;
    let mut channels: [u8; 4] = [0, 0, 0, 255];
    let mut k: usize = 0;
    while k < pairs
        invariant
            hex == bytes@.subrange(start as int, bytes@.len() as int),
            hex.len() == len,
            start as int + len as int == bytes@.len(),
            bytes@ == value.spec_bytes(),
            hex == color_digits(bytes@),
            pairs == len / 2,
            pairs == 3 || pairs == 4,
            len == 6 || len == 8,
            k <= pairs,
            channels@.len() == 4,
            hex_channels(hex, k as int) matches Some(c) && c == channels@.subrange(0, k as int),
            len == 6 ==> channels@[3] == 255u8,
        decreases pairs - k,
    {
        let a = bytes[start + 2 * k];
        let b = bytes[start + 2 * k + 1];
        match parse_hex_channel(a, b) {
            Ok(v) => {
                let ghost before = channels@;
                channels[k] = v;
                proof {
                    assert(channels@.subrange(0, k + 1) =~= before.subrange(0, k as int).push(v));
                }
            },
            Err(e) => {
                proof {
                    assert(hex_channels(hex, k + 1) is None);
                    lemma_hex_channels_none(hex, k + 1, pairs as int);
                }
                return Err(e);
            },
        }
        k = k + 1;
    }
    proof {
        if len == 6 {
            assert(channels@ =~= channels@.subrange(0, 3).push(255u8));
        } else {
            assert(channels@ =~= channels@.subrange(0, 4));
        }
    }
    Ok(channels)
}

/// Once a pair fails, the longer prefixes fail too.
proof fn lemma_hex_channels_none(hex: Seq<u8>, k: int, n: int)
    requires
        0 <= k <= n,
        hex_channels(hex, k) is None,
    ensures
        hex_channels(hex, n) is None,
    decreases n - k,
{
    if k < n {
        lemma_hex_channels_none(hex, k + 1, n);
    }
}

/// Side in pixels of a canvas for a code of `modules` modules: `(modules + 2 border) scale`,
/// refused when the scale is zero or the side does not fit the arithmetic or a `u32`.
pub fn checked_canvas_size(modules: usize, scale: u32, border: u32) -> (r: Result<u32, String>)
    ensures
        scale == 0 ==> (r matches Err(m) && m@ == "render scale must be greater than zero"@),
        scale != 0 && border as int * 2 > usize::MAX ==> (r matches Err(m) && m@ == "render border is too large"@),
        scale != 0 && border as int * 2 <= usize::MAX ==> {
            let side = (modules + border * 2) * scale;
            if modules + border * 2 > usize::MAX || side > usize::MAX || side > u32::MAX {
                r matches Err(m) && m@ == "render dimensions are too large"@
            } else {
                r == Ok::<u32, String>(side as u32)
            }
        },
{
    if scale == 0 {
        return Err(String::from_str("render scale must be greater than zero"));
    }
    let border = border as usize;
    let doubled = match border.checked_mul(2) {
        Some(d) => d,
        None => {
            return Err(String::from_str("render border is too large"));
        },
    };
    let side = match modules.checked_add(doubled) {
        Some(m) => match m.checked_mul(scale as usize) {
            Some(s) => s,
            None => {
                return Err(String::from_str("render dimensions are too large"));
            },
        },
        None => {
            proof {
                assert((modules + border * 2) * scale >= modules + border * 2) by (nonlinear_arith)
                    requires
                        scale >= 1,
                ;
            }
            return Err(String::from_str("render dimensions are too large"));
        },
    };
    if side > u32::MAX as usize {
        return Err(String::from_str("render dimensions are too large"));
    }
    Ok(side as u32)
}

/// Encoding options of the Node.js binding; unset fields keep the defaults.
#[derive(Clone, Debug)]
pub struct NapiEncodeOptions {
    pub error_correction: Option<String>,
    pub min_error_correction: Option<String>,
    pub min_version: Option<u8>,
    pub max_version: Option<u8>,
    pub mask: Option<u8>,
    pub boost_error_correction: Option<bool>,
}

/// Rendering options of the Node.js binding, with the encoding options they start with.
#[derive(Clone, Debug)]
pub struct NapiRenderOptions {
    pub error_correction: Option<String>,
    pub min_error_correction: Option<String>,
    pub min_version: Option<u8>,
    pub max_version: Option<u8>,
    pub mask: Option<u8>,
    pub boost_error_correction: Option<bool>,
    pub scale: Option<u32>,
    pub border: Option<u32>,
    pub dark: Option<String>,
    pub light: Option<String>,
}

/// Decoding options of the Node.js binding.
#[derive(Clone, Copy, Debug, PartialEq, Eq)]
pub struct NapiDecodeOptions {
    pub try_invert: Option<bool>,
    pub max_pixels: Option<u32>,
}

/// Decoding options from the Node.js options: the defaults, with the fields that are set.
pub fn parse_decode_options(options: Option<NapiDecodeOptions>) -> (r: DecodeOptions)
    ensures
        r.try_invert == match options {
            Some(o) => match o.try_invert {
                Some(t) => t,
                None => true,
            },
            None => true,
        },
        r.max_pixels == match options {
            Some(o) => match o.max_pixels {
                Some(m) => Some(m as usize),
                None => Some(DEFAULT_DECODE_MAX_PIXELS),
            },
            None => Some(DEFAULT_DECODE_MAX_PIXELS),
        },
{
    let mut decode = DecodeOptions::default();
    if let Some(options) = options {
        if let Some(try_invert) = options.try_invert {
            decode.try_invert = try_invert;
        }
        if let Some(max_pixels) = options.max_pixels {
            decode.max_pixels = Some(max_pixels as usize);
        }
    }
    decode
}

/// The level a level name selects, in any ASCII case.
pub open spec fn level_of_name(name: Seq<char>) -> Option<ErrorCorrectionLevel> {
    level_named(name.map_values(|c: char| ascii_upper(c)))
}

/// The level option that counts: the minimum level where given, else the level.
pub open spec fn chosen_level_name(error_correction: Option<String>, min_error_correction: Option<String>) -> Option<Seq<char>> {
    match min_error_correction {
        Some(l) => Some(l@),
        None => match error_correction {
            Some(l) => Some(l@),
            None => None,
        },
    }
}

/// The first message that the Node.js encoding options are refused with, checked in the order
/// level, minimum version, maximum version, mask; none when all are valid.
pub open spec fn napi_encode_error(level: Option<Seq<char>>, min_version: Option<u8>, max_version: Option<u8>, mask: Option<u8>) -> Option<Seq<char>> {
    if level matches Some(l) && level_of_name(l) is None {
        Some("unknown error correction level"@)
    } else if min_version matches Some(v) && !(1 <= v <= 40) {
        Some(error_text(QrError::InvalidVersion(min_version.unwrap())))
    } else if max_version matches Some(v) && !(1 <= v <= 40) {
        Some(error_text(QrError::InvalidVersion(max_version.unwrap())))
    } else if mask matches Some(m) && m >= 8 {
        Some(error_text(QrError::InvalidMask(mask.unwrap())))
    } else {
        None
    }
}

/// The encoding options are the defaults with each given option in place.
pub open spec fn napi_encode_options_are(
    o: EncodeOptions,
    level: Option<Seq<char>>,
    min_version: Option<u8>,
    max_version: Option<u8>,
    mask: Option<u8>,
    boost: Option<bool>,
) -> bool {
    &&& o.min_error_correction == match level {
        Some(l) => level_of_name(l).unwrap(),
        None => ErrorCorrectionLevel::Medium,
    }
    &&& o.min_version@ == match min_version {
        Some(v) => v,
        None => 1u8,
    }
    &&& o.max_version@ == match max_version {
        Some(v) => v,
        None => 40u8,
    }
    &&& match mask {
        Some(m) => o.mask matches Some(p) && p@ == m,
        None => o.mask is None,
    }
    &&& o.boost_error_correction == match boost {
        Some(b) => b,
        None => true,
    }
}

/// Encoding options from the Node.js option fields: the defaults, with each given field in
/// place; the minimum level wins over the level. The first invalid field is refused with its
/// message.
pub fn parse_encode_options(
    error_correction: Option<String>,
    min_error_correction: Option<String>,
    min_version: Option<u8>,
    max_version: Option<u8>,
    mask: Option<u8>,
    boost_error_correction: Option<bool>,
) -> (r: Result<EncodeOptions, String>)
    ensures
        match napi_encode_error(chosen_level_name(error_correction, min_error_correction), min_version, max_version, mask) {
            Some(m) => r matches Err(e) && e@ == m,
            None => r matches Ok(o) && napi_encode_options_are(
                o,
                chosen_level_name(error_correction, min_error_correction),
                min_version,
                max_version,
                mask,
                boost_error_correction,
            ),
        },
{
    let ghost level_name = chosen_level_name(error_correction, min_error_correction);
    let mut options = EncodeOptions::default();
    let level = match min_error_correction {
        Some(l) => Some(l),
        None => error_correction,
    };
    if let Some(level) = level {
        match parse_level(level.as_str()) {
            Ok(l) => {
                options.min_error_correction = l;
            },
            Err(e) => {
                return Err(e);
            },
        }
    }
    if let Some(version) = min_version {
        match Version::new(version) {
            Ok(v) => {
                options.min_version = v;
            },
            Err(e) => {
                return Err(e.message());
            },
        }
    }
    if let Some(version) = max_version {
        match Version::new(version) {
            Ok(v) => {
                options.max_version = v;
            },
            Err(e) => {
                return Err(e.message());
            },
        }
    }
    if let Some(mask) = mask {
        match MaskPattern::new(mask) {
            Ok(m) => {
                options.mask = Some(m);
            },
            Err(e) => {
                return Err(e.message());
            },
        }
    }
    if let Some(boost) = boost_error_correction {
        options.boost_error_correction = boost;
    }
    Ok(options)
}

/// The colour texts of the rendering options can be cut into byte pairs.
pub open spec fn render_colors_cut_ok(render: Option<NapiRenderOptions>) -> bool {
    render matches Some(o) ==> {
        &&& o.dark matches Some(d) ==> color_cuts_ok(vstd::utf8::encode_utf8(d@))
        &&& o.light matches Some(l) ==> color_cuts_ok(vstd::utf8::encode_utf8(l@))
    }
}

/// The first message that the Node.js rendering options are refused with: the encoding
/// fields', then the dark colour's, then the light colour's.
pub open spec fn napi_render_error(o: NapiRenderOptions) -> Option<Seq<char>> {
    match napi_encode_error(chosen_level_name(o.error_correction, o.min_error_correction), o.min_version, o.max_version, o.mask) {
        Some(m) => Some(m),
        None => if o.dark matches Some(d) && color_parsed(vstd::utf8::encode_utf8(d@)) is Err {
            Some(color_parsed(vstd::utf8::encode_utf8(o.dark.unwrap()@))->Err_0)
        } else if o.light matches Some(l) && color_parsed(vstd::utf8::encode_utf8(l@)) is Err {
            Some(color_parsed(vstd::utf8::encode_utf8(o.light.unwrap()@))->Err_0)
        } else {
            None
        },
    }
}

/// A colour option in place of its default.
pub open spec fn color_option_is(c: [u8; 4], given: Option<String>, default: Seq<u8>) -> bool {
    match given {
        Some(t) => c@ == color_parsed(vstd::utf8::encode_utf8(t@))->Ok_0,
        None => c@ == default,
    }
}

/// Encoding and rendering options from the Node.js rendering options: the defaults without
/// them; else the encoding fields as `parse_encode_options` reads them and the rendering
/// defaults with each given field in place.
pub fn parse_render_options(render: Option<NapiRenderOptions>) -> (r: Result<(EncodeOptions, RenderOptions), String>)
    requires
        render_colors_cut_ok(render),
    ensures
        match render {
            None => r matches Ok((e, o)) && napi_encode_options_are(e, None, None, None, None, None)
                && o.scale == 8 && o.border == 4 && o.dark@ == seq![0u8, 0u8, 0u8, 255u8]
                && o.light@ == seq![255u8, 255u8, 255u8, 255u8],
            Some(g) => match napi_render_error(g) {
                Some(m) => r matches Err(e) && e@ == m,
                None => r matches Ok((e, o)) && napi_encode_options_are(
                    e,
                    chosen_level_name(g.error_correction, g.min_error_correction),
                    g.min_version,
                    g.max_version,
                    g.mask,
                    g.boost_error_correction,
                ) && o.scale == match g.scale {
                    Some(s) => s,
                    None => 8u32,
                } && o.border == match g.border {
                    Some(b) => b,
                    None => 4u32,
                } && color_option_is(o.dark, g.dark, seq![0u8, 0u8, 0u8, 255u8])
                    && color_option_is(o.light, g.light, seq![255u8, 255u8, 255u8, 255u8]),
            },
        },
{
    let render = match render {
        Some(r) => r,
        None => {
            return Ok((EncodeOptions::default(), RenderOptions::default()));
        },
    };
    let ghost g = render;
    let encode = match parse_encode_options(
        render.error_correction,
        render.min_error_correction,
        render.min_version,
        render.max_version,
        render.mask,
        render.boost_error_correction,
    ) {
        Ok(e) => e,
        Err(m) => {
            return Err(m);
        },
    };
    let mut options = RenderOptions::default();
    if let Some(scale) = render.scale {
        options.scale = scale;
    }
    if let Some(border) = render.border {
        options.border = border;
    }
    if let Some(dark) = render.dark {
        match parse_rgba(dark.as_str()) {
            Ok(c) => {
                options.dark = c;
            },
            Err(m) => {
                return Err(m);
            },
        }
    }
    if let Some(light) = render.light {
        match parse_rgba(light.as_str()) {
            Ok(c) => {
                options.light = c;
            },
            Err(m) => {
                return Err(m);
            },
        }
    }
    Ok((encode, options))
}

/// A code as the WebAssembly binding holds it.
pub struct WasmQrCode {
    pub inner: QrCode,
}

impl WasmQrCode {
    /// Side of the code in modules.
    pub fn size(&self) -> (r: u32)
        requires
            self.inner.wf(),
        ensures
            r == self.inner.spec_modules().spec_size(),
    {
        let _ = self.inner.version().value();
        self.inner.size() as u32
    }

    /// Version number.
    pub fn version(&self) -> (r: u8)
        ensures
            r == self.inner.spec_version()@,
    {
        self.inner.version().value()
    }

    /// Mask number.
    pub fn mask(&self) -> (r: u8)
        ensures
            r == self.inner.spec_mask()@,
    {
        self.inner.mask().value()
    }

    /// One-letter name of the error correction level.
    pub fn error_correction(&self) -> (r: String)
        ensures
            r@ == level_letter(self.inner.spec_error_correction()),
    {
        String::from_str(ecc_to_str(self.inner.error_correction()))
    }
}

} // verus!
