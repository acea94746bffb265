use fastqr::bindings::{
    checked_canvas_size, ecc_to_str, parse_decode_options, parse_encode_options, parse_hex_channel,
    parse_level, parse_render_options, parse_rgba, NapiDecodeOptions, NapiRenderOptions,
};
use fastqr::raster::DEFAULT_DECODE_MAX_PIXELS;
use fastqr::types::ErrorCorrectionLevel;

#[test]
fn colours_parse_from_hex() {
    assert_eq!(parse_rgba("#102030").expect("parses"), [0x10, 0x20, 0x30, 255]);
    assert_eq!(parse_rgba("a0B0c0d0").expect("parses"), [0xa0, 0xb0, 0xc0, 0xd0]);
    assert_eq!(parse_rgba("#12345").expect_err("short"), "expected #RRGGBB or #RRGGBBAA color");
    assert_eq!(parse_rgba("#12345g").expect_err("bad digit"), "invalid hex color channel");
    assert_eq!(parse_hex_channel(b'+', b'f').expect("sign"), 15);
    assert_eq!(parse_hex_channel(b'f', b'f').expect("digits"), 255);
}

#[test]
fn levels_parse_in_any_case() {
    assert_eq!(parse_level("quartile").expect("parses"), ErrorCorrectionLevel::Quartile);
    assert_eq!(parse_level("h").expect("parses"), ErrorCorrectionLevel::High);
    assert_eq!(parse_level("x").expect_err("unknown"), "unknown error correction level");
    assert_eq!(ecc_to_str(ErrorCorrectionLevel::Medium), "M");
}

#[test]
fn encode_options_take_given_fields() {
    let options = parse_encode_options(
        Some("L".to_string()),
        Some("high".to_string()),
        Some(2),
        Some(10),
        Some(5),
        Some(false),
    )
    .expect("parses");
    assert_eq!(options.min_error_correction, ErrorCorrectionLevel::High);
    assert_eq!(options.min_version.value(), 2);
    assert_eq!(options.max_version.value(), 10);
    assert_eq!(options.mask.map(|m| m.value()), Some(5));
    assert!(!options.boost_error_correction);
    let error = parse_encode_options(None, None, Some(41), None, None, None).expect_err("version");
    assert_eq!(error, "invalid QR version: 41");
    let error = parse_encode_options(None, None, None, None, Some(9), None).expect_err("mask");
    assert_eq!(error, "invalid mask pattern: 9");
}

#[test]
fn render_options_take_given_fields() {
    let render = NapiRenderOptions {
        error_correction: None,
        min_error_correction: None,
        min_version: None,
        max_version: None,
        mask: None,
        boost_error_correction: None,
        scale: Some(3),
        border: None,
        dark: Some("#ff000080".to_string()),
        light: None,
    };
    let (encode, options) = parse_render_options(Some(render)).expect("parses");
    assert_eq!(encode.min_error_correction, ErrorCorrectionLevel::Medium);
    assert_eq!(options.scale, 3);
    assert_eq!(options.border, 4);
    assert_eq!(options.dark, [255, 0, 0, 128]);
    assert_eq!(options.light, [255, 255, 255, 255]);
}

#[test]
fn decode_options_and_canvas_sizes() {
    let options = parse_decode_options(Some(NapiDecodeOptions {
        try_invert: Some(false),
        max_pixels: None,
    }));
    assert!(!options.try_invert);
    assert_eq!(options.max_pixels, Some(DEFAULT_DECODE_MAX_PIXELS));
    assert_eq!(checked_canvas_size(21, 4, 4), Ok(116));
    assert_eq!(
        checked_canvas_size(21, 0, 4).expect_err("zero scale"),
        "render scale must be greater than zero"
    );
    assert_eq!(
        checked_canvas_size(21, u32::MAX, 4).expect_err("too large"),
        "render dimensions are too large"
    );
}
