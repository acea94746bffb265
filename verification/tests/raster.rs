use fastqr::binary::{binarize, dark_bounds, dark_run, BinaryImage};
use fastqr::encode::encode_text;
use fastqr::raster::{
    checked_raster_len, infer_format, luma_from_rgba, raster_format_for_extension, render_to_rgba,
    DecodeOptions, RasterError, RasterFormat, RenderOptions,
};
use fastqr::scan::{decode_luma, decode_rgba, snap_dimension, unlocated_error};
use fastqr::error::QrError;
use fastqr::types::{DecodedQr, EncodeOptions};

fn finds_nothing(_: &BinaryImage) -> Result<DecodedQr, RasterError> {
    Err(RasterError::Detector("no candidate"))
}

#[test]
fn rejects_zero_render_scale() {
    let code = encode_text("fastqr image dimensions", EncodeOptions::default()).expect("encodes");
    let error = render_to_rgba(
        &code,
        RenderOptions {
            scale: 0,
            ..RenderOptions::default()
        },
    )
    .expect_err("rejects");
    assert!(matches!(error, RasterError::InvalidDimensions));
}

#[test]
fn rejects_render_dimensions_above_safe_limit() {
    let code = encode_text("fastqr image dimensions", EncodeOptions::default()).expect("encodes");
    let error = render_to_rgba(
        &code,
        RenderOptions {
            border: 20_000,
            ..RenderOptions::default()
        },
    )
    .expect_err("rejects");
    assert!(matches!(error, RasterError::InvalidDimensions));
}

#[test]
fn rejects_decode_dimensions_that_overflow() {
    let error = decode_rgba(usize::MAX, 2, &[], DecodeOptions::default(), finds_nothing)
        .expect_err("rejects");
    assert!(matches!(error, RasterError::InvalidDimensions));
}

#[test]
fn rejects_decode_buffers_above_configured_pixel_limit() {
    let luma = vec![255_u8; 9];
    let error = decode_luma(
        3,
        3,
        &luma,
        DecodeOptions {
            try_invert: false,
            max_pixels: Some(8),
        },
        finds_nothing,
    )
    .expect_err("rejects");
    assert!(matches!(error, RasterError::InvalidDimensions));

    let error = decode_luma(
        3,
        3,
        &luma,
        DecodeOptions {
            try_invert: false,
            max_pixels: None,
        },
        finds_nothing,
    )
    .expect_err("continues to detector");
    assert!(matches!(error, RasterError::Detector(_)));
}

#[test]
fn wrong_buffer_length_is_refused() {
    let error = decode_luma(3, 3, &[0u8; 8], DecodeOptions::default(), finds_nothing)
        .expect_err("rejects");
    assert!(matches!(error, RasterError::InvalidBuffer));
    let error = decode_rgba(2, 2, &[0u8; 15], DecodeOptions::default(), finds_nothing)
        .expect_err("rejects");
    assert!(matches!(error, RasterError::InvalidBuffer));
}

#[test]
fn inverted_image_is_tried_when_asked() {
    let luma = vec![0_u8; 16];
    let reads_inverted_only = |image: &BinaryImage| {
        if image.inverted {
            let code = encode_text("INVERTED", EncodeOptions::default()).expect("encodes");
            fastqr::decode::decode_matrix(&code).map_err(RasterError::Qr)
        } else {
            Err(RasterError::Detector("no candidate"))
        }
    };
    let decoded = decode_luma(4, 4, &luma, DecodeOptions::default(), reads_inverted_only)
        .expect("decodes inverted");
    assert_eq!(decoded.text.as_deref(), Some("INVERTED"));
    let options = DecodeOptions {
        try_invert: false,
        max_pixels: None,
    };
    let error = decode_luma(4, 4, &luma, options, reads_inverted_only).expect_err("not tried");
    match error {
        RasterError::Detector(message) => assert_eq!(message, "unable to locate a QR code in the image"),
        other => panic!("unexpected error {other:?}"),
    }
}

#[test]
fn rendered_code_has_dark_finder_corner_and_light_border() {
    let code = encode_text("HELLO CAMERA", EncodeOptions::default()).expect("encodes");
    let render = RenderOptions {
        scale: 2,
        border: 1,
        ..RenderOptions::default()
    };
    let rgba = render_to_rgba(&code, render).expect("renders");
    let side = (code.size() + 2) * 2;
    assert_eq!(rgba.len(), side * side * 4);
    assert_eq!(&rgba[0..4], &[255, 255, 255, 255]);
    let corner = (2 * side + 2) * 4;
    assert_eq!(&rgba[corner..corner + 4], &[0, 0, 0, 255]);
}

#[test]
fn rgba_converts_to_luminance() {
    let rgba = [255u8, 255, 255, 255, 0, 0, 0, 255, 0, 0, 0, 0, 255, 0, 0, 255];
    let luma = luma_from_rgba(2, 2, &rgba).expect("converts");
    assert_eq!(luma, vec![255, 0, 255, 76]);
}

#[test]
fn binarized_render_matches_code() {
    let code = encode_text("HELLO CAMERA", EncodeOptions::default()).expect("encodes");
    let render = RenderOptions {
        scale: 4,
        border: 4,
        ..RenderOptions::default()
    };
    let rgba = render_to_rgba(&code, render).expect("renders");
    let side = (code.size() + 8) * 4;
    let luma = luma_from_rgba(side, side, &rgba).expect("converts");
    let binary = binarize(side, side, &luma);
    for y in 0..code.size() {
        for x in 0..code.size() {
            assert_eq!(binary.get((x + 4) * 4 + 1, (y + 4) * 4 + 1), code.module(x, y));
        }
    }
}

#[test]
fn raster_lengths_and_formats() {
    assert_eq!(checked_raster_len(3, 4, 4).ok(), Some(48));
    assert!(matches!(checked_raster_len(0, 4, 4), Err(RasterError::InvalidDimensions)));
    assert_eq!(raster_format_for_extension("JPEG"), Some(RasterFormat::Jpeg));
    assert_eq!(raster_format_for_extension("wep"), Some(RasterFormat::WebP));
    assert!(matches!(infer_format("out/code.PNG"), Ok(RasterFormat::Png)));
    assert!(matches!(infer_format("out/code"), Err(RasterError::MissingExtension(_))));
}

#[test]
fn dark_pixels_are_bounded() {
    let mut pixels = vec![0u8; 20];
    pixels[5 + 1] = 1;
    pixels[5 * 2 + 3] = 1;
    pixels[5 * 2 + 4] = 1;
    let image = BinaryImage { width: 5, height: 4, pixels, inverted: false };
    assert_eq!(dark_bounds(&image), Some((1, 1, 4, 2)));
    assert_eq!(dark_run(&image, 3, 2), 2);
    assert_eq!(dark_run(&image, 0, 0), 0);
    let empty = BinaryImage { width: 3, height: 3, pixels: vec![0u8; 9], inverted: false };
    assert_eq!(dark_bounds(&empty), None);
    let full = BinaryImage { width: 3, height: 3, pixels: vec![0u8; 9], inverted: true };
    assert_eq!(dark_bounds(&full), Some((0, 0, 2, 2)));
    assert_eq!(dark_run(&full, 1, 1), 2);
}

#[test]
fn measured_sides_snap_to_qr_sides() {
    assert_eq!(snap_dimension(21), 21);
    assert_eq!(snap_dimension(24), 25);
    assert_eq!(snap_dimension(22), 21);
    assert_eq!(snap_dimension(23), 25);
    assert_eq!(snap_dimension(-2), -3);
}

#[test]
fn raster_error_messages() {
    assert_eq!(RasterError::InvalidBuffer.message(), "invalid image buffer dimensions");
    assert_eq!(RasterError::InvalidDimensions.message(), "invalid or unsupported image dimensions");
    assert_eq!(RasterError::Detector("no code here").message(), "no code here");
    assert_eq!(
        RasterError::Qr(fastqr::error::QrError::Checksum).message(),
        "error correction check failed"
    );
    let error = infer_format("picture").expect_err("no extension");
    assert_eq!(error.message(), "could not infer image format from path picture");
}

#[test]
fn empty_luma_binarizes_to_an_empty_image() {
    let binary = binarize(0, 5, &[]);
    assert_eq!(binary.width, 0);
    assert_eq!(binary.height, 5);
    assert!(binary.pixels.is_empty());
    let binary = binarize(4, 0, &[]);
    assert!(binary.pixels.is_empty());
}

#[test]
fn a_failed_read_of_the_straight_candidate_is_reported_when_nothing_is_located() {
    let error = unlocated_error(Some(QrError::Checksum), RasterError::Detector("no finder patterns"));
    assert!(matches!(error, RasterError::Qr(QrError::Checksum)));
    let error = unlocated_error(None, RasterError::Detector("no finder patterns"));
    assert!(matches!(error, RasterError::Detector("no finder patterns")));
}

#[test]
fn missing_extension_message_names_the_path() {
    let error = infer_format("qr-without-extension").expect_err("no extension");
    assert!(error.message().starts_with("could not infer image format from path "));
    assert!(error.message().ends_with("qr-without-extension"));
}
