use fastqr::binary::BinaryImage;
use fastqr::bit_grid::BitGrid;
use fastqr::codec::{
    decode_bytes, decode_bytes_with_format, encode_bytes_to_image, encode_text_to_image, render_to_image,
    write_to_bytes,
};
use fastqr::decode::decode_modules;
use fastqr::encode::encode_text;
use fastqr::raster::{DecodeOptions, RasterError, RasterFormat, RenderOptions};
use fastqr::scan::decode_rgba;
use fastqr::types::{DecodedQr, EncodeOptions};

/// A reader for images of a code drawn straight, with a known module size and border: it
/// samples the centre of each module.
fn grid_reader(size: usize, scale: usize, border: usize) -> impl Fn(&BinaryImage) -> Result<DecodedQr, RasterError> {
    move |image: &BinaryImage| {
        let mut grid = BitGrid::new(size);
        for y in 0..size {
            for x in 0..size {
                let px = (x + border) * scale + scale / 2;
                let py = (y + border) * scale + scale / 2;
                grid.set(x, y, image.get(px, py));
            }
        }
        decode_modules(&grid).map_err(RasterError::Qr)
    }
}

#[test]
fn png_bytes_decode_back_to_the_text() {
    let code = encode_text("fastqr image roundtrip", EncodeOptions::default()).expect("encodes");
    let render = RenderOptions::default();
    let bytes = write_to_bytes(&code, RasterFormat::Png, render).expect("renders");
    assert_eq!(&bytes[..4], &[0x89, b'P', b'N', b'G']);
    let reader = grid_reader(code.size(), 8, 4);
    let decoded = decode_bytes_with_format(&bytes, RasterFormat::Png, DecodeOptions::default(), &reader)
        .expect("decodes");
    assert_eq!(decoded.text.as_deref(), Some("fastqr image roundtrip"));
    let decoded = decode_bytes(&bytes, DecodeOptions::default(), &reader).expect("decodes guessed");
    assert_eq!(decoded.text.as_deref(), Some("fastqr image roundtrip"));
}

#[test]
fn rgba_buffer_decodes_back_to_the_text() {
    let code = encode_text("HELLO CAMERA", EncodeOptions::default()).expect("encodes");
    let render = RenderOptions {
        scale: 12,
        border: 4,
        ..RenderOptions::default()
    };
    let image = render_to_image(&code, render).expect("renders");
    let size = (code.size() as u32 + render.border * 2) * render.scale;
    assert_eq!(image.image.width(), size);
    let rgba = image.image.into_raw();
    let reader = grid_reader(code.size(), 12, 4);
    let decoded = decode_rgba(size as usize, size as usize, &rgba, DecodeOptions::default(), reader)
        .expect("decodes");
    assert_eq!(decoded.text.as_deref(), Some("HELLO CAMERA"));
}

#[test]
fn garbage_bytes_are_an_image_error() {
    let reader = grid_reader(21, 8, 4);
    let error = decode_bytes(&[1, 2, 3, 4], DecodeOptions::default(), &reader).expect_err("garbage");
    assert!(matches!(error, RasterError::Image(_)));
    assert!(!error.message().is_empty());
}

#[test]
fn images_of_text_and_bytes() {
    let image = encode_text_to_image("HELLO", RenderOptions::default()).expect("renders");
    assert_eq!(image.image.width(), (21 + 8) * 8);
    let image = encode_bytes_to_image(&[0, 1, 2, 3], RenderOptions { scale: 2, ..RenderOptions::default() })
        .expect("renders");
    assert_eq!(image.image.height(), (21 + 8) * 2);
    let error = encode_text_to_image("HELLO", RenderOptions { scale: 0, ..RenderOptions::default() })
        .expect_err("zero scale");
    assert!(matches!(error, RasterError::InvalidDimensions));
    let error = encode_bytes_to_image(&vec![7u8; 4000], RenderOptions::default()).expect_err("too long");
    assert!(matches!(error, RasterError::Qr(_)));
}

#[test]
fn image_bytes_above_the_area_limit_are_refused_before_decoding() {
    let code = encode_text("fastqr area limit", EncodeOptions::default()).expect("encodes");
    let bytes = write_to_bytes(&code, RasterFormat::Png, RenderOptions::default()).expect("renders");
    let reader = grid_reader(code.size(), 8, 4);
    let limited = DecodeOptions {
        max_pixels: Some(100),
        ..DecodeOptions::default()
    };
    let error = decode_bytes(&bytes, limited, &reader).expect_err("refused");
    assert!(matches!(error, RasterError::InvalidDimensions));
    let error = decode_bytes_with_format(&bytes, RasterFormat::Png, limited, &reader).expect_err("refused");
    assert!(matches!(error, RasterError::InvalidDimensions));
    let error = decode_bytes(&[1, 2, 3, 4], limited, &reader).expect_err("garbage");
    assert!(matches!(error, RasterError::Image(_)));
    let decoded = decode_bytes(&bytes, DecodeOptions { max_pixels: None, ..DecodeOptions::default() }, &reader)
        .expect("decodes without a limit");
    assert_eq!(decoded.text.as_deref(), Some("fastqr area limit"));
}
