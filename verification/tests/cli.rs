use fastqr::cli::{
    bytes_to_hex, infer_output_format, parse_command, parse_decode, parse_ecc, parse_encode, parse_render,
    Command, OutputFormat,
};
use fastqr::raster::RasterFormat;
use fastqr::types::ErrorCorrectionLevel;

fn args(items: &[&str]) -> Vec<String> {
    items.iter().map(|s| s.to_string()).collect()
}

#[test]
fn infers_output_format_from_extension() {
    assert_eq!(infer_output_format("code.png"), Some(OutputFormat::Png));
    assert_eq!(infer_output_format("code.webp"), Some(OutputFormat::WebP));
    assert_eq!(infer_output_format("code.svg"), Some(OutputFormat::Svg));
    assert_eq!(infer_output_format("code.unknown"), None);
}

#[test]
fn encodes_bytes_as_hex() {
    assert_eq!(bytes_to_hex(&[0x00, 0x7f, 0xab, 0xff]), "007fabff");
}

#[test]
fn parses_encode_command_options() {
    let command = parse_encode(args(&["hello", "--ecc", "H", "--quiet-zone", "4", "--invert"]))
        .expect("parses");
    assert_eq!(command.text, "hello");
    assert_eq!(command.error_correction, Some(ErrorCorrectionLevel::High));
    assert_eq!(command.quiet_zone, 4);
    assert!(command.invert);
}

#[test]
fn parses_render_command_options() {
    let command = parse_render(args(&[
        "hello", "code.svg", "--format", "svg", "--ecc", "Q", "--scale", "12", "--border", "3",
    ]))
    .expect("parses");
    assert_eq!(command.text, "hello");
    assert_eq!(command.output, "code.svg");
    assert_eq!(command.format, Some(OutputFormat::Svg));
    assert_eq!(command.error_correction, Some(ErrorCorrectionLevel::Quartile));
    assert_eq!(command.scale, 12);
    assert_eq!(command.border, 3);
}

#[test]
fn parses_decode_command() {
    let command = parse_decode(args(&["code.png"])).expect("parses");
    assert_eq!(command.path, "code.png");
}

#[test]
fn parses_error_correction_aliases() {
    assert_eq!(parse_ecc("low").expect("parses"), ErrorCorrectionLevel::Low);
    assert_eq!(parse_ecc("quartile").expect("parses"), ErrorCorrectionLevel::Quartile);
}

#[test]
fn command_errors_carry_exit_codes() {
    let error = parse_encode(args(&["--help"])).expect_err("help");
    assert_eq!(error.exit_code, 0);
    let error = parse_encode(args(&[])).expect_err("usage");
    assert_eq!(error.exit_code, 2);
    let error = parse_encode(args(&["a", "b"])).expect_err("two texts");
    assert_eq!(error.exit_code, 2);
    let error = parse_render(args(&["hello", "out.png", "--scale"])).expect_err("missing value");
    assert_eq!(error.exit_code, 2);
    assert!(error.message.starts_with("missing value for `--scale`"));
    let error = parse_render(args(&["hello", "out.png", "--scale", "x"])).expect_err("bad value");
    assert!(error.message.starts_with("invalid value for `--scale`: `x`"));
    let error = parse_ecc("extreme").expect_err("unknown level");
    assert_eq!(error.exit_code, 2);
    let error = parse_decode(args(&[])).expect_err("no path");
    assert_eq!(error.exit_code, 2);
}

#[test]
fn output_formats_map_to_raster_formats() {
    assert_eq!(OutputFormat::from_str("JPEG").expect("parses"), OutputFormat::Jpeg);
    assert_eq!(OutputFormat::Png.to_raster_format().expect("raster"), RasterFormat::Png);
    assert!(OutputFormat::Svg.to_raster_format().is_err());
    assert_eq!(infer_output_format("photo.JPG"), Some(OutputFormat::Jpeg));
    assert_eq!(infer_output_format("noextension"), None);
}

#[test]
fn command_words_select_commands() {
    assert!(matches!(parse_command(args(&[])), Ok(Command::Usage)));
    assert!(matches!(parse_command(args(&["--help"])), Ok(Command::Usage)));
    assert!(matches!(parse_command(args(&["-V"])), Ok(Command::Version)));
    match parse_command(args(&["encode", "hi", "--invert"])) {
        Ok(Command::Encode(command)) => {
            assert_eq!(command.text, "hi");
            assert!(command.invert);
        }
        other => panic!("unexpected {other:?}"),
    }
    match parse_command(args(&["decode", "a.png"])) {
        Ok(Command::Decode(command)) => assert_eq!(command.path, "a.png"),
        other => panic!("unexpected {other:?}"),
    }
    let error = parse_command(args(&["frobnicate"])).expect_err("unknown");
    assert_eq!(error.exit_code, 2);
    assert!(error.message.starts_with("unknown command `frobnicate`\n\nusage:"));
}
