use fastqr::encode::encode_text;
use fastqr::tui::{render_to_ansi_string, render_to_string, TuiRenderOptions};
use fastqr::types::EncodeOptions;

#[test]
fn plain_renderer_does_not_emit_ansi_sequences() {
    let code = encode_text("FASTQR", EncodeOptions::default()).expect("encodes");
    let rendered = render_to_string(&code, TuiRenderOptions::default());
    assert!(!rendered.contains("\x1b["));
}

#[test]
fn ansi_renderer_emits_explicit_black_and_white_cells() {
    let code = encode_text("FASTQR", EncodeOptions::default()).expect("encodes");
    let rendered = render_to_ansi_string(&code, TuiRenderOptions::default());
    assert!(rendered.contains("\x1b[40m") || rendered.contains("\x1b[30;47m"));
    assert!(rendered.contains("\x1b[47m") || rendered.contains("\x1b[37;40m"));
    assert!(rendered.ends_with("\n"));
}

#[test]
fn plain_rendering_has_one_line_per_two_rows() {
    let code = encode_text("FASTQR", EncodeOptions::default()).expect("encodes");
    let options = TuiRenderOptions { quiet_zone: 2, invert: false };
    let rendered = render_to_string(&code, options);
    let side = code.size() + 4;
    let lines: Vec<&str> = rendered.lines().collect();
    assert_eq!(lines.len(), (side + 1) / 2);
    for line in &lines {
        assert_eq!(line.chars().count(), side);
    }
    assert!(lines[0].chars().all(|c| c == ' '));
}

#[test]
fn inverted_rendering_swaps_cells() {
    let code = encode_text("FASTQR", EncodeOptions::default()).expect("encodes");
    let plain = render_to_string(&code, TuiRenderOptions { quiet_zone: 0, invert: false });
    let inverted = render_to_string(&code, TuiRenderOptions { quiet_zone: 0, invert: true });
    assert_ne!(plain, inverted);
    assert_eq!(plain.lines().count(), inverted.lines().count());
}
