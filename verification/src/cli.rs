//! The command line of the `fastqr` tool: its commands, their arguments and
//! the messages it answers with; what runs the commands lives with the program.

use vstd::prelude::*;
use vstd::string::StringExecFns;

use crate::raster::{RasterFormat, RenderOptions};
use crate::strings::{extension_of, path_extension, 
    ascii_lower, ascii_upper, parse_unsigned, parsed_unsigned, push_char, str_equals,
    to_ascii_lowercase, to_ascii_uppercase,
};
use crate::tui::TuiRenderOptions;
use crate::types::{EncodeOptions, ErrorCorrectionLevel};

verus! {

/// A failure of the command line: the exit code and the message to show
/// (0 for help, 1 for a failed command, 2 for a usage error).
#[derive(Debug)]
pub struct CliError {
    pub exit_code: i32,
    pub message: String,
}

impl CliError {
    /// A usage error (exit code 2).
    pub fn usage(message: String) -> (r: Self)
        ensures
            r.exit_code == 2,
            r.message@ == message@,
    {
        CliError { exit_code: 2, message }
    }

    /// A help text (exit code 0).
    pub fn help(message: String) -> (r: Self)
        ensures
            r.exit_code == 0,
            r.message@ == message@,
    {
        CliError { exit_code: 0, message }
    }

    /// A failed command (exit code 1).
    pub fn command(message: String) -> (r: Self)
        ensures
            r.exit_code == 1,
            r.message@ == message@,
    {
        CliError { exit_code: 1, message }
    }
}

/// The text of the general usage message.
pub open spec fn usage_text() -> Seq<char> {
    "usage:\n  fastqr encode <text> [--ecc <L|M|Q|H>] [--quiet-zone <modules>] [--invert]\n  fastqr render <text> <output> [--format <png|jpeg|webp|svg>] [--ecc <L|M|Q|H>] [--scale <pixels>] [--border <modules>]\n  fastqr decode <image-path>\n  fastqr help\n  fastqr version\n"@
}

/// The text of the usage message of `encode`.
pub open spec fn usage_encode_text() -> Seq<char> {
    "usage:\n  fastqr encode <text> [--ecc <L|M|Q|H>] [--quiet-zone <modules>] [--invert]\n"@
}

/// The text of the usage message of `render`.
pub open spec fn usage_render_text() -> Seq<char> {
    "usage:\n  fastqr render <text> <output> [--format <png|jpeg|webp|svg>] [--ecc <L|M|Q|H>] [--scale <pixels>] [--border <modules>]\n"@
}

/// The text of the usage message of `decode`.
pub open spec fn usage_decode_text() -> Seq<char> {
    "usage:\n  fastqr decode <image-path>\n"@
}

/// The general usage message.
pub fn usage() -> (r: &'static str)
    ensures
        r@ == usage_text(),
{
    "usage:\n  fastqr encode <text> [--ecc <L|M|Q|H>] [--quiet-zone <modules>] [--invert]\n  fastqr render <text> <output> [--format <png|jpeg|webp|svg>] [--ecc <L|M|Q|H>] [--scale <pixels>] [--border <modules>]\n  fastqr decode <image-path>\n  fastqr help\n  fastqr version\n"
}

/// The usage message of `encode`.
pub fn usage_encode() -> (r: &'static str)
    ensures
        r@ == usage_encode_text(),
{
    "usage:\n  fastqr encode <text> [--ecc <L|M|Q|H>] [--quiet-zone <modules>] [--invert]\n"
}

/// The usage message of `render`.
pub fn usage_render() -> (r: &'static str)
    ensures
        r@ == usage_render_text(),
{
    "usage:\n  fastqr render <text> <output> [--format <png|jpeg|webp|svg>] [--ecc <L|M|Q|H>] [--scale <pixels>] [--border <modules>]\n"
}

/// The usage message of `decode`.
pub fn usage_decode() -> (r: &'static str)
    ensures
        r@ == usage_decode_text(),
{
    "usage:\n  fastqr decode <image-path>\n"
}

/// The output formats of `render`.
#[derive(Clone, Copy, Debug, PartialEq, Eq, Structural)]
pub enum OutputFormat {
    Png,
    Jpeg,
    WebP,
    Svg,
}

/// The format a lower-case name stands for.
pub open spec fn format_named(lower: Seq<char>) -> Option<OutputFormat> {
    if lower == "png"@ {
        Some(OutputFormat::Png)
    } else if lower == "jpg"@ || lower == "jpeg"@ {
        Some(OutputFormat::Jpeg)
    } else if lower == "webp"@ || lower == "wep"@ {
        Some(OutputFormat::WebP)
    } else if lower == "svg"@ {
        Some(OutputFormat::Svg)
    } else {
        None
    }
}

/// The format a name stands for, in any ASCII case.
pub fn output_format_for_name(name: &str) -> (r: Option<OutputFormat>)
    ensures
        r == format_named(name@.map_values(|c: char| ascii_lower(c))),
{
    let lower = to_ascii_lowercase(name);
    let lower = lower.as_str();
    if str_equals(lower, "png") {
        Some(OutputFormat::Png)
    } else if str_equals(lower, "jpg") || str_equals(lower, "jpeg") {
        Some(OutputFormat::Jpeg)
    } else if str_equals(lower, "webp") || str_equals(lower, "wep") {
        Some(OutputFormat::WebP)
    } else if str_equals(lower, "svg") {
        Some(OutputFormat::Svg)
    } else {
        None
    }
}

impl OutputFormat {
    /// The format named `value`; a usage error naming it otherwise.
    pub fn from_str(value: &str) -> (r: Result<Self, CliError>)
        ensures
            match format_named(value@.map_values(|c: char| ascii_lower(c))) {
                Some(f) => r == Ok::<OutputFormat, CliError>(f),
                None => r matches Err(e) && e.exit_code == 2 && e.message@ == "unknown output format `"@ + value@
                    + "`\n\n"@ + usage_render_text(),
            },
    {
        match output_format_for_name(value) {
            Some(format) => Ok(format),
            None => {
                let mut message = String::from_str("unknown output format `");
                message.append(value);
                message.append("`\n\n");
                message.append(usage_render());
                Err(CliError::usage(message))
            },
        }
    }

    /// The raster format; SVG is none, a usage error.
    pub fn to_raster_format(self) -> (r: Result<RasterFormat, CliError>)
        ensures
            self == OutputFormat::Png ==> r == Ok::<RasterFormat, CliError>(RasterFormat::Png),
            self == OutputFormat::Jpeg ==> r == Ok::<RasterFormat, CliError>(RasterFormat::Jpeg),
            self == OutputFormat::WebP ==> r == Ok::<RasterFormat, CliError>(RasterFormat::WebP),
            self == OutputFormat::Svg ==> (r matches Err(e) && e.exit_code == 2
                && e.message@ == "svg output is not a raster format and must be handled separately"@),
    {
        match self {
            OutputFormat::Png => Ok(RasterFormat::Png),
            OutputFormat::Jpeg => Ok(RasterFormat::Jpeg),
            OutputFormat::WebP => Ok(RasterFormat::WebP),
            OutputFormat::Svg => Err(CliError::usage(String::from_str("svg output is not a raster format and must be handled separately"))),
        }
    }
}

/// The level an upper-case name or initial stands for.
pub open spec fn level_named(upper: Seq<char>) -> Option<ErrorCorrectionLevel> {
    if upper == "L"@ || upper == "LOW"@ {
        Some(ErrorCorrectionLevel::Low)
    } else if upper == "M"@ || upper == "MEDIUM"@ {
        Some(ErrorCorrectionLevel::Medium)
    } else if upper == "Q"@ || upper == "QUARTILE"@ {
        Some(ErrorCorrectionLevel::Quartile)
    } else if upper == "H"@ || upper == "HIGH"@ {
        Some(ErrorCorrectionLevel::High)
    } else {
        None
    }
}

/// The message for an unknown error correction level.
pub open spec fn unknown_level_message(value: Seq<char>) -> Seq<char> {
    "unknown error correction level `"@ + value + "`\nexpected one of: L, M, Q, H"@
}

/// The error correction level named `value` in any ASCII case: L, M, Q, H or the full names.
pub fn parse_ecc(value: &str) -> (r: Result<ErrorCorrectionLevel, CliError>)
    ensures
        match level_named(value@.map_values(|c: char| ascii_upper(c))) {
            Some(l) => r == Ok::<ErrorCorrectionLevel, CliError>(l),
            None => r matches Err(e) && e.exit_code == 2 && e.message@ == unknown_level_message(value@),
        },
{
    let upper = to_ascii_uppercase(value);
    let upper = upper.as_str();
    if str_equals(upper, "L") || str_equals(upper, "LOW") {
        Ok(ErrorCorrectionLevel::Low)
    } else if str_equals(upper, "M") || str_equals(upper, "MEDIUM") {
        Ok(ErrorCorrectionLevel::Medium)
    } else if str_equals(upper, "Q") || str_equals(upper, "QUARTILE") {
        Ok(ErrorCorrectionLevel::Quartile)
    } else if str_equals(upper, "H") || str_equals(upper, "HIGH") {
        Ok(ErrorCorrectionLevel::High)
    } else {
        let mut message = String::from_str("unknown error correction level `");
        message.append(value);
        message.append("`\nexpected one of: L, M, Q, H");
        Err(CliError::usage(message))
    }
}

/// The message for a flag value that is no number.
pub open spec fn invalid_value_message(value: Seq<char>, flag: Seq<char>, usage: Seq<char>) -> Seq<char> {
    "invalid value for `"@ + flag + "`: `"@ + value + "`\n\n"@ + usage
}

/// Builds the message for a flag value that is no number.
fn invalid_value(value: &str, flag: &str, usage: &str) -> (r: CliError)
    ensures
        r.exit_code == 2,
        r.message@ == invalid_value_message(value@, flag@, usage@),
{
    let mut message = String::from_str("invalid value for `");
    message.append(flag);
    message.append("`: `");
    message.append(value);
    message.append("`\n\n");
    message.append(usage);
    CliError::usage(message)
}

/// A `u32` flag value.
pub fn parse_u32(value: &str, flag: &str, usage: &'static str) -> (r: Result<u32, CliError>)
    ensures
        match parsed_unsigned(value@, u32::MAX as nat) {
            Some(v) => r == Ok::<u32, CliError>(v as u32),
            None => r matches Err(e) && e.exit_code == 2 && e.message@ == invalid_value_message(value@, flag@, usage@),
        },
{
    match parse_unsigned(value, u32::MAX as u64) {
        Some(v) => Ok(v as u32),
        None => Err(invalid_value(value, flag, usage)),
    }
}

/// A `usize` flag value.
pub fn parse_usize(value: &str, flag: &str, usage: &'static str) -> (r: Result<usize, CliError>)
    ensures
        match parsed_unsigned(value@, usize::MAX as nat) {
            Some(v) => r == Ok::<usize, CliError>(v as usize),
            None => r matches Err(e) && e.exit_code == 2 && e.message@ == invalid_value_message(value@, flag@, usage@),
        },
{
    match parse_unsigned(value, usize::MAX as u64) {
        Some(v) => Ok(v as usize),
        None => Err(invalid_value(value, flag, usage)),
    }
}

/// The message for a flag given last, without its value.
pub open spec fn missing_value_message(flag: Seq<char>, usage: Seq<char>) -> Seq<char> {
    "missing value for `"@ + flag + "`\n\n"@ + usage
}

/// The argument after position `index`, the value of `flag`; a usage error if there is none.
pub fn next_value(args: &Vec<String>, index: usize, flag: &str, usage: &'static str) -> (r: Result<String, CliError>)
    ensures
        index + 1 < args@.len() ==> (r matches Ok(v) && v@ == args@[index + 1]@),
        index + 1 >= args@.len() ==> (r matches Err(e) && e.exit_code == 2 && e.message@ == missing_value_message(flag@, usage@)),
{
    if index < args.len() && args.len() - index > 1 {
        Ok(args[index + 1].clone())
    } else {
        let mut message = String::from_str("missing value for `");
        message.append(flag);
        message.append("`\n\n");
        message.append(usage);
        Err(CliError::usage(message))
    }
}

/// Encoding options: the defaults, with the weakest level raised to `error_correction` if given.
pub fn encode_options(error_correction: Option<ErrorCorrectionLevel>) -> (r: EncodeOptions)
    ensures
        r.min_version@ == 1,
        r.max_version@ == 40,
        r.min_error_correction == match error_correction {
            Some(level) => level,
            None => ErrorCorrectionLevel::Medium,
        },
        r.boost_error_correction,
        r.mask is None,
{
    let mut options = EncodeOptions::default();
    if let Some(level) = error_correction {
        options.min_error_correction = level;
    }
    options
}

/// The digit of a hex nibble.
pub open spec fn hex_digit(n: int) -> char {
    if n < 10 {
        (48 + n) as char
    } else {
        (87 + n) as char
    }
}

/// Two lower-case hex digits per byte.
pub open spec fn hex_text(bytes: Seq<u8>) -> Seq<char> {
    Seq::new(bytes.len() * 2, |k: int| if k % 2 == 0 {
        hex_digit(bytes[k / 2] as int / 16)
    } else {
        hex_digit(bytes[k / 2] as int % 16)
    })
}

/// The character of a hex nibble.
fn hex_char(n: u8) -> (r: char)
    requires
        n < 16,
    ensures
        r == hex_digit(n as int),
{
    if n < 10 {
        (48 + n) as char
    } else {
        (87 + n) as char
    }
}

/// The bytes in lower-case hex.
pub fn bytes_to_hex(bytes: &[u8]) -> (r: String)
    ensures
        r@ == hex_text(bytes@),
{
    let mut out = String::new();
    let mut i: usize = 0;
    while i < bytes.len()
        invariant
            i <= bytes@.len(),
            out@ == hex_text(bytes@.subrange(0, i as int)),
        decreases bytes.len() - i,
    {
        let byte = bytes[i];
        push_char(&mut out, hex_char(byte / 16));
        push_char(&mut out, hex_char(byte % 16));
        proof {
            assert(out@ =~= hex_text(bytes@.subrange(0, i + 1)));
        }
        i = i + 1;
    }
    proof {
        assert(bytes@.subrange(0, bytes@.len() as int) =~= bytes@);
    }
    out
}

/// The arguments as character sequences.
pub open spec fn arg_views(args: Seq<String>) -> Seq<Seq<char>> {
    args.map_values(|a: String| a@)
}

/// The characters of an optional string.
pub open spec fn opt_view(o: Option<String>) -> Option<Seq<char>> {
    match o {
        Some(s) => Some(s@),
        None => None,
    }
}

/// The message for an argument with no place.
pub open spec fn unexpected_message(arg: Seq<char>, usage: Seq<char>) -> Seq<char> {
    "unexpected argument `"@ + arg + "`\n\n"@ + usage
}

/// Builds the message for an argument with no place.
fn unexpected(arg: &str, usage: &str) -> (r: CliError)
    ensures
        r.exit_code == 2,
        r.message@ == unexpected_message(arg@, usage@),
{
    let mut message = String::from_str("unexpected argument `");
    message.append(arg);
    message.append("`\n\n");
    message.append(usage);
    CliError::usage(message)
}

/// The arguments of `encode`.
#[derive(Debug)]
pub struct EncodeCommand {
    pub text: String,
    pub error_correction: Option<ErrorCorrectionLevel>,
    pub quiet_zone: usize,
    pub invert: bool,
}

/// Parsing the arguments of `encode` from position `i` on, with what has been read so far:
/// the text, level, quiet zone and inversion, or an exit code and message.
pub open spec fn encode_parse(
    args: Seq<Seq<char>>,
    i: int,
    text: Option<Seq<char>>,
    ecc: Option<ErrorCorrectionLevel>,
    quiet: usize,
    invert: bool,
) -> Result<(Seq<char>, Option<ErrorCorrectionLevel>, usize, bool), (i32, Seq<char>)>
    decreases args.len() - i,
{
    if i < 0 || i >= args.len() {
        match text {
            Some(t) => Ok((t, ecc, quiet, invert)),
            None => Err((2, usage_encode_text())),
        }
    } else {
        let arg = args[i];
        if arg == "-h"@ || arg == "--help"@ {
            Err((0, usage_encode_text()))
        } else if arg == "--ecc"@ {
            if i + 1 >= args.len() {
                Err((2, missing_value_message("--ecc"@, usage_encode_text())))
            } else {
                match level_named(args[i + 1].map_values(|c: char| ascii_upper(c))) {
                    Some(level) => encode_parse(args, i + 2, text, Some(level), quiet, invert),
                    None => Err((2, unknown_level_message(args[i + 1]))),
                }
            }
        } else if arg == "--quiet-zone"@ {
            if i + 1 >= args.len() {
                Err((2, missing_value_message("--quiet-zone"@, usage_encode_text())))
            } else {
                match parsed_unsigned(args[i + 1], usize::MAX as nat) {
                    Some(v) => encode_parse(args, i + 2, text, ecc, v as usize, invert),
                    None => Err((2, invalid_value_message(args[i + 1], "--quiet-zone"@, usage_encode_text()))),
                }
            }
        } else if arg == "--invert"@ {
            encode_parse(args, i + 1, text, ecc, quiet, true)
        } else if text is None {
            encode_parse(args, i + 1, Some(arg), ecc, quiet, invert)
        } else {
            Err((2, unexpected_message(arg, usage_encode_text())))
        }
    }
}

/// The outcome of parsing `encode` arguments, as a command or an error.
pub open spec fn encode_outcome(args: Seq<String>, r: Result<EncodeCommand, CliError>) -> bool {
    match encode_parse(arg_views(args), 0, None, None, 2, false) {
        Ok((text, ecc, quiet, invert)) => r matches Ok(c) && c.text@ == text && c.error_correction == ecc
            && c.quiet_zone == quiet && c.invert == invert,
        Err((code, message)) => r matches Err(e) && e.exit_code == code && e.message@ == message,
    }
}

/// Parses the arguments of `encode`: the text, `--ecc`, `--quiet-zone`, `--invert`, `--help`.
pub fn parse_encode(args: Vec<String>) -> (r: Result<EncodeCommand, CliError>)
    ensures
        encode_outcome(args@, r),
{
    let ghost a = arg_views(args@);
    let mut text: Option<String> = None;
    let mut error_correction: Option<ErrorCorrectionLevel> = None;
    let mut quiet_zone = TuiRenderOptions::default().quiet_zone;
    let mut invert = false;
    let mut i: usize = 0;
    while i < args.len()
        invariant
            a == arg_views(args@),
            i <= args@.len(),
            encode_parse(a, 0, None, None, 2, false) == encode_parse(a, i as int, opt_view(text), error_correction, quiet_zone, invert),
        decreases args.len() - i,
    {
        let arg = args[i].as_str();
        proof {
            assert(arg@ == a[i as int]);
        }
        if str_equals(arg, "-h") || str_equals(arg, "--help") {
            return Err(CliError::help(String::from_str(usage_encode())));
        } else if str_equals(arg, "--ecc") {
            let value = next_value(&args, i, "--ecc", usage_encode())?;
            error_correction = Some(parse_ecc(value.as_str())?);
            i = i + 2;
        } else if str_equals(arg, "--quiet-zone") {
            let value = next_value(&args, i, "--quiet-zone", usage_encode())?;
            quiet_zone = parse_usize(value.as_str(), "--quiet-zone", usage_encode())?;
            i = i + 2;
        } else if str_equals(arg, "--invert") {
            invert = true;
            i = i + 1;
        } else if text.is_none() {
            text = Some(args[i].clone());
            i = i + 1;
        } else {
            return Err(unexpected(arg, usage_encode()));
        }
    }
    match text {
        Some(text) => Ok(EncodeCommand { text, error_correction, quiet_zone, invert }),
        None => Err(CliError::usage(String::from_str(usage_encode()))),
    }
}

/// The arguments of `render`.
#[derive(Debug)]
pub struct RenderCommand {
    pub text: String,
    pub output: String,
    pub error_correction: Option<ErrorCorrectionLevel>,
    pub scale: u32,
    pub border: u32,
    pub format: Option<OutputFormat>,
}

/// What has been read of the `render` arguments: text, output, level, scale, border, format.
pub type RenderState = (Option<Seq<char>>, Option<Seq<char>>, Option<ErrorCorrectionLevel>, u32, u32, Option<OutputFormat>);

/// Parsing the arguments of `render` from position `i` on, after state `st`.
pub open spec fn render_parse(args: Seq<Seq<char>>, i: int, st: RenderState) -> Result<RenderState, (i32, Seq<char>)>
    decreases args.len() - i,
{
    let (text, output, ecc, scale, border, format) = st;
    if i < 0 || i >= args.len() {
        if text is None || output is None {
            Err((2, usage_render_text()))
        } else {
            Ok(st)
        }
    } else {
        let arg = args[i];
        if arg == "-h"@ || arg == "--help"@ {
            Err((0, usage_render_text()))
        } else if arg == "--ecc"@ || arg == "--scale"@ || arg == "--border"@ || arg == "--format"@ {
            if i + 1 >= args.len() {
                Err((2, missing_value_message(arg, usage_render_text())))
            } else {
                let value = args[i + 1];
                if arg == "--ecc"@ {
                    match level_named(value.map_values(|c: char| ascii_upper(c))) {
                        Some(level) => render_parse(args, i + 2, (text, output, Some(level), scale, border, format)),
                        None => Err((2, unknown_level_message(value))),
                    }
                } else if arg == "--scale"@ {
                    match parsed_unsigned(value, u32::MAX as nat) {
                        Some(v) => render_parse(args, i + 2, (text, output, ecc, v as u32, border, format)),
                        None => Err((2, invalid_value_message(value, arg, usage_render_text()))),
                    }
                } else if arg == "--border"@ {
                    match parsed_unsigned(value, u32::MAX as nat) {
                        Some(v) => render_parse(args, i + 2, (text, output, ecc, scale, v as u32, format)),
                        None => Err((2, invalid_value_message(value, arg, usage_render_text()))),
                    }
                } else {
                    match format_named(value.map_values(|c: char| ascii_lower(c))) {
                        Some(f) => render_parse(args, i + 2, (text, output, ecc, scale, border, Some(f))),
                        None => Err((2, "unknown output format `"@ + value + "`\n\n"@ + usage_render_text())),
                    }
                }
            }
        } else if text is None {
            render_parse(args, i + 1, (Some(arg), output, ecc, scale, border, format))
        } else if output is None {
            render_parse(args, i + 1, (text, Some(arg), ecc, scale, border, format))
        } else {
            Err((2, unexpected_message(arg, usage_render_text())))
        }
    }
}

/// The outcome of parsing `render` arguments, as a command or an error.
pub open spec fn render_outcome(args: Seq<String>, r: Result<RenderCommand, CliError>) -> bool {
    match render_parse(arg_views(args), 0, (None, None, None, 8, 4, None)) {
        Ok((text, output, ecc, scale, border, format)) => r matches Ok(c) && Some(c.text@) == text && Some(c.output@) == output
            && c.error_correction == ecc && c.scale == scale && c.border == border && c.format == format,
        Err((code, message)) => r matches Err(e) && e.exit_code == code && e.message@ == message,
    }
}

/// Parses the arguments of `render`: text, output, `--ecc`, `--scale`, `--border`, `--format`,
/// `--help`.
pub fn parse_render(args: Vec<String>) -> (r: Result<RenderCommand, CliError>)
    ensures
        render_outcome(args@, r),
{
    let ghost a = arg_views(args@);
    let mut text: Option<String> = None;
    let mut output: Option<String> = None;
    let mut error_correction: Option<ErrorCorrectionLevel> = None;
    let mut scale = RenderOptions::default().scale;
    let mut border = RenderOptions::default().border;
    let mut format: Option<OutputFormat> = None;
    let mut i: usize = 0;
    while i < args.len()
        invariant
            a == arg_views(args@),
            i <= args@.len(),
            render_parse(a, 0, (None, None, None, 8, 4, None)) == render_parse(
                a,
                i as int,
                (opt_view(text), opt_view(output), error_correction, scale, border, format),
            ),
        decreases args.len() - i,
    {
        let arg = args[i].as_str();
        proof {
            assert(arg@ == a[i as int]);
        }
        if str_equals(arg, "-h") || str_equals(arg, "--help") {
            return Err(CliError::help(String::from_str(usage_render())));
        } else if str_equals(arg, "--ecc") {
            let value = next_value(&args, i, "--ecc", usage_render())?;
            error_correction = Some(parse_ecc(value.as_str())?);
            i = i + 2;
        } else if str_equals(arg, "--scale") {
            let value = next_value(&args, i, "--scale", usage_render())?;
            scale = parse_u32(value.as_str(), "--scale", usage_render())?;
            i = i + 2;
        } else if str_equals(arg, "--border") {
            let value = next_value(&args, i, "--border", usage_render())?;
            border = parse_u32(value.as_str(), "--border", usage_render())?;
            i = i + 2;
        } else if str_equals(arg, "--format") {
            let value = next_value(&args, i, "--format", usage_render())?;
            format = Some(OutputFormat::from_str(value.as_str())?);
            i = i + 2;
        } else if text.is_none() {
            text = Some(args[i].clone());
            i = i + 1;
        } else if output.is_none() {
            output = Some(args[i].clone());
            i = i + 1;
        } else {
            return Err(unexpected(arg, usage_render()));
        }
    }
    match (text, output) {
        (Some(text), Some(output)) => Ok(RenderCommand { text, output, error_correction, scale, border, format }),
        _ => Err(CliError::usage(String::from_str(usage_render()))),
    }
}

/// The arguments of `decode`.
#[derive(Debug)]
pub struct DecodeCommand {
    pub path: String,
}

/// Parsing the arguments of `decode` from position `i` on, after the path read so far.
pub open spec fn decode_parse(args: Seq<Seq<char>>, i: int, path: Option<Seq<char>>) -> Result<Seq<char>, (i32, Seq<char>)>
    decreases args.len() - i,
{
    if i < 0 || i >= args.len() {
        match path {
            Some(p) => Ok(p),
            None => Err((2, usage_decode_text())),
        }
    } else {
        let arg = args[i];
        if arg == "-h"@ || arg == "--help"@ {
            Err((0, usage_decode_text()))
        } else if path is None {
            decode_parse(args, i + 1, Some(arg))
        } else {
            Err((2, unexpected_message(arg, usage_decode_text())))
        }
    }
}

/// Parses the arguments of `decode`: the image path, `--help`.
pub fn parse_decode(args: Vec<String>) -> (r: Result<DecodeCommand, CliError>)
    ensures
        match decode_parse(arg_views(args@), 0, None) {
            Ok(path) => r matches Ok(c) && c.path@ == path,
            Err((code, message)) => r matches Err(e) && e.exit_code == code && e.message@ == message,
        },
{
    let ghost a = arg_views(args@);
    let mut path: Option<String> = None;
    let mut i: usize = 0;
    while i < args.len()
        invariant
            a == arg_views(args@),
            i <= args@.len(),
            decode_parse(a, 0, None) == decode_parse(a, i as int, opt_view(path)),
        decreases args.len() - i,
    {
        let arg = args[i].as_str();
        proof {
            assert(arg@ == a[i as int]);
        }
        if str_equals(arg, "-h") || str_equals(arg, "--help") {
            return Err(CliError::help(String::from_str(usage_decode())));
        } else if path.is_none() {
            path = Some(args[i].clone());
            i = i + 1;
        } else {
            return Err(unexpected(arg, usage_decode()));
        }
    }
    match path {
        Some(path) => Ok(DecodeCommand { path }),
        None => Err(CliError::usage(String::from_str(usage_decode()))),
    }
}

/// The output format a path's extension names.
pub fn infer_output_format(path: &str) -> (r: Option<OutputFormat>)
    ensures
        r == match path_extension(path@) {
            Some(extension) => format_named(extension.map_values(|c: char| ascii_lower(c))),
            None => None,
        },
{
    match extension_of(path) {
        Some(extension) => output_format_for_name(extension.as_str()),
        None => None,
    }
}

/// The message when no output format can be told from the output path.
pub open spec fn no_format_message(output: Seq<char>) -> Seq<char> {
    "could not infer output format from `"@ + output + "`\n\n"@ + usage_render_text()
}

/// The explicit format, or else the one the output path names; a usage error if neither.
pub fn resolve_output_format(output: &str, explicit: Option<OutputFormat>) -> (r: Result<OutputFormat, CliError>)
    ensures
        match explicit {
            Some(f) => r == Ok::<OutputFormat, CliError>(f),
            None => match path_extension(output@) {
                Some(extension) if format_named(extension.map_values(|c: char| ascii_lower(c))) is Some => r
                    == Ok::<OutputFormat, CliError>(format_named(extension.map_values(|c: char| ascii_lower(c))).unwrap()),
                _ => r matches Err(e) && e.exit_code == 2 && e.message@ == no_format_message(output@),
            },
        },
{
    match explicit {
        Some(format) => Ok(format),
        None => match infer_output_format(output) {
            Some(format) => Ok(format),
            None => {
                let mut message = String::from_str("could not infer output format from `");
                message.append(output);
                message.append("`\n\n");
                message.append(usage_render());
                Err(CliError::usage(message))
            },
        },
    }
}

/// A failed command with the error's message (exit code 1).
pub fn to_command_error(message: String) -> (r: CliError)
    ensures
        r.exit_code == 1,
        r.message@ == message@,
{
    CliError::command(message)
}

/// The outcome of parsing `decode` arguments, as a command or an error.
pub open spec fn decode_outcome(args: Seq<String>, r: Result<DecodeCommand, CliError>) -> bool {
    match decode_parse(arg_views(args), 0, None) {
        Ok(path) => r matches Ok(c) && c.path@ == path,
        Err((code, message)) => r matches Err(e) && e.exit_code == code && e.message@ == message,
    }
}

/// What the command line asks for: the usage text, the version, or one of the commands.
#[derive(Debug)]
pub enum Command {
    Usage,
    Version,
    Encode(EncodeCommand),
    Render(RenderCommand),
    Decode(DecodeCommand),
}

/// The message for a command that does not exist.
pub open spec fn unknown_command_message(command: Seq<char>) -> Seq<char> {
    "unknown command `"@ + command + "`\n\n"@ + usage_text()
}

/// The outcome of parsing a command line (without the program name): no argument or a help
/// word asks for the usage text, a version word for the version, and the command words for
/// their commands, parsed from the arguments after them.
pub open spec fn command_outcome(args: Seq<String>, r: Result<Command, CliError>) -> bool {
    if args.len() == 0 || args[0]@ == "help"@ || args[0]@ == "-h"@ || args[0]@ == "--help"@ {
        r matches Ok(Command::Usage)
    } else if args[0]@ == "version"@ || args[0]@ == "-V"@ || args[0]@ == "--version"@ {
        r matches Ok(Command::Version)
    } else if args[0]@ == "encode"@ {
        match r {
            Ok(Command::Encode(c)) => encode_outcome(args.drop_first(), Ok(c)),
            Err(e) => encode_outcome(args.drop_first(), Err(e)),
            _ => false,
        }
    } else if args[0]@ == "render"@ {
        match r {
            Ok(Command::Render(c)) => render_outcome(args.drop_first(), Ok(c)),
            Err(e) => render_outcome(args.drop_first(), Err(e)),
            _ => false,
        }
    } else if args[0]@ == "decode"@ {
        match r {
            Ok(Command::Decode(c)) => decode_outcome(args.drop_first(), Ok(c)),
            Err(e) => decode_outcome(args.drop_first(), Err(e)),
            _ => false,
        }
    } else {
        r matches Err(e) && e.exit_code == 2 && e.message@ == unknown_command_message(args[0]@)
    }
}

/// Parses a command line, the program name left out.
pub fn parse_command(args: Vec<String>) -> (r: Result<Command, CliError>)
    ensures
        command_outcome(args@, r),
{
    if args.len() == 0 {
        return Ok(Command::Usage);
    }
    let mut rest: Vec<String> = Vec::new();
    let mut i: usize = 1;
    while i < args.len()
        invariant
            1 <= i <= args@.len(),
            rest@.len() == i - 1,
            forall|j: int| 0 <= j < i - 1 ==> #[trigger] rest@[j]@ == args@[j + 1]@,
        decreases args.len() - i,
    {
        rest.push(args[i].clone());
        i = i + 1;
    }
    proof {
        assert(arg_views(rest@) =~= arg_views(args@.drop_first()));
    }
    let first = args[0].as_str();
    if str_equals(first, "help") || str_equals(first, "-h") || str_equals(first, "--help") {
        Ok(Command::Usage)
    } else if str_equals(first, "version") || str_equals(first, "-V") || str_equals(first, "--version") {
        Ok(Command::Version)
    } else if str_equals(first, "encode") {
        match parse_encode(rest) {
            Ok(c) => Ok(Command::Encode(c)),
            Err(e) => Err(e),
        }
    } else if str_equals(first, "render") {
        match parse_render(rest) {
            Ok(c) => Ok(Command::Render(c)),
            Err(e) => Err(e),
        }
    } else if str_equals(first, "decode") {
        match parse_decode(rest) {
            Ok(c) => Ok(Command::Decode(c)),
            Err(e) => Err(e),
        }
    } else {
        let mut message = String::from_str("unknown command `");
        message.append(first);
        message.append("`\n\n");
        message.append(usage());
        Err(CliError::usage(message))
    }
}

} // verus!
