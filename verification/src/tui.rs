//! Drawing codes as terminal text: half-block characters, two module rows per
//! line, plain or with explicit ANSI colours.

use vstd::prelude::*;
use vstd::string::StringExecFns;

use crate::strings::push_char;
use crate::types::QrCode;

verus! {

/// How a code is drawn in a terminal: modules of quiet zone around it, and whether dark and
/// light swap.
#[derive(Clone, Copy, Debug, PartialEq, Eq, Structural)]
pub struct TuiRenderOptions {
    pub quiet_zone: usize,
    pub invert: bool,
}

impl Default for TuiRenderOptions {
    /// Two modules of quiet zone, not inverted.
    fn default() -> (r: Self)
        ensures
            r.quiet_zone == 2,
            !r.invert,
    {
        TuiRenderOptions { quiet_zone: 2, invert: false }
    }
}

/// The cell (x, y) of the code drawn with `quiet_zone` light modules around it.
pub open spec fn bordered(g: Seq<Seq<bool>>, size: int, quiet_zone: int, x: int, y: int) -> bool {
    quiet_zone <= x < size + quiet_zone && quiet_zone <= y < size + quiet_zone && g[y - quiet_zone][x - quiet_zone]
}

/// Whether module (x, y) of the bordered code is dark.
pub fn module_with_border(code: &QrCode, x: usize, y: usize, quiet_zone: usize) -> (r: bool)
    requires
        code.wf(),
    ensures
        r == bordered(code.spec_modules()@, code.spec_modules().spec_size() as int, quiet_zone as int, x as int, y as int),
{
    let size = code.size();
    if x < quiet_zone || y < quiet_zone || x - quiet_zone >= size || y - quiet_zone >= size {
        return false;
    }
    code.module(x - quiet_zone, y - quiet_zone)
}

/// The half-block character showing a dark or light upper and lower module.
pub open spec fn block_char(top: bool, bottom: bool) -> char {
    if top && bottom {
        '\u{2588}'
    } else if top {
        '\u{2580}'
    } else if bottom {
        '\u{2584}'
    } else {
        ' '
    }
}

/// Side of the drawn square, quiet zone included.
pub open spec fn drawn_width(size: int, quiet_zone: int) -> int {
    size + 2 * quiet_zone
}

/// The upper module of text row `row`, column `column`, after inversion.
pub open spec fn top_module(g: Seq<Seq<bool>>, size: int, options: TuiRenderOptions, column: int, row: int) -> bool {
    bordered(g, size, options.quiet_zone as int, column, 2 * row) != options.invert
}

/// The lower module of text row `row`, column `column`, after inversion.
pub open spec fn bottom_module(g: Seq<Seq<bool>>, size: int, options: TuiRenderOptions, column: int, row: int) -> bool {
    bordered(g, size, options.quiet_zone as int, column, 2 * row + 1) != options.invert
}

/// Text row `row` of the plain drawing: one half-block per column, then a newline.
pub open spec fn plain_line(g: Seq<Seq<bool>>, size: int, options: TuiRenderOptions, row: int) -> Seq<char> {
    Seq::new(
        drawn_width(size, options.quiet_zone as int) as nat,
        |column: int| block_char(top_module(g, size, options, column, row), bottom_module(g, size, options, column, row)),
    ).push('\n')
}

/// The first `k` text rows of the plain drawing.
pub open spec fn plain_lines(g: Seq<Seq<bool>>, size: int, options: TuiRenderOptions, k: int) -> Seq<char>
    decreases k,
{
    if k <= 0 {
        Seq::empty()
    } else {
        plain_lines(g, size, options, k - 1) + plain_line(g, size, options, k - 1)
    }
}

/// Whether the upper half of a terminal cell showing `c` is inked: U+2588 FULL BLOCK and
/// U+2580 UPPER HALF BLOCK ink it; U+2584 LOWER HALF BLOCK and the space do not.
pub open spec fn upper_inked(c: char) -> bool {
    c == '\u{2588}' || c == '\u{2580}'
}

/// Whether the lower half of a terminal cell showing `c` is inked: U+2588 FULL BLOCK and
/// U+2584 LOWER HALF BLOCK ink it; U+2580 UPPER HALF BLOCK and the space do not.
pub open spec fn lower_inked(c: char) -> bool {
    c == '\u{2588}' || c == '\u{2584}'
}

/// The first `k` text rows hold `drawn_width + 1` characters each, row after row.
proof fn lemma_plain_lines_layout(g: Seq<Seq<bool>>, size: int, options: TuiRenderOptions, k: int)
    requires
        k >= 0,
        drawn_width(size, options.quiet_zone as int) >= 0,
    ensures
        plain_lines(g, size, options, k).len() == k * (drawn_width(size, options.quiet_zone as int) + 1),
        forall|row: int, j: int|
            0 <= row < k && 0 <= j <= drawn_width(size, options.quiet_zone as int) ==> #[trigger] plain_lines(g, size, options, k)[row
                * (drawn_width(size, options.quiet_zone as int) + 1) + j] == plain_line(g, size, options, row)[j],
    decreases k,
{
    let w = drawn_width(size, options.quiet_zone as int) + 1;
    if k > 0 {
        lemma_plain_lines_layout(g, size, options, k - 1);
        let prev = plain_lines(g, size, options, k - 1);
        assert((k - 1) * w + w == k * w) by (nonlinear_arith);
        assert forall|row: int, j: int| 0 <= row < k && 0 <= j < w implies #[trigger] plain_lines(g, size, options, k)[row * w + j]
            == plain_line(g, size, options, row)[j] by {
            if row < k - 1 {
                assert(row * w + j < (k - 1) * w) by (nonlinear_arith)
                    requires
                        0 <= row < k - 1,
                        0 <= j < w,
                        w >= 1,
                ;
                assert(0 <= row * w) by (nonlinear_arith)
                    requires
                        row >= 0,
                        w >= 0,
                ;
            } else {
                assert(row * w == (k - 1) * w);
            }
        }
    } else {
        assert(k * w == 0) by (nonlinear_arith)
            requires
                k == 0,
        ;
    }
}

/// The plain drawing as a terminal shows it: in text row `row`, column `column` holds a cell
/// whose upper half is inked exactly when module (column, 2 row) of the code with its quiet
/// zone is dark, and whose lower half is inked exactly when module (column, 2 row + 1) is
/// (both swapped where the drawing is inverted); each row ends with a newline.
pub proof fn lemma_plain_drawing(g: Seq<Seq<bool>>, size: int, options: TuiRenderOptions, rows: int, row: int, column: int)
    requires
        size >= 0,
        0 <= row < rows,
        0 <= column <= drawn_width(size, options.quiet_zone as int),
    ensures
        ({
            let w = drawn_width(size, options.quiet_zone as int);
            let c = plain_lines(g, size, options, rows)[row * (w + 1) + column];
            let q = options.quiet_zone as int;
            &&& column < w ==> upper_inked(c) == (bordered(g, size, q, column, 2 * row) != options.invert)
            &&& column < w ==> lower_inked(c) == (bordered(g, size, q, column, 2 * row + 1) != options.invert)
            &&& column == w ==> c == '\n'
        }),
{
    lemma_plain_lines_layout(g, size, options, rows);
}

/// Number of text rows: two module rows per text row.
pub open spec fn text_rows(size: int, quiet_zone: int) -> int {
    (drawn_width(size, quiet_zone) + 1) / 2
}

/// Draws the code with half-block characters, two module rows per line.
pub fn render_to_string(code: &QrCode, options: TuiRenderOptions) -> (r: String)
    requires
        code.wf(),
        text_rows(code.spec_modules().spec_size() as int, options.quiet_zone as int) * (drawn_width(
            code.spec_modules().spec_size() as int,
            options.quiet_zone as int,
        ) + 1) <= usize::MAX,
    ensures
        r@ == plain_lines(
            code.spec_modules()@,
            code.spec_modules().spec_size() as int,
            options,
            text_rows(code.spec_modules().spec_size() as int, options.quiet_zone as int),
        ),
{
    let ghost g = code.spec_modules()@;
    let size = code.size();
    let _ = code.version().value();
    proof {
        let rows = text_rows(size as int, options.quiet_zone as int);
        let line = drawn_width(size as int, options.quiet_zone as int) + 1;
        assert(line <= rows * line) by (nonlinear_arith)
            requires
                rows >= 1,
                line >= 0,
        ;
    }
    let width = size + options.quiet_zone * 2;
    let rows = (width + 1) / 2;
    let mut out = String::new();
    let mut row: usize = 0;
    while row < rows
        invariant
            code.wf(),
            g == code.spec_modules()@,
            size == code.spec_modules().spec_size(),
            width == drawn_width(size as int, options.quiet_zone as int),
            rows == text_rows(size as int, options.quiet_zone as int),
            width < usize::MAX,
            row <= rows,
            out@ == plain_lines(g, size as int, options, row as int),
        decreases rows - row,
    {
        let ghost start = out@;
        let mut column: usize = 0;
        while column < width
            invariant
                code.wf(),
                g == code.spec_modules()@,
                size == code.spec_modules().spec_size(),
                width == drawn_width(size as int, options.quiet_zone as int),
                width < usize::MAX,
                row < rows,
                rows == text_rows(size as int, options.quiet_zone as int),
                column <= width,
                out@ == start + plain_line(g, size as int, options, row as int).subrange(0, column as int),
            decreases width - column,
        {
            let top = module_with_border(code, column, 2 * row, options.quiet_zone);
            let bottom = module_with_border(code, column, 2 * row + 1, options.quiet_zone);
            let top = if options.invert {
                !top
            } else {
                top
            };
            let bottom = if options.invert {
                !bottom
            } else {
                bottom
            };
            let ch = if top && bottom {
                '\u{2588}'
            } else if top {
                '\u{2580}'
            } else if bottom {
                '\u{2584}'
            } else {
                ' '
            };
            push_char(&mut out, ch);
            proof {
                assert(out@ =~= start + plain_line(g, size as int, options, row as int).subrange(0, column + 1));
            }
            column = column + 1;
        }
        push_char(&mut out, '\n');
        proof {
            assert(out@ =~= start + plain_line(g, size as int, options, row as int));
        }
        row = row + 1;
    }
    out
}

/// Terminal colours.
#[derive(Clone, Copy, Debug, PartialEq, Eq, Structural)]
pub enum Color {
    Black,
    White,
}

/// A foreground and background colour; none of either is the terminal default.
#[derive(Clone, Copy, Debug, PartialEq, Eq, Structural)]
pub struct Style {
    pub fg: Option<Color>,
    pub bg: Option<Color>,
}

/// The ANSI escape sequence that sets a style.
pub open spec fn escape_text(style: Style) -> Seq<char> {
    match (style.fg, style.bg) {
        (None, None) => "\x1b[0m"@,
        (Some(Color::Black), Some(Color::White)) => "\x1b[30;47m"@,
        (Some(Color::White), Some(Color::Black)) => "\x1b[37;40m"@,
        (None, Some(Color::Black)) => "\x1b[40m"@,
        (None, Some(Color::White)) => "\x1b[47m"@,
        (Some(Color::Black), Some(Color::Black)) => "\x1b[30;40m"@,
        (Some(Color::White), Some(Color::White)) => "\x1b[37;47m"@,
        (Some(Color::Black), None) => "\x1b[30m"@,
        (Some(Color::White), None) => "\x1b[37m"@,
    }
}

impl Style {
    /// The default style: no colours.
    pub fn reset() -> (r: Self)
        ensures
            r.fg is None && r.bg is None,
    {
        Style { fg: None, bg: None }
    }

    /// The escape sequence that sets this style.
    pub fn escape(self) -> (r: &'static str)
        ensures
            r@ == escape_text(self),
    {
        match (self.fg, self.bg) {
            (None, None) => "\x1b[0m",
            (Some(Color::Black), Some(Color::White)) => "\x1b[30;47m",
            (Some(Color::White), Some(Color::Black)) => "\x1b[37;40m",
            (None, Some(Color::Black)) => "\x1b[40m",
            (None, Some(Color::White)) => "\x1b[47m",
            (Some(Color::Black), Some(Color::Black)) => "\x1b[30;40m",
            (Some(Color::White), Some(Color::White)) => "\x1b[37;47m",
            (Some(Color::Black), None) => "\x1b[30m",
            (Some(Color::White), None) => "\x1b[37m",
        }
    }
}

/// A character with its style.
#[derive(Clone, Copy, Debug, PartialEq, Eq, Structural)]
pub struct AnsiCell {
    pub ch: char,
    pub style: Style,
}

/// The cell showing a dark or light upper and lower module with explicit colours: a space on
/// the common background, or an upper half block coloured for the upper module.
pub open spec fn ansi_cell_of(top_dark: bool, bottom_dark: bool) -> AnsiCell {
    if top_dark && bottom_dark {
        AnsiCell { ch: ' ', style: Style { fg: None, bg: Some(Color::Black) } }
    } else if !top_dark && !bottom_dark {
        AnsiCell { ch: ' ', style: Style { fg: None, bg: Some(Color::White) } }
    } else if top_dark {
        AnsiCell { ch: '\u{2580}', style: Style { fg: Some(Color::Black), bg: Some(Color::White) } }
    } else {
        AnsiCell { ch: '\u{2580}', style: Style { fg: Some(Color::White), bg: Some(Color::Black) } }
    }
}

/// The coloured cell for an upper and lower module.
pub fn ansi_cell(top_dark: bool, bottom_dark: bool) -> (r: AnsiCell)
    ensures
        r == ansi_cell_of(top_dark, bottom_dark),
{
    match (top_dark, bottom_dark) {
        (true, true) => AnsiCell { ch: ' ', style: Style { fg: None, bg: Some(Color::Black) } },
        (false, false) => AnsiCell { ch: ' ', style: Style { fg: None, bg: Some(Color::White) } },
        (true, false) => AnsiCell { ch: '\u{2580}', style: Style { fg: Some(Color::Black), bg: Some(Color::White) } },
        (false, true) => AnsiCell { ch: '\u{2580}', style: Style { fg: Some(Color::White), bg: Some(Color::Black) } },
    }
}

/// The cell at column `column` of text row `row`.
pub open spec fn row_cell(g: Seq<Seq<bool>>, size: int, options: TuiRenderOptions, row: int, column: int) -> AnsiCell {
    ansi_cell_of(top_module(g, size, options, column, row), bottom_module(g, size, options, column, row))
}

/// The first `k` cells of text row `row` with escapes where the style changes, starting from
/// the default style; and the style in force after them.
pub open spec fn ansi_cells(g: Seq<Seq<bool>>, size: int, options: TuiRenderOptions, row: int, k: int) -> (Seq<char>, Style)
    decreases k,
{
    if k <= 0 {
        (Seq::empty(), Style { fg: None, bg: None })
    } else {
        let (text, current) = ansi_cells(g, size, options, row, k - 1);
        let cell = row_cell(g, size, options, row, k - 1);
        if cell.style != current {
            (text + escape_text(cell.style) + seq![cell.ch], cell.style)
        } else {
            (text.push(cell.ch), current)
        }
    }
}

/// Text row `row` of the coloured drawing: its cells, a reset unless the default style is in
/// force, and a newline.
pub open spec fn ansi_line(g: Seq<Seq<bool>>, size: int, options: TuiRenderOptions, row: int) -> Seq<char> {
    let (text, current) = ansi_cells(g, size, options, row, drawn_width(size, options.quiet_zone as int));
    (if current != (Style { fg: None, bg: None }) {
        text + escape_text(Style { fg: None, bg: None })
    } else {
        text
    }).push('\n')
}

/// The first `k` text rows of the coloured drawing.
pub open spec fn ansi_lines(g: Seq<Seq<bool>>, size: int, options: TuiRenderOptions, k: int) -> Seq<char>
    decreases k,
{
    if k <= 0 {
        Seq::empty()
    } else {
        ansi_lines(g, size, options, k - 1) + ansi_line(g, size, options, k - 1)
    }
}

/// Draws the code with explicitly coloured half blocks, two module rows per line.
pub fn render_to_ansi_string(code: &QrCode, options: TuiRenderOptions) -> (r: String)
    requires
        code.wf(),
        text_rows(code.spec_modules().spec_size() as int, options.quiet_zone as int) * (drawn_width(
            code.spec_modules().spec_size() as int,
            options.quiet_zone as int,
        ) + 1) <= usize::MAX,
    ensures
        r@ == ansi_lines(
            code.spec_modules()@,
            code.spec_modules().spec_size() as int,
            options,
            text_rows(code.spec_modules().spec_size() as int, options.quiet_zone as int),
        ),
{
    let ghost g = code.spec_modules()@;
    let size = code.size();
    let _ = code.version().value();
    proof {
        let rows = text_rows(size as int, options.quiet_zone as int);
        let line = drawn_width(size as int, options.quiet_zone as int) + 1;
        assert(line <= rows * line) by (nonlinear_arith)
            requires
                rows >= 1,
                line >= 0,
        ;
    }
    let width = size + options.quiet_zone * 2;
    let rows = (width + 1) / 2;
    let mut out = String::new();
    let mut current = Style::reset();
    let mut row: usize = 0;
    while row < rows
        invariant
            code.wf(),
            g == code.spec_modules()@,
            size == code.spec_modules().spec_size(),
            width == drawn_width(size as int, options.quiet_zone as int),
            rows == text_rows(size as int, options.quiet_zone as int),
            width < usize::MAX,
            row <= rows,
            current == (Style { fg: None, bg: None }),
            out@ == ansi_lines(g, size as int, options, row as int),
        decreases rows - row,
    {
        let ghost start = out@;
        let mut column: usize = 0;
        while column < width
            invariant
                code.wf(),
                g == code.spec_modules()@,
                size == code.spec_modules().spec_size(),
                width == drawn_width(size as int, options.quiet_zone as int),
                width < usize::MAX,
                row < rows,
                rows == text_rows(size as int, options.quiet_zone as int),
                column <= width,
                (out@.subrange(start.len() as int, out@.len() as int), current) == ansi_cells(g, size as int, options, row as int, column as int),
                out@.subrange(0, start.len() as int) == start,
                out@.len() >= start.len(),
            decreases width - column,
        {
            let top = module_with_border(code, column, 2 * row, options.quiet_zone);
            let bottom = module_with_border(code, column, 2 * row + 1, options.quiet_zone);
            let top = if options.invert {
                !top
            } else {
                top
            };
            let bottom = if options.invert {
                !bottom
            } else {
                bottom
            };
            let cell = ansi_cell(top, bottom);
            let ghost before = out@;
            if cell.style != current {
                out.append(cell.style.escape());
                current = cell.style;
            }
            push_char(&mut out, cell.ch);
            proof {
                let (text, cur) = ansi_cells(g, size as int, options, row as int, column as int);
                assert(before.subrange(start.len() as int, before.len() as int) == text);
                if cell.style != cur {
                    assert(out@.subrange(start.len() as int, out@.len() as int) =~= text + escape_text(cell.style) + seq![cell.ch]);
                } else {
                    assert(out@.subrange(start.len() as int, out@.len() as int) =~= text.push(cell.ch));
                }
                assert(out@.subrange(0, start.len() as int) =~= before.subrange(0, start.len() as int));
            }
            column = column + 1;
        }
        let ghost before_end = out@;
        if current != Style::reset() {
            out.append(Style::reset().escape());
            current = Style::reset();
        }
        push_char(&mut out, '\n');
        proof {
            assert(before_end =~= start + before_end.subrange(start.len() as int, before_end.len() as int));
            assert(out@ =~= start + ansi_line(g, size as int, options, row as int));
        }
        row = row + 1;
    }
    out
}

} // verus!
