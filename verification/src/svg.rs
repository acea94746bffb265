//! Drawing a code as SVG: one path with a rectangle per horizontal run of dark
//! modules.

use vstd::prelude::*;
use vstd::string::StringExecFns;

use crate::strings::{decimal, push_decimal};
use crate::types::QrCode;

verus! {

/// The path segment of a run of dark modules from column `start` up to `end` in row `y`,
/// shifted by the border.
pub open spec fn run_segment(start: int, end: int, y: int, border: int) -> Seq<char> {
    "M"@ + decimal((start + border) as nat) + ","@ + decimal((y + border) as nat) + "h"@ + decimal((end - start) as nat)
        + "v1h-"@ + decimal((end - start) as nat) + "z"@
}

/// The path segments of row `row` (number `y`) from column `x` on; `run` is where the dark run
/// in progress started, if one is.
pub open spec fn row_path(row: Seq<bool>, y: int, border: int, x: int, run: Option<int>) -> Seq<char>
    decreases row.len() - x,
{
    if x >= row.len() {
        match run {
            Some(start) => run_segment(start, row.len() as int, y, border),
            None => Seq::empty(),
        }
    } else if row[x] {
        match run {
            Some(start) => row_path(row, y, border, x + 1, Some(start)),
            None => row_path(row, y, border, x + 1, Some(x)),
        }
    } else {
        match run {
            Some(start) => run_segment(start, x, y, border) + row_path(row, y, border, x + 1, None),
            None => row_path(row, y, border, x + 1, None),
        }
    }
}

/// The path segments of the first `k` rows.
pub open spec fn rows_path(g: Seq<Seq<bool>>, border: int, k: int) -> Seq<char>
    decreases k,
{
    if k <= 0 {
        Seq::empty()
    } else {
        rows_path(g, border, k - 1) + row_path(g[k - 1], k - 1, border, 0, None)
    }
}

/// The SVG document: a white square `side` modules wide with the dark path on it.
pub open spec fn svg_document(side: int, path: Seq<char>) -> Seq<char> {
    "<svg xmlns=\"http://www.w3.org/2000/svg\" viewBox=\"0 0 "@ + decimal(side as nat) + " "@ + decimal(side as nat)
        + "\" shape-rendering=\"crispEdges\"><rect width=\"100%\" height=\"100%\" fill=\"#fff\"/><path d=\""@ + path
        + "\" fill=\"#000\"/></svg>"@
}

/// The dark runs of `row` from column `x` on, as (start, end) pairs, where `run` is where the
/// run in progress started.
pub open spec fn row_runs(row: Seq<bool>, x: int, run: Option<int>) -> Seq<(int, int)>
    decreases row.len() - x,
{
    if x >= row.len() {
        match run {
            Some(start) => seq![(start, row.len() as int)],
            None => Seq::empty(),
        }
    } else if row[x] {
        match run {
            Some(start) => row_runs(row, x + 1, Some(start)),
            None => row_runs(row, x + 1, Some(x)),
        }
    } else {
        match run {
            Some(start) => seq![(start, x)] + row_runs(row, x + 1, None),
            None => row_runs(row, x + 1, None),
        }
    }
}

/// The path text of a list of runs of row `y`, one closed subpath per run.
pub open spec fn runs_text(runs: Seq<(int, int)>, y: int, border: int) -> Seq<char>
    decreases runs.len(),
{
    if runs.len() == 0 {
        Seq::empty()
    } else {
        run_segment(runs[0].0, runs[0].1, y, border) + runs_text(runs.drop_first(), y, border)
    }
}

proof fn lemma_runs_text_concat(a: Seq<(int, int)>, b: Seq<(int, int)>, y: int, border: int)
    ensures
        runs_text(a + b, y, border) == runs_text(a, y, border) + runs_text(b, y, border),
    decreases a.len(),
{
    if a.len() == 0 {
        assert(a + b =~= b);
    } else {
        assert((a + b).drop_first() =~= a.drop_first() + b);
        lemma_runs_text_concat(a.drop_first(), b, y, border);
    }
}

/// Every run lies within the row from column `from` on, is non-empty, and ends before the next
/// one starts.
spec fn runs_bounded(row: Seq<bool>, runs: Seq<(int, int)>, from: int) -> bool {
    &&& forall|j: int| 0 <= j < runs.len() ==> from <= #[trigger] runs[j].0 < runs[j].1 <= row.len()
    &&& forall|j: int, k: int| 0 <= j < k < runs.len() ==> #[trigger] runs[j].1 < #[trigger] runs[k].0
}

/// The runs found from column `x` on: each is a non-empty stretch of dark modules with a light
/// module (or the row's end) after it, none starts before `x` (or before the run in
/// progress), they come in order, and a module from there on is dark exactly when some run
/// covers it.
proof fn lemma_row_runs(row: Seq<bool>, x: int, run: Option<int>)
    requires
        0 <= x <= row.len(),
        run matches Some(start) ==> 0 <= start < x && forall|i: int| start <= i < x ==> #[trigger] row[i],
    ensures
        ({
            let runs = row_runs(row, x, run);
            let from = match run {
                Some(start) => start,
                None => x,
            };
            &&& forall|j: int| 0 <= j < runs.len() ==> from <= #[trigger] runs[j].0 < runs[j].1 <= row.len()
            &&& forall|j: int, k: int| 0 <= j < k < runs.len() ==> #[trigger] runs[j].1 < #[trigger] runs[k].0
            &&& forall|j: int, i: int| 0 <= j < runs.len() && runs[j].0 <= i < runs[j].1 ==> #[trigger] row[i] && #[trigger] runs[j] == runs[j]
            &&& forall|j: int| 0 <= j < runs.len() && #[trigger] runs[j].1 < row.len() ==> !row[runs[j].1]
            &&& forall|i: int| from <= i < row.len() && #[trigger] row[i] ==> exists|j: int| 0 <= j < runs.len() && #[trigger] runs[j].0 <= i < runs[j].1
        }),
    decreases row.len() - x,
{
    if x < row.len() {
        if row[x] {
            match run {
                Some(start) => {
                    lemma_row_runs(row, x + 1, Some(start));
                    assert(row_runs(row, x, run) == row_runs(row, x + 1, Some(start)));
                    assert(runs_bounded(row, row_runs(row, x, run), start));
                },
                None => {
                    lemma_row_runs(row, x + 1, Some(x));
                    assert(row_runs(row, x, run) == row_runs(row, x + 1, Some(x)));
                    assert(runs_bounded(row, row_runs(row, x, run), x));
                },
            }
        } else {
            lemma_row_runs(row, x + 1, None);
            match run {
                Some(start) => {
                    let rest = row_runs(row, x + 1, None);
                    let runs = seq![(start, x)] + rest;
                    assert forall|i: int| start <= i < row.len() && #[trigger] row[i] implies exists|j: int|
                        0 <= j < runs.len() && #[trigger] runs[j].0 <= i < runs[j].1 by {
                        if i < x {
                            assert(runs[0].0 <= i < runs[0].1);
                        } else {
                            let j = choose|j: int| 0 <= j < rest.len() && #[trigger] rest[j].0 <= i < rest[j].1;
                            assert(runs[j + 1] == rest[j]);
                        }
                    }
                    assert forall|j: int, k: int| 0 <= j < k < runs.len() implies #[trigger] runs[j].1 < #[trigger] runs[k].0 by {
                        if j > 0 {
                            assert(runs[j] == rest[j - 1]);
                        }
                        assert(runs[k] == rest[k - 1]);
                    }
                    assert forall|j: int, i: int| 0 <= j < runs.len() && runs[j].0 <= i < runs[j].1 implies #[trigger] row[i]
                        && #[trigger] runs[j] == runs[j] by {
                        if j > 0 {
                            assert(runs[j] == rest[j - 1]);
                        }
                    }
                    assert forall|j: int| 0 <= j < runs.len() && #[trigger] runs[j].1 < row.len() implies !row[runs[j].1] by {
                        if j > 0 {
                            assert(runs[j] == rest[j - 1]);
                        }
                    }
                    assert forall|j: int| 0 <= j < runs.len() implies start <= #[trigger] runs[j].0 < runs[j].1 <= row.len() by {
                        if j > 0 {
                            assert(runs[j] == rest[j - 1]);
                        }
                    }
                    assert(row_runs(row, x, run) == runs);
                    assert(runs_bounded(row, runs, start));
                },
                None => {
                    assert(row_runs(row, x, run) == row_runs(row, x + 1, None));
                    assert(runs_bounded(row, row_runs(row, x, run), x));
                },
            }
        }
    } else {
        match run {
            Some(start) => {
                let runs = seq![(start, row.len() as int)];
                assert(runs.len() == 1 && runs[0] == (start, row.len() as int));
                assert(row_runs(row, x, run) == runs);
                assert forall|i: int| start <= i < row.len() && #[trigger] row[i] implies exists|j: int|
                    0 <= j < runs.len() && #[trigger] runs[j].0 <= i < runs[j].1 by {
                    assert(runs[0].0 <= i < runs[0].1);
                }
                assert forall|j: int| 0 <= j < runs.len() implies start <= #[trigger] runs[j].0 < runs[j].1 <= row.len() by {
                    assert(j == 0);
                }
                assert(runs_bounded(row, runs, start));
                assert forall|j: int, i: int| 0 <= j < runs.len() && runs[j].0 <= i < runs[j].1 implies #[trigger] row[i]
                    && #[trigger] runs[j] == runs[j] by {
                    assert(j == 0);
                }
            },
            None => {},
        }
    }
}

/// The path text of a row is the text of its runs.
proof fn lemma_row_path_runs(row: Seq<bool>, y: int, border: int, x: int, run: Option<int>)
    ensures
        row_path(row, y, border, x, run) == runs_text(row_runs(row, x, run), y, border),
    decreases row.len() - x,
{
    if x >= row.len() {
        match run {
            Some(start) => {
                let one = seq![(start, row.len() as int)];
                assert(one.drop_first() =~= Seq::<(int, int)>::empty());
                assert(runs_text(one.drop_first(), y, border) == Seq::<char>::empty());
                assert(one[0].0 == start);
                assert(runs_text(one, y, border) =~= run_segment(start, row.len() as int, y, border));
            },
            None => {},
        }
    } else if row[x] {
        match run {
            Some(start) => lemma_row_path_runs(row, y, border, x + 1, Some(start)),
            None => lemma_row_path_runs(row, y, border, x + 1, Some(x)),
        }
    } else {
        lemma_row_path_runs(row, y, border, x + 1, None);
        match run {
            Some(start) => {
                let one = seq![(start, x)];
                lemma_runs_text_concat(one, row_runs(row, x + 1, None), y, border);
                assert(one.drop_first() =~= Seq::<(int, int)>::empty());
                assert(runs_text(one.drop_first(), y, border) == Seq::<char>::empty());
                assert(one[0].0 == start);
                assert(runs_text(one, y, border) =~= run_segment(start, x, y, border));
            },
            None => {},
        }
    }
}

/// The path of row `y` draws exactly its dark modules: it is a sequence of closed subpaths
/// `M x,y h w v1 h-w z`, one per run, each the `w` by 1 rectangle at (`start + border`,
/// `y + border`); the runs are non-empty, in order and apart, every module they cover is
/// dark, and every dark module is covered.
pub proof fn lemma_row_drawn(row: Seq<bool>, y: int, border: int)
    ensures
        ({
            let runs = row_runs(row, 0, None);
            &&& row_path(row, y, border, 0, None) == runs_text(runs, y, border)
            &&& forall|j: int| 0 <= j < runs.len() ==> 0 <= #[trigger] runs[j].0 < runs[j].1 <= row.len()
            &&& forall|j: int, k: int| 0 <= j < k < runs.len() ==> #[trigger] runs[j].1 < #[trigger] runs[k].0
            &&& forall|j: int, i: int| 0 <= j < runs.len() && runs[j].0 <= i < runs[j].1 ==> #[trigger] row[i] && #[trigger] runs[j] == runs[j]
            &&& forall|i: int| 0 <= i < row.len() ==> (#[trigger] row[i] <==> exists|j: int| 0 <= j < runs.len() && #[trigger] runs[j].0 <= i < runs[j].1)
        }),
{
    lemma_row_path_runs(row, y, border, 0, None);
    lemma_row_runs(row, 0, None);
}

/// The SVG document paints its whole square white, then the dark modules black over it: the
/// first element inside the `<svg>` element is a rectangle covering all of it (width and height
/// 100%) filled `#fff`, and the document ends with the path of the dark modules filled `#000`.
pub proof fn lemma_svg_paint(side: int, path: Seq<char>)
    ensures
        exists|header: Seq<char>|
            header.len() >= 1 && header[0] == '<' && header.last() == '>'
                && svg_document(side, path) == header + "<rect width=\"100%\" height=\"100%\" fill=\"#fff\"/>"@ + "<path d=\""@
                + path + "\" fill=\"#000\"/>"@ + "</svg>"@,
{
    reveal_strlit("<svg xmlns=\"http://www.w3.org/2000/svg\" viewBox=\"0 0 ");
    reveal_strlit(" ");
    reveal_strlit(
        "\" shape-rendering=\"crispEdges\"><rect width=\"100%\" height=\"100%\" fill=\"#fff\"/><path d=\"",
    );
    reveal_strlit("\" fill=\"#000\"/></svg>");
    reveal_strlit("<rect width=\"100%\" height=\"100%\" fill=\"#fff\"/>");
    reveal_strlit("<path d=\"");
    reveal_strlit("\" fill=\"#000\"/>");
    reveal_strlit("</svg>");
    reveal_strlit("\" shape-rendering=\"crispEdges\">");
    let header = "<svg xmlns=\"http://www.w3.org/2000/svg\" viewBox=\"0 0 "@ + decimal(side as nat) + " "@ + decimal(side as nat)
        + "\" shape-rendering=\"crispEdges\">"@;
    assert(header[0] == '<');
    assert(header.last() == '>');
    assert(svg_document(side, path) =~= header + "<rect width=\"100%\" height=\"100%\" fill=\"#fff\"/>"@ + "<path d=\""@ + path
        + "\" fill=\"#000\"/>"@ + "</svg>"@);
    assert(header.len() >= 1 && header[0] == '<' && header.last() == '>' && svg_document(side, path) == header
        + "<rect width=\"100%\" height=\"100%\" fill=\"#fff\"/>"@ + "<path d=\""@ + path + "\" fill=\"#000\"/>"@ + "</svg>"@);
}

impl QrCode {
    /// The code as an SVG document, one unit per module, with `border` light modules around it.
    pub fn to_svg_string(&self, border: usize) -> (r: String)
        requires
            self.wf(),
            self.spec_modules().spec_size() + 2 * border <= usize::MAX,
        ensures
            r@ == svg_document(
                self.spec_modules().spec_size() + 2 * border,
                rows_path(self.spec_modules()@, border as int, self.spec_modules().spec_size() as int),
            ),
    {
        let ghost g = self.spec_modules()@;
        let size = self.size();
        let _ = self.version().value();
        proof {
            self.spec_modules().lemma_shape();
        }
        let mut path = String::new();
        let mut y: usize = 0;
        while y < size
            invariant
                self.wf(),
                g == self.spec_modules()@,
                size == self.spec_modules().spec_size(),
                size <= 177,
                g.len() == size,
                forall|yy: int| 0 <= yy < size ==> #[trigger] g[yy].len() == size,
                size + 2 * border <= usize::MAX,
                y <= size,
                path@ == rows_path(g, border as int, y as int),
            decreases size - y,
        {
            let ghost row = g[y as int];
            let ghost base = path@;
            let mut x: usize = 0;
            while x < size
                invariant
                    self.wf(),
                    g == self.spec_modules()@,
                    size == self.spec_modules().spec_size(),
                    size <= 177,
                    row == g[y as int],
                    row.len() == size,
                    y < size,
                    size + 2 * border <= usize::MAX,
                    x <= size,
                    path@.len() >= base.len(),
                    path@.subrange(0, base.len() as int) == base,
                    row_path(row, y as int, border as int, 0, None) == path@.subrange(base.len() as int, path@.len() as int)
                        + row_path(row, y as int, border as int, x as int, None),
                decreases size - x,
            {
                if !self.module(x, y) {
                    x = x + 1;
                    continue;
                }
                let start = x;
                while x < size && self.module(x, y)
                    invariant
                        self.wf(),
                        g == self.spec_modules()@,
                        size == self.spec_modules().spec_size(),
                        row == g[y as int],
                        row.len() == size,
                        y < size,
                        start < x <= size || x == start,
                        start < size,
                        row[start as int],
                        row_path(row, y as int, border as int, start as int, None) == if x == start {
                            row_path(row, y as int, border as int, start as int, None)
                        } else {
                            row_path(row, y as int, border as int, x as int, Some(start as int))
                        },
                    decreases size - x,
                {
                    x = x + 1;
                }
                let ghost before = path@;
                path.append("M");
                push_decimal(&mut path, (start + border) as u64);
                path.append(",");
                push_decimal(&mut path, (y + border) as u64);
                path.append("h");
                push_decimal(&mut path, (x - start) as u64);
                path.append("v1h-");
                push_decimal(&mut path, (x - start) as u64);
                path.append("z");
                proof {
                    let seg = run_segment(start as int, x as int, y as int, border as int);
                    assert(path@ =~= before + seg);
                    assert(row_path(row, y as int, border as int, start as int, None) == seg + row_path(row, y as int, border as int, x as int, None));
                    let done = before.subrange(base.len() as int, before.len() as int);
                    assert(path@.subrange(base.len() as int, path@.len() as int) =~= done + seg);
                    assert(path@.subrange(0, base.len() as int) =~= before.subrange(0, base.len() as int));
                }
            }
            proof {
                assert(path@ =~= base + path@.subrange(base.len() as int, path@.len() as int));
            }
            y = y + 1;
        }
        let side = size + border * 2;
        let mut svg = String::from_str("<svg xmlns=\"http://www.w3.org/2000/svg\" viewBox=\"0 0 ");
        push_decimal(&mut svg, side as u64);
        svg.append(" ");
        push_decimal(&mut svg, side as u64);
        svg.append("\" shape-rendering=\"crispEdges\"><rect width=\"100%\" height=\"100%\" fill=\"#fff\"/><path d=\"");
        svg.append(path.as_str());
        svg.append("\" fill=\"#000\"/></svg>");
        svg
    }
}

} // verus!
