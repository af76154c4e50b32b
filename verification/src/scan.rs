//! Detection of maximal dark-pixel runs along both axes of the pixel grid.
//!
//! Every column and every row is scanned once. A run opens at the first dark
//! pixel after a light pixel (or the start of the scan line) and closes at
//! the next light pixel; a run still open when the scan line ends is dropped,
//! so a border flush with the image edge leaves no run.

use vstd::prelude::*;

use crate::dedup::Line;
use crate::pixels::PixelGrid;
use crate::segment::Span;

verus! {

/// Whether the pixel at `(x, y)` counts as dark under threshold `thr`.
pub open spec fn is_dark(g: PixelGrid, thr: u8, x: int, y: int) -> bool {
    g.intensity(x, y) < thr
}

/// The darkness flags of column `x`, scanned over `y`.
pub open spec fn column_flags(g: PixelGrid, thr: u8, x: int) -> Seq<bool> {
    Seq::new(g.spec_height() as nat, |y: int| is_dark(g, thr, x, y))
}

/// The darkness flags of row `y`, scanned over `x`.
pub open spec fn row_flags(g: PixelGrid, thr: u8, y: int) -> Seq<bool> {
    Seq::new(g.spec_width() as nat, |x: int| is_dark(g, thr, x, y))
}

/// The runs still to be closed in a scan line from position `i` on, with
/// `start` the opening coordinate of the run currently open, if any. A run
/// open when the line ends is dropped.
pub open spec fn line_scan(line: Seq<bool>, i: int, start: Option<u32>) -> Seq<Span>
    decreases line.len() - i,
{
    if i < 0 || i >= line.len() {
        Seq::empty()
    } else if line[i] {
        if start is None {
            line_scan(line, i + 1, Some(i as u32))
        } else {
            line_scan(line, i + 1, start)
        }
    } else {
        match start {
            Some(st) => seq![(st, i as u32)] + line_scan(line, i + 1, None),
            None => line_scan(line, i + 1, None),
        }
    }
}

/// The maximal dark runs of one scan line.
pub open spec fn line_runs(line: Seq<bool>) -> Seq<Span> {
    line_scan(line, 0, None)
}

/// The spans tagged with the fixed coordinate of their scan line.
pub open spec fn tag_index(s: Seq<Span>, idx: u32) -> Seq<Line> {
    s.map_values(|p: Span| (idx, p.0, p.1))
}

/// All runs of the first `x` columns, column by column.
pub open spec fn column_runs_upto(g: PixelGrid, thr: u8, x: int) -> Seq<Line>
    decreases x,
{
    if x <= 0 {
        Seq::empty()
    } else {
        column_runs_upto(g, thr, x - 1) + tag_index(
            line_runs(column_flags(g, thr, x - 1)),
            (x - 1) as u32,
        )
    }
}

/// All runs of the first `y` rows, row by row.
pub open spec fn row_runs_upto(g: PixelGrid, thr: u8, y: int) -> Seq<Line>
    decreases y,
{
    if y <= 0 {
        Seq::empty()
    } else {
        row_runs_upto(g, thr, y - 1) + tag_index(
            line_runs(row_flags(g, thr, y - 1)),
            (y - 1) as u32,
        )
    }
}

/// The vertical runs of the whole grid: one scan per column, tagged with the
/// column's x coordinate, the span over y.
pub open spec fn column_runs(g: PixelGrid, thr: u8) -> Seq<Line> {
    column_runs_upto(g, thr, g.spec_width() as int)
}

/// The horizontal runs of the whole grid: one scan per row, tagged with the
/// row's y coordinate, the span over x.
pub open spec fn row_runs(g: PixelGrid, thr: u8) -> Seq<Line> {
    row_runs_upto(g, thr, g.spec_height() as int)
}

proof fn lemma_tag_index_add(a: Seq<Span>, b: Seq<Span>, idx: u32)
    ensures
        tag_index(a + b, idx) == tag_index(a, idx) + tag_index(b, idx),
{
    assert(tag_index(a + b, idx) =~= tag_index(a, idx) + tag_index(b, idx));
}

/// Scans every column top to bottom and returns the maximal dark runs as
/// `(x, y_start, y_end)`, the end exclusive; a run still open at the bottom
/// edge is dropped.
pub fn scan_columns(grid: &PixelGrid, dark: u8) -> (r: Vec<Line>)
    requires
        grid.wf(),
    ensures
        r@ == column_runs(*grid, dark),
{
    let mut runs: Vec<Line> = Vec::new();
    let width = grid.width();
    let height = grid.height();

    let mut x: u32 = 0;
    while x < width
        invariant
            grid.wf(),
            width == grid.spec_width(),
            height == grid.spec_height(),
            x <= width,
            runs@ == column_runs_upto(*grid, dark, x as int),
        decreases width - x,
    {
        let ghost line = column_flags(*grid, dark, x as int);
        let mut start: Option<u32> = None;
        let mut y: u32 = 0;
        proof {
            assert(runs@ + tag_index(line_scan(line, 0, None), x) == column_runs_upto(
                *grid,
                dark,
                x + 1,
            ));
        }
        while y < height
            invariant
                grid.wf(),
                width == grid.spec_width(),
                height == grid.spec_height(),
                x < width,
                y <= height,
                line == column_flags(*grid, dark, x as int),
                start is Some ==> start.unwrap() <= y,
                runs@ + tag_index(line_scan(line, y as int, start), x) == column_runs_upto(
                    *grid,
                    dark,
                    x + 1,
                ),
            decreases height - y,
        {
            proof {
                assert(line[y as int] == is_dark(*grid, dark, x as int, y as int));
            }
            if grid.get(x, y) < dark {
                if start.is_none() {
                    start = Some(y);
                }
            } else {
                if let Some(st) = start {
                    proof {
                        lemma_tag_index_add(
                            seq![(st, y)],
                            line_scan(line, y as int + 1, None),
                            x,
                        );
                        assert(tag_index(seq![(st, y)], x) =~= seq![(x, st, y)]);
                    }
                    runs.push((x, st, y));
                    start = None;
                }
            }
            y = y + 1;
        }
        proof {
            assert(line_scan(line, height as int, start) =~= Seq::<Span>::empty());
            assert(runs@ + Seq::<Line>::empty() =~= runs@);
            assert(tag_index(Seq::<Span>::empty(), x) =~= Seq::<Line>::empty());
        }
        x = x + 1;
    }
    runs
}

/// Scans every row left to right and returns the maximal dark runs as
/// `(y, x_start, x_end)`, the end exclusive; a run still open at the right
/// edge is dropped.
pub fn scan_rows(grid: &PixelGrid, dark: u8) -> (r: Vec<Line>)
    requires
        grid.wf(),
    ensures
        r@ == row_runs(*grid, dark),
{
    let mut runs: Vec<Line> = Vec::new();
    let width = grid.width();
    let height = grid.height();

    let mut y: u32 = 0;
    while y < height
        invariant
            grid.wf(),
            width == grid.spec_width(),
            height == grid.spec_height(),
            y <= height,
            runs@ == row_runs_upto(*grid, dark, y as int),
        decreases height - y,
    {
        let ghost line = row_flags(*grid, dark, y as int);
        let mut start: Option<u32> = None;
        let mut x: u32 = 0;
        proof {
            assert(runs@ + tag_index(line_scan(line, 0, None), y) == row_runs_upto(
                *grid,
                dark,
                y + 1,
            ));
        }
        while x < width
            invariant
                grid.wf(),
                width == grid.spec_width(),
                height == grid.spec_height(),
                y < height,
                x <= width,
                line == row_flags(*grid, dark, y as int),
                start is Some ==> start.unwrap() <= x,
                runs@ + tag_index(line_scan(line, x as int, start), y) == row_runs_upto(
                    *grid,
                    dark,
                    y + 1,
                ),
            decreases width - x,
        {
            proof {
                assert(line[x as int] == is_dark(*grid, dark, x as int, y as int));
            }
            if grid.get(x, y) < dark {
                if start.is_none() {
                    start = Some(x);
                }
            } else {
                if let Some(st) = start {
                    proof {
                        lemma_tag_index_add(
                            seq![(st, x)],
                            line_scan(line, x as int + 1, None),
                            y,
                        );
                        assert(tag_index(seq![(st, x)], y) =~= seq![(y, st, x)]);
                    }
                    runs.push((y, st, x));
                    start = None;
                }
            }
            x = x + 1;
        }
        proof {
            assert(line_scan(line, width as int, start) =~= Seq::<Span>::empty());
            assert(runs@ + Seq::<Line>::empty() =~= runs@);
            assert(tag_index(Seq::<Span>::empty(), y) =~= Seq::<Line>::empty());
        }
        y = y + 1;
    }
    runs
}

} // verus!
