//! The full detection pipeline: pixel grid to cell rectangles.
//!
//! Runs are scanned along both axes, the runs of each scan index are merged
//! and length-filtered into border candidates, the candidates of each axis
//! are deduplicated into grid lines, and adjacent lines are paired into inset
//! cell rectangles. Recognizing the text inside each rectangle is the
//! caller's business.

use vstd::prelude::*;

use crate::dedup::Line;
use crate::dedup::dedup_spec;
use crate::dedup::deduplicate_lines;
use crate::dedup::sort_lines;
use crate::grid::CellRect;
use crate::grid::assemble_cells;
use crate::grid::cells_spec;
use crate::grid::pair_levels;
use crate::grid::pairs_spec;
use crate::pixels::PixelGrid;
use crate::scan::column_runs;
use crate::scan::row_runs;
use crate::scan::scan_columns;
use crate::scan::scan_rows;
use crate::segment::Span;
use crate::segment::clean_lines;
use crate::segment::clean_spec;
use crate::segment::sort_spans;

verus! {

/// The tunable thresholds of the detector. The default values assume a
/// scanned page at ordinary resolution: intensities below 200 are dark, runs
/// less than 5 pixels apart belong to one border, candidate positions may
/// drift up to 10 pixels, a border's two extreme samples must be 10 scan
/// indices apart, and each cell is inset by 4 pixels per side.
pub struct Config {
    /// A pixel is dark when its intensity is strictly below this.
    pub dark_threshold: u8,
    /// Runs whose gap is below this merge into one segment.
    pub merge_gap: u32,
    /// Candidates whose start and end drift less than this match.
    pub dedup_tolerance: u32,
    /// Matching candidates must be this many indices apart to be emitted.
    pub dedup_min_separation: u32,
    /// Cell rectangles shrink by this many pixels on every side.
    pub inset: u32,
}

impl Default for Config {
    /// The default thresholds of the detector.
    fn default() -> (r: Config)
        ensures
            r.dark_threshold == 200,
            r.merge_gap == 5,
            r.dedup_tolerance == 10,
            r.dedup_min_separation == 10,
            r.inset == 4,
    {
        Config {
            dark_threshold: 200,
            merge_gap: 5,
            dedup_tolerance: 10,
            dedup_min_separation: 10,
            inset: 4,
        }
    }
}

/// A vertical border candidate must span at least a tenth of the image
/// height, rounded half up.
pub open spec fn vertical_min_spec(height: u32) -> int {
    (height + 5) / 10
}

/// A horizontal border candidate must span at least three quarters of the
/// image width, rounded half up.
pub open spec fn horizontal_min_spec(width: u32) -> int {
    (3 * width + 2) / 4
}

/// The minimum length of a vertical border segment in an image of the given
/// height: one tenth of it, rounded half up.
pub fn vertical_min_length(height: u32) -> (r: u32)
    ensures
        r == vertical_min_spec(height),
{
    (((height as u64) + 5) / 10) as u32
}

/// The minimum length of a horizontal border segment in an image of the
/// given width: three quarters of it, rounded half up.
pub fn horizontal_min_length(width: u32) -> (r: u32)
    ensures
        r == horizontal_min_spec(width),
{
    ((3 * (width as u64) + 2) / 4) as u32
}

/// The spans of the runs tagged with index `idx` among the first `j` runs,
/// in order.
pub open spec fn spans_at(runs: Seq<Line>, idx: u32, j: int) -> Seq<Span>
    decreases j,
{
    if j <= 0 {
        Seq::empty()
    } else {
        spans_at(runs, idx, j - 1) + if runs[j - 1].0 == idx {
            seq![(runs[j - 1].1, runs[j - 1].2)]
        } else {
            Seq::empty()
        }
    }
}

/// The cleaned segments of one scan index, tagged with that index.
pub open spec fn index_candidates(runs: Seq<Line>, idx: u32, gap: u32, min_len: u32) -> Seq<Line> {
    clean_spec(sort_spans(spans_at(runs, idx, runs.len() as int)), gap, min_len).map_values(
        |p: Span| (idx, p.0, p.1),
    )
}

/// The border candidates of the first `n` scan indices, index by index.
pub open spec fn candidates_upto(runs: Seq<Line>, n: int, gap: u32, min_len: u32) -> Seq<Line>
    decreases n,
{
    if n <= 0 {
        Seq::empty()
    } else {
        candidates_upto(runs, n - 1, gap, min_len) + index_candidates(
            runs,
            (n - 1) as u32,
            gap,
            min_len,
        )
    }
}

/// Gathers, for every scan index below `n`, the runs at that index, merges
/// them into segments and keeps the ones long enough to be borders: the
/// candidate stream of one axis, ordered by index.
pub fn collect_candidates(runs: &Vec<Line>, n: u32, gap: u32, min_len: u32) -> (r: Vec<Line>)
    ensures
        r@ == candidates_upto(runs@, n as int, gap, min_len),
{
    let mut out: Vec<Line> = Vec::new();
    let mut idx: u32 = 0;
    while idx < n
        invariant
            idx <= n,
            out@ == candidates_upto(runs@, idx as int, gap, min_len),
        decreases n - idx,
    {
        let mut here: Vec<Span> = Vec::new();
        let mut j: usize = 0;
        while j < runs.len()
            invariant
                j <= runs@.len(),
                here@ == spans_at(runs@, idx, j as int),
            decreases runs@.len() - j,
        {
            let (i0, s0, e0) = runs[j];
            if i0 == idx {
                here.push((s0, e0));
            }
            j = j + 1;
        }
        let cleaned = clean_lines(here, gap, min_len);
        let ghost cleaned_view = cleaned@;
        let mut k: usize = 0;
        proof {
            assert(cleaned_view.take(0).map_values(|p: Span| (idx, p.0, p.1)) =~= Seq::<
                Line,
            >::empty());
        }
        while k < cleaned.len()
            invariant
                k <= cleaned@.len(),
                cleaned@ == cleaned_view,
                out@ == candidates_upto(runs@, idx as int, gap, min_len) + cleaned_view.take(
                    k as int,
                ).map_values(|p: Span| (idx, p.0, p.1)),
            decreases cleaned@.len() - k,
        {
            let (s1, e1) = cleaned[k];
            out.push((idx, s1, e1));
            proof {
                assert(cleaned_view.take(k + 1).map_values(|p: Span| (idx, p.0, p.1))
                    =~= cleaned_view.take(k as int).map_values(|p: Span| (idx, p.0, p.1)).push(
                    (idx, s1, e1),
                ));
            }
            k = k + 1;
        }
        proof {
            assert(cleaned_view.take(cleaned_view.len() as int) =~= cleaned_view);
            assert(out@ =~= candidates_upto(runs@, idx + 1, gap, min_len));
        }
        idx = idx + 1;
    }
    out
}

/// The deduplicated vertical grid lines of the whole image.
pub open spec fn column_lines_spec(g: PixelGrid, cfg: Config) -> Seq<Line> {
    dedup_spec(
        sort_lines(
            candidates_upto(
                column_runs(g, cfg.dark_threshold),
                g.spec_width() as int,
                cfg.merge_gap,
                vertical_min_spec(g.spec_height()) as u32,
            ),
        ),
        cfg.dedup_tolerance,
        cfg.dedup_min_separation,
    )
}

/// The deduplicated horizontal grid lines of the whole image.
pub open spec fn row_lines_spec(g: PixelGrid, cfg: Config) -> Seq<Line> {
    dedup_spec(
        sort_lines(
            candidates_upto(
                row_runs(g, cfg.dark_threshold),
                g.spec_height() as int,
                cfg.merge_gap,
                horizontal_min_spec(g.spec_width()) as u32,
            ),
        ),
        cfg.dedup_tolerance,
        cfg.dedup_min_separation,
    )
}

/// The cell matrix of the whole image, row-major.
pub open spec fn detect_spec(g: PixelGrid, cfg: Config) -> Seq<Seq<CellRect>> {
    cells_spec(
        pairs_spec(row_lines_spec(g, cfg)),
        pairs_spec(column_lines_spec(g, cfg)),
        cfg.inset,
    )
}

/// Runs the whole detector on a binarized pixel grid: scans both axes for
/// dark runs, merges and filters them into border candidates, deduplicates
/// the candidates into grid lines, and pairs adjacent lines into inset cell
/// rectangles, row-major. An image without a detectable ruled grid yields an
/// empty matrix, never an error.
pub fn detect_cells(grid: &PixelGrid, cfg: &Config) -> (r: Vec<Vec<CellRect>>)
    requires
        grid.wf(),
    ensures
        r@.len() == detect_spec(*grid, *cfg).len(),
        forall|i: int| 0 <= i < r@.len() ==> r@[i]@ == detect_spec(*grid, *cfg)[i],
{
    let vruns = scan_columns(grid, cfg.dark_threshold);
    let vmin = vertical_min_length(grid.height());
    let vcands = collect_candidates(&vruns, grid.width(), cfg.merge_gap, vmin);
    let vlines = deduplicate_lines(vcands, cfg.dedup_tolerance, cfg.dedup_min_separation);

    let hruns = scan_rows(grid, cfg.dark_threshold);
    let hmin = horizontal_min_length(grid.width());
    let hcands = collect_candidates(&hruns, grid.height(), cfg.merge_gap, hmin);
    let hlines = deduplicate_lines(hcands, cfg.dedup_tolerance, cfg.dedup_min_separation);

    let xpairs = pair_levels(&vlines);
    let ypairs = pair_levels(&hlines);
    assemble_cells(&ypairs, &xpairs, cfg.inset)
}

} // verus!
