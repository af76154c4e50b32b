//! Pairing of grid lines into cell rectangles.
//!
//! The deduplicated lines of one axis are taken two at a time, in order; an
//! axis with an odd count leaves its last line unused. Each row pair crossed
//! with each column pair bounds one cell, shrunk inward by the inset so the
//! recognized text excludes the border pixels. The surrounding pipeline hands
//! each rectangle to the text recognizer unchanged.
//!
//! A pair whose lines sit so close together that the inset would leave no
//! interior (where unchecked unsigned arithmetic would wrap below zero)
//! yields no rectangle: such a degenerate cell is skipped, never clamped or
//! reported as an error.

use vstd::prelude::*;

use crate::dedup::Line;

verus! {

/// One table cell: the region between two adjacent column lines and two
/// adjacent row lines, inset away from the borders.
#[derive(Clone, Copy, PartialEq, Eq, Structural, Debug)]
pub struct CellRect {
    pub x: u32,
    pub y: u32,
    pub width: u32,
    pub height: u32,
}

/// Consecutive disjoint pairs of the lines' scan indices, in order; a
/// trailing unpaired line is unused.
pub open spec fn pairs_spec(s: Seq<Line>) -> Seq<(u32, u32)> {
    Seq::new((s.len() / 2) as nat, |i: int| (s[2 * i].0, s[2 * i + 1].0))
}

/// Groups an axis's grid lines into consecutive pairs of scan indices:
/// exactly `floor(n / 2)` pairs, an odd count dropping the last line.
pub fn pair_levels(lines: &Vec<Line>) -> (r: Vec<(u32, u32)>)
    ensures
        r@ == pairs_spec(lines@),
        r@.len() == lines@.len() / 2,
{
    let mut out: Vec<(u32, u32)> = Vec::new();
    let len: usize = lines.len();
    let n: usize = len / 2;
    let mut i: usize = 0;
    while i < n
        invariant
            len == lines@.len(),
            n == lines@.len() / 2,
            i <= n,
            out@.len() == i,
            forall|j: int| 0 <= j < out@.len() ==> out@[j] == (lines@[2 * j].0, lines@[2 * j + 1].0),
        decreases n - i,
    {
        out.push((lines[2 * i].0, lines[2 * i + 1].0));
        i = i + 1;
    }
    proof {
        assert(out@ =~= pairs_spec(lines@));
    }
    out
}

/// Whether the gap between two paired coordinates leaves an interior once
/// both sides are inset.
pub open spec fn wide_enough(a: u32, b: u32, inset: u32) -> bool {
    b - a > 2 * inset
}

/// The rectangle between column pair `(x1, x2)` and row pair `(y1, y2)`,
/// inset on every side.
pub open spec fn cell_of(x1: u32, x2: u32, y1: u32, y2: u32, inset: u32) -> CellRect {
    CellRect {
        x: (x1 + inset) as u32,
        y: (y1 + inset) as u32,
        width: (x2 - x1 - 2 * inset) as u32,
        height: (y2 - y1 - 2 * inset) as u32,
    }
}

/// One table row: the cells of every column pair wide enough to survive the
/// inset, between the row lines `y1` and `y2`.
pub open spec fn row_cells_spec(
    xpairs: Seq<(u32, u32)>,
    y1: u32,
    y2: u32,
    inset: u32,
) -> Seq<CellRect>
    decreases xpairs.len(),
{
    if xpairs.len() == 0 {
        Seq::empty()
    } else {
        let rest = row_cells_spec(xpairs.drop_last(), y1, y2, inset);
        let (x1, x2) = xpairs.last();
        if wide_enough(x1, x2, inset) && wide_enough(y1, y2, inset) {
            rest.push(cell_of(x1, x2, y1, y2, inset))
        } else {
            rest
        }
    }
}

/// The full cell matrix, row-major: one row per row pair, one cell per
/// column pair that survives the inset.
pub open spec fn cells_spec(
    ypairs: Seq<(u32, u32)>,
    xpairs: Seq<(u32, u32)>,
    inset: u32,
) -> Seq<Seq<CellRect>> {
    Seq::new(ypairs.len(), |i: int| row_cells_spec(xpairs, ypairs[i].0, ypairs[i].1, inset))
}

/// When every pair on both axes is wide enough to survive the inset, the
/// matrix shape is fixed by the pairing counts alone: one cell per column
/// pair, each exactly the inset rectangle of its pairs. Nothing the text
/// recognizer later returns can change that shape.
pub proof fn lemma_row_cells_full(xpairs: Seq<(u32, u32)>, y1: u32, y2: u32, inset: u32)
    requires
        wide_enough(y1, y2, inset),
        forall|k: int|
            0 <= k < xpairs.len() ==> wide_enough(
                (#[trigger] xpairs[k]).0,
                xpairs[k].1,
                inset,
            ),
    ensures
        row_cells_spec(xpairs, y1, y2, inset).len() == xpairs.len(),
        forall|k: int|
            0 <= k < xpairs.len() ==> row_cells_spec(xpairs, y1, y2, inset)[k] == cell_of(
                (#[trigger] xpairs[k]).0,
                xpairs[k].1,
                y1,
                y2,
                inset,
            ),
    decreases xpairs.len(),
{
    if xpairs.len() > 0 {
        lemma_row_cells_full(xpairs.drop_last(), y1, y2, inset);
        let rest = row_cells_spec(xpairs.drop_last(), y1, y2, inset);
        let o = row_cells_spec(xpairs, y1, y2, inset);
        assert(o == rest.push(cell_of(xpairs.last().0, xpairs.last().1, y1, y2, inset)));
        assert forall|k: int|
            0 <= k < xpairs.len() implies o[k] == cell_of(
            (#[trigger] xpairs[k]).0,
            xpairs[k].1,
            y1,
            y2,
            inset,
        ) by {
            if k < xpairs.len() - 1 {
                assert(xpairs.drop_last()[k] == xpairs[k]);
                assert(o[k] == rest[k]);
            }
        }
    }
}

/// Recognizer isolation: the shape of the final matrix is fixed by the line
/// counts alone. With every pair on both axes wide enough for the inset, an
/// axis with `n` lines contributes exactly `n / 2` intervals, so the matrix
/// has one row per row pair and one cell per column pair — whatever a text
/// recognizer later writes into the cells.
pub proof fn lemma_matrix_shape(ylines: Seq<Line>, xlines: Seq<Line>, inset: u32)
    requires
        forall|k: int|
            0 <= k < pairs_spec(ylines).len() ==> wide_enough(
                (#[trigger] pairs_spec(ylines)[k]).0,
                pairs_spec(ylines)[k].1,
                inset,
            ),
        forall|k: int|
            0 <= k < pairs_spec(xlines).len() ==> wide_enough(
                (#[trigger] pairs_spec(xlines)[k]).0,
                pairs_spec(xlines)[k].1,
                inset,
            ),
    ensures
        cells_spec(pairs_spec(ylines), pairs_spec(xlines), inset).len() == ylines.len() / 2,
        forall|i: int|
            0 <= i < ylines.len() / 2 ==> (#[trigger] cells_spec(
                pairs_spec(ylines),
                pairs_spec(xlines),
                inset,
            )[i]).len() == xlines.len() / 2,
{
    let yp = pairs_spec(ylines);
    let xp = pairs_spec(xlines);
    assert forall|i: int| 0 <= i < ylines.len() / 2 implies (#[trigger] cells_spec(
        yp,
        xp,
        inset,
    )[i]).len() == xlines.len() / 2 by {
        lemma_row_cells_full(xp, yp[i].0, yp[i].1, inset);
    }
}

/// Builds the row-major cell matrix from the paired row and column lines:
/// one row per row pair, each holding, in column order, the inset rectangle
/// of every column pair whose lines are more than twice the inset apart; a
/// pair too close together yields no cell.
pub fn assemble_cells(
    ypairs: &Vec<(u32, u32)>,
    xpairs: &Vec<(u32, u32)>,
    inset: u32,
) -> (r: Vec<Vec<CellRect>>)
    ensures
        r@.len() == ypairs@.len(),
        forall|i: int| 0 <= i < r@.len() ==> r@[i]@ == cells_spec(ypairs@, xpairs@, inset)[i],
{
    let mut rows: Vec<Vec<CellRect>> = Vec::new();
    let mut i: usize = 0;
    while i < ypairs.len()
        invariant
            i <= ypairs.len(),
            rows@.len() == i,
            forall|k: int|
                0 <= k < i ==> rows@[k]@ == row_cells_spec(
                    xpairs@,
                    ypairs@[k].0,
                    ypairs@[k].1,
                    inset,
                ),
        decreases ypairs.len() - i,
    {
        let (y1, y2) = ypairs[i];
        let mut row: Vec<CellRect> = Vec::new();
        let mut j: usize = 0;
        proof {
            assert(xpairs@.take(0) =~= Seq::<(u32, u32)>::empty());
        }
        while j < xpairs.len()
            invariant
                j <= xpairs.len(),
                row@ == row_cells_spec(xpairs@.take(j as int), y1, y2, inset),
            decreases xpairs.len() - j,
        {
            let (x1, x2) = xpairs[j];
            let wide_x = x2 > x1 && ((x2 - x1) as u64) > 2 * (inset as u64);
            let wide_y = y2 > y1 && ((y2 - y1) as u64) > 2 * (inset as u64);
            if wide_x && wide_y {
                row.push(
                    CellRect {
                        x: x1 + inset,
                        y: y1 + inset,
                        width: x2 - x1 - 2 * inset,
                        height: y2 - y1 - 2 * inset,
                    },
                );
            }
            proof {
                assert(xpairs@.take(j as int) =~= xpairs@.take(j + 1).drop_last());
                assert(xpairs@.take(j + 1).last() == xpairs@[j as int]);
            }
            j = j + 1;
        }
        proof {
            assert(xpairs@.take(xpairs@.len() as int) =~= xpairs@);
        }
        rows.push(row);
        i = i + 1;
    }
    rows
}

} // verus!
