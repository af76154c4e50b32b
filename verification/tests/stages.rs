use table_grid::dedup::deduplicate_lines;
use table_grid::grid::assemble_cells;
use table_grid::grid::pair_levels;
use table_grid::grid::CellRect;
use table_grid::pipeline::horizontal_min_length;
use table_grid::pipeline::vertical_min_length;
use table_grid::pipeline::Config;
use table_grid::segment::clean_lines;

#[test]
fn clean_merges_runs_within_gap() {
    let runs = vec![(0, 5), (7, 20), (3, 8)];
    let out = clean_lines(runs, 3, 4);
    assert_eq!(out, vec![(0, 20)]);
}

#[test]
fn clean_splits_runs_beyond_gap() {
    let runs = vec![(0, 6), (20, 30)];
    let out = clean_lines(runs, 5, 5);
    assert_eq!(out, vec![(0, 6), (20, 30)]);
}

#[test]
fn clean_merge_takes_the_next_runs_end() {
    // Merging always moves the segment end to the merged run's end, even when
    // that run is contained in the segment.
    let runs = vec![(0, 10), (2, 5)];
    let out = clean_lines(runs, 3, 4);
    assert_eq!(out, vec![(0, 5)]);
}

#[test]
fn clean_empty_input_yields_nothing() {
    let out = clean_lines(Vec::new(), 5, 6);
    assert_eq!(out, Vec::new());
}

#[test]
fn clean_is_idempotent_on_merged_output() {
    let runs = vec![(0, 5), (7, 20), (3, 8)];
    let once = clean_lines(runs, 3, 4);
    let twice = clean_lines(once.clone(), 3, 4);
    assert_eq!(twice, once);
}

#[test]
fn clean_is_idempotent_on_split_output() {
    let runs = vec![(0, 6), (20, 30), (22, 31), (40, 47)];
    let once = clean_lines(runs, 5, 5);
    let twice = clean_lines(once.clone(), 5, 5);
    assert_eq!(twice, once);
}

#[test]
fn vertical_length_boundary() {
    // One tenth of a 60 pixel high image, rounded half up.
    let l = vertical_min_length(60);
    assert_eq!(l, 6);
    assert_eq!(clean_lines(vec![(10, 10 + l)], 5, l), vec![(10, 10 + l)]);
    assert_eq!(clean_lines(vec![(10, 10 + l - 1)], 5, l), Vec::new());
}

#[test]
fn horizontal_length_boundary() {
    // Three quarters of a 100 pixel wide image, rounded half up.
    let l = horizontal_min_length(100);
    assert_eq!(l, 75);
    assert_eq!(clean_lines(vec![(0, l)], 5, l), vec![(0, l)]);
    assert_eq!(clean_lines(vec![(0, l - 1)], 5, l), Vec::new());
}

#[test]
fn min_length_rounding() {
    assert_eq!(vertical_min_length(25), 3);
    assert_eq!(vertical_min_length(0), 0);
    assert_eq!(horizontal_min_length(2), 2);
    assert_eq!(horizontal_min_length(0), 0);
}

#[test]
fn dedup_two_samples_at_min_separation() {
    let cands = vec![(0, 5, 40), (12, 5, 40)];
    let out = deduplicate_lines(cands, 10, 10);
    assert_eq!(out, vec![(0, 5, 40), (12, 5, 40)]);
}

#[test]
fn dedup_two_samples_below_min_separation() {
    let cands = vec![(0, 5, 40), (9, 5, 40)];
    let out = deduplicate_lines(cands, 10, 10);
    assert_eq!(out, Vec::new());
}

#[test]
fn dedup_sorts_its_input() {
    let cands = vec![(12, 5, 40), (0, 5, 40)];
    let out = deduplicate_lines(cands, 10, 10);
    assert_eq!(out, vec![(0, 5, 40), (12, 5, 40)]);
}

#[test]
fn dedup_single_candidate_yields_nothing() {
    let out = deduplicate_lines(vec![(7, 5, 40)], 10, 10);
    assert_eq!(out, Vec::new());
}

#[test]
fn dedup_dense_sampling_never_reaches_separation() {
    // The tracked reference advances to every matching candidate, so a border
    // sampled at every consecutive index never accumulates the minimum
    // separation and is dropped wholesale.
    let cands: Vec<(u32, u32, u32)> = (0..=20).map(|i| (i, 5, 40)).collect();
    let out = deduplicate_lines(cands, 10, 10);
    assert_eq!(out, Vec::new());
}

#[test]
fn dedup_drops_non_matching_candidates() {
    // The middle candidate drifts too far and is discarded without advancing
    // the reference.
    let cands = vec![(0, 5, 40), (6, 50, 90), (15, 5, 40)];
    let out = deduplicate_lines(cands, 10, 10);
    assert_eq!(out, vec![(0, 5, 40), (15, 5, 40)]);
}

#[test]
fn pairing_even_count() {
    let lines = vec![(0, 1, 2), (10, 1, 2), (25, 1, 2), (40, 1, 2)];
    let pairs = pair_levels(&lines);
    assert_eq!(pairs, vec![(0, 10), (25, 40)]);
}

#[test]
fn pairing_odd_count_drops_trailing_line() {
    let lines = vec![(0, 1, 2), (10, 1, 2), (25, 1, 2), (40, 1, 2), (55, 1, 2)];
    let pairs = pair_levels(&lines);
    assert_eq!(pairs.len(), 5 / 2);
    assert_eq!(pairs, vec![(0, 10), (25, 40)]);
}

#[test]
fn pairing_degenerate_counts() {
    assert_eq!(pair_levels(&Vec::new()), Vec::new());
    assert_eq!(pair_levels(&vec![(3, 1, 2)]), Vec::new());
}

#[test]
fn assemble_inset_geometry() {
    let ypairs = vec![(10, 22)];
    let xpairs = vec![(20, 40)];
    let rows = assemble_cells(&ypairs, &xpairs, 4);
    assert_eq!(rows.len(), 1);
    assert_eq!(
        rows[0],
        vec![CellRect { x: 24, y: 14, width: 12, height: 4 }]
    );
}

#[test]
fn assemble_skips_pairs_too_close_for_inset() {
    // A column pair only 5 apart leaves no interior after a 4 pixel inset on
    // both sides; the cell is skipped, not clamped.
    let ypairs = vec![(10, 30)];
    let xpairs = vec![(10, 15), (20, 40)];
    let rows = assemble_cells(&ypairs, &xpairs, 4);
    assert_eq!(rows.len(), 1);
    assert_eq!(
        rows[0],
        vec![CellRect { x: 24, y: 14, width: 12, height: 12 }]
    );
}

#[test]
fn assemble_degenerate_row_pair_leaves_empty_row() {
    let ypairs = vec![(10, 14)];
    let xpairs = vec![(20, 40)];
    let rows = assemble_cells(&ypairs, &xpairs, 4);
    assert_eq!(rows.len(), 1);
    assert!(rows[0].is_empty());
}

#[test]
fn recognizer_isolation_shape_follows_pairing_counts() {
    // Five column lines and four row lines pair into 2 columns and 2 rows;
    // a stub recognizer that answers the same string for every rectangle
    // fills exactly that shape.
    let vlines = vec![(0, 0, 90), (20, 0, 90), (40, 0, 90), (60, 0, 90), (80, 0, 90)];
    let hlines = vec![(0, 0, 90), (15, 0, 90), (30, 0, 90), (45, 0, 90)];
    let xpairs = pair_levels(&vlines);
    let ypairs = pair_levels(&hlines);
    let cells = assemble_cells(&ypairs, &xpairs, 4);
    let matrix: Vec<Vec<String>> = cells
        .iter()
        .map(|row| row.iter().map(|_rect| "stub".to_string()).collect())
        .collect();
    assert_eq!(matrix.len(), hlines.len() / 2);
    for row in &matrix {
        assert_eq!(row.len(), vlines.len() / 2);
        for text in row {
            assert_eq!(text, "stub");
        }
    }
}

#[test]
fn default_config_thresholds() {
    let cfg = Config::default();
    assert_eq!(cfg.dark_threshold, 200);
    assert_eq!(cfg.merge_gap, 5);
    assert_eq!(cfg.dedup_tolerance, 10);
    assert_eq!(cfg.dedup_min_separation, 10);
    assert_eq!(cfg.inset, 4);
}
