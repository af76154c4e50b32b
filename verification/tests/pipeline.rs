use table_grid::grid::CellRect;
use table_grid::pipeline::detect_cells;
use table_grid::pipeline::Config;
use table_grid::pixels::PixelGrid;
use table_grid::scan::scan_columns;
use table_grid::scan::scan_rows;

/// A light grid of the given size with the listed pixels painted dark.
fn grid_with_dark(width: u32, height: u32, dark: &[(u32, u32)]) -> PixelGrid {
    let mut data = vec![255u8; (width as usize) * (height as usize)];
    for &(x, y) in dark {
        data[(y as usize) * (width as usize) + (x as usize)] = 0;
    }
    PixelGrid::new(width, height, data).unwrap()
}

#[test]
fn grid_rejects_mismatched_buffer() {
    assert!(PixelGrid::new(3, 2, vec![0u8; 5]).is_none());
    assert!(PixelGrid::new(3, 2, vec![0u8; 6]).is_some());
}

#[test]
fn run_detection_exact_triples() {
    // 5 x 4 image; a run open at a scan line's far edge is dropped.
    let g = grid_with_dark(5, 4, &[(0, 0), (1, 1), (1, 2), (3, 2), (3, 3)]);
    let cols = scan_columns(&g, 200);
    assert_eq!(cols, vec![(0, 0, 1), (1, 1, 3)]);
    let rows = scan_rows(&g, 200);
    assert_eq!(rows, vec![(0, 0, 1), (1, 1, 2), (2, 1, 2), (2, 3, 4), (3, 3, 4)]);
}

#[test]
fn run_detection_threshold_is_strict() {
    let mut data = vec![255u8; 4];
    data[1] = 199;
    data[2] = 200;
    let g = PixelGrid::new(4, 1, data).unwrap();
    // Intensity 199 is dark, 200 is not.
    assert_eq!(scan_rows(&g, 200), vec![(0, 1, 2)]);
}

#[test]
fn run_open_at_edge_is_dropped() {
    // The whole single column is dark: the run never closes and is dropped.
    let g = grid_with_dark(1, 3, &[(0, 0), (0, 1), (0, 2)]);
    assert_eq!(scan_columns(&g, 200), Vec::new());
}

#[test]
fn end_to_end_inset_table() {
    // 100 x 60 image: two vertical border segments at x = 20 and x = 40
    // spanning y in [5, 25), two horizontal ones at y = 10 and y = 22
    // spanning x in [10, 90). Both pairs survive length filtering and
    // deduplication and bound a single inset cell.
    let mut dark = Vec::new();
    for y in 5..25 {
        dark.push((20, y));
        dark.push((40, y));
    }
    for x in 10..90 {
        dark.push((x, 10));
        dark.push((x, 22));
    }
    let g = grid_with_dark(100, 60, &dark);
    let cfg = Config::default();
    let cells = detect_cells(&g, &cfg);
    assert_eq!(cells.len(), 1);
    assert_eq!(
        cells[0],
        vec![CellRect { x: 24, y: 14, width: 12, height: 4 }]
    );
}

#[test]
fn end_to_end_full_frame_borders_detect_nothing() {
    // A ruled 3 x 2 frame drawn as one pixel wide borders flush with the
    // image: every border along its own axis is a run still open at the edge
    // (dropped), and its crossings on the other axis are single pixels below
    // the length floor, so no line survives and the matrix is empty.
    let mut dark = Vec::new();
    for &x in &[0u32, 50, 99] {
        for y in 0..60 {
            dark.push((x, y));
        }
    }
    for &y in &[0u32, 30, 59] {
        for x in 0..100 {
            dark.push((x, y));
        }
    }
    let g = grid_with_dark(100, 60, &dark);
    let cfg = Config::default();
    let cells = detect_cells(&g, &cfg);
    assert!(cells.is_empty());
}

#[test]
fn end_to_end_two_by_one_matrix() {
    // Three horizontal borders pair into two row intervals (the middle border
    // is emitted twice, once with each extreme), two vertical borders into
    // one column interval: a 2 x 1 matrix.
    let mut dark = Vec::new();
    for y in 2..58 {
        dark.push((20, y));
        dark.push((60, y));
    }
    for &yline in &[5u32, 30, 55] {
        for x in 5..95 {
            dark.push((x, yline));
        }
    }
    let g = grid_with_dark(100, 60, &dark);
    let cfg = Config::default();
    let cells = detect_cells(&g, &cfg);
    assert_eq!(cells.len(), 2);
    assert_eq!(
        cells[0],
        vec![CellRect { x: 24, y: 9, width: 32, height: 17 }]
    );
    assert_eq!(
        cells[1],
        vec![CellRect { x: 24, y: 34, width: 32, height: 17 }]
    );
}

#[test]
fn blank_image_detects_nothing() {
    let g = grid_with_dark(50, 50, &[]);
    let cfg = Config::default();
    assert!(detect_cells(&g, &cfg).is_empty());
}
