use raytracer::raster::pixel_grid;

#[test]
fn grid_lists_rows_in_row_major_order() {
    let grid = pixel_grid(2, 3);
    assert_eq!(grid, vec![(0, 0), (0, 1), (0, 2), (1, 0), (1, 1), (1, 2)]);
}

#[test]
fn grid_of_one_column_counts_rows() {
    let grid = pixel_grid(4, 1);
    assert_eq!(grid, vec![(0, 0), (1, 0), (2, 0), (3, 0)]);
}

#[test]
fn degenerate_grids_are_empty() {
    assert!(pixel_grid(0, 10).is_empty());
    assert!(pixel_grid(10, 0).is_empty());
}
