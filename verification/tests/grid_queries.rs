use wave_function_collapse::WaveFunctionCollapse;

#[test]
fn new_grid_is_fully_undetermined() {
    let grid = WaveFunctionCollapse::new(4, 3, 0);
    assert_eq!(grid.width(), 4);
    assert_eq!(grid.height(), 3);
    let listing = grid.cells();
    assert_eq!(listing.len(), 12);
    for (cell, _, _) in listing {
        assert!(cell.cell_type.is_none());
    }
}

#[test]
fn index_position_round_trip() {
    let grid = WaveFunctionCollapse::new(4, 3, 0);
    assert_eq!(grid.index_to_position(0), (0, 0));
    assert_eq!(grid.index_to_position(7), (3, 1));
    assert_eq!(grid.index_to_position(11), (3, 2));
    assert_eq!(grid.position_to_index(0, 0), 0);
    assert_eq!(grid.position_to_index(3, 1), 7);
    assert_eq!(grid.position_to_index(3, 2), 11);
    for index in 0..12 {
        let (x, y) = grid.index_to_position(index);
        assert_eq!(grid.position_to_index(x, y), index);
    }
}

#[test]
fn cells_listing_is_row_major() {
    let grid = WaveFunctionCollapse::new(2, 2, 0);
    let listing = grid.cells();
    assert_eq!(listing.len(), 4);
    let coords: Vec<(usize, usize)> = listing.iter().map(|&(_, x, y)| (x, y)).collect();
    assert_eq!(coords, vec![(0, 0), (1, 0), (0, 1), (1, 1)]);
}

#[test]
fn get_cell_out_of_bounds_is_none() {
    let grid = WaveFunctionCollapse::new(3, 2, 0);
    assert!(grid.get_cell(3, 0).is_none());
    assert!(grid.get_cell(0, 2).is_none());
    assert!(grid.get_cell(17, 17).is_none());
    let cell = grid.get_cell(2, 1).expect("in-bounds cell");
    assert!(cell.cell_type.is_none());
}

#[test]
fn neighbours_of_interior_cell_in_order() {
    let grid = WaveFunctionCollapse::new(3, 3, 0);
    // Centre cell (1, 1) has index 4; its neighbours in the fixed order
    // below, right, above, left.
    assert_eq!(grid.get_neighbours(4), vec![1, 5, 7, 3]);
}

#[test]
fn neighbours_of_corner_cells_are_filtered() {
    let grid = WaveFunctionCollapse::new(3, 3, 0);
    // (0, 0): no cell below or to the left.
    assert_eq!(grid.get_neighbours(0), vec![1, 3]);
    // (2, 2): no cell above or to the right.
    assert_eq!(grid.get_neighbours(8), vec![5, 7]);
    // (2, 0): right and below are out of bounds.
    assert_eq!(grid.get_neighbours(2), vec![5, 1]);
}

#[test]
fn neighbours_of_single_cell_grid_are_empty() {
    let grid = WaveFunctionCollapse::new(1, 1, 0);
    assert_eq!(grid.get_neighbours(0), Vec::<usize>::new());
}
