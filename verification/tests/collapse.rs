use wave_function_collapse::Cell;
use wave_function_collapse::CellType;
use wave_function_collapse::StepOutcome;
use wave_function_collapse::WaveFunctionCollapse;

fn determined(grid: &WaveFunctionCollapse) -> Vec<(usize, usize, Option<CellType>)> {
    grid.cells()
        .into_iter()
        .filter(|(cell, _, _)| cell.cell_type.is_some())
        .map(|(cell, x, y)| (x, y, cell.cell_type))
        .collect()
}

fn snapshot(grid: &WaveFunctionCollapse) -> Vec<Cell> {
    grid.cells().into_iter().map(|(cell, _, _)| cell).collect()
}

#[test]
fn single_cell_grid_one_step_then_complete() {
    let mut grid = WaveFunctionCollapse::new(1, 1, 42);
    assert_eq!(grid.generate_next(), StepOutcome::Advanced);
    let cell = grid.get_cell(0, 0).expect("in bounds");
    assert!(cell.cell_type.is_some());
    let committed = cell.cell_type;
    assert_eq!(grid.generate_next(), StepOutcome::Complete);
    assert_eq!(grid.get_cell(0, 0).expect("in bounds").cell_type, committed);
}

#[test]
fn two_by_one_grid_steps_respect_the_rules() {
    for seed in 0..32 {
        let mut grid = WaveFunctionCollapse::new(2, 1, seed);
        // The first call determines exactly one of the two cells.
        assert_eq!(grid.generate_next(), StepOutcome::Advanced);
        assert_eq!(determined(&grid).len(), 1);
        // The second call determines the other; the pair must satisfy the
        // horizontal adjacency rules: a Vertical tile admits only Empty
        // beside it, so the pair is never (Vertical, Vertical) nor mixes
        // Vertical with Horizontal.
        assert_eq!(grid.generate_next(), StepOutcome::Advanced);
        let left = grid.get_cell(0, 0).unwrap().cell_type.unwrap();
        let right = grid.get_cell(1, 0).unwrap().cell_type.unwrap();
        let vertical_pair = left == CellType::Vertical && right == CellType::Vertical;
        let mixed = (left == CellType::Vertical && right == CellType::Horizontal) || (left
            == CellType::Horizontal
            && right == CellType::Vertical);
        assert!(!vertical_pair);
        assert!(!mixed);
        assert_eq!(grid.generate_next(), StepOutcome::Complete);
    }
}

#[test]
fn determined_count_is_monotonic() {
    let mut grid = WaveFunctionCollapse::new(4, 3, 7);
    let mut previous = determined(&grid).len();
    assert_eq!(previous, 0);
    for _ in 0..20 {
        grid.generate_next();
        let current = determined(&grid).len();
        assert!(current >= previous);
        assert!(current <= previous + 1);
        previous = current;
    }
}

#[test]
fn determined_cells_never_change() {
    let mut grid = WaveFunctionCollapse::new(5, 4, 11);
    let mut committed: Vec<(usize, usize, Option<CellType>)> = Vec::new();
    for _ in 0..25 {
        grid.generate_next();
        let now = determined(&grid);
        for entry in &committed {
            assert!(now.contains(entry));
        }
        committed = now;
    }
}

#[test]
fn grid_completes_after_width_times_height_steps() {
    let mut grid = WaveFunctionCollapse::new(6, 5, 3);
    for _ in 0..30 {
        assert_eq!(grid.generate_next(), StepOutcome::Advanced);
    }
    assert_eq!(determined(&grid).len(), 30);
    let finished = snapshot(&grid);
    // Further calls report completion and change nothing.
    assert_eq!(grid.generate_next(), StepOutcome::Complete);
    assert_eq!(grid.generate_next(), StepOutcome::Complete);
    assert_eq!(snapshot(&grid), finished);
}

#[test]
fn adjacency_rules_hold_on_finished_grids() {
    for seed in [1, 2, 3, 5, 8, 13, 21, 1_000_003] {
        let mut grid = WaveFunctionCollapse::new(10, 10, seed);
        while grid.generate_next() == StepOutcome::Advanced {}
        for y in 0..10 {
            for x in 0..10 {
                let here = grid.get_cell(x, y).unwrap().cell_type.unwrap();
                if x + 1 < 10 {
                    let right = grid.get_cell(x + 1, y).unwrap().cell_type.unwrap();
                    // Horizontally adjacent cells are never both Vertical.
                    assert!(!(here == CellType::Vertical && right == CellType::Vertical));
                    // Nor do Vertical and Horizontal ever touch.
                    assert!(!(here == CellType::Vertical && right == CellType::Horizontal));
                    assert!(!(here == CellType::Horizontal && right == CellType::Vertical));
                }
                if y + 1 < 10 {
                    let above = grid.get_cell(x, y + 1).unwrap().cell_type.unwrap();
                    // Vertically adjacent cells are never both Horizontal.
                    assert!(!(here == CellType::Horizontal && above == CellType::Horizontal));
                    assert!(!(here == CellType::Horizontal && above == CellType::Vertical));
                    assert!(!(here == CellType::Vertical && above == CellType::Horizontal));
                }
            }
        }
    }
}

#[test]
fn fixed_seed_runs_are_identical() {
    let mut first = WaveFunctionCollapse::new(8, 8, 123_456_789);
    let mut second = WaveFunctionCollapse::new(8, 8, 123_456_789);
    loop {
        let a = first.generate_next();
        let b = second.generate_next();
        assert_eq!(a, b);
        assert_eq!(snapshot(&first), snapshot(&second));
        if a == StepOutcome::Complete {
            break;
        }
    }
}

#[test]
fn pseudo_random_stream_has_exact_values() {
    // The stream is a 64-bit xorshift (shifts 13, 7, 17).
    assert_eq!(wave_function_collapse::engine::next_rng_state(1), 1_082_269_761);
    assert_eq!(
        wave_function_collapse::engine::next_rng_state(1_082_269_761),
        1_152_992_998_833_853_505
    );
    assert_eq!(
        wave_function_collapse::engine::next_rng_state(0x1234_5678_9abc_def0),
        18_338_672_411_873_516_365
    );
}

#[test]
fn every_tile_type_appears_under_some_seed() {
    let mut seen_vertical = false;
    let mut seen_horizontal = false;
    let mut seen_empty = false;
    for seed in 0..64 {
        let mut grid = WaveFunctionCollapse::new(1, 1, seed);
        grid.generate_next();
        match grid.get_cell(0, 0).unwrap().cell_type.unwrap() {
            CellType::Vertical => seen_vertical = true,
            CellType::Horizontal => seen_horizontal = true,
            CellType::Empty => seen_empty = true,
        }
    }
    assert!(seen_vertical);
    assert!(seen_horizontal);
    assert!(seen_empty);
}
