//! The grid: cell storage, coordinate arithmetic, and read-only queries.

use vstd::prelude::*;

use crate::cell::Cell;
use vstd::arithmetic::div_mod::lemma_fundamental_div_mod;

verus! {

/// The mathematical model of a generator: the cell contents in row-major
/// order, the fixed dimensions, and the current pseudo-random stream state.
#[verifier::ext_equal]
pub ghost struct GridModel {
    pub cells: Seq<Cell>,
    pub width: nat,
    pub height: nat,
    pub rng: u64,
}

impl GridModel {
    /// Well-formedness: positive dimensions, the cell sequence exactly
    /// `width * height` long, and the cell count addressable by `usize`.
    pub open spec fn wf(self) -> bool {
        &&& 1 <= self.width
        &&& 1 <= self.height
        &&& self.cells.len() == self.width * self.height
        &&& self.width * self.height <= usize::MAX
    }

    /// Whether `(x, y)` lies inside the grid.
    pub open spec fn in_bounds(self, x: int, y: int) -> bool {
        0 <= x < self.width && 0 <= y < self.height
    }

    /// The cell stored at `(x, y)`, addressed row-major.
    pub open spec fn cell_at(self, x: int, y: int) -> Cell {
        self.cells[x + y * self.width]
    }
}

/// A row-major index derived from in-bounds coordinates lies inside the
/// cell sequence.
pub proof fn lemma_index_in_range(m: GridModel, x: int, y: int)
    requires
        m.wf(),
        m.in_bounds(x, y),
    ensures
        0 <= x + y * m.width < m.cells.len(),
{
    assert(x + y * m.width < m.width * m.height) by (nonlinear_arith)
        requires
            0 <= x < m.width,
            0 <= y < m.height,
    ;
}

/// Row-major indexing is injective on in-bounds coordinates.
pub proof fn lemma_index_injective(m: GridModel, x1: int, y1: int, x2: int, y2: int)
    requires
        m.wf(),
        m.in_bounds(x1, y1),
        m.in_bounds(x2, y2),
        x1 + y1 * m.width == x2 + y2 * m.width,
    ensures
        x1 == x2,
        y1 == y2,
{
    assert(x1 == x2 && y1 == y2) by (nonlinear_arith)
        requires
            0 <= x1 < m.width,
            0 <= x2 < m.width,
            0 <= y1,
            0 <= y2,
            x1 + y1 * m.width == x2 + y2 * m.width,
    ;
}

/// Splitting an in-range index by `% width` and `/ width` recovers
/// in-bounds coordinates whose row-major index is the original one.
pub proof fn lemma_position_of_index(m: GridModel, index: int)
    requires
        m.wf(),
        0 <= index < m.cells.len(),
    ensures
        m.in_bounds(index % (m.width as int), index / (m.width as int)),
        (index % (m.width as int)) + (index / (m.width as int)) * m.width == index,
{
    let w = m.width as int;
    lemma_fundamental_div_mod(index, w);
    assert(0 <= index % w < w) by (nonlinear_arith)
        requires
            0 <= index,
            1 <= w,
    ;
    assert(index / w < m.height) by (nonlinear_arith)
        requires
            index < m.width * m.height,
            1 <= w,
            w == m.width,
            index == w * (index / w) + index % w,
            0 <= index % w,
    ;
    assert(0 <= index / w) by (nonlinear_arith)
        requires
            0 <= index,
            1 <= w,
            index == w * (index / w) + index % w,
            index % w < w,
    ;
}

/// A wave-function-collapse grid generator: a flat row-major cell store
/// with fixed dimensions and an injected pseudo-random stream state.
pub struct WaveFunctionCollapse {
    cells: Vec<Cell>,
    width: usize,
    height: usize,
    rng_state: u64,
}

impl View for WaveFunctionCollapse {
    type V = GridModel;

    closed spec fn view(&self) -> GridModel {
        GridModel {
            cells: self.cells@,
            width: self.width as nat,
            height: self.height as nat,
            rng: self.rng_state,
        }
    }
}

impl WaveFunctionCollapse {
    /// Creates a `width` by `height` grid with every cell undetermined and
    /// the pseudo-random stream seeded with `seed`.
    pub fn new(width: usize, height: usize, seed: u64) -> (result: Self)
        requires
            1 <= width,
            1 <= height,
            width * height <= usize::MAX,
        ensures
            result@.wf(),
            result@.width == width,
            result@.height == height,
            result@.rng == seed,
            forall|j: int| 0 <= j < result@.cells.len() ==> result@.cells[j].cell_type is None,
    {
        proof {
            assert(width * height <= usize::MAX) by (nonlinear_arith)
                requires
                    width * height <= usize::MAX,
            ;
        }
        let total: usize = width * height;
        let mut cells: Vec<Cell> = Vec::new();
        let mut i: usize = 0;
        while i < total
            invariant
                i <= total,
                cells@.len() == i,
                forall|j: int| 0 <= j < i ==> cells@[j].cell_type is None,
            decreases total - i,
        {
            cells.push(Cell { cell_type: None });
            i = i + 1;
        }
        WaveFunctionCollapse { cells, width, height, rng_state: seed }
    }

    /// The grid width fixed at construction.
    pub fn width(&self) -> (w: usize)
        ensures
            w == self@.width,
    {
        self.width
    }

    /// The grid height fixed at construction.
    pub fn height(&self) -> (h: usize)
        ensures
            h == self@.height,
    {
        self.height
    }

    /// Splits a row-major index into its `(x, y)` coordinates.
    pub fn index_to_position(&self, index: usize) -> (pos: (usize, usize))
        requires
            self@.wf(),
            index < self@.cells.len(),
        ensures
            pos.0 == index as int % (self@.width as int),
            pos.1 == index as int / (self@.width as int),
            self@.in_bounds(pos.0 as int, pos.1 as int),
            pos.0 + pos.1 * self@.width == index,
    {
        proof {
            lemma_position_of_index(self@, index as int);
        }
        (index % self.width, index / self.width)
    }

    /// Joins in-bounds `(x, y)` coordinates into their row-major index.
    pub fn position_to_index(&self, x: usize, y: usize) -> (index: usize)
        requires
            self@.wf(),
            x < self@.width,
            y < self@.height,
        ensures
            index == x + y * self@.width,
            index < self@.cells.len(),
    {
        proof {
            lemma_index_in_range(self@, x as int, y as int);
        }
        x + y * self.width
    }

    /// Returns a read-only view of the cell at `(x, y)`, or `None` when the
    /// coordinates fall outside the grid.
    pub fn get_cell(&self, x: usize, y: usize) -> (result: Option<&Cell>)
        requires
            self@.wf(),
        ensures
            match result {
                Some(cell) => self@.in_bounds(x as int, y as int) && *cell == self@.cell_at(
                    x as int,
                    y as int,
                ),
                None => !self@.in_bounds(x as int, y as int),
            },
    {
        if x < self.width && y < self.height {
            let index = self.position_to_index(x, y);
            Some(&self.cells[index])
        } else {
            None
        }
    }

    /// Every stored cell paired with its coordinates, in row-major index
    /// order.
    pub fn cells(&self) -> (result: Vec<(Cell, usize, usize)>)
        requires
            self@.wf(),
        ensures
            result@.len() == self@.cells.len(),
            forall|j: int|
                0 <= j < result@.len() ==> #[trigger] result@[j] == (
                    self@.cells[j],
                    (j % self@.width as int) as usize,
                    (j / self@.width as int) as usize,
                ),
    {
        let mut result: Vec<(Cell, usize, usize)> = Vec::new();
        let mut i: usize = 0;
        while i < self.cells.len()
            invariant
                self@.wf(),
                i <= self@.cells.len(),
                result@.len() == i,
                forall|j: int|
                    0 <= j < i ==> #[trigger] result@[j] == (
                        self@.cells[j],
                        (j % self@.width as int) as usize,
                        (j / self@.width as int) as usize,
                    ),
            decreases self@.cells.len() - i,
        {
            let (x, y) = self.index_to_position(i);
            result.push((self.cells[i], x, y));
            i = i + 1;
        }
        result
    }

    /// The number of stored cells, `width * height`.
    pub(crate) fn cell_count(&self) -> (count: usize)
        ensures
            count == self@.cells.len(),
    {
        self.cells.len()
    }

    /// Reads the cell sequence element at an in-range index.
    pub(crate) fn cell_at_index(&self, index: usize) -> (cell: Cell)
        requires
            index < self@.cells.len(),
        ensures
            cell == self@.cells[index as int],
    {
        self.cells[index]
    }

    /// Overwrites the cell at an in-range index; used only by the collapse
    /// step to commit a selected tile type.
    pub(crate) fn set_cell_at_index(&mut self, index: usize, cell: Cell)
        requires
            index < old(self)@.cells.len(),
        ensures
            final(self)@.cells == old(self)@.cells.update(index as int, cell),
            final(self)@.width == old(self)@.width,
            final(self)@.height == old(self)@.height,
            final(self)@.rng == old(self)@.rng,
    {
        self.cells[index] = cell;
    }

    /// Replaces the pseudo-random stream state; used only by the collapse
    /// step after drawing from the stream.
    pub(crate) fn set_rng_state(&mut self, state: u64)
        ensures
            final(self)@.cells == old(self)@.cells,
            final(self)@.width == old(self)@.width,
            final(self)@.height == old(self)@.height,
            final(self)@.rng == state,
    {
        self.rng_state = state;
    }

    /// The current pseudo-random stream state.
    pub(crate) fn rng_state(&self) -> (state: u64)
        ensures
            state == self@.rng,
    {
        self.rng_state
    }

    /// The row-major indices of the in-bounds 4-neighbours of the cell at
    /// `index`, in the order: below, right, above, left.
    pub fn get_neighbours(&self, index: usize) -> (result: Vec<usize>)
        requires
            self@.wf(),
            index < self@.cells.len(),
        ensures
            result@ == neighbour_seq(
                self@,
                index as int % (self@.width as int),
                index as int / (self@.width as int),
            ),
    {
        let (x, y) = self.index_to_position(index);
        let ghost m = self@;
        let mut result: Vec<usize> = Vec::new();
        if y > 0 {
            let i = self.position_to_index(x, y - 1);
            result.push(i);
        }
        assert(result@ =~= neighbour_part(m, x as int, y as int, 0 < y, x as int, y - 1));
        let ghost r1 = result@;
        if x + 1 < self.width {
            let i = self.position_to_index(x + 1, y);
            result.push(i);
        }
        assert(result@ =~= r1 + neighbour_part(
            m,
            x as int,
            y as int,
            x + 1 < m.width,
            x + 1,
            y as int,
        ));
        let ghost r2 = result@;
        if y + 1 < self.height {
            let i = self.position_to_index(x, y + 1);
            result.push(i);
        }
        assert(result@ =~= r2 + neighbour_part(
            m,
            x as int,
            y as int,
            y + 1 < m.height,
            x as int,
            y + 1,
        ));
        let ghost r3 = result@;
        if x > 0 {
            let i = self.position_to_index(x - 1, y);
            result.push(i);
        }
        assert(result@ =~= r3 + neighbour_part(m, x as int, y as int, 0 < x, x - 1, y as int));
        assert(result@ =~= neighbour_seq(m, x as int, y as int));
        result
    }
}

/// One conditional entry of the neighbour list: the row-major index of
/// `(nx, ny)` when `present` holds, and the empty sequence otherwise.
pub open spec fn neighbour_part(
    m: GridModel,
    x: int,
    y: int,
    present: bool,
    nx: int,
    ny: int,
) -> Seq<usize> {
    if present {
        seq![(nx + ny * m.width) as usize]
    } else {
        Seq::<usize>::empty()
    }
}

/// The row-major indices of the in-bounds 4-neighbours of `(x, y)`, in the
/// order: below, right, above, left.
pub open spec fn neighbour_seq(m: GridModel, x: int, y: int) -> Seq<usize> {
    neighbour_part(m, x, y, 0 < y, x, y - 1) + neighbour_part(m, x, y, x + 1 < m.width, x + 1, y)
        + neighbour_part(m, x, y, y + 1 < m.height, x, y + 1) + neighbour_part(
        m,
        x,
        y,
        0 < x,
        x - 1,
        y,
    )
}

} // verus!
