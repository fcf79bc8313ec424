//! Cells, tile types, step outcomes, and the adjacency rule on tile pairs.

use vstd::prelude::*;

verus! {

/// One of the closed set of tile labels a cell can take.
#[derive(Clone, Copy, Debug, PartialEq, Eq, Structural)]
pub enum CellType {
    Vertical,
    Horizontal,
    Empty,
}

/// One grid position: either not yet generated (`None`) or committed to a
/// single tile type (`Some`), a one-way transition.
#[derive(Clone, Copy, Debug, PartialEq, Eq, Structural)]
pub struct Cell {
    /// `None` means the cell has not been generated yet.
    pub cell_type: Option<CellType>,
}

/// The outcome of one generation step.
#[derive(Clone, Copy, Debug, PartialEq, Eq, Structural)]
pub enum StepOutcome {
    /// Exactly one previously undetermined cell was committed.
    Advanced,
    /// Every cell was already determined; the call was a no-op.
    Complete,
    /// The adjacency rules left no tile type for the selected cell.
    NoCandidates,
}

/// The adjacency rule table: whether a determined neighbour of type
/// `neighbour` permits `candidate` in the adjacent cell, where `same_row`
/// says the two cells are horizontally adjacent (same row, columns one
/// apart) rather than vertically adjacent.
///
/// A `Vertical` neighbour always forbids `Horizontal`, and also forbids
/// `Vertical` when the cells share a row; a `Horizontal` neighbour always
/// forbids `Vertical`, and also forbids `Horizontal` when the cells share a
/// column; an `Empty` neighbour forbids nothing.
pub open spec fn allows(neighbour: CellType, same_row: bool, candidate: CellType) -> bool {
    match neighbour {
        CellType::Vertical => candidate != CellType::Horizontal && (same_row
            ==> candidate != CellType::Vertical),
        CellType::Horizontal => candidate != CellType::Vertical && (!same_row
            ==> candidate != CellType::Horizontal),
        CellType::Empty => true,
    }
}

/// The rule table reads the same from either side of an adjacent pair.
pub proof fn lemma_allows_symmetric(a: CellType, same_row: bool, b: CellType)
    ensures
        allows(a, same_row, b) == allows(b, same_row, a),
{
}

} // verus!
