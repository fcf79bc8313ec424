//! Grid-wide properties of the collapse step: monotonicity, immutability
//! of determined cells, termination, and adjacency-rule enforcement.

use vstd::prelude::*;

use crate::cell::lemma_allows_symmetric;
use crate::cell::allows;
use crate::cell::Cell;
use crate::cell::CellType;
use crate::cell::StepOutcome;
use crate::engine::allowed_at;
use crate::engine::candidate_seq;
use crate::engine::determined_count;
use crate::engine::lemma_all_determined;
use crate::engine::lemma_candidates_allowed;
use crate::engine::lemma_candidates_nonempty;
use crate::engine::lemma_counts_split;
use crate::engine::lemma_determined_count_update;
use crate::engine::lemma_undet_indices_elems;
use crate::engine::run_steps;
use crate::engine::step_spec;
use crate::engine::undet_indices;
use crate::grid::lemma_index_in_range;
use crate::grid::lemma_index_injective;
use crate::grid::lemma_position_of_index;
use crate::grid::GridModel;

verus! {

/// Whether an adjacent pair of cells satisfies the rule table; a pair with
/// an undetermined member constrains nothing.
pub open spec fn compatible(a: Cell, b: Cell, same_row: bool) -> bool {
    match (a.cell_type, b.cell_type) {
        (Some(ta), Some(tb)) => allows(ta, same_row, tb),
        _ => true,
    }
}

/// Grid-wide adjacency-rule enforcement: every horizontally adjacent
/// determined pair and every vertically adjacent determined pair satisfies
/// the rule table. In particular no two horizontally adjacent cells are
/// both `Vertical`, and no two vertically adjacent cells are both
/// `Horizontal`.
pub open spec fn consistent(m: GridModel) -> bool {
    forall|x1: int, y1: int, x2: int, y2: int|
        m.in_bounds(x1, y1) && m.in_bounds(x2, y2) && ((y1 == y2 && x2 == x1 + 1) || (x1 == x2 && y2
            == y1 + 1)) ==> compatible(
            #[trigger] m.cell_at(x1, y1),
            #[trigger] m.cell_at(x2, y2),
            y1 == y2,
        )
}

/// A grid with no determined cell, such as a freshly constructed one, is
/// consistent.
pub proof fn lemma_all_undetermined_consistent(m: GridModel)
    requires
        forall|j: int| 0 <= j < m.cells.len() ==> (#[trigger] m.cells[j]).cell_type is None,
        m.wf(),
    ensures
        consistent(m),
{
    assert forall|x1: int, y1: int, x2: int, y2: int|
        m.in_bounds(x1, y1) && m.in_bounds(x2, y2) && ((y1 == y2 && x2 == x1 + 1) || (x1 == x2 && y2
            == y1 + 1)) implies compatible(m.cell_at(x1, y1), m.cell_at(x2, y2), y1 == y2) by {
        lemma_index_in_range(m, x1, y1);
        assert(m.cells[x1 + y1 * m.width].cell_type is None);
    }
}

/// On a grid with no determined cell, such as a freshly constructed one,
/// the candidate set of every in-bounds cell is the full set of tile
/// types, in the fixed order.
pub proof fn lemma_fresh_candidates_full(m: GridModel, x: int, y: int)
    requires
        m.wf(),
        m.in_bounds(x, y),
        forall|j: int| 0 <= j < m.cells.len() ==> (#[trigger] m.cells[j]).cell_type is None,
    ensures
        candidate_seq(m, x, y) == seq![CellType::Vertical, CellType::Horizontal, CellType::Empty],
{
    if 0 < y {
        lemma_index_in_range(m, x, y - 1);
        assert(m.cells[x + (y - 1) * m.width].cell_type is None);
    }
    if x + 1 < m.width {
        lemma_index_in_range(m, x + 1, y);
        assert(m.cells[x + 1 + y * m.width].cell_type is None);
    }
    if y + 1 < m.height {
        lemma_index_in_range(m, x, y + 1);
        assert(m.cells[x + (y + 1) * m.width].cell_type is None);
    }
    if 0 < x {
        lemma_index_in_range(m, x - 1, y);
        assert(m.cells[x - 1 + y * m.width].cell_type is None);
    }
    assert(candidate_seq(m, x, y) =~= seq![
        CellType::Vertical,
        CellType::Horizontal,
        CellType::Empty,
    ]);
}

/// Monotonicity: one generation step never decreases the count of
/// determined cells, and raises it by at most one; it raises it by exactly
/// one when the step advances, and leaves it unchanged otherwise.
pub proof fn lemma_step_monotonic(m: GridModel)
    requires
        m.wf(),
    ensures
        determined_count(m.cells) <= determined_count(step_spec(m).0.cells),
        determined_count(step_spec(m).0.cells) <= determined_count(m.cells) + 1,
        step_spec(m).1 is Advanced ==> determined_count(step_spec(m).0.cells) == determined_count(
            m.cells,
        ) + 1,
        !(step_spec(m).1 is Advanced) ==> step_spec(m).0.cells == m.cells,
{
    let undet = undet_indices(m.cells);
    if undet.len() > 0 {
        lemma_undet_indices_elems(m.cells);
        if step_spec(m).1 is Advanced {
            let s1 = crate::engine::next_state(m.rng);
            let chosen = undet[(s1 as int) % (undet.len() as int)] as int;
            let s2 = crate::engine::next_state(s1);
            let x = chosen % (m.width as int);
            let y = chosen / (m.width as int);
            let committed = candidate_seq(m, x, y)[(s2 as int) % (candidate_seq(m, x, y).len() as int)];
            lemma_determined_count_update(m.cells, chosen, Cell { cell_type: Some(committed) });
        }
    }
}

/// A generation step preserves well-formedness and the grid dimensions,
/// whatever its outcome.
pub proof fn lemma_step_preserves_wf(m: GridModel)
    requires
        m.wf(),
    ensures
        step_spec(m).0.wf(),
        step_spec(m).0.width == m.width,
        step_spec(m).0.height == m.height,
        step_spec(m).0.cells.len() == m.cells.len(),
{
    let undet = undet_indices(m.cells);
    if undet.len() > 0 {
        lemma_undet_indices_elems(m.cells);
    }
}

/// Immutability of determined cells: once a cell is determined, a
/// generation step never changes it.
pub proof fn lemma_step_preserves_determined(m: GridModel, j: int)
    requires
        m.wf(),
        0 <= j < m.cells.len(),
        m.cells[j].cell_type is Some,
    ensures
        step_spec(m).0.cells[j] == m.cells[j],
{
    let undet = undet_indices(m.cells);
    if undet.len() > 0 {
        lemma_undet_indices_elems(m.cells);
    }
}

/// Immutability of determined cells along a whole run: once a cell is
/// determined, no number of further generation steps changes it.
pub proof fn lemma_run_preserves_determined(m: GridModel, j: int, n: nat)
    requires
        m.wf(),
        0 <= j < m.cells.len(),
        m.cells[j].cell_type is Some,
    ensures
        run_steps(m, n).cells[j] == m.cells[j],
    decreases n,
{
    if n > 0 {
        lemma_step_preserves_wf(m);
        lemma_step_preserves_determined(m, j);
        lemma_run_preserves_determined(step_spec(m).0, j, (n - 1) as nat);
    }
}

/// The step never reports `NoCandidates`: an `Empty` tile is consistent
/// with every neighbour, so the rule table can never empty a candidate
/// set.
pub proof fn lemma_step_never_fails(m: GridModel)
    requires
        m.wf(),
    ensures
        !(step_spec(m).1 is NoCandidates),
{
    let undet = undet_indices(m.cells);
    if undet.len() > 0 {
        let s1 = crate::engine::next_state(m.rng);
        let chosen = undet[(s1 as int) % (undet.len() as int)] as int;
        lemma_candidates_nonempty(m, chosen % (m.width as int), chosen / (m.width as int));
    }
}

/// A step taken on a grid with an undetermined cell advances: it preserves
/// well-formedness and lowers the count of undetermined cells by exactly
/// one.
pub proof fn lemma_step_decreases_undetermined(m: GridModel)
    requires
        m.wf(),
        0 < undet_indices(m.cells).len(),
    ensures
        step_spec(m).1 is Advanced,
        step_spec(m).0.wf(),
        step_spec(m).0.width == m.width,
        step_spec(m).0.height == m.height,
        undet_indices(step_spec(m).0.cells).len() == undet_indices(m.cells).len() - 1,
{
    lemma_step_never_fails(m);
    lemma_step_monotonic(m);
    assert(step_spec(m).1 is Advanced);
    lemma_undet_indices_elems(m.cells);
    let undet = undet_indices(m.cells);
    let s1 = crate::engine::next_state(m.rng);
    let chosen = undet[(s1 as int) % (undet.len() as int)] as int;
    let cx = chosen % (m.width as int);
    let cy = chosen / (m.width as int);
    let cands = candidate_seq(m, cx, cy);
    let s2 = crate::engine::next_state(s1);
    let committed = cands[(s2 as int) % (cands.len() as int)];
    assert(step_spec(m).0.cells == m.cells.update(
        chosen,
        Cell { cell_type: Some(committed) },
    ));
    assert(step_spec(m).0.cells.len() == m.cells.len());
    lemma_counts_split(m.cells);
    lemma_counts_split(step_spec(m).0.cells);
}

/// Termination: from any well-formed grid, `n` steps with `n` at least the
/// count of undetermined cells leave every cell determined, and a further
/// step reports `Complete` and changes nothing.
pub proof fn lemma_run_completes(m: GridModel, n: nat)
    requires
        m.wf(),
        undet_indices(m.cells).len() <= n,
    ensures
        run_steps(m, n).wf(),
        run_steps(m, n).width == m.width,
        run_steps(m, n).height == m.height,
        undet_indices(run_steps(m, n).cells).len() == 0,
        forall|j: int|
            0 <= j < run_steps(m, n).cells.len() ==> (#[trigger] run_steps(
                m,
                n,
            ).cells[j]).cell_type is Some,
        step_spec(run_steps(m, n)) == (run_steps(m, n), StepOutcome::Complete),
    decreases n,
{
    if n == 0 {
        lemma_all_determined(m.cells);
    } else {
        let m1 = step_spec(m).0;
        if undet_indices(m.cells).len() == 0 {
            lemma_run_completes(m, (n - 1) as nat);
            assert(run_steps(m, n) == run_steps(m1, (n - 1) as nat));
        } else {
            lemma_step_decreases_undetermined(m);
            lemma_run_completes(m1, (n - 1) as nat);
        }
    }
}

/// Termination within the grid size: at most `width * height` steps from
/// any well-formed grid determine every cell, and a further step reports
/// `Complete` and changes nothing.
pub proof fn lemma_run_completes_within_grid_size(m: GridModel)
    requires
        m.wf(),
    ensures
        undet_indices(run_steps(m, m.width * m.height).cells).len() == 0,
        forall|j: int|
            0 <= j < run_steps(m, m.width * m.height).cells.len() ==> (#[trigger] run_steps(
                m,
                m.width * m.height,
            ).cells[j]).cell_type is Some,
        step_spec(run_steps(m, m.width * m.height)) == (
            run_steps(m, m.width * m.height),
            StepOutcome::Complete,
        ),
{
    lemma_counts_split(m.cells);
    lemma_run_completes(m, m.width * m.height);
}

/// Adjacency-rule enforcement along a whole run: every grid reached by
/// repeated generation steps from a consistent grid, such as a fresh one,
/// is consistent.
pub proof fn lemma_run_preserves_consistency(m: GridModel, n: nat)
    requires
        m.wf(),
        consistent(m),
    ensures
        run_steps(m, n).wf(),
        consistent(run_steps(m, n)),
    decreases n,
{
    if n > 0 {
        lemma_step_preserves_wf(m);
        lemma_step_preserves_consistency(m);
        lemma_run_preserves_consistency(step_spec(m).0, (n - 1) as nat);
    }
}

/// Adjacency-rule enforcement: a generation step preserves grid
/// consistency, so the rule table holds of every adjacent determined pair
/// in every grid reachable from a fresh one.
pub proof fn lemma_step_preserves_consistency(m: GridModel)
    requires
        m.wf(),
        consistent(m),
    ensures
        consistent(step_spec(m).0),
{
    let undet = undet_indices(m.cells);
    if undet.len() == 0 {
        return ;
    }
    let s1 = crate::engine::next_state(m.rng);
    let chosen = undet[(s1 as int) % (undet.len() as int)] as int;
    let cx = chosen % (m.width as int);
    let cy = chosen / (m.width as int);
    let cands = candidate_seq(m, cx, cy);
    if cands.len() == 0 {
        return ;
    }
    let s2 = crate::engine::next_state(s1);
    let t_index = (s2 as int) % (cands.len() as int);
    let committed = cands[t_index];
    let m2 = step_spec(m).0;
    lemma_undet_indices_elems(m.cells);
    lemma_position_of_index(m, chosen);
    lemma_candidates_allowed(m, cx, cy);
    assert(allowed_at(m, cx, cy, committed));
    assert forall|x1: int, y1: int, x2: int, y2: int|
        m2.in_bounds(x1, y1) && m2.in_bounds(x2, y2) && ((y1 == y2 && x2 == x1 + 1) || (x1 == x2
            && y2 == y1 + 1)) implies compatible(m2.cell_at(x1, y1), m2.cell_at(x2, y2), y1 == y2) by {
        let i1 = x1 + y1 * m.width;
        let i2 = x2 + y2 * m.width;
        lemma_index_in_range(m, x1, y1);
        lemma_index_in_range(m, x2, y2);
        let same_row = (y1 == y2);
        if i1 == chosen {
            lemma_index_injective(m, x1, y1, cx, cy);
            if i2 == chosen {
                lemma_index_injective(m, x2, y2, cx, cy);
            } else {
                match m.cell_at(x2, y2).cell_type {
                    Some(nt) => {
                        lemma_allows_symmetric(committed, same_row, nt);
                    },
                    None => {},
                }
            }
        } else if i2 == chosen {
            lemma_index_injective(m, x2, y2, cx, cy);
        } else {
            assert(compatible(m.cell_at(x1, y1), m.cell_at(x2, y2), same_row));
        }
    }
}

} // verus!
