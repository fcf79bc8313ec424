//! The collapse engine: selecting an undetermined cell, narrowing its
//! candidate tile types against determined neighbours, and committing one.

use vstd::prelude::*;

use crate::cell::allows;
use crate::cell::Cell;
use crate::cell::CellType;
use crate::cell::StepOutcome;
use crate::grid::GridModel;
use crate::grid::WaveFunctionCollapse;

verus! {

/// The row-major indices of the undetermined cells of `cells`, in
/// increasing order.
pub open spec fn undet_indices(cells: Seq<Cell>) -> Seq<usize>
    decreases cells.len(),
{
    if cells.len() == 0 {
        Seq::<usize>::empty()
    } else if cells.last().cell_type is None {
        undet_indices(cells.drop_last()).push((cells.len() - 1) as usize)
    } else {
        undet_indices(cells.drop_last())
    }
}

/// How many cells of `cells` are determined.
pub open spec fn determined_count(cells: Seq<Cell>) -> nat
    decreases cells.len(),
{
    if cells.len() == 0 {
        0
    } else if cells.last().cell_type is Some {
        determined_count(cells.drop_last()) + 1
    } else {
        determined_count(cells.drop_last())
    }
}

/// Every undetermined index is in range and names an undetermined cell.
pub proof fn lemma_undet_indices_elems(cells: Seq<Cell>)
    requires
        cells.len() <= usize::MAX,
    ensures
        forall|k: int|
            0 <= k < undet_indices(cells).len() ==> #[trigger] undet_indices(cells)[k]
                < cells.len() && cells[undet_indices(cells)[k] as int].cell_type is None,
    decreases cells.len(),
{
    if cells.len() > 0 {
        let prefix = cells.drop_last();
        lemma_undet_indices_elems(prefix);
        let u = undet_indices(cells);
        assert forall|k: int|
            0 <= k < u.len() implies u[k] < cells.len() && cells[u[k] as int].cell_type
            is None by {
            if cells.last().cell_type is None && k == u.len() - 1 {
                assert(u[k] == cells.len() - 1);
            } else {
                assert(u[k] == undet_indices(prefix)[k]);
                assert(prefix[u[k] as int] == cells[u[k] as int]);
            }
        }
    }
}

/// Determined and undetermined cells together account for every cell.
pub proof fn lemma_counts_split(cells: Seq<Cell>)
    ensures
        determined_count(cells) + undet_indices(cells).len() == cells.len(),
    decreases cells.len(),
{
    if cells.len() > 0 {
        lemma_counts_split(cells.drop_last());
    }
}

/// Committing an undetermined cell raises the determined count by one.
pub proof fn lemma_determined_count_update(cells: Seq<Cell>, i: int, cell: Cell)
    requires
        0 <= i < cells.len(),
        cells[i].cell_type is None,
        cell.cell_type is Some,
    ensures
        determined_count(cells.update(i, cell)) == determined_count(cells) + 1,
    decreases cells.len(),
{
    let updated = cells.update(i, cell);
    if i == cells.len() - 1 {
        assert(updated.drop_last() =~= cells.drop_last());
    } else {
        assert(updated.drop_last() =~= cells.drop_last().update(i, cell));
        lemma_determined_count_update(cells.drop_last(), i, cell);
    }
}

/// A grid with no determined cell, such as a freshly constructed one, has
/// a determined count of zero.
pub proof fn lemma_none_determined(cells: Seq<Cell>)
    requires
        forall|j: int| 0 <= j < cells.len() ==> (#[trigger] cells[j]).cell_type is None,
    ensures
        determined_count(cells) == 0,
    decreases cells.len(),
{
    if cells.len() > 0 {
        let prefix = cells.drop_last();
        assert(forall|j: int| 0 <= j < prefix.len() ==> #[trigger] prefix[j] == cells[j]);
        lemma_none_determined(prefix);
    }
}

/// With no undetermined index left, every cell is determined.
pub proof fn lemma_all_determined(cells: Seq<Cell>)
    requires
        undet_indices(cells).len() == 0,
    ensures
        forall|j: int| 0 <= j < cells.len() ==> (#[trigger] cells[j]).cell_type is Some,
    decreases cells.len(),
{
    if cells.len() > 0 {
        lemma_all_determined(cells.drop_last());
        assert forall|j: int| 0 <= j < cells.len() implies (#[trigger] cells[j]).cell_type
            is Some by {
            if j < cells.len() - 1 {
                assert(cells[j] == cells.drop_last()[j]);
            } else {
                assert(cells[j] == cells.last());
            }
        }
    }
}

/// Whether the cell at `(nx, ny)`, when determined, permits `candidate` in
/// the adjacent cell; an undetermined cell constrains nothing.
pub open spec fn neighbour_allows(
    m: GridModel,
    nx: int,
    ny: int,
    same_row: bool,
    candidate: CellType,
) -> bool {
    match m.cell_at(nx, ny).cell_type {
        Some(neighbour) => allows(neighbour, same_row, candidate),
        None => true,
    }
}

/// Whether `candidate` is consistent with every determined in-bounds
/// neighbour of `(x, y)`.
pub open spec fn allowed_at(m: GridModel, x: int, y: int, candidate: CellType) -> bool {
    &&& (0 < y ==> neighbour_allows(m, x, y - 1, false, candidate))
    &&& (x + 1 < m.width ==> neighbour_allows(m, x + 1, y, true, candidate))
    &&& (y + 1 < m.height ==> neighbour_allows(m, x, y + 1, false, candidate))
    &&& (0 < x ==> neighbour_allows(m, x - 1, y, true, candidate))
}

/// The candidate tile types still open for the cell at `(x, y)`, in the
/// fixed order `Vertical`, `Horizontal`, `Empty`.
pub open spec fn candidate_seq(m: GridModel, x: int, y: int) -> Seq<CellType> {
    (if allowed_at(m, x, y, CellType::Vertical) {
        seq![CellType::Vertical]
    } else {
        Seq::<CellType>::empty()
    }) + (if allowed_at(m, x, y, CellType::Horizontal) {
        seq![CellType::Horizontal]
    } else {
        Seq::<CellType>::empty()
    }) + (if allowed_at(m, x, y, CellType::Empty) {
        seq![CellType::Empty]
    } else {
        Seq::<CellType>::empty()
    })
}

/// `Empty` is always a candidate, so the candidate set is never empty.
pub proof fn lemma_candidates_nonempty(m: GridModel, x: int, y: int)
    ensures
        1 <= candidate_seq(m, x, y).len(),
        allowed_at(m, x, y, CellType::Empty),
{
}

/// Every entry of the candidate sequence is consistent with the
/// determined neighbours of `(x, y)`.
pub proof fn lemma_candidates_allowed(m: GridModel, x: int, y: int)
    ensures
        forall|k: int|
            0 <= k < candidate_seq(m, x, y).len() ==> allowed_at(
                m,
                x,
                y,
                #[trigger] candidate_seq(m, x, y)[k],
            ),
{
    let cands = candidate_seq(m, x, y);
    assert forall|k: int| 0 <= k < cands.len() implies allowed_at(m, x, y, cands[k]) by {
        if allowed_at(m, x, y, CellType::Vertical) {
            if allowed_at(m, x, y, CellType::Horizontal) {
                assert(cands =~= seq![CellType::Vertical, CellType::Horizontal, CellType::Empty]);
            } else {
                assert(cands =~= seq![CellType::Vertical, CellType::Empty]);
            }
        } else {
            if allowed_at(m, x, y, CellType::Horizontal) {
                assert(cands =~= seq![CellType::Horizontal, CellType::Empty]);
            } else {
                assert(cands =~= seq![CellType::Empty]);
            }
        }
    }
}

/// One advance of the deterministic pseudo-random stream, a 64-bit
/// xorshift.
pub open spec fn next_state(state: u64) -> u64 {
    let a = state ^ (state << 13u64);
    let b = a ^ (a >> 7u64);
    b ^ (b << 17u64)
}

/// Advances the pseudo-random stream by one draw.
pub fn next_rng_state(state: u64) -> (next: u64)
    ensures
        next == next_state(state),
{
    let a = state ^ (state << 13u64);
    let b = a ^ (a >> 7u64);
    b ^ (b << 17u64)
}

/// One generation step as a function of the model alone: the grid after
/// the step and the outcome reported for it.
pub open spec fn step_spec(m: GridModel) -> (GridModel, StepOutcome) {
    let undet = undet_indices(m.cells);
    if undet.len() == 0 {
        (m, StepOutcome::Complete)
    } else {
        let s1 = next_state(m.rng);
        let chosen = undet[(s1 as int) % (undet.len() as int)] as int;
        let x = chosen % (m.width as int);
        let y = chosen / (m.width as int);
        let cands = candidate_seq(m, x, y);
        if cands.len() == 0 {
            (
                GridModel { cells: m.cells, width: m.width, height: m.height, rng: s1 },
                StepOutcome::NoCandidates,
            )
        } else {
            let s2 = next_state(s1);
            let committed = cands[(s2 as int) % (cands.len() as int)];
            (
                GridModel {
                    cells: m.cells.update(chosen, Cell { cell_type: Some(committed) }),
                    width: m.width,
                    height: m.height,
                    rng: s2,
                },
                StepOutcome::Advanced,
            )
        }
    }
}

/// The model after `n` generation steps from `m`.
pub open spec fn run_steps(m: GridModel, n: nat) -> GridModel
    decreases n,
{
    if n == 0 {
        m
    } else {
        run_steps(step_spec(m).0, (n - 1) as nat)
    }
}

impl WaveFunctionCollapse {
    /// Whether `candidate` is consistent with every determined in-bounds
    /// neighbour of the in-bounds cell `(nx, ny)`.
    fn neighbour_ok(&self, nx: usize, ny: usize, same_row: bool, candidate: CellType) -> (b: bool)
        requires
            self@.wf(),
            self@.in_bounds(nx as int, ny as int),
        ensures
            b == neighbour_allows(self@, nx as int, ny as int, same_row, candidate),
    {
        let index = self.position_to_index(nx, ny);
        let cell = self.cell_at_index(index);
        match cell.cell_type {
            None => true,
            Some(neighbour) => match neighbour {
                CellType::Vertical => candidate != CellType::Horizontal && (!same_row || candidate
                    != CellType::Vertical),
                CellType::Horizontal => candidate != CellType::Vertical && (same_row || candidate
                    != CellType::Horizontal),
                CellType::Empty => true,
            },
        }
    }

    /// Whether `candidate` survives the rule table against all four
    /// in-bounds neighbours of `(x, y)`.
    fn is_allowed(&self, x: usize, y: usize, candidate: CellType) -> (b: bool)
        requires
            self@.wf(),
            x < self@.width,
            y < self@.height,
        ensures
            b == allowed_at(self@, x as int, y as int, candidate),
    {
        proof {
            assert(self@.width <= self@.width * self@.height && self@.height <= self@.width
                * self@.height) by (nonlinear_arith)
                requires
                    1 <= self@.width,
                    1 <= self@.height,
            ;
        }
        let mut ok = true;
        if y > 0 {
            ok = ok && self.neighbour_ok(x, y - 1, false, candidate);
        }
        if x + 1 < self.width() {
            ok = ok && self.neighbour_ok(x + 1, y, true, candidate);
        }
        if y + 1 < self.height() {
            ok = ok && self.neighbour_ok(x, y + 1, false, candidate);
        }
        if x > 0 {
            ok = ok && self.neighbour_ok(x - 1, y, true, candidate);
        }
        ok
    }

    /// Performs one generation step: selects an undetermined cell using the
    /// next pseudo-random draw, narrows its candidate tile types against its
    /// determined neighbours, and commits one of the remaining candidates
    /// chosen by a further draw.
    ///
    /// The new state and the outcome are exactly `step_spec` of the prior
    /// state, so a run is a function of the constructor arguments alone:
    /// returns `Complete` (leaving the grid unchanged) once every cell is
    /// determined, `NoCandidates` (leaving every cell unchanged) if the
    /// rules were to exhaust the candidate set, and `Advanced` otherwise,
    /// determining exactly one previously undetermined cell.
    pub fn generate_next(&mut self) -> (outcome: StepOutcome)
        requires
            old(self)@.wf(),
        ensures
            final(self)@ == step_spec(old(self)@).0,
            outcome == step_spec(old(self)@).1,
            final(self)@.wf(),
    {
        let ghost m0 = self@;
        let total = self.cell_count();
        let mut undet: Vec<usize> = Vec::new();
        let mut i: usize = 0;
        while i < total
            invariant
                self@ == m0,
                m0.wf(),
                total == m0.cells.len(),
                i <= total,
                undet@ == undet_indices(m0.cells.take(i as int)),
            decreases total - i,
        {
            let cell = self.cell_at_index(i);
            if cell.cell_type.is_none() {
                undet.push(i);
            }
            proof {
                assert(m0.cells.take(i + 1).drop_last() =~= m0.cells.take(i as int));
                assert(m0.cells.take(i + 1).last() == m0.cells[i as int]);
            }
            i = i + 1;
        }
        proof {
            assert(m0.cells.take(total as int) =~= m0.cells);
        }
        if undet.len() == 0 {
            return StepOutcome::Complete;
        }
        let s1 = next_rng_state(self.rng_state());
        let undet_len = undet.len();
        let k = (s1 % (undet_len as u64)) as usize;
        let index = undet[k];
        proof {
            lemma_undet_indices_elems(m0.cells);
        }
        let (x, y) = self.index_to_position(index);
        let allow_v = self.is_allowed(x, y, CellType::Vertical);
        let allow_h = self.is_allowed(x, y, CellType::Horizontal);
        let allow_e = self.is_allowed(x, y, CellType::Empty);
        let mut cands: Vec<CellType> = Vec::new();
        if allow_v {
            cands.push(CellType::Vertical);
        }
        if allow_h {
            cands.push(CellType::Horizontal);
        }
        if allow_e {
            cands.push(CellType::Empty);
        }
        proof {
            assert(cands@ =~= candidate_seq(m0, x as int, y as int));
        }
        if cands.len() == 0 {
            self.set_rng_state(s1);
            proof {
                assert(self@ =~= step_spec(m0).0);
            }
            return StepOutcome::NoCandidates;
        }
        let s2 = next_rng_state(s1);
        let cands_len = cands.len();
        let t_idx = (s2 % (cands_len as u64)) as usize;
        let committed = cands[t_idx];
        self.set_cell_at_index(index, Cell { cell_type: Some(committed) });
        self.set_rng_state(s2);
        proof {
            assert(self@ =~= step_spec(m0).0);
        }
        StepOutcome::Advanced
    }
}

} // verus!
