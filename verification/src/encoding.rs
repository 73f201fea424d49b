//! From a grid and its regions to the constraint model: which constraints the
//! rules of the puzzle turn into, and the code that lists them.

use crate::grid::{indices, lemma_cell_index, Grid};
use crate::model::{rules_of, Constraint, ConstraintModel, ModelView, Rule};
use crate::regions::Regions;
use vstd::prelude::*;

verus! {

/// The index of the cell in row `row` and column `col` of a grid with side
/// length `size`, and so the index of its boolean.
pub open spec fn cell(size: nat, row: int, col: int) -> int {
    size * row + col
}

/// The constraint that keeps stars off both of two cells.
pub open spec fn apart(first: int, second: int) -> Seq<Rule> {
    seq![Rule::NotBoth { first, second }]
}

/// The exclusions that a cell brings: one for each neighbour that comes
/// before it in row-major order, in the order above, left, above-left,
/// above-right.
pub open spec fn exclusions_at(size: nat, row: int, col: int) -> Seq<Rule> {
    let here = cell(size, row, col);
    let above = if row > 0 {
        apart(here, cell(size, row - 1, col))
    } else {
        Seq::empty()
    };
    let left = if col > 0 {
        apart(here, cell(size, row, col - 1))
    } else {
        Seq::empty()
    };
    let above_left = if row > 0 && col > 0 {
        apart(here, cell(size, row - 1, col - 1))
    } else {
        Seq::empty()
    };
    let above_right = if row > 0 && col < size - 1 {
        apart(here, cell(size, row - 1, col + 1))
    } else {
        Seq::empty()
    };
    above + left + above_left + above_right
}

/// The exclusions of the first `cols` cells of a row.
pub open spec fn exclusions_in_row(size: nat, row: int, cols: int) -> Seq<Rule>
    decreases cols,
{
    if cols <= 0 {
        Seq::empty()
    } else {
        exclusions_in_row(size, row, cols - 1) + exclusions_at(size, row, cols - 1)
    }
}

/// The exclusions of the first `rows` rows.
pub open spec fn exclusions(size: nat, rows: int) -> Seq<Rule>
    decreases rows,
{
    if rows <= 0 {
        Seq::empty()
    } else {
        exclusions(size, rows - 1) + exclusions_in_row(size, rows - 1, size as int)
    }
}

/// The cells of a row, from left to right.
pub open spec fn row_cells(size: nat, row: int) -> Seq<int> {
    Seq::new(size, |col: int| cell(size, row, col))
}

/// The cells of a column, from top to bottom.
pub open spec fn column_cells(size: nat, col: int) -> Seq<int> {
    Seq::new(size, |row: int| cell(size, row, col))
}

/// One quota for each row, from top to bottom.
pub open spec fn row_quotas(size: nat, quota: nat) -> Seq<Rule> {
    Seq::new(size, |row: int| Rule::Exactly { cells: row_cells(size, row), count: quota as int })
}

/// One quota for each column, from left to right.
pub open spec fn column_quotas(size: nat, quota: nat) -> Seq<Rule> {
    Seq::new(
        size,
        |col: int| Rule::Exactly { cells: column_cells(size, col), count: quota as int },
    )
}

/// One quota for each region, in the order of the regions.
pub open spec fn region_quotas(groups: Seq<Seq<int>>, quota: nat) -> Seq<Rule> {
    Seq::new(groups.len(), |g: int| Rule::Exactly { cells: groups[g], count: quota as int })
}

/// The model of a puzzle: a boolean for every cell, then the exclusions, the
/// row quotas, the column quotas and the region quotas.
pub open spec fn model_of(size: nat, groups: Seq<Seq<int>>, quota: nat) -> ModelView {
    ModelView {
        vars: size * size,
        rules: exclusions(size, size as int) + row_quotas(size, quota) + column_quotas(
            size,
            quota,
        ) + region_quotas(groups, quota),
    }
}

/// Whether every constraint of the list speaks of booleans `0 .. vars` only.
spec fn all_within(rules: Seq<Rule>, vars: nat) -> bool {
    forall|k: int| 0 <= k < rules.len() ==> (#[trigger] rules[k]).within(vars)
}

/// Lists the exclusions of every cell, row by row.
fn exclusion_constraints(size: usize) -> (list: Vec<Constraint>)
    requires
        size * size <= usize::MAX,
    ensures
        rules_of(list@) == exclusions(size as nat, size as int),
        all_within(rules_of(list@), (size * size) as nat),
{
    let mut list: Vec<Constraint> = Vec::new();
    let ghost n = size as nat;
    assert(rules_of(list@) =~= exclusions(n, 0));
    let mut i: usize = 0;
    while i < size
        invariant
            n == size,
            size * size <= usize::MAX,
            0 <= i <= size,
            rules_of(list@) == exclusions(n, i as int),
            all_within(rules_of(list@), (size * size) as nat),
        decreases size - i,
    {
        let mut j: usize = 0;
        assert(rules_of(list@) =~= exclusions(n, i as int) + exclusions_in_row(n, i as int, 0));
        while j < size
            invariant
                n == size,
                size * size <= usize::MAX,
                0 <= i < size,
                0 <= j <= size,
                rules_of(list@) == exclusions(n, i as int) + exclusions_in_row(
                    n,
                    i as int,
                    j as int,
                ),
                all_within(rules_of(list@), (size * size) as nat),
            decreases size - j,
        {
            proof {
                lemma_cell_index(size as int, i as int, j as int);
                if i > 0 {
                    lemma_cell_index(size as int, i - 1, j as int);
                    if j > 0 {
                        lemma_cell_index(size as int, i - 1, j - 1);
                    }
                    if j < size - 1 {
                        lemma_cell_index(size as int, i - 1, j + 1);
                    }
                }
                if j > 0 {
                    lemma_cell_index(size as int, i as int, j - 1);
                }
            }
            let ghost before = rules_of(list@);
            let var: usize = size * i + j;
            if i > 0 {
                list.push(Constraint::NotBoth { first: var, second: size * (i - 1) + j });
            }
            if j > 0 {
                list.push(Constraint::NotBoth { first: var, second: size * i + j - 1 });
            }
            if i > 0 && j > 0 {
                list.push(Constraint::NotBoth { first: var, second: size * (i - 1) + j - 1 });
            }
            if i > 0 && j < size - 1 {
                list.push(Constraint::NotBoth { first: var, second: size * (i - 1) + j + 1 });
            }
            proof {
                let added = exclusions_at(n, i as int, j as int);
                assert(rules_of(list@) =~= before + added);
                assert(all_within(added, (size * size) as nat));
                assert(before + added =~= exclusions(n, i as int) + exclusions_in_row(
                    n,
                    i as int,
                    j + 1,
                ));
            }
            j = j + 1;
        }
        i = i + 1;
    }
    list
}

/// Lists the row quotas, then the column quotas.
fn line_constraints(size: usize, quota: usize) -> (list: Vec<Constraint>)
    requires
        size * size <= usize::MAX,
    ensures
        rules_of(list@) == row_quotas(size as nat, quota as nat) + column_quotas(
            size as nat,
            quota as nat,
        ),
        all_within(rules_of(list@), (size * size) as nat),
{
    let mut list: Vec<Constraint> = Vec::new();
    let ghost n = size as nat;
    let ghost k = quota as nat;
    let mut i: usize = 0;
    assert(rules_of(list@) =~= row_quotas(n, k).take(0));
    while i < size
        invariant
            n == size,
            k == quota,
            size * size <= usize::MAX,
            0 <= i <= size,
            rules_of(list@) == row_quotas(n, k).take(i as int),
            all_within(rules_of(list@), (size * size) as nat),
        decreases size - i,
    {
        let mut cells: Vec<usize> = Vec::new();
        let mut j: usize = 0;
        while j < size
            invariant
                n == size,
                size * size <= usize::MAX,
                0 <= i < size,
                0 <= j <= size,
                indices(cells@) == row_cells(n, i as int).take(j as int),
            decreases size - j,
        {
            proof {
                lemma_cell_index(size as int, i as int, j as int);
            }
            let ghost before = indices(cells@);
            cells.push(size * i + j);
            assert(indices(cells@) =~= before.push(cell(n, i as int, j as int)));
            assert(indices(cells@) =~= row_cells(n, i as int).take(j + 1));
            j = j + 1;
        }
        let ghost before = rules_of(list@);
        assert(indices(cells@) =~= row_cells(n, i as int));
        let added = Constraint::Exactly { cells, count: quota };
        proof {
            assert forall|t: int| 0 <= t < row_cells(n, i as int).len() implies 0
                <= #[trigger] row_cells(n, i as int)[t] < size * size by {
                lemma_cell_index(size as int, i as int, t);
            }
            assert(added@.within((size * size) as nat));
        }
        list.push(added);
        assert(rules_of(list@) =~= before.push(added@));
        assert(before.push(added@) =~= row_quotas(n, k).take(i + 1));
        i = i + 1;
    }
    assert(row_quotas(n, k).take(size as int) =~= row_quotas(n, k));
    let mut j: usize = 0;
    assert(rules_of(list@) =~= row_quotas(n, k) + column_quotas(n, k).take(0));
    while j < size
        invariant
            n == size,
            k == quota,
            size * size <= usize::MAX,
            0 <= j <= size,
            rules_of(list@) == row_quotas(n, k) + column_quotas(n, k).take(j as int),
            all_within(rules_of(list@), (size * size) as nat),
        decreases size - j,
    {
        let mut cells: Vec<usize> = Vec::new();
        let mut i: usize = 0;
        while i < size
            invariant
                n == size,
                size * size <= usize::MAX,
                0 <= j < size,
                0 <= i <= size,
                indices(cells@) == column_cells(n, j as int).take(i as int),
            decreases size - i,
        {
            proof {
                lemma_cell_index(size as int, i as int, j as int);
            }
            let ghost before = indices(cells@);
            cells.push(size * i + j);
            assert(indices(cells@) =~= before.push(cell(n, i as int, j as int)));
            assert(indices(cells@) =~= column_cells(n, j as int).take(i + 1));
            i = i + 1;
        }
        let ghost before = rules_of(list@);
        assert(indices(cells@) =~= column_cells(n, j as int));
        let added = Constraint::Exactly { cells, count: quota };
        proof {
            assert forall|t: int| 0 <= t < column_cells(n, j as int).len() implies 0
                <= #[trigger] column_cells(n, j as int)[t] < size * size by {
                lemma_cell_index(size as int, t, j as int);
            }
            assert(added@.within((size * size) as nat));
        }
        list.push(added);
        assert(rules_of(list@) =~= before.push(added@));
        assert(before.push(added@) =~= row_quotas(n, k) + column_quotas(n, k).take(j + 1));
        j = j + 1;
    }
    assert(column_quotas(n, k).take(size as int) =~= column_quotas(n, k));
    list
}

/// Lists the region quotas.
fn region_constraints(grid: &Grid, regions: &Regions, quota: usize) -> (list: Vec<Constraint>)
    requires
        regions@.covers(grid@),
    ensures
        rules_of(list@) == region_quotas(regions@.groups, quota as nat),
        all_within(rules_of(list@), grid@.size * grid@.size),
{
    let mut list: Vec<Constraint> = Vec::new();
    let ghost groups = regions@.groups;
    let ghost k = quota as nat;
    let ghost vars = grid@.size * grid@.size;
    let count: usize = regions.count();
    let mut g: usize = 0;
    assert(rules_of(list@) =~= region_quotas(groups, k).take(0));
    while g < count
        invariant
            groups == regions@.groups,
            k == quota,
            vars == grid@.size * grid@.size,
            regions@.covers(grid@),
            count == groups.len(),
            0 <= g <= count,
            rules_of(list@) == region_quotas(groups, k).take(g as int),
            all_within(rules_of(list@), vars),
        decreases count - g,
    {
        let cells: Vec<usize> = regions.cells(g).clone();
        let ghost before = rules_of(list@);
        assert(indices(cells@) =~= groups[g as int]);
        let added = Constraint::Exactly { cells, count: quota };
        proof {
            assert forall|t: int| 0 <= t < groups[g as int].len() implies 0
                <= #[trigger] groups[g as int][t] < vars by {
                assert(grid@.has_cell(groups[g as int][t]));
            }
            assert(added@.within(vars));
        }
        list.push(added);
        assert(rules_of(list@) =~= before.push(added@));
        assert(before.push(added@) =~= region_quotas(groups, k).take(g + 1));
        g = g + 1;
    }
    assert(region_quotas(groups, k).take(count as int) =~= region_quotas(groups, k));
    list
}

/// Builds the model of a puzzle: one boolean per cell of `grid`, and on them
/// the exclusions, the row quotas, the column quotas and the region quotas.
pub fn build_model(grid: &Grid, regions: &Regions, quota: usize) -> (model: ConstraintModel)
    requires
        regions@.covers(grid@),
    ensures
        model@ == model_of(grid@.size, regions@.groups, quota as nat),
        model@.wf(),
{
    let size: usize = grid.size();
    let vars: usize = grid.cell_count();
    let mut list = exclusion_constraints(size);
    let mut lines = line_constraints(size, quota);
    let mut quotas = region_constraints(grid, regions, quota);
    let ghost first = rules_of(list@);
    let ghost second = rules_of(lines@);
    let ghost third = rules_of(quotas@);
    list.append(&mut lines);
    list.append(&mut quotas);
    proof {
        assert(rules_of(list@) =~= first + second + third);
        assert(first + second + third =~= model_of(
            grid@.size,
            regions@.groups,
            quota as nat,
        ).rules);
    }
    ConstraintModel::new(vars, list)
}

} // verus!
